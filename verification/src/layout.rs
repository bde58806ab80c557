//! The mutable layout state of a formatting run: the accumulated output and
//! the cursor over it — column, row, and indentation level.
use crate::chars::spaces;
use vstd::prelude::*;

verus! {

broadcast use vstd::seq::group_seq_axioms, vstd::std_specs::vec::group_vec_axioms;

/// The single mutable state of a formatting run.  `out` is the accumulated
/// output; `col` counts characters written since the last line break; `row`
/// counts lines emitted; `level` is the indentation depth in units of
/// `num_spaces` spaces; `extra` is additional raw spaces on top of `level`.
pub struct State {
    pub out: Vec<char>,
    pub col: usize,
    pub row: usize,
    pub level: usize,
    pub extra: usize,
    pub num_spaces: usize,
}

/// The characters one `indent` call emits at level `level`.
pub open spec fn indent_text(level: nat, extra: nat, num_spaces: nat) -> Seq<char> {
    spaces(level * num_spaces + extra)
}

impl State {
    /// The cursor counters never run ahead of the output already written.
    pub open spec fn wf(self) -> bool {
        self.col <= self.out@.len() && self.row <= self.out@.len()
    }

    /// A fresh state: empty output, cursor at the origin, indentation level
    /// zero, two spaces per indentation unit.
    pub fn new() -> (s: State)
        ensures
            s.wf(),
            s.out@ == Seq::<char>::empty(),
            s.col == 0,
            s.row == 0,
            s.level == 0,
            s.extra == 0,
            s.num_spaces == 2,
    {
        State { out: Vec::new(), col: 0, row: 0, level: 0, extra: 0, num_spaces: 2 }
    }

    /// Emit `n` spaces without a line break.
    pub fn print_spaces(&mut self, n: usize)
        requires
            old(self).wf(),
        ensures
            final(self).wf(),
            final(self).out@ == old(self).out@ + spaces(n as nat),
            final(self).col == old(self).col + n,
            final(self).row == old(self).row,
            final(self).level == old(self).level,
            final(self).extra == old(self).extra,
            final(self).num_spaces == old(self).num_spaces,
    {
        let mut i: usize = 0;
        while i < n
            invariant
                i <= n,
                self.out@ == old(self).out@ + spaces(i as nat),
                self.col == old(self).col,
                self.row == old(self).row,
                self.level == old(self).level,
                self.extra == old(self).extra,
                self.num_spaces == old(self).num_spaces,
                old(self).wf(),
            decreases n - i,
        {
            self.out.push(' ');
            proof {
                assert(self.out@ =~= old(self).out@ + spaces((i + 1) as nat));
            }
            i = i + 1;
        }
        let m = self.out.len();
        self.col = self.col + n;
    }

    /// Emit `string` without a line break; the column advances by its length.
    pub fn print(&mut self, string: &str)
        requires
            old(self).wf(),
        ensures
            final(self).wf(),
            final(self).out@ == old(self).out@ + string@,
            final(self).col == old(self).col + string@.len(),
            final(self).row == old(self).row,
            final(self).level == old(self).level,
            final(self).extra == old(self).extra,
            final(self).num_spaces == old(self).num_spaces,
    {
        let n = string.unicode_len();
        let mut i: usize = 0;
        while i < n
            invariant
                i <= n,
                n == string@.len(),
                self.out@ == old(self).out@ + string@.subrange(0, i as int),
                self.col == old(self).col,
                self.row == old(self).row,
                self.level == old(self).level,
                self.extra == old(self).extra,
                self.num_spaces == old(self).num_spaces,
                old(self).wf(),
            decreases n - i,
        {
            self.out.push(string.get_char(i));
            proof {
                assert(self.out@ =~= old(self).out@ + string@.subrange(0, i + 1));
            }
            i = i + 1;
        }
        proof {
            assert(old(self).out@ + string@.subrange(0, n as int) =~= old(self).out@ + string@);
        }
        let m = self.out.len();
        self.col = self.col + n;
    }

    /// Emit `string` followed by a line break; the column returns to zero and
    /// the row advances.
    pub fn println(&mut self, string: &str)
        requires
            old(self).wf(),
        ensures
            final(self).wf(),
            final(self).out@ == old(self).out@ + string@ + "\n"@,
            final(self).col == 0,
            final(self).row == old(self).row + 1,
            final(self).level == old(self).level,
            final(self).extra == old(self).extra,
            final(self).num_spaces == old(self).num_spaces,
    {
        self.print(string);
        self.out.push('\n');
        proof {
            reveal_strlit("\n");
            assert(self.out@ =~= old(self).out@ + string@ + "\n"@);
        }
        let m = self.out.len();
        self.col = 0;
        self.row = self.row + 1;
    }

    /// Emit the indentation for the current level: `level` units of
    /// `num_spaces` spaces, then `extra` single spaces.
    pub fn indent(&mut self)
        requires
            old(self).wf(),
        ensures
            final(self).wf(),
            final(self).out@ == old(self).out@ + indent_text(
                old(self).level as nat,
                old(self).extra as nat,
                old(self).num_spaces as nat,
            ),
            final(self).col == old(self).col + old(self).level * old(self).num_spaces + old(
                self,
            ).extra,
            final(self).row == old(self).row,
            final(self).level == old(self).level,
            final(self).extra == old(self).extra,
            final(self).num_spaces == old(self).num_spaces,
    {
        let mut i: usize = 0;
        while i < self.level
            invariant
                i <= self.level,
                self.out@ == old(self).out@ + spaces((i * old(self).num_spaces) as nat),
                self.col == old(self).col + i * old(self).num_spaces,
                self.row == old(self).row,
                self.level == old(self).level,
                self.extra == old(self).extra,
                self.num_spaces == old(self).num_spaces,
                old(self).wf(),
                self.wf(),
            decreases self.level - i,
        {
            self.print_spaces(self.num_spaces);
            proof {
                let u = old(self).num_spaces as int;
                let ii = i as int;
                assert((ii + 1) * u == ii * u + u) by (nonlinear_arith);
                assert(spaces((i * old(self).num_spaces) as nat) + spaces(
                    old(self).num_spaces as nat,
                ) =~= spaces(((i + 1) * old(self).num_spaces) as nat));
                assert(self.out@ =~= old(self).out@ + spaces(
                    ((i + 1) * old(self).num_spaces) as nat,
                ));
            }
            i = i + 1;
        }
        self.print_spaces(self.extra);
        proof {
            assert(spaces((old(self).level * old(self).num_spaces) as nat) + spaces(
                old(self).extra as nat,
            ) =~= indent_text(
                old(self).level as nat,
                old(self).extra as nat,
                old(self).num_spaces as nat,
            ));
            assert(self.out@ =~= old(self).out@ + indent_text(
                old(self).level as nat,
                old(self).extra as nat,
                old(self).num_spaces as nat,
            ));
        }
    }
}

} // verus!
