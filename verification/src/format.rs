//! The executable formatters: one per grammar construct, each proved to
//! emit exactly the text its render specification states.
use crate::chars::{sat_sub, trim_str};
use crate::errors::FmtError;
use crate::layout::State;
use crate::node::{find_sel, first_sel, kind_of, Node, NodeKind, Selector};
use crate::render::{
    acct_render, acct_subs, amount_pad, amount_render, argsub_render, automated_render, bal_render,
    bump, comm_render, comm_subs, ctx_of, directive_render, doc_fold, fmtsub_render, header_kind,
    item_render,
    header_field, periodic_render, plain_header, plain_render, posting_render, price_render,
    sub_keyword,
    tail_render,
    tag_render, tag_subs, word_render, word_tokens, xact_body, xact_render, XactShape,
};
use vstd::prelude::*;

verus! {

broadcast use vstd::seq::group_seq_axioms, vstd::std_specs::vec::group_vec_axioms;

/// What every formatter leaves untouched: the indentation parameters, and
/// the state's well-formedness.
pub open spec fn keeps(pre: State, post: State) -> bool {
    post.wf() && post.level == pre.level && post.extra == pre.extra && post.num_spaces
        == pre.num_spaces
}

/// The error reported when a required child of `n` is absent.
pub open spec fn err_of(n: Node) -> FmtError {
    FmtError::MissingChild { row: n.row, col: n.col }
}

/// Emit an amount: trimmed negative quantity, trimmed quantity, then a
/// space and the trimmed commodity, each only if present.
pub fn format_amount(state: &mut State, n: &Node)
    requires
        old(state).wf(),
    ensures
        keeps(*old(state), *final(state)),
        final(state).out@ == old(state).out@ + amount_render(*n),
        final(state).col == old(state).col + amount_render(*n).len(),
        final(state).row == old(state).row,
{
    proof {
        reveal(crate::render::amount_render);
    }
    if let Some(nq) = find_sel(&n.children, Selector::NamedOfKind(NodeKind::NegativeQuantity)) {
        state.print(trim_str(nq.text.as_str()));
    }
    if let Some(q) = find_sel(&n.children, Selector::NamedOfKind(NodeKind::Quantity)) {
        state.print(trim_str(q.text.as_str()));
    }
    if let Some(c) = find_sel(&n.children, Selector::NamedOfKind(NodeKind::Commodity)) {
        state.print(" ");
        state.print(trim_str(c.text.as_str()));
    }
    proof {
        assert(final(state).out@ =~= old(state).out@ + amount_render(*n));
    }
}

/// Emit a price: its first child's token verbatim, a space, the nested
/// amount.
pub fn format_price(state: &mut State, n: &Node) -> (r: Result<(), FmtError>)
    requires
        old(state).wf(),
    ensures
        keeps(*old(state), *final(state)),
        match price_render(*n) {
            Ok(t) => r is Ok && final(state).out@ == old(state).out@ + t && final(state).col == old(
                state,
            ).col + t.len() && final(state).row == old(state).row,
            Err(m) => r == Err::<(), FmtError>(err_of(m)),
        },
{
    proof {
        reveal(crate::render::price_render);
        reveal(crate::render::amount_render);
    }
    if n.children.len() == 0 {
        return Err(FmtError::MissingChild { row: n.row, col: n.col });
    }
    state.print(n.children[0].text.as_str());
    state.print(" ");
    match find_sel(&n.children, Selector::NamedOfKind(NodeKind::Amount)) {
        None => Err(FmtError::MissingChild { row: n.row, col: n.col }),
        Some(am) => {
            format_amount(state, am);
            proof {
                let t = price_render(*n)->Ok_0;
                assert(final(state).out@ =~= old(state).out@ + t);
            }
            Ok(())
        },
    }
}

/// Emit a balance assertion: `"= "` then the nested amount.
pub fn format_balance_assertion(state: &mut State, n: &Node) -> (r: Result<(), FmtError>)
    requires
        old(state).wf(),
    ensures
        keeps(*old(state), *final(state)),
        match bal_render(*n) {
            Ok(t) => r is Ok && final(state).out@ == old(state).out@ + t && final(state).col == old(
                state,
            ).col + t.len() && final(state).row == old(state).row,
            Err(m) => r == Err::<(), FmtError>(err_of(m)),
        },
{
    proof {
        reveal(crate::render::bal_render);
        reveal(crate::render::amount_render);
    }
    state.print("= ");
    match find_sel(&n.children, Selector::NamedOfKind(NodeKind::Amount)) {
        None => Err(FmtError::MissingChild { row: n.row, col: n.col }),
        Some(am) => {
            format_amount(state, am);
            proof {
                let t = bal_render(*n)->Ok_0;
                assert(final(state).out@ =~= old(state).out@ + t);
            }
            Ok(())
        },
    }
}

/// Emit an argument subdirective: the keyword, a space, and the `value`
/// child's text verbatim.
pub fn format_argument_subdirective(state: &mut State, n: &Node, argument: &str) -> (r: Result<
    (),
    FmtError,
>)
    requires
        old(state).wf(),
    ensures
        keeps(*old(state), *final(state)),
        match argsub_render(*n, argument@) {
            Ok(t) => r is Ok && final(state).out@ == old(state).out@ + t && final(state).col == old(
                state,
            ).col + t.len() && final(state).row == old(state).row,
            Err(m) => r == Err::<(), FmtError>(err_of(m)),
        },
{
    proof {
        reveal(crate::render::argsub_render);
    }
    state.print(argument);
    state.print(" ");
    match find_sel(&n.children, Selector::AnyOfKind(NodeKind::Value)) {
        None => Err(FmtError::MissingChild { row: n.row, col: n.col }),
        Some(v) => {
            state.print(v.text.as_str());
            proof {
                let t = argsub_render(*n, argument@)->Ok_0;
                assert(final(state).out@ =~= old(state).out@ + t);
            }
            Ok(())
        },
    }
}

/// Emit a `format` subdirective: `"format "` then the nested amount.
pub fn format_format_subdirective(state: &mut State, n: &Node) -> (r: Result<(), FmtError>)
    requires
        old(state).wf(),
    ensures
        keeps(*old(state), *final(state)),
        match fmtsub_render(*n) {
            Ok(t) => r is Ok && final(state).out@ == old(state).out@ + t && final(state).col == old(
                state,
            ).col + t.len() && final(state).row == old(state).row,
            Err(m) => r == Err::<(), FmtError>(err_of(m)),
        },
{
    proof {
        reveal(crate::render::fmtsub_render);
        reveal(crate::render::amount_render);
    }
    state.print("format ");
    match find_sel(&n.children, Selector::AnyOfKind(NodeKind::Amount)) {
        None => Err(FmtError::MissingChild { row: n.row, col: n.col }),
        Some(am) => {
            format_amount(state, am);
            proof {
                let t = fmtsub_render(*n)->Ok_0;
                assert(final(state).out@ =~= old(state).out@ + t);
            }
            Ok(())
        },
    }
}

/// Emit the tail of a posting line: price, balance assertion and trimmed
/// note behind the pending spacing `sp`, then the line break.
fn format_posting_tail(state: &mut State, ch: &Vec<Node>, sp: usize) -> (r: Result<(), FmtError>)
    requires
        old(state).wf(),
    ensures
        keeps(*old(state), *final(state)),
        match tail_render(ch@, sp as nat) {
            Ok(t) => r is Ok && final(state).out@ == old(state).out@ + t && final(state).col == 0
                && final(state).row == old(state).row + 1,
            Err(m) => r == Err::<(), FmtError>(err_of(m)),
        },
{
    proof {
        reveal(crate::render::tail_render);
        reveal(crate::render::price_part);
        reveal(crate::render::bal_part);
        reveal(crate::render::note_part);
    }
    let mut sp = sp;
    let ghost sp0 = sp as nat;
    if let Some(p) = find_sel(ch, Selector::NamedOfKind(NodeKind::Price)) {
        state.print_spaces(sp);
        match format_price(state, p) {
            Err(e) => {
                return Err(e);
            },
            Ok(()) => {},
        }
        sp = 1;
    }
    proof {
        let pp = crate::render::price_part(ch@, sp0);
        assert(pp is Ok);
        assert(state.out@ =~= old(state).out@ + pp->Ok_0.0);
        assert(sp as nat == pp->Ok_0.1);
    }
    let ghost t2 = crate::render::price_part(ch@, sp0)->Ok_0.0;
    let ghost sp1 = sp as nat;
    if let Some(b) = find_sel(ch, Selector::NamedOfKind(NodeKind::BalanceAssertion)) {
        state.print_spaces(sp);
        match format_balance_assertion(state, b) {
            Err(e) => {
                return Err(e);
            },
            Ok(()) => {},
        }
        sp = 1;
    }
    proof {
        let bp = crate::render::bal_part(ch@, sp1);
        assert(bp is Ok);
        assert(state.out@ =~= old(state).out@ + t2 + bp->Ok_0.0);
        assert(sp as nat == bp->Ok_0.1);
    }
    let ghost t3 = crate::render::bal_part(ch@, sp1)->Ok_0.0;
    let ghost sp2 = sp as nat;
    if let Some(nt) = find_sel(ch, Selector::NamedOfKind(NodeKind::NoteItem)) {
        state.print_spaces(sp);
        state.print(trim_str(nt.text.as_str()));
    }
    proof {
        assert(state.out@ =~= old(state).out@ + t2 + t3 + crate::render::note_part(ch@, sp2));
    }
    state.println("");
    proof {
        reveal_strlit("");
        let t = tail_render(ch@, sp as nat);
        assert(final(state).out@ =~= old(state).out@ + (t2 + t3 + crate::render::note_part(
            ch@,
            sp2,
        ) + "\n"@));
    }
    Ok(())
}

/// Emit a posting line: status and account verbatim, the amount padded
/// toward the 60-column target, then price, balance assertion and trimmed
/// note behind single-space or fallback spacing, and a line break.
#[verifier::rlimit(100)]
pub fn format_posting(state: &mut State, n: &Node) -> (r: Result<(), FmtError>)
    requires
        old(state).wf(),
    ensures
        keeps(*old(state), *final(state)),
        match posting_render(*n, old(state).col as nat) {
            Ok(t) => r is Ok && final(state).out@ == old(state).out@ + t && final(state).col == 0
                && final(state).row == old(state).row + 1,
            Err(m) => r == Err::<(), FmtError>(err_of(m)),
        },
{
    proof {
        reveal(crate::render::posting_render);
        reveal(crate::render::tail_render);
    }
    let ghost ch = n.children@;
    if let Some(st) = find_sel(&n.children, Selector::NamedOfKind(NodeKind::Status)) {
        state.print(st.text.as_str());
    }
    if let Some(acc) = find_sel(&n.children, Selector::NamedOfKind(NodeKind::Account)) {
        state.print(acc.text.as_str());
    }
    let ghost front = state.out@.skip(old(state).out@.len() as int);
    let ghost col1 = state.col as nat;
    proof {
        assert(state.out@ =~= old(state).out@ + front);
    }
    let fallback: usize = if state.col < 60 {
        60 - state.col
    } else {
        0
    };
    proof {
        assert(fallback as nat == sat_sub(60, col1));
    }
    match find_sel(&n.children, Selector::NamedOfKind(NodeKind::Amount)) {
        Some(am) => {
            match find_sel(&am.children, Selector::NamedQuantity) {
                None => Err(FmtError::MissingChild { row: am.row, col: am.col }),
                Some(qn) => {
                    let q = trim_str(qn.text.as_str());
                    let qlen = q.unicode_len();
                    let pad: usize = if state.col < 60 {
                        let room = 60 - state.col;
                        if qlen < room {
                            room - 1 - qlen
                        } else {
                            0
                        }
                    } else {
                        0
                    };
                    proof {
                        assert(pad as nat == amount_pad(col1, q@.len()));
                    }
                    state.print_spaces(pad);
                    format_amount(state, am);
                    let r = format_posting_tail(state, &n.children, 1);
                    proof {
                        if r is Ok {
                            let t = posting_render(*n, old(state).col as nat)->Ok_0;
                            assert(final(state).out@ =~= old(state).out@ + t);
                        }
                    }
                    r
                },
            }
        },
        None => {
            let r = format_posting_tail(state, &n.children, fallback);
            proof {
                if r is Ok {
                    let t = posting_render(*n, old(state).col as nat)->Ok_0;
                    assert(final(state).out@ =~= old(state).out@ + t);
                }
            }
            r
        },
    }
}

/// The keyword string for a recognized argument subdirective kind.
fn keyword_of(k: NodeKind) -> (s: &'static str)
    ensures
        s@ == sub_keyword(k),
{
    match k {
        NodeKind::AliasSub => "alias",
        NodeKind::NoteSub => "note",
        NodeKind::AssertSub => "assert",
        NodeKind::CheckSub => "check",
        _ => "payee",
    }
}

/// Emit the subdirective block of an account directive, from child `i` on.
fn format_account_subs(state: &mut State, ch: &Vec<Node>, i: usize) -> (r: Result<(), FmtError>)
    requires
        old(state).wf(),
        i <= ch@.len(),
    ensures
        keeps(*old(state), *final(state)),
        match acct_subs(ch@, i as int, ctx_of(*old(state)), old(state).col as nat) {
            Ok((t, colf)) => r is Ok && final(state).out@ == old(state).out@ + t && final(state).col
                == colf,
            Err(m) => r == Err::<(), FmtError>(err_of(m)),
        },
    decreases ch@.len() - i,
{
    if i >= ch.len() {
        return Ok(());
    }
    let w = &ch[i];
    if w.get_kind() != NodeKind::AccountSubdirective {
        return format_account_subs(state, ch, i + 1);
    }
    if w.children.len() == 0 {
        return Err(FmtError::MissingChild { row: w.row, col: w.col });
    }
    let sub = &w.children[0];
    let k = sub.get_kind();
    if k == NodeKind::AliasSub || k == NodeKind::NoteSub || k == NodeKind::AssertSub || k
        == NodeKind::CheckSub || k == NodeKind::PayeeSub {
        state.indent();
        match format_argument_subdirective(state, sub, keyword_of(k)) {
            Err(e) => {
                return Err(e);
            },
            Ok(()) => {},
        }
        let ghost mid = state.out@;
        let r = format_account_subs(state, ch, i + 1);
        proof {
            if r is Ok {
                let t = acct_subs(ch@, i as int, ctx_of(*old(state)), old(state).col as nat)->Ok_0;
                assert(final(state).out@ =~= old(state).out@ + t.0);
            }
        }
        r
    } else if k == NodeKind::DefaultSub {
        state.indent();
        state.println("default");
        let r = format_account_subs(state, ch, i + 1);
        proof {
            if r is Ok {
                let t = acct_subs(ch@, i as int, ctx_of(*old(state)), old(state).col as nat)->Ok_0;
                assert(final(state).out@ =~= old(state).out@ + t.0);
            }
        }
        r
    } else {
        format_account_subs(state, ch, i + 1)
    }
}

/// Emit the subdirective block of a commodity directive, from child `i` on.
fn format_commodity_subs(state: &mut State, ch: &Vec<Node>, i: usize) -> (r: Result<(), FmtError>)
    requires
        old(state).wf(),
        i <= ch@.len(),
    ensures
        keeps(*old(state), *final(state)),
        match comm_subs(ch@, i as int, ctx_of(*old(state)), old(state).col as nat) {
            Ok((t, colf)) => r is Ok && final(state).out@ == old(state).out@ + t && final(state).col
                == colf,
            Err(m) => r == Err::<(), FmtError>(err_of(m)),
        },
    decreases ch@.len() - i,
{
    if i >= ch.len() {
        return Ok(());
    }
    let w = &ch[i];
    if w.get_kind() != NodeKind::CommoditySubdirective {
        return format_commodity_subs(state, ch, i + 1);
    }
    if w.children.len() == 0 {
        return Err(FmtError::MissingChild { row: w.row, col: w.col });
    }
    let sub = &w.children[0];
    let k = sub.get_kind();
    if k == NodeKind::AliasSub || k == NodeKind::NoteSub {
        state.indent();
        match format_argument_subdirective(state, sub, keyword_of(k)) {
            Err(e) => {
                return Err(e);
            },
            Ok(()) => {},
        }
        let r = format_commodity_subs(state, ch, i + 1);
        proof {
            if r is Ok {
                let t = comm_subs(ch@, i as int, ctx_of(*old(state)), old(state).col as nat)->Ok_0;
                assert(final(state).out@ =~= old(state).out@ + t.0);
            }
        }
        r
    } else if k == NodeKind::FormatSub {
        state.indent();
        match format_format_subdirective(state, sub) {
            Err(e) => {
                return Err(e);
            },
            Ok(()) => {},
        }
        let r = format_commodity_subs(state, ch, i + 1);
        proof {
            if r is Ok {
                let t = comm_subs(ch@, i as int, ctx_of(*old(state)), old(state).col as nat)->Ok_0;
                assert(final(state).out@ =~= old(state).out@ + t.0);
            }
        }
        r
    } else if k == NodeKind::DefaultSub {
        state.indent();
        state.println("default");
        let r = format_commodity_subs(state, ch, i + 1);
        proof {
            if r is Ok {
                let t = comm_subs(ch@, i as int, ctx_of(*old(state)), old(state).col as nat)->Ok_0;
                assert(final(state).out@ =~= old(state).out@ + t.0);
            }
        }
        r
    } else if k == NodeKind::NomarketSub {
        state.indent();
        state.println("nomarket");
        let r = format_commodity_subs(state, ch, i + 1);
        proof {
            if r is Ok {
                let t = comm_subs(ch@, i as int, ctx_of(*old(state)), old(state).col as nat)->Ok_0;
                assert(final(state).out@ =~= old(state).out@ + t.0);
            }
        }
        r
    } else {
        format_commodity_subs(state, ch, i + 1)
    }
}

/// Emit the subdirectives of a tag directive, from named child `i` on.
fn format_tag_subs(state: &mut State, ch: &Vec<Node>, i: usize) -> (r: Result<(), FmtError>)
    requires
        old(state).wf(),
        i <= ch@.len(),
    ensures
        keeps(*old(state), *final(state)),
        match tag_subs(ch@, i as int, ctx_of(*old(state)), old(state).col as nat) {
            Ok((t, colf)) => r is Ok && final(state).out@ == old(state).out@ + t && final(state).col
                == colf,
            Err(m) => r == Err::<(), FmtError>(err_of(m)),
        },
    decreases ch@.len() - i,
{
    if i >= ch.len() {
        return Ok(());
    }
    let w = &ch[i];
    let k = w.get_kind();
    if w.named && (k == NodeKind::AssertSub || k == NodeKind::CheckSub) {
        state.indent();
        match format_argument_subdirective(state, w, keyword_of(k)) {
            Err(e) => {
                return Err(e);
            },
            Ok(()) => {},
        }
        let r = format_tag_subs(state, ch, i + 1);
        proof {
            if r is Ok {
                let t = tag_subs(ch@, i as int, ctx_of(*old(state)), old(state).col as nat)->Ok_0;
                assert(final(state).out@ =~= old(state).out@ + t.0);
            }
        }
        r
    } else {
        format_tag_subs(state, ch, i + 1)
    }
}

/// Emit an account directive: header line, then its subdirectives one level
/// deeper; the level is restored afterwards.
pub fn format_account_directive(state: &mut State, n: &Node) -> (r: Result<(), FmtError>)
    requires
        old(state).wf(),
        old(state).level < usize::MAX,
    ensures
        keeps(*old(state), *final(state)),
        match acct_render(*n, ctx_of(*old(state))) {
            Ok((t, colf)) => r is Ok && final(state).out@ == old(state).out@ + t && final(state).col
                == colf,
            Err(m) => r == Err::<(), FmtError>(err_of(m)),
        },
{
    state.print("account ");
    match find_sel(&n.children, Selector::AnyNamed) {
        None => Err(FmtError::MissingChild { row: n.row, col: n.col }),
        Some(name) => {
            state.println(name.text.as_str());
            state.level = state.level + 1;
            let r = format_account_subs(state, &n.children, 0);
            state.level = state.level - 1;
            proof {
                if r is Ok {
                    let t = acct_render(*n, ctx_of(*old(state)))->Ok_0;
                    assert(final(state).out@ =~= old(state).out@ + t.0);
                }
            }
            match r {
                Err(e) => Err(e),
                Ok(()) => Ok(()),
            }
        },
    }
}

/// Emit a commodity directive, shaped like the account directive.
pub fn format_commodity_directive(state: &mut State, n: &Node) -> (r: Result<(), FmtError>)
    requires
        old(state).wf(),
        old(state).level < usize::MAX,
    ensures
        keeps(*old(state), *final(state)),
        match comm_render(*n, ctx_of(*old(state))) {
            Ok((t, colf)) => r is Ok && final(state).out@ == old(state).out@ + t && final(state).col
                == colf,
            Err(m) => r == Err::<(), FmtError>(err_of(m)),
        },
{
    state.print("commodity ");
    match find_sel(&n.children, Selector::AnyNamed) {
        None => Err(FmtError::MissingChild { row: n.row, col: n.col }),
        Some(name) => {
            state.println(name.text.as_str());
            state.level = state.level + 1;
            let r = format_commodity_subs(state, &n.children, 0);
            state.level = state.level - 1;
            proof {
                if r is Ok {
                    let t = comm_render(*n, ctx_of(*old(state)))->Ok_0;
                    assert(final(state).out@ =~= old(state).out@ + t.0);
                }
            }
            match r {
                Err(e) => Err(e),
                Ok(()) => Ok(()),
            }
        },
    }
}

/// Emit a tag directive: `"tag "`, the trimmed tag, then its subdirectives
/// one level deeper.
pub fn format_tag_directive(state: &mut State, n: &Node) -> (r: Result<(), FmtError>)
    requires
        old(state).wf(),
        old(state).level < usize::MAX,
    ensures
        keeps(*old(state), *final(state)),
        match tag_render(*n, ctx_of(*old(state))) {
            Ok((t, colf)) => r is Ok && final(state).out@ == old(state).out@ + t && final(state).col
                == colf,
            Err(m) => r == Err::<(), FmtError>(err_of(m)),
        },
{
    state.print("tag ");
    match find_sel(&n.children, Selector::NamedOfKind(NodeKind::Tag)) {
        None => Err(FmtError::MissingChild { row: n.row, col: n.col }),
        Some(tg) => {
            state.println(trim_str(tg.text.as_str()));
            state.level = state.level + 1;
            let r = format_tag_subs(state, &n.children, 0);
            state.level = state.level - 1;
            proof {
                if r is Ok {
                    let t = tag_render(*n, ctx_of(*old(state)))->Ok_0;
                    assert(final(state).out@ =~= old(state).out@ + t.0);
                }
            }
            match r {
                Err(e) => Err(e),
                Ok(()) => Ok(()),
            }
        },
    }
}

/// Emit the joined tokens of a word or character directive, from child `i`
/// on.
fn format_word_tokens(state: &mut State, ch: &Vec<Node>, i: usize, first: bool)
    requires
        old(state).wf(),
        i <= ch@.len(),
    ensures
        keeps(*old(state), *final(state)),
        final(state).out@ == old(state).out@ + word_tokens(ch@, i as int, first),
        final(state).col == old(state).col + word_tokens(ch@, i as int, first).len(),
        final(state).row == old(state).row,
    decreases ch@.len() - i,
{
    if i >= ch.len() {
        return ;
    }
    let w = &ch[i];
    if w.get_kind() == NodeKind::Whitespace {
        format_word_tokens(state, ch, i + 1, first);
        return ;
    }
    let value = trim_str(w.text.as_str());
    if value.unicode_len() == 0 {
        format_word_tokens(state, ch, i + 1, first);
        return ;
    }
    if !first {
        state.print(" ");
    }
    state.print(value);
    format_word_tokens(state, ch, i + 1, false);
    proof {
        assert(final(state).out@ =~= old(state).out@ + word_tokens(ch@, i as int, first));
    }
}

/// Emit a word or character directive: its non-blank tokens joined by
/// single spaces, then a line break.
pub fn format_word_directive(state: &mut State, n: &Node)
    requires
        old(state).wf(),
    ensures
        keeps(*old(state), *final(state)),
        final(state).out@ == old(state).out@ + word_render(*n),
        final(state).col == 0,
        final(state).row == old(state).row + 1,
{
    format_word_tokens(state, &n.children, 0, true);
    state.println("");
    proof {
        reveal_strlit("");
        assert(final(state).out@ =~= old(state).out@ + word_render(*n));
    }
}

/// Emit one optional header field of a plain transaction: the prefix then
/// the first named child of kind `k`, only if present.
fn print_header_field(state: &mut State, ch: &Vec<Node>, k: NodeKind, prefix: &str)
    requires
        old(state).wf(),
    ensures
        keeps(*old(state), *final(state)),
        final(state).out@ == old(state).out@ + header_field(ch@, k, prefix@),
        final(state).col == old(state).col + header_field(ch@, k, prefix@).len(),
        final(state).row == old(state).row,
{
    if let Some(c) = find_sel(ch, Selector::NamedOfKind(k)) {
        state.print(prefix);
        state.print(c.text.as_str());
        proof {
            assert(final(state).out@ =~= old(state).out@ + header_field(ch@, k, prefix@));
        }
    } else {
        proof {
            assert(final(state).out@ =~= old(state).out@ + header_field(ch@, k, prefix@));
        }
    }
}

/// Emit the header fields of a plain transaction in the fixed field order:
/// date, effective date, status, code, payee — each only if present.
fn format_plain_header(state: &mut State, ch: &Vec<Node>)
    requires
        old(state).wf(),
    ensures
        keeps(*old(state), *final(state)),
        final(state).out@ == old(state).out@ + plain_header(ch@),
        final(state).col == old(state).col + plain_header(ch@).len(),
        final(state).row == old(state).row,
{
    print_header_field(state, ch, NodeKind::Date, "");
    print_header_field(state, ch, NodeKind::EffectiveDate, "=");
    print_header_field(state, ch, NodeKind::Status, " ");
    print_header_field(state, ch, NodeKind::Code, " ");
    print_header_field(state, ch, NodeKind::Payee, " ");
    proof {
        assert(final(state).out@ =~= old(state).out@ + plain_header(ch@));
    }
}

fn header_kind_exec(x: XactShape, k: NodeKind) -> (b: bool)
    ensures
        b == header_kind(x, k),
{
    match x {
        XactShape::Plain => k == NodeKind::Date || k == NodeKind::EffectiveDate || k
            == NodeKind::Status || k == NodeKind::Code || k == NodeKind::Payee,
        XactShape::Periodic => k == NodeKind::NoteItem || k == NodeKind::Interval,
        XactShape::Automated => k == NodeKind::NoteItem || k == NodeKind::Query,
    }
}

/// Emit the indented body of a transaction, from child `i` on: notes
/// verbatim, postings via the posting formatter.
fn format_xact_body(state: &mut State, ch: &Vec<Node>, i: usize, x: XactShape) -> (r: Result<
    (),
    FmtError,
>)
    requires
        old(state).wf(),
        old(state).col == 0,
        i <= ch@.len(),
    ensures
        keeps(*old(state), *final(state)),
        match xact_body(ch@, i as int, ctx_of(*old(state)), x) {
            Ok(t) => r is Ok && final(state).out@ == old(state).out@ + t && final(state).col == 0,
            Err(m) => r == Err::<(), FmtError>(err_of(m)),
        },
    decreases ch@.len() - i,
{
    if i >= ch.len() {
        return Ok(());
    }
    let w = &ch[i];
    let k = w.get_kind();
    if !w.named || header_kind_exec(x, k) {
        return format_xact_body(state, ch, i + 1, x);
    }
    if k == NodeKind::NoteItem {
        state.indent();
        state.println(w.text.as_str());
        let r = format_xact_body(state, ch, i + 1, x);
        proof {
            if r is Ok {
                let t = xact_body(ch@, i as int, ctx_of(*old(state)), x)->Ok_0;
                assert(final(state).out@ =~= old(state).out@ + t);
            }
        }
        r
    } else if k == NodeKind::Posting {
        state.indent();
        match format_posting(state, w) {
            Err(e) => {
                return Err(e);
            },
            Ok(()) => {},
        }
        let r = format_xact_body(state, ch, i + 1, x);
        proof {
            if r is Ok {
                let t = xact_body(ch@, i as int, ctx_of(*old(state)), x)->Ok_0;
                assert(final(state).out@ =~= old(state).out@ + t);
            }
        }
        r
    } else {
        format_xact_body(state, ch, i + 1, x)
    }
}

/// Emit a plain transaction: the header line, then its body one level
/// deeper; the level is restored afterwards.
pub fn format_plain_xact(state: &mut State, n: &Node) -> (r: Result<(), FmtError>)
    requires
        old(state).wf(),
        old(state).level < usize::MAX,
    ensures
        keeps(*old(state), *final(state)),
        match plain_render(*n, ctx_of(*old(state))) {
            Ok(t) => r is Ok && final(state).out@ == old(state).out@ + t && final(state).col == 0,
            Err(m) => r == Err::<(), FmtError>(err_of(m)),
        },
{
    format_plain_header(state, &n.children);
    state.println("");
    state.level = state.level + 1;
    let r = format_xact_body(state, &n.children, 0, XactShape::Plain);
    state.level = state.level - 1;
    proof {
        reveal_strlit("");
        if r is Ok {
            let t = plain_render(*n, ctx_of(*old(state)))->Ok_0;
            assert(final(state).out@ =~= old(state).out@ + t);
        }
    }
    match r {
        Err(e) => Err(e),
        Ok(()) => Ok(()),
    }
}

/// Emit a periodic transaction: `"~ "`, the trimmed interval, the optional
/// note, then the body one level deeper.
pub fn format_periodic_xact(state: &mut State, n: &Node) -> (r: Result<(), FmtError>)
    requires
        old(state).wf(),
        old(state).level < usize::MAX,
    ensures
        keeps(*old(state), *final(state)),
        match periodic_render(*n, ctx_of(*old(state))) {
            Ok(t) => r is Ok && final(state).out@ == old(state).out@ + t && final(state).col == 0,
            Err(m) => r == Err::<(), FmtError>(err_of(m)),
        },
{
    state.print("~ ");
    match find_sel(&n.children, Selector::NamedOfKind(NodeKind::Interval)) {
        None => Err(FmtError::MissingChild { row: n.row, col: n.col }),
        Some(iv) => {
            state.print(trim_str(iv.text.as_str()));
            if let Some(nt) = find_sel(&n.children, Selector::NamedOfKind(NodeKind::NoteItem)) {
                state.print(" ");
                state.print(nt.text.as_str());
            }
            state.println("");
            state.level = state.level + 1;
            let r = format_xact_body(state, &n.children, 0, XactShape::Periodic);
            state.level = state.level - 1;
            proof {
                reveal_strlit("");
                if r is Ok {
                    let t = periodic_render(*n, ctx_of(*old(state)))->Ok_0;
                    assert(final(state).out@ =~= old(state).out@ + t);
                }
            }
            match r {
                Err(e) => Err(e),
                Ok(()) => Ok(()),
            }
        },
    }
}

/// Emit an automated transaction: `"= "`, the trimmed query, the optional
/// note, then the body one level deeper.
pub fn format_automated_xact(state: &mut State, n: &Node) -> (r: Result<(), FmtError>)
    requires
        old(state).wf(),
        old(state).level < usize::MAX,
    ensures
        keeps(*old(state), *final(state)),
        match automated_render(*n, ctx_of(*old(state))) {
            Ok(t) => r is Ok && final(state).out@ == old(state).out@ + t && final(state).col == 0,
            Err(m) => r == Err::<(), FmtError>(err_of(m)),
        },
{
    state.print("= ");
    match find_sel(&n.children, Selector::NamedOfKind(NodeKind::Query)) {
        None => Err(FmtError::MissingChild { row: n.row, col: n.col }),
        Some(q) => {
            state.print(trim_str(q.text.as_str()));
            if let Some(nt) = find_sel(&n.children, Selector::NamedOfKind(NodeKind::NoteItem)) {
                state.print(" ");
                state.print(nt.text.as_str());
            }
            state.println("");
            state.level = state.level + 1;
            let r = format_xact_body(state, &n.children, 0, XactShape::Automated);
            state.level = state.level - 1;
            proof {
                reveal_strlit("");
                if r is Ok {
                    let t = automated_render(*n, ctx_of(*old(state)))->Ok_0;
                    assert(final(state).out@ =~= old(state).out@ + t);
                }
            }
            match r {
                Err(e) => Err(e),
                Ok(()) => Ok(()),
            }
        },
    }
}

/// Emit a transaction wrapper: dispatch on its single child's shape; an
/// unrecognized shape emits nothing.
pub fn format_xact(state: &mut State, n: &Node) -> (r: Result<(), FmtError>)
    requires
        old(state).wf(),
        old(state).level < usize::MAX,
    ensures
        keeps(*old(state), *final(state)),
        match xact_render(*n, ctx_of(*old(state)), old(state).col as nat) {
            Ok((t, colf)) => r is Ok && final(state).out@ == old(state).out@ + t && final(state).col
                == colf,
            Err(m) => r == Err::<(), FmtError>(err_of(m)),
        },
{
    if n.children.len() == 0 {
        return Err(FmtError::MissingChild { row: n.row, col: n.col });
    }
    let w = &n.children[0];
    match w.get_kind() {
        NodeKind::PlainXact => format_plain_xact(state, w),
        NodeKind::PeriodicXact => format_periodic_xact(state, w),
        NodeKind::AutomatedXact => format_automated_xact(state, w),
        _ => {
            proof {
                assert(final(state).out@ =~= old(state).out@ + Seq::<char>::empty());
            }
            Ok(())
        },
    }
}

/// Emit a directive: dispatch on its single child's subtype; options are
/// copied verbatim, unrecognized subtypes emit nothing.
pub fn format_directive(state: &mut State, n: &Node) -> (r: Result<(), FmtError>)
    requires
        old(state).wf(),
        old(state).level < usize::MAX,
    ensures
        keeps(*old(state), *final(state)),
        match directive_render(*n, ctx_of(*old(state)), old(state).col as nat) {
            Ok((t, colf)) => r is Ok && final(state).out@ == old(state).out@ + t && final(state).col
                == colf,
            Err(m) => r == Err::<(), FmtError>(err_of(m)),
        },
{
    if n.children.len() == 0 {
        return Err(FmtError::MissingChild { row: n.row, col: n.col });
    }
    let d = &n.children[0];
    let dk = d.get_kind();
    if dk == NodeKind::OptionDir {
        state.print(d.text.as_str());
        Ok(())
    } else if dk == NodeKind::AccountDirective {
        format_account_directive(state, d)
    } else if dk == NodeKind::CommodityDirective {
        format_commodity_directive(state, d)
    } else if dk == NodeKind::TagDirective {
        format_tag_directive(state, d)
    } else if dk == NodeKind::WordDirective || dk == NodeKind::CharDirective {
        format_word_directive(state, d);
        Ok(())
    } else {
        proof {
            assert(final(state).out@ =~= old(state).out@ + Seq::<char>::empty());
        }
        Ok(())
    }
}

/// Emit one journal item: comments and verbatim blocks unchanged,
/// directives and transactions by their subtype, anything else skipped.
pub fn format_journal_item(state: &mut State, n: &Node) -> (r: Result<(), FmtError>)
    requires
        old(state).wf(),
        old(state).level < usize::MAX,
    ensures
        keeps(*old(state), *final(state)),
        match item_render(*n, ctx_of(*old(state)), old(state).col as nat) {
            Ok((t, colf)) => r is Ok && final(state).out@ == old(state).out@ + t && final(state).col
                == colf,
            Err(m) => r == Err::<(), FmtError>(err_of(m)),
        },
        (kind_of(n.kind@) == NodeKind::Comment || kind_of(n.kind@) == NodeKind::BlockComment
            || kind_of(n.kind@) == NodeKind::BlockTest) ==> final(state).row == old(state).row,
        (kind_of(n.kind@) != NodeKind::Comment && kind_of(n.kind@) != NodeKind::BlockComment
            && kind_of(n.kind@) != NodeKind::BlockTest && kind_of(n.kind@) != NodeKind::Directive
            && kind_of(n.kind@) != NodeKind::Xact) ==> *final(state) == *old(state),
{
    let k = n.get_kind();
    if k == NodeKind::Comment || k == NodeKind::BlockComment || k == NodeKind::BlockTest {
        state.print(n.text.as_str());
        return Ok(());
    }
    if k == NodeKind::Directive {
        return format_directive(state, n);
    }
    if k == NodeKind::Xact {
        return format_xact(state, n);
    }
    proof {
        assert(final(state).out@ =~= old(state).out@ + Seq::<char>::empty());
    }
    Ok(())
}

/// Emit the document's children from `i` on, collapsing runs of blank-line
/// markers; `flag` says the output still ends with a blank separator (or
/// nothing has been emitted yet).
fn format_doc_items(state: &mut State, root: &Node, i: usize, flag: bool) -> (r: Result<
    (),
    FmtError,
>)
    requires
        old(state).wf(),
        old(state).level < usize::MAX,
        i <= root.children@.len(),
    ensures
        keeps(*old(state), *final(state)),
        match doc_fold(
            *root,
            root.children@,
            i as int,
            ctx_of(*old(state)),
            old(state).col as nat,
            flag,
        ) {
            Ok((t, colf, ff)) => r is Ok && final(state).out@ == old(state).out@ + t
                && final(state).col == colf,
            Err(m) => r == Err::<(), FmtError>(err_of(m)),
        },
    decreases root.children@.len() - i,
{
    if i >= root.children.len() {
        return Ok(());
    }
    let w = &root.children[i];
    if w.get_kind() == NodeKind::Blank {
        if flag {
            return format_doc_items(state, root, i + 1, flag);
        }
        state.println("");
        let r = format_doc_items(state, root, i + 1, true);
        proof {
            reveal_strlit("");
            if r is Ok {
                let t = doc_fold(
                    *root,
                    root.children@,
                    i as int,
                    ctx_of(*old(state)),
                    old(state).col as nat,
                    flag,
                )->Ok_0;
                assert(final(state).out@ =~= old(state).out@ + t.0);
            }
        }
        return r;
    }
    if w.children.len() == 0 {
        return Err(FmtError::MissingChild { row: root.row, col: root.col });
    }
    let n0 = state.out.len();
    match format_journal_item(state, &w.children[0]) {
        Err(e) => {
            return Err(e);
        },
        Ok(()) => {},
    }
    let n1 = state.out.len();
    let flag1 = if n1 > n0 {
        false
    } else {
        flag
    };
    let r = format_doc_items(state, root, i + 1, flag1);
    proof {
        if r is Ok {
            let t = doc_fold(
                *root,
                root.children@,
                i as int,
                ctx_of(*old(state)),
                old(state).col as nat,
                flag,
            )->Ok_0;
            assert(final(state).out@ =~= old(state).out@ + t.0);
        }
    }
    r
}

/// Emit the whole document: every child of the root in order, with blank
/// lines collapsed.
pub fn format_document(state: &mut State, node: &Node) -> (r: Result<(), FmtError>)
    requires
        old(state).wf(),
        old(state).level < usize::MAX,
    ensures
        keeps(*old(state), *final(state)),
        match doc_fold(
            *node,
            node.children@,
            0,
            ctx_of(*old(state)),
            old(state).col as nat,
            true,
        ) {
            Ok((t, colf, ff)) => r is Ok && final(state).out@ == old(state).out@ + t
                && final(state).col == colf,
            Err(m) => r == Err::<(), FmtError>(err_of(m)),
        },
{
    format_doc_items(state, node, 0, true)
}

} // verus!
