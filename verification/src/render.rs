//! The layout rules, stated functionally: for every construct, the exact
//! text a formatter emits and the column it leaves the cursor at, or the
//! node at which a required child was found missing.
use crate::chars::{sat_sub, spaces, spec_trim};
use crate::errors::FmtError;
use crate::layout::{indent_text, State};
use crate::node::{first_err, first_sel, kind_of, Node, NodeKind, Selector, SyntaxTree};
use vstd::prelude::*;

verus! {

/// The indentation parameters of a run: level, extra raw spaces, and the
/// width of one unit.
pub struct Ctx {
    pub level: nat,
    pub extra: nat,
    pub num_spaces: nat,
}

/// The indentation parameters held in `s`.
pub open spec fn ctx_of(s: State) -> Ctx {
    Ctx { level: s.level as nat, extra: s.extra as nat, num_spaces: s.num_spaces as nat }
}

/// One level deeper.
pub open spec fn bump(c: Ctx) -> Ctx {
    Ctx { level: c.level + 1, extra: c.extra, num_spaces: c.num_spaces }
}

/// The text one `indent` call emits under `c`.
pub open spec fn ind(c: Ctx) -> Seq<char> {
    indent_text(c.level, c.extra, c.num_spaces)
}

/// The text of an amount: the trimmed negative quantity if present, the
/// trimmed quantity if present, then a space and the trimmed commodity if
/// present.
#[verifier::opaque]
pub open spec fn amount_render(n: Node) -> Seq<char> {
    let nq = match first_sel(n.children@, Selector::NamedOfKind(NodeKind::NegativeQuantity)) {
        Some(c) => spec_trim(c.text@),
        None => Seq::<char>::empty(),
    };
    let q = match first_sel(n.children@, Selector::NamedOfKind(NodeKind::Quantity)) {
        Some(c) => spec_trim(c.text@),
        None => Seq::<char>::empty(),
    };
    let com = match first_sel(n.children@, Selector::NamedOfKind(NodeKind::Commodity)) {
        Some(c) => " "@ + spec_trim(c.text@),
        None => Seq::<char>::empty(),
    };
    nq + q + com
}

/// The text of a price: its first child's token verbatim, a space, then the
/// nested amount.  Fails at the price node when either is missing.
#[verifier::opaque]
pub open spec fn price_render(n: Node) -> Result<Seq<char>, Node> {
    if n.children@.len() == 0 {
        Err(n)
    } else {
        match first_sel(n.children@, Selector::NamedOfKind(NodeKind::Amount)) {
            None => Err(n),
            Some(am) => Ok(n.children@[0].text@ + " "@ + amount_render(am)),
        }
    }
}

/// The text of a balance assertion: `"= "` then the nested amount.  Fails at
/// the assertion node when the amount is missing.
#[verifier::opaque]
pub open spec fn bal_render(n: Node) -> Result<Seq<char>, Node> {
    match first_sel(n.children@, Selector::NamedOfKind(NodeKind::Amount)) {
        None => Err(n),
        Some(am) => Ok("= "@ + amount_render(am)),
    }
}

/// The keyword a recognized argument subdirective is rendered with.
pub open spec fn sub_keyword(k: NodeKind) -> Seq<char> {
    if k == NodeKind::AliasSub {
        "alias"@
    } else if k == NodeKind::NoteSub {
        "note"@
    } else if k == NodeKind::AssertSub {
        "assert"@
    } else if k == NodeKind::CheckSub {
        "check"@
    } else {
        "payee"@
    }
}

/// The text of an argument subdirective: the keyword, a space, and the
/// verbatim text of the `value` child.  Fails at the subdirective node when
/// the value is missing.
#[verifier::opaque]
pub open spec fn argsub_render(n: Node, kw: Seq<char>) -> Result<Seq<char>, Node> {
    match first_sel(n.children@, Selector::AnyOfKind(NodeKind::Value)) {
        None => Err(n),
        Some(v) => Ok(kw + " "@ + v.text@),
    }
}

/// The text of a `format` subdirective: `"format "` then the nested amount.
#[verifier::opaque]
pub open spec fn fmtsub_render(n: Node) -> Result<Seq<char>, Node> {
    match first_sel(n.children@, Selector::AnyOfKind(NodeKind::Amount)) {
        None => Err(n),
        Some(am) => Ok("format "@ + amount_render(am)),
    }
}

/// The price segment of a posting: the pending spacing then the price, if
/// one is present.  Returns the segment and the spacing left pending for the
/// next field.
#[verifier::opaque]
pub open spec fn price_part(ch: Seq<Node>, sp: nat) -> Result<(Seq<char>, nat), Node> {
    match first_sel(ch, Selector::NamedOfKind(NodeKind::Price)) {
        None => Ok((Seq::<char>::empty(), sp)),
        Some(p) => match price_render(p) {
            Err(e) => Err(e),
            Ok(tp) => Ok((spaces(sp) + tp, 1)),
        },
    }
}

/// The balance-assertion segment of a posting, like `price_part`.
#[verifier::opaque]
pub open spec fn bal_part(ch: Seq<Node>, sp: nat) -> Result<(Seq<char>, nat), Node> {
    match first_sel(ch, Selector::NamedOfKind(NodeKind::BalanceAssertion)) {
        None => Ok((Seq::<char>::empty(), sp)),
        Some(b) => match bal_render(b) {
            Err(e) => Err(e),
            Ok(tb) => Ok((spaces(sp) + tb, 1)),
        },
    }
}

/// The trailing-note segment of a posting: the pending spacing then the
/// trimmed note, if one is present.
#[verifier::opaque]
pub open spec fn note_part(ch: Seq<Node>, sp: nat) -> Seq<char> {
    match first_sel(ch, Selector::NamedOfKind(NodeKind::NoteItem)) {
        None => Seq::<char>::empty(),
        Some(nt) => spaces(sp) + spec_trim(nt.text@),
    }
}

/// The column where a posting's amount would start: after the status and
/// account text, padded so the trimmed quantity token ends one column short
/// of the 60-column target, or immediately if the line already runs past it.
pub open spec fn amount_pad(col1: nat, qlen: nat) -> nat {
    sat_sub(60, col1 + qlen + 1)
}

/// The tail of a posting line after the amount decision: the price, the
/// balance assertion and the trimmed note each behind the pending spacing
/// `sp`, then the line break.
#[verifier::opaque]
pub open spec fn tail_render(ch: Seq<Node>, sp: nat) -> Result<Seq<char>, Node> {
    match price_part(ch, sp) {
        Err(e) => Err(e),
        Ok((t2, sp1)) => match bal_part(ch, sp1) {
            Err(e) => Err(e),
            Ok((t3, sp2)) => Ok(t2 + t3 + note_part(ch, sp2) + "\n"@),
        },
    }
}

/// The whole posting line, starting at column `col0` (just after the
/// indentation): status and account verbatim, the padded amount if present,
/// then price, balance assertion and trimmed note each behind the pending
/// spacing, and a final line break.  Fails at the amount node when an amount
/// has no quantity, and inside price or balance rendering as those say.
#[verifier::opaque]
pub open spec fn posting_render(n: Node, col0: nat) -> Result<Seq<char>, Node> {
    let ch = n.children@;
    let st = match first_sel(ch, Selector::NamedOfKind(NodeKind::Status)) {
        Some(c) => c.text@,
        None => Seq::<char>::empty(),
    };
    let acc = match first_sel(ch, Selector::NamedOfKind(NodeKind::Account)) {
        Some(c) => c.text@,
        None => Seq::<char>::empty(),
    };
    let col1 = col0 + st.len() + acc.len();
    let front = st + acc;
    match first_sel(ch, Selector::NamedOfKind(NodeKind::Amount)) {
        Some(am) => match first_sel(am.children@, Selector::NamedQuantity) {
            None => Err(am),
            Some(qn) => {
                let pad = amount_pad(col1, spec_trim(qn.text@).len());
                match tail_render(ch, 1) {
                    Err(e) => Err(e),
                    Ok(tail) => Ok(front + spaces(pad) + amount_render(am) + tail),
                }
            },
        },
        None => match tail_render(ch, sat_sub(60, col1)) {
            Err(e) => Err(e),
            Ok(tail) => Ok(front + tail),
        },
    }
}

/// Whether `k` is an argument subdirective of an account directive.
pub open spec fn is_acct_arg_sub(k: NodeKind) -> bool {
    k == NodeKind::AliasSub || k == NodeKind::NoteSub || k == NodeKind::AssertSub || k
        == NodeKind::CheckSub || k == NodeKind::PayeeSub
}

/// The subdirective block of an account directive, from child `i` on, the
/// cursor at column `col`: each `account_subdirective` wrapper's single child
/// is rendered indented if recognized and skipped otherwise; `default` is the
/// bare keyword on its own line.  Fails at a wrapper with no child.
pub open spec fn acct_subs(ch: Seq<Node>, i: int, c: Ctx, col: nat) -> Result<
    (Seq<char>, nat),
    Node,
>
    decreases ch.len() - i,
{
    if i < 0 || i >= ch.len() {
        Ok((Seq::<char>::empty(), col))
    } else {
        let w = ch[i];
        if kind_of(w.kind@) != NodeKind::AccountSubdirective {
            acct_subs(ch, i + 1, c, col)
        } else if w.children@.len() == 0 {
            Err(w)
        } else {
            let sub = w.children@[0];
            let k = kind_of(sub.kind@);
            if is_acct_arg_sub(k) {
                match argsub_render(sub, sub_keyword(k)) {
                    Err(e) => Err(e),
                    Ok(t) => {
                        let piece = ind(c) + t;
                        match acct_subs(ch, i + 1, c, col + piece.len()) {
                            Err(e) => Err(e),
                            Ok((rest, colf)) => Ok((piece + rest, colf)),
                        }
                    },
                }
            } else if k == NodeKind::DefaultSub {
                let piece = ind(c) + "default"@ + "\n"@;
                match acct_subs(ch, i + 1, c, 0) {
                    Err(e) => Err(e),
                    Ok((rest, colf)) => Ok((piece + rest, colf)),
                }
            } else {
                acct_subs(ch, i + 1, c, col)
            }
        }
    }
}

/// Whether `k` is an argument subdirective of a commodity directive.
pub open spec fn is_comm_arg_sub(k: NodeKind) -> bool {
    k == NodeKind::AliasSub || k == NodeKind::NoteSub
}

/// The subdirective block of a commodity directive, like `acct_subs` with
/// the commodity set: `alias` and `note` take arguments, `format` renders the
/// nested amount, `default` and `nomarket` are bare keywords.
pub open spec fn comm_subs(ch: Seq<Node>, i: int, c: Ctx, col: nat) -> Result<
    (Seq<char>, nat),
    Node,
>
    decreases ch.len() - i,
{
    if i < 0 || i >= ch.len() {
        Ok((Seq::<char>::empty(), col))
    } else {
        let w = ch[i];
        if kind_of(w.kind@) != NodeKind::CommoditySubdirective {
            comm_subs(ch, i + 1, c, col)
        } else if w.children@.len() == 0 {
            Err(w)
        } else {
            let sub = w.children@[0];
            let k = kind_of(sub.kind@);
            if is_comm_arg_sub(k) {
                match argsub_render(sub, sub_keyword(k)) {
                    Err(e) => Err(e),
                    Ok(t) => {
                        let piece = ind(c) + t;
                        match comm_subs(ch, i + 1, c, col + piece.len()) {
                            Err(e) => Err(e),
                            Ok((rest, colf)) => Ok((piece + rest, colf)),
                        }
                    },
                }
            } else if k == NodeKind::FormatSub {
                match fmtsub_render(sub) {
                    Err(e) => Err(e),
                    Ok(t) => {
                        let piece = ind(c) + t;
                        match comm_subs(ch, i + 1, c, col + piece.len()) {
                            Err(e) => Err(e),
                            Ok((rest, colf)) => Ok((piece + rest, colf)),
                        }
                    },
                }
            } else if k == NodeKind::DefaultSub {
                let piece = ind(c) + "default"@ + "\n"@;
                match comm_subs(ch, i + 1, c, 0) {
                    Err(e) => Err(e),
                    Ok((rest, colf)) => Ok((piece + rest, colf)),
                }
            } else if k == NodeKind::NomarketSub {
                let piece = ind(c) + "nomarket"@ + "\n"@;
                match comm_subs(ch, i + 1, c, 0) {
                    Err(e) => Err(e),
                    Ok((rest, colf)) => Ok((piece + rest, colf)),
                }
            } else {
                comm_subs(ch, i + 1, c, col)
            }
        }
    }
}

/// The subdirective block of a tag directive: its named children of kind
/// `assert` or `check`, indented, with their arguments.
pub open spec fn tag_subs(ch: Seq<Node>, i: int, c: Ctx, col: nat) -> Result<
    (Seq<char>, nat),
    Node,
>
    decreases ch.len() - i,
{
    if i < 0 || i >= ch.len() {
        Ok((Seq::<char>::empty(), col))
    } else {
        let w = ch[i];
        let k = kind_of(w.kind@);
        if w.named && (k == NodeKind::AssertSub || k == NodeKind::CheckSub) {
            match argsub_render(w, sub_keyword(k)) {
                Err(e) => Err(e),
                Ok(t) => {
                    let piece = ind(c) + t;
                    match tag_subs(ch, i + 1, c, col + piece.len()) {
                        Err(e) => Err(e),
                        Ok((rest, colf)) => Ok((piece + rest, colf)),
                    }
                },
            }
        } else {
            tag_subs(ch, i + 1, c, col)
        }
    }
}

/// An account directive: `"account "`, the first named child's text, a line
/// break, then the subdirective block one level deeper.  Fails at the
/// directive node when it has no named child.
pub open spec fn acct_render(n: Node, c: Ctx) -> Result<(Seq<char>, nat), Node> {
    match first_sel(n.children@, Selector::AnyNamed) {
        None => Err(n),
        Some(name) => {
            let head = "account "@ + name.text@ + "\n"@;
            match acct_subs(n.children@, 0, bump(c), 0) {
                Err(e) => Err(e),
                Ok((t, colf)) => Ok((head + t, colf)),
            }
        },
    }
}

/// A commodity directive, shaped like `acct_render`.
pub open spec fn comm_render(n: Node, c: Ctx) -> Result<(Seq<char>, nat), Node> {
    match first_sel(n.children@, Selector::AnyNamed) {
        None => Err(n),
        Some(name) => {
            let head = "commodity "@ + name.text@ + "\n"@;
            match comm_subs(n.children@, 0, bump(c), 0) {
                Err(e) => Err(e),
                Ok((t, colf)) => Ok((head + t, colf)),
            }
        },
    }
}

/// A tag directive: `"tag "`, the trimmed text of the `tag` child, a line
/// break, then its subdirectives one level deeper.  Fails at the directive
/// node when the `tag` child is missing.
pub open spec fn tag_render(n: Node, c: Ctx) -> Result<(Seq<char>, nat), Node> {
    match first_sel(n.children@, Selector::NamedOfKind(NodeKind::Tag)) {
        None => Err(n),
        Some(tg) => {
            let head = "tag "@ + spec_trim(tg.text@) + "\n"@;
            match tag_subs(n.children@, 0, bump(c), 0) {
                Err(e) => Err(e),
                Ok((t, colf)) => Ok((head + t, colf)),
            }
        },
    }
}

/// The tokens of a word or character directive, from child `i` on: every
/// child that is not whitespace and whose trimmed text is non-empty, joined
/// by single spaces.
pub open spec fn word_tokens(ch: Seq<Node>, i: int, first: bool) -> Seq<char>
    decreases ch.len() - i,
{
    if i < 0 || i >= ch.len() {
        Seq::<char>::empty()
    } else {
        let w = ch[i];
        if kind_of(w.kind@) == NodeKind::Whitespace {
            word_tokens(ch, i + 1, first)
        } else if spec_trim(w.text@).len() == 0 {
            word_tokens(ch, i + 1, first)
        } else if first {
            spec_trim(w.text@) + word_tokens(ch, i + 1, false)
        } else {
            " "@ + spec_trim(w.text@) + word_tokens(ch, i + 1, false)
        }
    }
}

/// A word or character directive: its non-blank tokens joined by single
/// spaces, on one line.
pub open spec fn word_render(n: Node) -> Seq<char> {
    word_tokens(n.children@, 0, true) + "\n"@
}

/// One optional header field: the prefix, then the first named child of
/// kind `k` verbatim — or nothing when the field is absent.
pub open spec fn header_field(ch: Seq<Node>, k: NodeKind, prefix: Seq<char>) -> Seq<char> {
    match first_sel(ch, Selector::NamedOfKind(k)) {
        Some(c) => prefix + c.text@,
        None => Seq::<char>::empty(),
    }
}

/// The first line of a plain transaction, assembled in the fixed field
/// order date, effective date, status, code, payee; only fields present are
/// emitted: the date verbatim, the effective date behind `=`, and status,
/// code and payee each behind a single space.
pub open spec fn plain_header(ch: Seq<Node>) -> Seq<char> {
    header_field(ch, NodeKind::Date, ""@) + header_field(ch, NodeKind::EffectiveDate, "="@)
        + header_field(ch, NodeKind::Status, " "@) + header_field(ch, NodeKind::Code, " "@)
        + header_field(ch, NodeKind::Payee, " "@)
}

/// The three transaction shapes, which differ in which named children belong
/// to the header rather than the indented body.
#[derive(Clone, Copy, Debug, PartialEq, Eq, Structural)]
pub enum XactShape {
    Plain,
    Periodic,
    Automated,
}

/// Whether a named child of kind `k` was already consumed by the header of a
/// transaction of shape `x` and so is skipped by the body.
pub open spec fn header_kind(x: XactShape, k: NodeKind) -> bool {
    match x {
        XactShape::Plain => k == NodeKind::Date || k == NodeKind::EffectiveDate || k
            == NodeKind::Status || k == NodeKind::Code || k == NodeKind::Payee,
        XactShape::Periodic => k == NodeKind::NoteItem || k == NodeKind::Interval,
        XactShape::Automated => k == NodeKind::NoteItem || k == NodeKind::Query,
    }
}

/// The indented body of a transaction, from child `i` on: notes verbatim on
/// their own lines, postings via `posting_render`, everything else skipped.
pub open spec fn xact_body(ch: Seq<Node>, i: int, c: Ctx, x: XactShape) -> Result<Seq<char>, Node>
    decreases ch.len() - i,
{
    if i < 0 || i >= ch.len() {
        Ok(Seq::<char>::empty())
    } else {
        let w = ch[i];
        let k = kind_of(w.kind@);
        if !w.named || header_kind(x, k) {
            xact_body(ch, i + 1, c, x)
        } else if k == NodeKind::NoteItem {
            match xact_body(ch, i + 1, c, x) {
                Err(e) => Err(e),
                Ok(rest) => Ok(ind(c) + w.text@ + "\n"@ + rest),
            }
        } else if k == NodeKind::Posting {
            match posting_render(w, ind(c).len()) {
                Err(e) => Err(e),
                Ok(t) => match xact_body(ch, i + 1, c, x) {
                    Err(e) => Err(e),
                    Ok(rest) => Ok(ind(c) + t + rest),
                },
            }
        } else {
            xact_body(ch, i + 1, c, x)
        }
    }
}

/// The optional note appended to a periodic or automated header line.
pub open spec fn header_note(ch: Seq<Node>) -> Seq<char> {
    match first_sel(ch, Selector::NamedOfKind(NodeKind::NoteItem)) {
        None => Seq::<char>::empty(),
        Some(nt) => " "@ + nt.text@,
    }
}

/// A plain transaction: its header line, then its body one level deeper.
pub open spec fn plain_render(n: Node, c: Ctx) -> Result<Seq<char>, Node> {
    match xact_body(n.children@, 0, bump(c), XactShape::Plain) {
        Err(e) => Err(e),
        Ok(t) => Ok(plain_header(n.children@) + "\n"@ + t),
    }
}

/// A periodic transaction: `"~ "`, the trimmed interval, the optional note,
/// a line break, then the body.  Fails at the transaction node when the
/// interval is missing.
pub open spec fn periodic_render(n: Node, c: Ctx) -> Result<Seq<char>, Node> {
    match first_sel(n.children@, Selector::NamedOfKind(NodeKind::Interval)) {
        None => Err(n),
        Some(iv) => match xact_body(n.children@, 0, bump(c), XactShape::Periodic) {
            Err(e) => Err(e),
            Ok(t) => Ok("~ "@ + spec_trim(iv.text@) + header_note(n.children@) + "\n"@ + t),
        },
    }
}

/// An automated transaction: `"= "`, the trimmed query, the optional note, a
/// line break, then the body.  Fails at the transaction node when the query
/// is missing.
pub open spec fn automated_render(n: Node, c: Ctx) -> Result<Seq<char>, Node> {
    match first_sel(n.children@, Selector::NamedOfKind(NodeKind::Query)) {
        None => Err(n),
        Some(q) => match xact_body(n.children@, 0, bump(c), XactShape::Automated) {
            Err(e) => Err(e),
            Ok(t) => Ok("= "@ + spec_trim(q.text@) + header_note(n.children@) + "\n"@ + t),
        },
    }
}

/// A transaction wrapper: dispatch on its first child's shape; an
/// unrecognized shape emits nothing.  Fails at the wrapper when it has no
/// child.
pub open spec fn xact_render(n: Node, c: Ctx, col: nat) -> Result<(Seq<char>, nat), Node> {
    if n.children@.len() == 0 {
        Err(n)
    } else {
        let w = n.children@[0];
        let r = match kind_of(w.kind@) {
            NodeKind::PlainXact => plain_render(w, c),
            NodeKind::PeriodicXact => periodic_render(w, c),
            NodeKind::AutomatedXact => automated_render(w, c),
            _ => Ok(Seq::<char>::empty()),
        };
        match r {
            Err(e) => Err(e),
            Ok(t) => if kind_of(w.kind@) == NodeKind::PlainXact || kind_of(w.kind@)
                == NodeKind::PeriodicXact || kind_of(w.kind@) == NodeKind::AutomatedXact {
                Ok((t, 0))
            } else {
                Ok((t, col))
            },
        }
    }
}

/// A directive wrapper: dispatch on its single child's subtype; options are
/// copied verbatim and unrecognized subtypes emit nothing.  Fails at the
/// wrapper when it has no child.
pub open spec fn directive_render(n: Node, c: Ctx, col: nat) -> Result<(Seq<char>, nat), Node> {
    if n.children@.len() == 0 {
        Err(n)
    } else {
        let d = n.children@[0];
        let dk = kind_of(d.kind@);
        if dk == NodeKind::OptionDir {
            Ok((d.text@, col + d.text@.len()))
        } else if dk == NodeKind::AccountDirective {
            acct_render(d, c)
        } else if dk == NodeKind::CommodityDirective {
            comm_render(d, c)
        } else if dk == NodeKind::TagDirective {
            tag_render(d, c)
        } else if dk == NodeKind::WordDirective || dk == NodeKind::CharDirective {
            Ok((word_render(d), 0))
        } else {
            Ok((Seq::<char>::empty(), col))
        }
    }
}

/// One journal item: comments and verbatim blocks are copied unchanged,
/// directives and transactions dispatch on their subtype, anything else is
/// skipped with no output.  Returns the text and the column after it.
pub open spec fn item_render(n: Node, c: Ctx, col: nat) -> Result<(Seq<char>, nat), Node> {
    let k = kind_of(n.kind@);
    if k == NodeKind::Comment || k == NodeKind::BlockComment || k == NodeKind::BlockTest {
        Ok((n.text@, col + n.text@.len()))
    } else if k == NodeKind::Directive {
        directive_render(n, c, col)
    } else if k == NodeKind::Xact {
        xact_render(n, c, col)
    } else {
        Ok((Seq::<char>::empty(), col))
    }
}

/// The whole document, from child `i` on.  A run of blank-line markers
/// emits one blank line, and none at all while `flag` says the output still
/// ends with one (or nothing has been emitted yet); the flag resets whenever
/// an item emits text.  A non-blank child must wrap its item in a single
/// child, else the run fails at the document node.
pub open spec fn doc_fold(root: Node, ch: Seq<Node>, i: int, c: Ctx, col: nat, flag: bool) -> Result<
    (Seq<char>, nat, bool),
    Node,
>
    decreases ch.len() - i,
{
    if i < 0 || i >= ch.len() {
        Ok((Seq::<char>::empty(), col, flag))
    } else {
        let w = ch[i];
        if kind_of(w.kind@) == NodeKind::Blank {
            if flag {
                doc_fold(root, ch, i + 1, c, col, flag)
            } else {
                match doc_fold(root, ch, i + 1, c, 0, true) {
                    Err(e) => Err(e),
                    Ok((t, cf, ff)) => Ok(("\n"@ + t, cf, ff)),
                }
            }
        } else if w.children@.len() == 0 {
            Err(root)
        } else {
            match item_render(w.children@[0], c, col) {
                Err(e) => Err(e),
                Ok((t, col1)) => {
                    let flag1 = if t.len() > 0 {
                        false
                    } else {
                        flag
                    };
                    match doc_fold(root, ch, i + 1, c, col1, flag1) {
                        Err(e) => Err(e),
                        Ok((rest, cf, ff)) => Ok((t + rest, cf, ff)),
                    }
                },
            }
        }
    }
}

/// What `beautify` produces for `tree`: the syntax-error or inconsistency
/// report when the error flag is set, a missing-child report when a
/// formatter fails, and otherwise the document's text with a final line
/// break added if its last line was left unterminated.
pub open spec fn spec_beautify(tree: SyntaxTree) -> Result<Seq<char>, FmtError> {
    if tree.has_error {
        match first_err(tree.root) {
            Some(e) => Err(FmtError::SyntaxError { line: (e.row + 1) as u128 }),
            None => Err(FmtError::InconsistentTree),
        }
    } else {
        match doc_fold(
            tree.root,
            tree.root.children@,
            0,
            Ctx { level: 0, extra: 0, num_spaces: 2 },
            0,
            true,
        ) {
            Err(n) => Err(FmtError::MissingChild { row: n.row, col: n.col }),
            Ok((t, colf, _)) => Ok(
                if colf != 0 {
                    t + "\n"@
                } else {
                    t
                },
            ),
        }
    }
}

} // verus!
