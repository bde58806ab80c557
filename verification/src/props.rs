//! The library's stated laws, proved of the render rules: the column
//! alignment of posting amounts, the round-trip of optional-field presence,
//! and blank-line collapsing.
use crate::chars::{sat_sub, spaces, spec_trim};
use crate::node::{first_sel, kind_of, sel_matches, Node, NodeKind, Selector, SyntaxTree};
use crate::render::{
    acct_render, acct_subs, amount_pad, amount_render, argsub_render, automated_render, bal_part,
    bal_render, bump, comm_render, comm_subs, doc_fold, fmtsub_render, header_kind, header_note, ind, is_acct_arg_sub, is_comm_arg_sub,
    header_field, item_render, note_part, periodic_render, plain_header, plain_render,
    posting_render, price_part,
    price_render, spec_beautify, sub_keyword, tag_render, tag_subs, tail_render,
    word_render, word_tokens, xact_body, Ctx, XactShape,
};
use vstd::prelude::*;

verus! {

broadcast use vstd::seq::group_seq_axioms, vstd::std_specs::vec::group_vec_axioms;

/// The length of the text a child found by `sel` contributes, or zero when
/// none is found.
pub open spec fn sel_text(ch: Seq<Node>, sel: Selector) -> Seq<char> {
    match first_sel(ch, sel) {
        Some(c) => c.text@,
        None => Seq::<char>::empty(),
    }
}

/// Alignment invariant: in a posting that carries an amount, the amount
/// begins exactly at the greater of the column after the account text and
/// the column that lets the trimmed quantity token end one short of the
/// 60-column target — padding is never negative, and a long account simply
/// pushes the amount right.
pub proof fn lemma_posting_alignment(n: Node, col0: nat)
    requires
        first_sel(n.children@, Selector::NamedOfKind(NodeKind::Amount)) is Some,
        first_sel(
            first_sel(n.children@, Selector::NamedOfKind(NodeKind::Amount))->Some_0.children@,
            Selector::NamedQuantity,
        ) is Some,
        posting_render(n, col0) is Ok,
    ensures
        ({
            let ch = n.children@;
            let st = sel_text(ch, Selector::NamedOfKind(NodeKind::Status));
            let acc = sel_text(ch, Selector::NamedOfKind(NodeKind::Account));
            let col1 = col0 + st.len() + acc.len();
            let am = first_sel(ch, Selector::NamedOfKind(NodeKind::Amount))->Some_0;
            let qn = first_sel(am.children@, Selector::NamedQuantity)->Some_0;
            let qlen = spec_trim(qn.text@).len();
            let off = st.len() + acc.len() + amount_pad(col1, qlen);
            let start = col0 + off;
            let t = posting_render(n, col0)->Ok_0;
            &&& (col1 + qlen + 1 <= 60 ==> start == 60 - qlen - 1)
            &&& (col1 + qlen + 1 > 60 ==> start == col1)
            &&& t.subrange(off as int, off + amount_render(am).len() as int) == amount_render(am)
        }),
{
    reveal(posting_render);
    let ch = n.children@;
    let am = first_sel(ch, Selector::NamedOfKind(NodeKind::Amount))->Some_0;
    let qn = first_sel(am.children@, Selector::NamedQuantity)->Some_0;
    let qlen = spec_trim(qn.text@).len();
    let t = posting_render(n, col0)->Ok_0;
    let stt = sel_text(ch, Selector::NamedOfKind(NodeKind::Status));
    let acct = sel_text(ch, Selector::NamedOfKind(NodeKind::Account));
    let col1 = col0 + stt.len() + acct.len();
    let pad = amount_pad(col1, qlen);
    let amt = amount_render(am);
    let tail = tail_render(ch, 1)->Ok_0;
    assert(t == stt + acct + crate::chars::spaces(pad) + amt + tail);
    let off = stt.len() + acct.len() + pad;
    assert(t.subrange(off as int, off + amt.len() as int) =~= amt);
}

/// Round-trip of field presence, posting shape: a posting whose optional
/// fields — amount, price, balance assertion, note — are all absent renders
/// exactly its status and account text and a line break; no padding or
/// separator is synthesized for an omitted field.
pub proof fn lemma_posting_no_synthesis(n: Node, col0: nat)
    requires
        first_sel(n.children@, Selector::NamedOfKind(NodeKind::Amount)) is None,
        first_sel(n.children@, Selector::NamedOfKind(NodeKind::Price)) is None,
        first_sel(n.children@, Selector::NamedOfKind(NodeKind::BalanceAssertion)) is None,
        first_sel(n.children@, Selector::NamedOfKind(NodeKind::NoteItem)) is None,
    ensures
        ({
            let st = sel_text(n.children@, Selector::NamedOfKind(NodeKind::Status));
            let acc = sel_text(n.children@, Selector::NamedOfKind(NodeKind::Account));
            posting_render(n, col0) == Ok::<Seq<char>, Node>(st + acc + "\n"@)
        }),
{
    reveal(posting_render);
    reveal(tail_render);
    reveal(price_part);
    reveal(bal_part);
    reveal(note_part);
    let st = sel_text(n.children@, Selector::NamedOfKind(NodeKind::Status));
    let acc = sel_text(n.children@, Selector::NamedOfKind(NodeKind::Account));
    assert(posting_render(n, col0)->Ok_0 =~= st + acc + "\n"@);
}

/// Round-trip of field presence, header shape: a plain transaction with no
/// named effective-date, status, code or payee child renders its header as
/// the date text alone — omitted fields never appear, not even as
/// separators.
pub proof fn lemma_header_no_synthesis(ch: Seq<Node>)
    requires
        first_sel(ch, Selector::NamedOfKind(NodeKind::EffectiveDate)) is None,
        first_sel(ch, Selector::NamedOfKind(NodeKind::Status)) is None,
        first_sel(ch, Selector::NamedOfKind(NodeKind::Code)) is None,
        first_sel(ch, Selector::NamedOfKind(NodeKind::Payee)) is None,
    ensures
        plain_header(ch) == sel_text(ch, Selector::NamedOfKind(NodeKind::Date)),
{
    reveal_strlit("");
    assert(plain_header(ch) =~= sel_text(ch, Selector::NamedOfKind(NodeKind::Date)));
}

/// No character of `t` is a line break.
pub open spec fn nlfree(t: Seq<char>) -> bool {
    forall|i: int| 0 <= i < t.len() ==> #[trigger] t[i] != '\n'
}

/// `t` never holds two adjacent line breaks: no line inside it is blank.
pub open spec fn no_double_nl(t: Seq<char>) -> bool {
    forall|i: int| 0 <= i && i + 1 < t.len() ==> !(#[trigger] t[i] == '\n' && t[i + 1] == '\n')
}

/// `t` never holds three adjacent line breaks: no two adjacent lines inside
/// it are both blank.
pub open spec fn no_triple_nl(t: Seq<char>) -> bool {
    forall|i: int|
        0 <= i && i + 2 < t.len() ==> !(#[trigger] t[i] == '\n' && t[i + 1] == '\n' && t[i + 2]
            == '\n')
}

/// The shape of one journal item's output: no blank line inside it, and it
/// does not begin on a fresh blank line.
pub open spec fn item_shaped(t: Seq<char>) -> bool {
    no_double_nl(t) && (t.len() > 0 ==> t[0] != '\n')
}

/// One non-blank terminated line.
pub open spec fn oneline(t: Seq<char>) -> bool {
    t.len() > 0 && t[t.len() - 1] == '\n' && nlfree(t.subrange(0, t.len() - 1))
}

/// Zero or more non-blank terminated lines.
pub open spec fn body_shaped(t: Seq<char>) -> bool {
    t.len() == 0 || (no_double_nl(t) && t[0] != '\n' && t[t.len() - 1] == '\n')
}

/// What the ledger grammar guarantees about a single node's text, stated
/// per construct: token texts hold no line break, verbatim blocks hold no
/// blank line and do not start with one, a plain transaction has a dated
/// header, and a word directive has at least one non-blank token.
pub open spec fn own_tame(n: Node) -> bool {
    let k = kind_of(n.kind@);
    let ch = n.children@;
    &&& ((k == NodeKind::Comment || k == NodeKind::BlockComment || k == NodeKind::BlockTest || k
        == NodeKind::OptionDir) ==> item_shaped(n.text@))
    &&& ((k == NodeKind::Date || k == NodeKind::EffectiveDate || k == NodeKind::Status || k
        == NodeKind::Code || k == NodeKind::Payee || k == NodeKind::NoteItem || k
        == NodeKind::Account || k == NodeKind::Value) ==> nlfree(n.text@))
    &&& ((k == NodeKind::Quantity || k == NodeKind::NegativeQuantity || k == NodeKind::Commodity
        || k == NodeKind::Tag || k == NodeKind::Interval || k == NodeKind::Query) ==> nlfree(
        spec_trim(n.text@),
    ))
    &&& ((k == NodeKind::WordDirective || k == NodeKind::CharDirective) ==> ((forall|j: int|
        0 <= j < ch.len() ==> nlfree(spec_trim((#[trigger] ch[j]).text@))) && (exists|j: int|
        0 <= j < ch.len() && kind_of((#[trigger] ch[j]).kind@) != NodeKind::Whitespace && spec_trim(
            ch[j].text@,
        ).len() > 0)))
    &&& (k == NodeKind::PlainXact ==> (match first_sel(ch, Selector::NamedOfKind(NodeKind::Date)) {
        Some(d) => d.text@.len() > 0,
        None => false,
    }))
    &&& (k == NodeKind::Price ==> (ch.len() > 0 ==> nlfree(ch[0].text@)))
    &&& ((k == NodeKind::AccountDirective || k == NodeKind::CommodityDirective) ==> (match first_sel(
        ch,
        Selector::AnyNamed,
    ) {
        Some(c) => nlfree(c.text@),
        None => true,
    }))
}

/// The grammar guarantees hold of every node of the subtree.
pub open spec fn tame(n: Node) -> bool
    decreases n,
{
    own_tame(n) && tame_seq(n.children@)
}

/// The grammar guarantees hold of every node under every element of `s`.
pub open spec fn tame_seq(s: Seq<Node>) -> bool
    decreases s,
{
    if s.len() == 0 {
        true
    } else {
        tame(s[0]) && tame_seq(s.drop_first())
    }
}

proof fn lemma_tame_at(s: Seq<Node>, j: int)
    requires
        tame_seq(s),
        0 <= j < s.len(),
    ensures
        tame(s[j]),
    decreases j,
{
    if j > 0 {
        assert(s.drop_first()[j - 1] == s[j]);
        lemma_tame_at(s.drop_first(), j - 1);
    }
}

proof fn lemma_first_sel_found(s: Seq<Node>, sel: Selector)
    requires
        first_sel(s, sel) is Some,
    ensures
        sel_matches(first_sel(s, sel)->Some_0, sel),
        exists|j: int| 0 <= j < s.len() && #[trigger] s[j] == first_sel(s, sel)->Some_0,
    decreases s.len(),
{
    if s.len() == 0 {
    } else if sel_matches(s[0], sel) {
        assert(s[0] == first_sel(s, sel)->Some_0);
    } else {
        lemma_first_sel_found(s.drop_first(), sel);
        let j = choose|j: int|
            0 <= j < s.drop_first().len() && #[trigger] s.drop_first()[j] == first_sel(
                s.drop_first(),
                sel,
            )->Some_0;
        assert(s[j + 1] == s.drop_first()[j]);
    }
}

proof fn lemma_sel_tame(s: Seq<Node>, sel: Selector)
    requires
        tame_seq(s),
        first_sel(s, sel) is Some,
    ensures
        tame(first_sel(s, sel)->Some_0),
        sel_matches(first_sel(s, sel)->Some_0, sel),
{
    lemma_first_sel_found(s, sel);
    let j = choose|j: int| 0 <= j < s.len() && #[trigger] s[j] == first_sel(s, sel)->Some_0;
    lemma_tame_at(s, j);
}

proof fn lemma_nlfree_concat(a: Seq<char>, b: Seq<char>)
    requires
        nlfree(a),
        nlfree(b),
    ensures
        nlfree(a + b),
{
    assert forall|i: int| 0 <= i < (a + b).len() implies #[trigger] (a + b)[i] != '\n' by {
        if i < a.len() {
            assert((a + b)[i] == a[i]);
        } else {
            assert((a + b)[i] == b[i - a.len()]);
        }
    }
}

proof fn lemma_nd_concat(a: Seq<char>, b: Seq<char>)
    requires
        no_double_nl(a),
        no_double_nl(b),
        (a.len() > 0 && b.len() > 0 && a[a.len() - 1] == '\n') ==> b[0] != '\n',
    ensures
        no_double_nl(a + b),
{
    assert forall|i: int|
        0 <= i && i + 1 < (a + b).len() implies !(#[trigger] (a + b)[i] == '\n' && (a + b)[i + 1]
        == '\n') by {
        if i + 1 < a.len() {
            assert((a + b)[i] == a[i] && (a + b)[i + 1] == a[i + 1]);
        } else if i >= a.len() {
            assert((a + b)[i] == b[i - a.len()] && (a + b)[i + 1] == b[i + 1 - a.len()]);
        } else {
            assert((a + b)[i] == a[a.len() - 1] && (a + b)[i + 1] == b[0]);
        }
    }
}

proof fn lemma_nt_concat(a: Seq<char>, b: Seq<char>)
    requires
        no_triple_nl(a),
        no_triple_nl(b),
        (a.len() >= 2 && b.len() > 0 && a[a.len() - 1] == '\n' && a[a.len() - 2] == '\n') ==> b[0]
            != '\n',
        (a.len() >= 1 && b.len() >= 2 && a[a.len() - 1] == '\n') ==> !(b[0] == '\n' && b[1]
            == '\n'),
    ensures
        no_triple_nl(a + b),
{
    assert forall|i: int|
        0 <= i && i + 2 < (a + b).len() implies !(#[trigger] (a + b)[i] == '\n' && (a + b)[i + 1]
        == '\n' && (a + b)[i + 2] == '\n') by {
        if i + 2 < a.len() {
            assert((a + b)[i] == a[i] && (a + b)[i + 1] == a[i + 1] && (a + b)[i + 2] == a[i + 2]);
        } else if i >= a.len() {
            assert((a + b)[i] == b[i - a.len()] && (a + b)[i + 1] == b[i + 1 - a.len()] && (a + b)[i
                + 2] == b[i + 2 - a.len()]);
        } else if i + 2 == a.len() {
            assert((a + b)[i] == a[a.len() - 2] && (a + b)[i + 1] == a[a.len() - 1] && (a + b)[i
                + 2] == b[0]);
        } else {
            assert((a + b)[i] == a[a.len() - 1] && (a + b)[i + 1] == b[0] && (a + b)[i + 2]
                == b[1]);
        }
    }
}

proof fn lemma_spaces_nlfree(n: nat)
    ensures
        nlfree(spaces(n)),
{
}

proof fn lemma_trim_nlfree(t: Seq<char>)
    requires
        nlfree(t),
    ensures
        nlfree(spec_trim(t)),
{
}

proof fn lemma_nlfree_oneline(a: Seq<char>, b: Seq<char>)
    requires
        nlfree(a),
        oneline(b),
    ensures
        oneline(a + b),
{
    assert((a + b)[(a + b).len() - 1] == b[b.len() - 1]);
    assert forall|i: int| 0 <= i < (a + b).len() - 1 implies #[trigger] (a + b).subrange(
        0,
        (a + b).len() - 1,
    )[i] != '\n' by {
        if i < a.len() {
            assert((a + b)[i] == a[i]);
        } else {
            assert((a + b)[i] == b[i - a.len()]);
            assert(b.subrange(0, b.len() - 1)[i - a.len()] == b[i - a.len()]);
        }
    }
}

proof fn lemma_oneline_shapes(t: Seq<char>)
    requires
        oneline(t),
    ensures
        no_double_nl(t),
        t[0] != '\n' || t.len() == 1,
    decreases t.len(),
{
    assert forall|i: int| 0 <= i && i + 1 < t.len() implies !(#[trigger] t[i] == '\n' && t[i + 1]
        == '\n') by {
        assert(t.subrange(0, t.len() - 1)[i] == t[i]);
    }
    if t.len() > 1 {
        assert(t.subrange(0, t.len() - 1)[0] == t[0]);
    }
}

proof fn lemma_oneline_body(a: Seq<char>, b: Seq<char>)
    requires
        oneline(a),
        a[0] != '\n',
        body_shaped(b),
    ensures
        body_shaped(a + b),
{
    lemma_oneline_shapes(a);
    if b.len() == 0 {
        assert(a + b =~= a);
    } else {
        lemma_nd_concat(a, b);
        assert((a + b)[0] == a[0]);
        assert((a + b)[(a + b).len() - 1] == b[b.len() - 1]);
    }
}

proof fn lemma_literals()
    ensures
        nlfree(" "@),
        nlfree("= "@),
        nlfree("="@),
        nlfree("~ "@),
        nlfree("alias"@),
        nlfree("note"@),
        nlfree("assert"@),
        nlfree("check"@),
        nlfree("payee"@),
        nlfree("format "@),
        nlfree("account "@),
        nlfree("commodity "@),
        nlfree("tag "@),
        nlfree("default"@),
        nlfree("nomarket"@),
        "account "@.len() == 8,
        "commodity "@.len() == 10,
        "tag "@.len() == 4,
        "~ "@.len() == 2,
        "= "@.len() == 2,
        "format "@.len() == 7,
        "default"@.len() == 7,
        "nomarket"@.len() == 8,
        "\n"@.len() == 1,
        "\n"@[0] == '\n',
        nlfree(""@),
        ""@.len() == 0,
        "="@.len() == 1,
{
    reveal_strlit("");
    reveal_strlit(" ");
    reveal_strlit("= ");
    reveal_strlit("=");
    reveal_strlit("~ ");
    reveal_strlit("alias");
    reveal_strlit("note");
    reveal_strlit("assert");
    reveal_strlit("check");
    reveal_strlit("payee");
    reveal_strlit("format ");
    reveal_strlit("account ");
    reveal_strlit("commodity ");
    reveal_strlit("tag ");
    reveal_strlit("default");
    reveal_strlit("nomarket");
    reveal_strlit("\n");
}

proof fn lemma_amount_nlfree(am: Node)
    requires
        tame(am),
    ensures
        nlfree(amount_render(am)),
{
    reveal(amount_render);
    lemma_literals();
    let ch = am.children@;
    let nq_sel = Selector::NamedOfKind(NodeKind::NegativeQuantity);
    let q_sel = Selector::NamedOfKind(NodeKind::Quantity);
    let c_sel = Selector::NamedOfKind(NodeKind::Commodity);
    let nq = match first_sel(ch, nq_sel) {
        Some(c) => spec_trim(c.text@),
        None => Seq::<char>::empty(),
    };
    let q = match first_sel(ch, q_sel) {
        Some(c) => spec_trim(c.text@),
        None => Seq::<char>::empty(),
    };
    let com = match first_sel(ch, c_sel) {
        Some(c) => " "@ + spec_trim(c.text@),
        None => Seq::<char>::empty(),
    };
    if first_sel(ch, nq_sel) is Some {
        lemma_sel_tame(ch, nq_sel);
    }
    if first_sel(ch, q_sel) is Some {
        lemma_sel_tame(ch, q_sel);
    }
    if first_sel(ch, c_sel) is Some {
        lemma_sel_tame(ch, c_sel);
        lemma_nlfree_concat(" "@, spec_trim(first_sel(ch, c_sel)->Some_0.text@));
    }
    lemma_nlfree_concat(nq, q);
    lemma_nlfree_concat(nq + q, com);
}

proof fn lemma_price_nlfree(p: Node)
    requires
        tame(p),
        kind_of(p.kind@) == NodeKind::Price,
        price_render(p) is Ok,
    ensures
        nlfree(price_render(p)->Ok_0),
{
    reveal(price_render);
    lemma_literals();
    let ch = p.children@;
    let am_sel = Selector::NamedOfKind(NodeKind::Amount);
    lemma_sel_tame(ch, am_sel);
    let am = first_sel(ch, am_sel)->Some_0;
    lemma_amount_nlfree(am);
    lemma_tame_at(ch, 0);
    lemma_nlfree_concat(ch[0].text@, " "@);
    lemma_nlfree_concat(ch[0].text@ + " "@, amount_render(am));
}

proof fn lemma_bal_nlfree(b: Node)
    requires
        tame(b),
        bal_render(b) is Ok,
    ensures
        nlfree(bal_render(b)->Ok_0),
{
    reveal(bal_render);
    lemma_literals();
    let am_sel = Selector::NamedOfKind(NodeKind::Amount);
    lemma_sel_tame(b.children@, am_sel);
    let am = first_sel(b.children@, am_sel)->Some_0;
    lemma_amount_nlfree(am);
    lemma_nlfree_concat("= "@, amount_render(am));
}

proof fn lemma_argsub_nlfree(n: Node, kw: Seq<char>)
    requires
        tame(n),
        nlfree(kw),
        argsub_render(n, kw) is Ok,
    ensures
        nlfree(argsub_render(n, kw)->Ok_0),
{
    reveal(argsub_render);
    lemma_literals();
    let v_sel = Selector::AnyOfKind(NodeKind::Value);
    lemma_sel_tame(n.children@, v_sel);
    let v = first_sel(n.children@, v_sel)->Some_0;
    lemma_nlfree_concat(kw, " "@);
    lemma_nlfree_concat(kw + " "@, v.text@);
}

proof fn lemma_fmtsub_nlfree(n: Node)
    requires
        tame(n),
        fmtsub_render(n) is Ok,
    ensures
        nlfree(fmtsub_render(n)->Ok_0),
{
    reveal(fmtsub_render);
    lemma_literals();
    let am_sel = Selector::AnyOfKind(NodeKind::Amount);
    lemma_sel_tame(n.children@, am_sel);
    let am = first_sel(n.children@, am_sel)->Some_0;
    lemma_amount_nlfree(am);
    lemma_nlfree_concat("format "@, amount_render(am));
}

proof fn lemma_tail_oneline(ch: Seq<Node>, sp: nat)
    requires
        tame_seq(ch),
        tail_render(ch, sp) is Ok,
    ensures
        oneline(tail_render(ch, sp)->Ok_0),
{
    reveal(tail_render);
    reveal(price_part);
    reveal(bal_part);
    reveal(note_part);
    lemma_literals();
    let p_sel = Selector::NamedOfKind(NodeKind::Price);
    let b_sel = Selector::NamedOfKind(NodeKind::BalanceAssertion);
    let n_sel = Selector::NamedOfKind(NodeKind::NoteItem);
    let t2 = price_part(ch, sp)->Ok_0.0;
    let sp1 = price_part(ch, sp)->Ok_0.1;
    if first_sel(ch, p_sel) is Some {
        lemma_sel_tame(ch, p_sel);
        let p = first_sel(ch, p_sel)->Some_0;
        lemma_price_nlfree(p);
        lemma_spaces_nlfree(sp);
        lemma_nlfree_concat(spaces(sp), price_render(p)->Ok_0);
    }
    assert(nlfree(t2));
    let t3 = bal_part(ch, sp1)->Ok_0.0;
    let sp2 = bal_part(ch, sp1)->Ok_0.1;
    if first_sel(ch, b_sel) is Some {
        lemma_sel_tame(ch, b_sel);
        let b = first_sel(ch, b_sel)->Some_0;
        lemma_bal_nlfree(b);
        lemma_spaces_nlfree(sp1);
        lemma_nlfree_concat(spaces(sp1), bal_render(b)->Ok_0);
    }
    assert(nlfree(t3));
    let np = note_part(ch, sp2);
    if first_sel(ch, n_sel) is Some {
        lemma_sel_tame(ch, n_sel);
        let nt = first_sel(ch, n_sel)->Some_0;
        lemma_trim_nlfree(nt.text@);
        lemma_spaces_nlfree(sp2);
        lemma_nlfree_concat(spaces(sp2), spec_trim(nt.text@));
    }
    assert(nlfree(np));
    lemma_nlfree_concat(t2, t3);
    lemma_nlfree_concat(t2 + t3, np);
    let t = tail_render(ch, sp)->Ok_0;
    assert(t == t2 + t3 + np + "\n"@);
    assert(t[t.len() - 1] == '\n');
    assert(t.subrange(0, t.len() - 1) =~= t2 + t3 + np);
}

proof fn lemma_posting_oneline(n: Node, col0: nat)
    requires
        tame(n),
        posting_render(n, col0) is Ok,
    ensures
        oneline(posting_render(n, col0)->Ok_0),
{
    reveal(posting_render);
    lemma_literals();
    let ch = n.children@;
    let st_sel = Selector::NamedOfKind(NodeKind::Status);
    let acc_sel = Selector::NamedOfKind(NodeKind::Account);
    let am_sel = Selector::NamedOfKind(NodeKind::Amount);
    let st = match first_sel(ch, st_sel) {
        Some(c) => c.text@,
        None => Seq::<char>::empty(),
    };
    let acc = match first_sel(ch, acc_sel) {
        Some(c) => c.text@,
        None => Seq::<char>::empty(),
    };
    if first_sel(ch, st_sel) is Some {
        lemma_sel_tame(ch, st_sel);
    }
    if first_sel(ch, acc_sel) is Some {
        lemma_sel_tame(ch, acc_sel);
    }
    lemma_nlfree_concat(st, acc);
    let col1 = col0 + st.len() + acc.len();
    match first_sel(ch, am_sel) {
        Some(am) => {
            lemma_sel_tame(ch, am_sel);
            lemma_amount_nlfree(am);
            let qn = first_sel(am.children@, Selector::NamedQuantity)->Some_0;
            let pad = amount_pad(col1, spec_trim(qn.text@).len());
            lemma_spaces_nlfree(pad);
            lemma_nlfree_concat(st + acc, spaces(pad));
            lemma_nlfree_concat(st + acc + spaces(pad), amount_render(am));
            lemma_tail_oneline(ch, 1);
            lemma_nlfree_oneline(st + acc + spaces(pad) + amount_render(am), tail_render(ch, 1)->Ok_0);
        },
        None => {
            lemma_tail_oneline(ch, sat_sub(60, col1));
            lemma_nlfree_oneline(st + acc, tail_render(ch, sat_sub(60, col1))->Ok_0);
        },
    }
}

/// The shape of a rendered subdirective block: no blank line, and it opens
/// with its indentation if it opens at all.
spec fn subs_shaped(t: Seq<char>) -> bool {
    no_double_nl(t) && (t.len() > 0 ==> t[0] == ' ')
}

proof fn lemma_ind(c: Ctx)
    requires
        c.level >= 1,
        c.num_spaces >= 1,
    ensures
        nlfree(ind(c)),
        ind(c).len() >= 1,
        ind(c)[0] == ' ',
{
    let l = c.level as int;
    let u = c.num_spaces as int;
    assert(l * u >= 1) by (nonlinear_arith)
        requires
            l >= 1,
            u >= 1,
    ;
}

proof fn lemma_acct_subs_shaped(ch: Seq<Node>, i: int, c: Ctx, col: nat)
    requires
        tame_seq(ch),
        c.level >= 1,
        c.num_spaces >= 1,
        acct_subs(ch, i, c, col) is Ok,
    ensures
        subs_shaped(acct_subs(ch, i, c, col)->Ok_0.0),
    decreases ch.len() - i,
{
    lemma_literals();
    lemma_ind(c);
    if 0 <= i < ch.len() {
        let w = ch[i];
        if kind_of(w.kind@) != NodeKind::AccountSubdirective {
            lemma_acct_subs_shaped(ch, i + 1, c, col);
        } else {
            let sub = w.children@[0];
            lemma_tame_at(ch, i);
            lemma_tame_at(w.children@, 0);
            let k = kind_of(sub.kind@);
            if is_acct_arg_sub(k) {
                lemma_argsub_nlfree(sub, sub_keyword(k));
                let t = argsub_render(sub, sub_keyword(k))->Ok_0;
                let piece = ind(c) + t;
                lemma_nlfree_concat(ind(c), t);
                lemma_acct_subs_shaped(ch, i + 1, c, col + piece.len());
                let rest = acct_subs(ch, i + 1, c, col + piece.len())->Ok_0.0;
                lemma_nd_concat(piece, rest);
                assert((piece + rest).len() > 0 ==> (piece + rest)[0] == ind(c)[0]);
            } else if k == NodeKind::DefaultSub {
                let piece = ind(c) + "default"@ + "\n"@;
                lemma_nlfree_concat(ind(c), "default"@);
                lemma_nd_concat(ind(c) + "default"@, "\n"@);
                lemma_acct_subs_shaped(ch, i + 1, c, 0);
                let rest = acct_subs(ch, i + 1, c, 0)->Ok_0.0;
                lemma_nd_concat(piece, rest);
                assert(piece[0] == ind(c)[0]);
                assert((piece + rest)[0] == piece[0]);
            } else {
                lemma_acct_subs_shaped(ch, i + 1, c, col);
            }
        }
    }
}

proof fn lemma_comm_subs_shaped(ch: Seq<Node>, i: int, c: Ctx, col: nat)
    requires
        tame_seq(ch),
        c.level >= 1,
        c.num_spaces >= 1,
        comm_subs(ch, i, c, col) is Ok,
    ensures
        subs_shaped(comm_subs(ch, i, c, col)->Ok_0.0),
    decreases ch.len() - i,
{
    lemma_literals();
    lemma_ind(c);
    if 0 <= i < ch.len() {
        let w = ch[i];
        if kind_of(w.kind@) != NodeKind::CommoditySubdirective {
            lemma_comm_subs_shaped(ch, i + 1, c, col);
        } else {
            let sub = w.children@[0];
            lemma_tame_at(ch, i);
            lemma_tame_at(w.children@, 0);
            let k = kind_of(sub.kind@);
            if is_comm_arg_sub(k) {
                lemma_argsub_nlfree(sub, sub_keyword(k));
                let t = argsub_render(sub, sub_keyword(k))->Ok_0;
                let piece = ind(c) + t;
                lemma_nlfree_concat(ind(c), t);
                lemma_comm_subs_shaped(ch, i + 1, c, col + piece.len());
                let rest = comm_subs(ch, i + 1, c, col + piece.len())->Ok_0.0;
                lemma_nd_concat(piece, rest);
                assert((piece + rest).len() > 0 ==> (piece + rest)[0] == ind(c)[0]);
            } else if k == NodeKind::FormatSub {
                lemma_fmtsub_nlfree(sub);
                let t = fmtsub_render(sub)->Ok_0;
                let piece = ind(c) + t;
                lemma_nlfree_concat(ind(c), t);
                lemma_comm_subs_shaped(ch, i + 1, c, col + piece.len());
                let rest = comm_subs(ch, i + 1, c, col + piece.len())->Ok_0.0;
                lemma_nd_concat(piece, rest);
                assert((piece + rest).len() > 0 ==> (piece + rest)[0] == ind(c)[0]);
            } else if k == NodeKind::DefaultSub {
                let piece = ind(c) + "default"@ + "\n"@;
                lemma_nlfree_concat(ind(c), "default"@);
                lemma_nd_concat(ind(c) + "default"@, "\n"@);
                lemma_comm_subs_shaped(ch, i + 1, c, 0);
                let rest = comm_subs(ch, i + 1, c, 0)->Ok_0.0;
                lemma_nd_concat(piece, rest);
                assert(piece[0] == ind(c)[0]);
                assert((piece + rest)[0] == piece[0]);
            } else if k == NodeKind::NomarketSub {
                let piece = ind(c) + "nomarket"@ + "\n"@;
                lemma_nlfree_concat(ind(c), "nomarket"@);
                lemma_nd_concat(ind(c) + "nomarket"@, "\n"@);
                lemma_comm_subs_shaped(ch, i + 1, c, 0);
                let rest = comm_subs(ch, i + 1, c, 0)->Ok_0.0;
                lemma_nd_concat(piece, rest);
                assert(piece[0] == ind(c)[0]);
                assert((piece + rest)[0] == piece[0]);
            } else {
                lemma_comm_subs_shaped(ch, i + 1, c, col);
            }
        }
    }
}

proof fn lemma_tag_subs_shaped(ch: Seq<Node>, i: int, c: Ctx, col: nat)
    requires
        tame_seq(ch),
        c.level >= 1,
        c.num_spaces >= 1,
        tag_subs(ch, i, c, col) is Ok,
    ensures
        subs_shaped(tag_subs(ch, i, c, col)->Ok_0.0),
    decreases ch.len() - i,
{
    lemma_literals();
    lemma_ind(c);
    if 0 <= i < ch.len() {
        let w = ch[i];
        let k = kind_of(w.kind@);
        if w.named && (k == NodeKind::AssertSub || k == NodeKind::CheckSub) {
            lemma_tame_at(ch, i);
            lemma_argsub_nlfree(w, sub_keyword(k));
            let t = argsub_render(w, sub_keyword(k))->Ok_0;
            let piece = ind(c) + t;
            lemma_nlfree_concat(ind(c), t);
            lemma_tag_subs_shaped(ch, i + 1, c, col + piece.len());
            let rest = tag_subs(ch, i + 1, c, col + piece.len())->Ok_0.0;
            lemma_nd_concat(piece, rest);
            assert((piece + rest).len() > 0 ==> (piece + rest)[0] == ind(c)[0]);
        } else {
            lemma_tag_subs_shaped(ch, i + 1, c, col);
        }
    }
}

proof fn lemma_word_tokens_nlfree(ch: Seq<Node>, i: int, first: bool)
    requires
        forall|j: int| 0 <= j < ch.len() ==> nlfree(spec_trim((#[trigger] ch[j]).text@)),
    ensures
        nlfree(word_tokens(ch, i, first)),
    decreases ch.len() - i,
{
    lemma_literals();
    if 0 <= i < ch.len() {
        let w = ch[i];
        if kind_of(w.kind@) == NodeKind::Whitespace || spec_trim(w.text@).len() == 0 {
            lemma_word_tokens_nlfree(ch, i + 1, first);
        } else {
            lemma_word_tokens_nlfree(ch, i + 1, false);
            if first {
                lemma_nlfree_concat(spec_trim(w.text@), word_tokens(ch, i + 1, false));
            } else {
                lemma_nlfree_concat(" "@, spec_trim(w.text@));
                lemma_nlfree_concat(" "@ + spec_trim(w.text@), word_tokens(ch, i + 1, false));
            }
        }
    }
}

proof fn lemma_word_tokens_nonempty(ch: Seq<Node>, i: int, first: bool)
    requires
        0 <= i,
        exists|j: int|
            i <= j < ch.len() && kind_of((#[trigger] ch[j]).kind@) != NodeKind::Whitespace
                && spec_trim(ch[j].text@).len() > 0,
    ensures
        word_tokens(ch, i, first).len() > 0,
    decreases ch.len() - i,
{
    let j0 = choose|j: int|
        i <= j < ch.len() && kind_of((#[trigger] ch[j]).kind@) != NodeKind::Whitespace && spec_trim(
            ch[j].text@,
        ).len() > 0;
    let w = ch[i];
    if kind_of(w.kind@) == NodeKind::Whitespace || spec_trim(w.text@).len() == 0 {
        assert(j0 != i);
        lemma_word_tokens_nonempty(ch, i + 1, first);
    }
}

proof fn lemma_header_field_nlfree(ch: Seq<Node>, k: NodeKind, prefix: Seq<char>)
    requires
        tame_seq(ch),
        nlfree(prefix),
        k == NodeKind::Date || k == NodeKind::EffectiveDate || k == NodeKind::Status || k
            == NodeKind::Code || k == NodeKind::Payee,
    ensures
        nlfree(header_field(ch, k, prefix)),
{
    if first_sel(ch, Selector::NamedOfKind(k)) is Some {
        lemma_sel_tame(ch, Selector::NamedOfKind(k));
        lemma_nlfree_concat(prefix, first_sel(ch, Selector::NamedOfKind(k))->Some_0.text@);
    }
}

proof fn lemma_plain_header_nlfree(ch: Seq<Node>)
    requires
        tame_seq(ch),
    ensures
        nlfree(plain_header(ch)),
{
    lemma_literals();
    let d = header_field(ch, NodeKind::Date, ""@);
    let e = header_field(ch, NodeKind::EffectiveDate, "="@);
    let s = header_field(ch, NodeKind::Status, " "@);
    let co = header_field(ch, NodeKind::Code, " "@);
    let pp = header_field(ch, NodeKind::Payee, " "@);
    lemma_header_field_nlfree(ch, NodeKind::Date, ""@);
    lemma_header_field_nlfree(ch, NodeKind::EffectiveDate, "="@);
    lemma_header_field_nlfree(ch, NodeKind::Status, " "@);
    lemma_header_field_nlfree(ch, NodeKind::Code, " "@);
    lemma_header_field_nlfree(ch, NodeKind::Payee, " "@);
    lemma_nlfree_concat(d, e);
    lemma_nlfree_concat(d + e, s);
    lemma_nlfree_concat(d + e + s, co);
    lemma_nlfree_concat(d + e + s + co, pp);
}

proof fn lemma_plain_header_nonempty(ch: Seq<Node>)
    requires
        ({
            match first_sel(ch, Selector::NamedOfKind(NodeKind::Date)) {
                Some(d) => d.text@.len() > 0,
                None => false,
            }
        }),
    ensures
        plain_header(ch).len() > 0,
{
    lemma_literals();
}

proof fn lemma_body_shaped(ch: Seq<Node>, i: int, c: Ctx, x: XactShape)
    requires
        tame_seq(ch),
        c.level >= 1,
        c.num_spaces >= 1,
        xact_body(ch, i, c, x) is Ok,
    ensures
        body_shaped(xact_body(ch, i, c, x)->Ok_0),
    decreases ch.len() - i,
{
    lemma_literals();
    lemma_ind(c);
    if 0 <= i < ch.len() {
        let w = ch[i];
        let k = kind_of(w.kind@);
        if !w.named || header_kind(x, k) {
            lemma_body_shaped(ch, i + 1, c, x);
        } else if k == NodeKind::NoteItem {
            lemma_tame_at(ch, i);
            lemma_body_shaped(ch, i + 1, c, x);
            let rest = xact_body(ch, i + 1, c, x)->Ok_0;
            let chunk = ind(c) + w.text@ + "\n"@;
            lemma_nlfree_concat(ind(c), w.text@);
            assert(oneline(chunk)) by {
                assert(chunk[chunk.len() - 1] == '\n');
                assert(chunk.subrange(0, chunk.len() - 1) =~= ind(c) + w.text@);
            }
            assert(chunk[0] == ind(c)[0]);
            lemma_oneline_body(chunk, rest);
        } else if k == NodeKind::Posting {
            lemma_tame_at(ch, i);
            lemma_posting_oneline(w, ind(c).len());
            let pt = posting_render(w, ind(c).len())->Ok_0;
            lemma_nlfree_oneline(ind(c), pt);
            let chunk = ind(c) + pt;
            assert(chunk[0] == ind(c)[0]);
            lemma_body_shaped(ch, i + 1, c, x);
            let rest = xact_body(ch, i + 1, c, x)->Ok_0;
            lemma_oneline_body(chunk, rest);
        } else {
            lemma_body_shaped(ch, i + 1, c, x);
        }
    }
}

proof fn lemma_acct_render_shaped(d: Node, c: Ctx)
    requires
        tame(d),
        kind_of(d.kind@) == NodeKind::AccountDirective,
        c.num_spaces >= 1,
        acct_render(d, c) is Ok,
    ensures
        item_shaped(acct_render(d, c)->Ok_0.0),
        acct_render(d, c)->Ok_0.0.len() > 0,
{
    lemma_literals();
    let ch = d.children@;
    let name = first_sel(ch, Selector::AnyNamed)->Some_0;
    let head = "account "@ + name.text@ + "\n"@;
    lemma_nlfree_concat("account "@, name.text@);
    assert(oneline(head)) by {
        assert(head[head.len() - 1] == '\n');
        assert(head.subrange(0, head.len() - 1) =~= "account "@ + name.text@);
    }
    lemma_oneline_shapes(head);
    assert(head[0] == "account "@[0]);
    lemma_acct_subs_shaped(ch, 0, bump(c), 0);
    let subs = acct_subs(ch, 0, bump(c), 0)->Ok_0.0;
    lemma_nd_concat(head, subs);
    assert((head + subs)[0] == head[0]);
}

proof fn lemma_comm_render_shaped(d: Node, c: Ctx)
    requires
        tame(d),
        kind_of(d.kind@) == NodeKind::CommodityDirective,
        c.num_spaces >= 1,
        comm_render(d, c) is Ok,
    ensures
        item_shaped(comm_render(d, c)->Ok_0.0),
        comm_render(d, c)->Ok_0.0.len() > 0,
{
    lemma_literals();
    let ch = d.children@;
    let name = first_sel(ch, Selector::AnyNamed)->Some_0;
    let head = "commodity "@ + name.text@ + "\n"@;
    lemma_nlfree_concat("commodity "@, name.text@);
    assert(oneline(head)) by {
        assert(head[head.len() - 1] == '\n');
        assert(head.subrange(0, head.len() - 1) =~= "commodity "@ + name.text@);
    }
    lemma_oneline_shapes(head);
    assert(head[0] == "commodity "@[0]);
    lemma_comm_subs_shaped(ch, 0, bump(c), 0);
    let subs = comm_subs(ch, 0, bump(c), 0)->Ok_0.0;
    lemma_nd_concat(head, subs);
    assert((head + subs)[0] == head[0]);
}

proof fn lemma_tag_render_shaped(d: Node, c: Ctx)
    requires
        tame(d),
        c.num_spaces >= 1,
        tag_render(d, c) is Ok,
    ensures
        item_shaped(tag_render(d, c)->Ok_0.0),
        tag_render(d, c)->Ok_0.0.len() > 0,
{
    lemma_literals();
    let ch = d.children@;
    let sel = Selector::NamedOfKind(NodeKind::Tag);
    lemma_sel_tame(ch, sel);
    let tg = first_sel(ch, sel)->Some_0;
    let head = "tag "@ + spec_trim(tg.text@) + "\n"@;
    lemma_nlfree_concat("tag "@, spec_trim(tg.text@));
    assert(oneline(head)) by {
        assert(head[head.len() - 1] == '\n');
        assert(head.subrange(0, head.len() - 1) =~= "tag "@ + spec_trim(tg.text@));
    }
    lemma_oneline_shapes(head);
    assert(head[0] == "tag "@[0]);
    lemma_tag_subs_shaped(ch, 0, bump(c), 0);
    let subs = tag_subs(ch, 0, bump(c), 0)->Ok_0.0;
    lemma_nd_concat(head, subs);
    assert((head + subs)[0] == head[0]);
}

proof fn lemma_word_render_shaped(d: Node)
    requires
        tame(d),
        kind_of(d.kind@) == NodeKind::WordDirective || kind_of(d.kind@) == NodeKind::CharDirective,
    ensures
        item_shaped(word_render(d)),
        word_render(d).len() > 0,
{
    lemma_literals();
    let toks = word_tokens(d.children@, 0, true);
    lemma_word_tokens_nlfree(d.children@, 0, true);
    lemma_word_tokens_nonempty(d.children@, 0, true);
    let t = toks + "\n"@;
    assert(oneline(t)) by {
        assert(t[t.len() - 1] == '\n');
        assert(t.subrange(0, t.len() - 1) =~= toks);
    }
    lemma_oneline_shapes(t);
    assert(t[0] == toks[0]);
}

proof fn lemma_plain_shaped(w: Node, c: Ctx)
    requires
        tame(w),
        kind_of(w.kind@) == NodeKind::PlainXact,
        c.num_spaces >= 1,
        plain_render(w, c) is Ok,
    ensures
        item_shaped(plain_render(w, c)->Ok_0),
        plain_render(w, c)->Ok_0.len() > 0,
{
    lemma_literals();
    let ch = w.children@;
    lemma_plain_header_nlfree(ch);
    lemma_plain_header_nonempty(ch);
    let hh = plain_header(ch) + "\n"@;
    assert(oneline(hh)) by {
        assert(hh[hh.len() - 1] == '\n');
        assert(hh.subrange(0, hh.len() - 1) =~= plain_header(ch));
    }
    assert(hh[0] == plain_header(ch)[0]);
    lemma_body_shaped(ch, 0, bump(c), XactShape::Plain);
    let bt = xact_body(ch, 0, bump(c), XactShape::Plain)->Ok_0;
    lemma_oneline_body(hh, bt);
    assert((hh + bt)[0] == hh[0]);
}

proof fn lemma_periodic_shaped(w: Node, c: Ctx)
    requires
        tame(w),
        c.num_spaces >= 1,
        periodic_render(w, c) is Ok,
    ensures
        item_shaped(periodic_render(w, c)->Ok_0),
        periodic_render(w, c)->Ok_0.len() > 0,
{
    lemma_literals();
    let ch = w.children@;
    let sel = Selector::NamedOfKind(NodeKind::Interval);
    lemma_sel_tame(ch, sel);
    let iv = first_sel(ch, sel)->Some_0;
    let n_sel = Selector::NamedOfKind(NodeKind::NoteItem);
    if first_sel(ch, n_sel) is Some {
        lemma_sel_tame(ch, n_sel);
        lemma_nlfree_concat(" "@, first_sel(ch, n_sel)->Some_0.text@);
    }
    assert(nlfree(header_note(ch)));
    lemma_nlfree_concat("~ "@, spec_trim(iv.text@));
    lemma_nlfree_concat("~ "@ + spec_trim(iv.text@), header_note(ch));
    let line = "~ "@ + spec_trim(iv.text@) + header_note(ch);
    let hh = line + "\n"@;
    assert(oneline(hh)) by {
        assert(hh[hh.len() - 1] == '\n');
        assert(hh.subrange(0, hh.len() - 1) =~= line);
    }
    assert(hh[0] == "~ "@[0]);
    lemma_body_shaped(ch, 0, bump(c), XactShape::Periodic);
    let bt = xact_body(ch, 0, bump(c), XactShape::Periodic)->Ok_0;
    lemma_oneline_body(hh, bt);
    assert((hh + bt)[0] == hh[0]);
}

proof fn lemma_automated_shaped(w: Node, c: Ctx)
    requires
        tame(w),
        c.num_spaces >= 1,
        automated_render(w, c) is Ok,
    ensures
        item_shaped(automated_render(w, c)->Ok_0),
        automated_render(w, c)->Ok_0.len() > 0,
{
    lemma_literals();
    let ch = w.children@;
    let sel = Selector::NamedOfKind(NodeKind::Query);
    lemma_sel_tame(ch, sel);
    let q = first_sel(ch, sel)->Some_0;
    let n_sel = Selector::NamedOfKind(NodeKind::NoteItem);
    if first_sel(ch, n_sel) is Some {
        lemma_sel_tame(ch, n_sel);
        lemma_nlfree_concat(" "@, first_sel(ch, n_sel)->Some_0.text@);
    }
    assert(nlfree(header_note(ch)));
    lemma_nlfree_concat("= "@, spec_trim(q.text@));
    lemma_nlfree_concat("= "@ + spec_trim(q.text@), header_note(ch));
    let line = "= "@ + spec_trim(q.text@) + header_note(ch);
    let hh = line + "\n"@;
    assert(oneline(hh)) by {
        assert(hh[hh.len() - 1] == '\n');
        assert(hh.subrange(0, hh.len() - 1) =~= line);
    }
    assert(hh[0] == "= "@[0]);
    lemma_body_shaped(ch, 0, bump(c), XactShape::Automated);
    let bt = xact_body(ch, 0, bump(c), XactShape::Automated)->Ok_0;
    lemma_oneline_body(hh, bt);
    assert((hh + bt)[0] == hh[0]);
}

proof fn lemma_item_shaped(n: Node, c: Ctx, col: nat)
    requires
        tame(n),
        c.num_spaces >= 1,
        item_render(n, c, col) is Ok,
    ensures
        item_shaped(item_render(n, c, col)->Ok_0.0),
        item_render(n, c, col)->Ok_0.0.len() == 0 ==> item_render(n, c, col)->Ok_0.1 == col,
{
    let k = kind_of(n.kind@);
    if k == NodeKind::Comment || k == NodeKind::BlockComment || k == NodeKind::BlockTest {
    } else if k == NodeKind::Directive {
        let d = n.children@[0];
        lemma_tame_at(n.children@, 0);
        let dk = kind_of(d.kind@);
        if dk == NodeKind::OptionDir {
        } else if dk == NodeKind::AccountDirective {
            lemma_acct_render_shaped(d, c);
        } else if dk == NodeKind::CommodityDirective {
            lemma_comm_render_shaped(d, c);
        } else if dk == NodeKind::TagDirective {
            lemma_tag_render_shaped(d, c);
        } else if dk == NodeKind::WordDirective || dk == NodeKind::CharDirective {
            lemma_word_render_shaped(d);
        }
    } else if k == NodeKind::Xact {
        let w = n.children@[0];
        lemma_tame_at(n.children@, 0);
        let wk = kind_of(w.kind@);
        if wk == NodeKind::PlainXact {
            lemma_plain_shaped(w, c);
        } else if wk == NodeKind::PeriodicXact {
            lemma_periodic_shaped(w, c);
        } else if wk == NodeKind::AutomatedXact {
            lemma_automated_shaped(w, c);
        }
    }
}

proof fn lemma_doc_shaped(root: Node, ch: Seq<Node>, i: int, c: Ctx, col: nat, flag: bool)
    requires
        tame_seq(ch),
        c.num_spaces >= 1,
        doc_fold(root, ch, i, c, col, flag) is Ok,
    ensures
        ({
            let t = doc_fold(root, ch, i, c, col, flag)->Ok_0.0;
            let cf = doc_fold(root, ch, i, c, col, flag)->Ok_0.1;
            let ff = doc_fold(root, ch, i, c, col, flag)->Ok_0.2;
            &&& no_triple_nl(t)
            &&& (flag ==> (t.len() > 0 ==> t[0] != '\n'))
            &&& !(t.len() >= 2 && t[0] == '\n' && t[1] == '\n')
            &&& ((t.len() >= 2 && t[t.len() - 1] == '\n' && t[t.len() - 2] == '\n') ==> cf == 0)
            &&& ((t.len() == 1 && t[0] == '\n') ==> cf == 0)
            &&& (t.len() == 0 ==> cf == col && ff == flag)
        }),
    decreases ch.len() - i,
{
    lemma_literals();
    if 0 <= i < ch.len() {
        let w = ch[i];
        if kind_of(w.kind@) == NodeKind::Blank {
            if flag {
                lemma_doc_shaped(root, ch, i + 1, c, col, flag);
            } else {
                lemma_doc_shaped(root, ch, i + 1, c, 0, true);
                let rt = doc_fold(root, ch, i + 1, c, 0, true)->Ok_0.0;
                let rcf = doc_fold(root, ch, i + 1, c, 0, true)->Ok_0.1;
                let t = "\n"@ + rt;
                assert(no_triple_nl("\n"@));
                lemma_nt_concat("\n"@, rt);
                assert(t[0] == '\n');
                if rt.len() > 0 {
                    assert(t[1] == rt[0]);
                    assert(rt[0] != '\n');
                }
                if t.len() >= 2 && t[t.len() - 1] == '\n' && t[t.len() - 2] == '\n' {
                    assert(rt.len() >= 1);
                    if rt.len() == 1 {
                        assert(t[t.len() - 1] == rt[0]);
                        assert(false);
                    } else {
                        assert(t[t.len() - 1] == rt[rt.len() - 1]);
                        assert(t[t.len() - 2] == rt[rt.len() - 2]);
                    }
                }
                if t.len() == 1 && t[0] == '\n' {
                    assert(rt.len() == 0);
                }
            }
        } else {
            let n0 = w.children@[0];
            lemma_tame_at(ch, i);
            lemma_tame_at(w.children@, 0);
            lemma_item_shaped(n0, c, col);
            let t0 = item_render(n0, c, col)->Ok_0.0;
            let col1 = item_render(n0, c, col)->Ok_0.1;
            let flag1: bool = if t0.len() > 0 { false } else { flag };
            lemma_doc_shaped(root, ch, i + 1, c, col1, flag1);
            let rt = doc_fold(root, ch, i + 1, c, col1, flag1)->Ok_0.0;
            let rcf = doc_fold(root, ch, i + 1, c, col1, flag1)->Ok_0.1;
            let t = t0 + rt;
            if t0.len() == 0 {
                assert(t =~= rt);
            } else {
                assert(no_triple_nl(t0)) by {
                    assert forall|j: int|
                        0 <= j && j + 2 < t0.len() implies !(#[trigger] t0[j] == '\n' && t0[j + 1]
                        == '\n' && t0[j + 2] == '\n') by {
                        assert(!(t0[j] == '\n' && t0[j + 1] == '\n'));
                    }
                }
                lemma_nt_concat(t0, rt);
                assert(t[0] == t0[0]);
                if t.len() >= 2 && t[t.len() - 1] == '\n' && t[t.len() - 2] == '\n' {
                    if rt.len() == 0 {
                        assert(t[t.len() - 1] == t0[t0.len() - 1]);
                        assert(t[t.len() - 2] == t0[t0.len() - 2]);
                        assert(false);
                    } else if rt.len() == 1 {
                        assert(t[t.len() - 1] == rt[0]);
                        assert(t[t.len() - 2] == t0[t0.len() - 1]);
                        assert(rcf == 0);
                    } else {
                        assert(t[t.len() - 1] == rt[rt.len() - 1]);
                        assert(t[t.len() - 2] == rt[rt.len() - 2]);
                    }
                }
            }
        }
    }
}

/// Blank-line collapsing: for a tree whose texts satisfy the grammar
/// guarantees stated by `tame`, a successful run never emits two adjacent
/// blank lines — the output holds no three consecutive line breaks — and its
/// first line is never blank.
pub proof fn lemma_blank_line_collapsing(tree: SyntaxTree)
    requires
        tame(tree.root),
    ensures
        match spec_beautify(tree) {
            Ok(out) => no_triple_nl(out) && (out.len() > 0 ==> out[0] != '\n'),
            Err(_) => true,
        },
{
    lemma_literals();
    if !tree.has_error {
        let c = Ctx { level: 0, extra: 0, num_spaces: 2 };
        let r = doc_fold(tree.root, tree.root.children@, 0, c, 0, true);
        if r is Ok {
            lemma_doc_shaped(tree.root, tree.root.children@, 0, c, 0, true);
            let t = r->Ok_0.0;
            let cf = r->Ok_0.1;
            if cf != 0 {
                let out = t + "\n"@;
                assert(t.len() > 0);
                assert(!(t.len() >= 2 && t[t.len() - 1] == '\n' && t[t.len() - 2] == '\n'));
                assert(no_triple_nl("\n"@));
                lemma_nt_concat(t, "\n"@);
                assert(out[0] == t[0]);
            }
        }
    }
}

proof fn lemma_blanks_skipped(root: Node, ch: Seq<Node>, i: int, j: int, c: Ctx, col: nat)
    requires
        0 <= i <= j <= ch.len(),
        forall|m: int| i <= m < j ==> kind_of((#[trigger] ch[m]).kind@) == NodeKind::Blank,
    ensures
        doc_fold(root, ch, i, c, col, true) == doc_fold(root, ch, j, c, col, true),
    decreases j - i,
{
    if i < j {
        lemma_blanks_skipped(root, ch, i + 1, j, c, col);
    }
}

/// Blank-line collapsing, run form: once anything has been emitted, a run
/// of consecutive blank-line markers — however long — contributes exactly
/// one line break to the output, and what follows the run is rendered as if
/// only that one separator stood there.
pub proof fn lemma_blank_run_collapses(root: Node, ch: Seq<Node>, i: int, j: int, c: Ctx, col: nat)
    requires
        0 <= i < j <= ch.len(),
        forall|m: int| i <= m < j ==> kind_of((#[trigger] ch[m]).kind@) == NodeKind::Blank,
    ensures
        doc_fold(root, ch, i, c, col, false) == match doc_fold(root, ch, j, c, 0, true) {
            Ok((t, cf, ff)) => Ok::<(Seq<char>, nat, bool), Node>(("\n"@ + t, cf, ff)),
            Err(e) => Err(e),
        },
{
    lemma_blanks_skipped(root, ch, i + 1, j, c, 0);
}

} // verus!
