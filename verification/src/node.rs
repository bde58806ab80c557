//! The concrete syntax tree the formatter consumes: nodes with a grammar
//! kind tag, source text, start position and ordered children, plus the
//! depth-first locator for the first error node.
use vstd::prelude::*;

verus! {

broadcast use vstd::seq::group_seq_axioms, vstd::std_specs::vec::group_vec_axioms;

/// One node of the syntax tree.  `text` is the source text the node spans;
/// `row` and `col` are its 0-based start position; `children` are in source
/// order; `named` marks grammar-named nodes as opposed to punctuation and
/// trivia; `error` marks grammar error nodes.
pub struct Node {
    pub kind: String,
    pub named: bool,
    pub error: bool,
    pub text: String,
    pub row: usize,
    pub col: usize,
    pub children: Vec<Node>,
}

/// A whole parsed document: the root node and the provider's flag saying
/// whether the tree contains an error anywhere.
pub struct SyntaxTree {
    pub has_error: bool,
    pub root: Node,
}

/// The closed set of grammar constructs the formatter distinguishes.
/// Anything else is `Other` and is skipped or copied as the layout rules say.
#[derive(Clone, Copy, Debug, PartialEq, Eq, Structural)]
pub enum NodeKind {
    Blank,
    Comment,
    BlockComment,
    BlockTest,
    Directive,
    OptionDir,
    AccountDirective,
    CommodityDirective,
    TagDirective,
    WordDirective,
    CharDirective,
    AccountSubdirective,
    CommoditySubdirective,
    AliasSub,
    NoteSub,
    AssertSub,
    CheckSub,
    PayeeSub,
    DefaultSub,
    FormatSub,
    NomarketSub,
    Xact,
    PlainXact,
    PeriodicXact,
    AutomatedXact,
    Date,
    EffectiveDate,
    Status,
    Code,
    Payee,
    NoteItem,
    Posting,
    Account,
    Amount,
    Quantity,
    NegativeQuantity,
    Commodity,
    Price,
    BalanceAssertion,
    Interval,
    Query,
    Tag,
    Value,
    Whitespace,
    Other,
}

/// The construct a kind tag names.
#[verifier::opaque]
pub open spec fn kind_of(k: Seq<char>) -> NodeKind {
    if k == "\n"@ {
        NodeKind::Blank
    } else if k == "comment"@ {
        NodeKind::Comment
    } else if k == "block_comment"@ {
        NodeKind::BlockComment
    } else if k == "block_test"@ {
        NodeKind::BlockTest
    } else if k == "directive"@ {
        NodeKind::Directive
    } else if k == "option"@ {
        NodeKind::OptionDir
    } else if k == "account_directive"@ {
        NodeKind::AccountDirective
    } else if k == "commodity_directive"@ {
        NodeKind::CommodityDirective
    } else if k == "tag_directive"@ {
        NodeKind::TagDirective
    } else if k == "word_directive"@ {
        NodeKind::WordDirective
    } else if k == "char_directive"@ {
        NodeKind::CharDirective
    } else if k == "account_subdirective"@ {
        NodeKind::AccountSubdirective
    } else if k == "commodity_subdirective"@ {
        NodeKind::CommoditySubdirective
    } else if k == "alias_subdirective"@ {
        NodeKind::AliasSub
    } else if k == "note_subdirective"@ {
        NodeKind::NoteSub
    } else if k == "assert_subdirective"@ {
        NodeKind::AssertSub
    } else if k == "check_subdirective"@ {
        NodeKind::CheckSub
    } else if k == "payee_subdirective"@ {
        NodeKind::PayeeSub
    } else if k == "default_subdirective"@ {
        NodeKind::DefaultSub
    } else if k == "format_subdirective"@ {
        NodeKind::FormatSub
    } else if k == "nomarket_subdirective"@ {
        NodeKind::NomarketSub
    } else if k == "xact"@ {
        NodeKind::Xact
    } else if k == "plain_xact"@ {
        NodeKind::PlainXact
    } else if k == "periodic_xact"@ {
        NodeKind::PeriodicXact
    } else if k == "automated_xact"@ {
        NodeKind::AutomatedXact
    } else if k == "date"@ {
        NodeKind::Date
    } else if k == "effective_date"@ {
        NodeKind::EffectiveDate
    } else if k == "status"@ {
        NodeKind::Status
    } else if k == "code"@ {
        NodeKind::Code
    } else if k == "payee"@ {
        NodeKind::Payee
    } else if k == "note"@ {
        NodeKind::NoteItem
    } else if k == "posting"@ {
        NodeKind::Posting
    } else if k == "account"@ {
        NodeKind::Account
    } else if k == "amount"@ {
        NodeKind::Amount
    } else if k == "quantity"@ {
        NodeKind::Quantity
    } else if k == "negative_quantity"@ {
        NodeKind::NegativeQuantity
    } else if k == "commodity"@ {
        NodeKind::Commodity
    } else if k == "price"@ {
        NodeKind::Price
    } else if k == "balance_assertion"@ {
        NodeKind::BalanceAssertion
    } else if k == "interval"@ {
        NodeKind::Interval
    } else if k == "query"@ {
        NodeKind::Query
    } else if k == "tag"@ {
        NodeKind::Tag
    } else if k == "value"@ {
        NodeKind::Value
    } else if k == "whitespace"@ {
        NodeKind::Whitespace
    } else {
        NodeKind::Other
    }
}

impl Node {
    /// Whether this node's kind tag is exactly `k`.
    pub fn kind_is(&self, k: &str) -> (b: bool)
        ensures
            b == (self.kind@ == k@),
    {
        self.kind.eq(&k.to_owned())
    }

    /// The construct this node is.
    pub fn get_kind(&self) -> (r: NodeKind)
        ensures
            r == kind_of(self.kind@),
    {
        proof {
            reveal(kind_of);
        }
        if self.kind_is("\n") {
            NodeKind::Blank
        } else if self.kind_is("comment") {
            NodeKind::Comment
        } else if self.kind_is("block_comment") {
            NodeKind::BlockComment
        } else if self.kind_is("block_test") {
            NodeKind::BlockTest
        } else if self.kind_is("directive") {
            NodeKind::Directive
        } else if self.kind_is("option") {
            NodeKind::OptionDir
        } else if self.kind_is("account_directive") {
            NodeKind::AccountDirective
        } else if self.kind_is("commodity_directive") {
            NodeKind::CommodityDirective
        } else if self.kind_is("tag_directive") {
            NodeKind::TagDirective
        } else if self.kind_is("word_directive") {
            NodeKind::WordDirective
        } else if self.kind_is("char_directive") {
            NodeKind::CharDirective
        } else if self.kind_is("account_subdirective") {
            NodeKind::AccountSubdirective
        } else if self.kind_is("commodity_subdirective") {
            NodeKind::CommoditySubdirective
        } else if self.kind_is("alias_subdirective") {
            NodeKind::AliasSub
        } else if self.kind_is("note_subdirective") {
            NodeKind::NoteSub
        } else if self.kind_is("assert_subdirective") {
            NodeKind::AssertSub
        } else if self.kind_is("check_subdirective") {
            NodeKind::CheckSub
        } else if self.kind_is("payee_subdirective") {
            NodeKind::PayeeSub
        } else if self.kind_is("default_subdirective") {
            NodeKind::DefaultSub
        } else if self.kind_is("format_subdirective") {
            NodeKind::FormatSub
        } else if self.kind_is("nomarket_subdirective") {
            NodeKind::NomarketSub
        } else if self.kind_is("xact") {
            NodeKind::Xact
        } else if self.kind_is("plain_xact") {
            NodeKind::PlainXact
        } else if self.kind_is("periodic_xact") {
            NodeKind::PeriodicXact
        } else if self.kind_is("automated_xact") {
            NodeKind::AutomatedXact
        } else if self.kind_is("date") {
            NodeKind::Date
        } else if self.kind_is("effective_date") {
            NodeKind::EffectiveDate
        } else if self.kind_is("status") {
            NodeKind::Status
        } else if self.kind_is("code") {
            NodeKind::Code
        } else if self.kind_is("payee") {
            NodeKind::Payee
        } else if self.kind_is("note") {
            NodeKind::NoteItem
        } else if self.kind_is("posting") {
            NodeKind::Posting
        } else if self.kind_is("account") {
            NodeKind::Account
        } else if self.kind_is("amount") {
            NodeKind::Amount
        } else if self.kind_is("quantity") {
            NodeKind::Quantity
        } else if self.kind_is("negative_quantity") {
            NodeKind::NegativeQuantity
        } else if self.kind_is("commodity") {
            NodeKind::Commodity
        } else if self.kind_is("price") {
            NodeKind::Price
        } else if self.kind_is("balance_assertion") {
            NodeKind::BalanceAssertion
        } else if self.kind_is("interval") {
            NodeKind::Interval
        } else if self.kind_is("query") {
            NodeKind::Query
        } else if self.kind_is("tag") {
            NodeKind::Tag
        } else if self.kind_is("value") {
            NodeKind::Value
        } else if self.kind_is("whitespace") {
            NodeKind::Whitespace
        } else {
            NodeKind::Other
        }
    }
}

/// How a child is selected when a formatter looks for one.
#[derive(Clone, Copy, Debug, PartialEq, Eq, Structural)]
pub enum Selector {
    /// The first named child of the given kind.
    NamedOfKind(NodeKind),
    /// The first child, named or not, of the given kind.
    AnyOfKind(NodeKind),
    /// The first named child of any kind.
    AnyNamed,
    /// The first named child holding a quantity, positive or negative.
    NamedQuantity,
}

/// Whether `c` is what `sel` looks for.
pub open spec fn sel_matches(c: Node, sel: Selector) -> bool {
    match sel {
        Selector::NamedOfKind(k) => c.named && kind_of(c.kind@) == k,
        Selector::AnyOfKind(k) => kind_of(c.kind@) == k,
        Selector::AnyNamed => c.named,
        Selector::NamedQuantity => c.named && (kind_of(c.kind@) == NodeKind::Quantity || kind_of(
            c.kind@,
        ) == NodeKind::NegativeQuantity),
    }
}

/// The first element of `s` that `sel` selects, in order.
pub open spec fn first_sel(s: Seq<Node>, sel: Selector) -> Option<Node>
    decreases s.len(),
{
    if s.len() == 0 {
        None
    } else if sel_matches(s[0], sel) {
        Some(s[0])
    } else {
        first_sel(s.drop_first(), sel)
    }
}

pub proof fn lemma_first_sel_skip(s: Seq<Node>, sel: Selector, i: nat)
    requires
        i <= s.len(),
        forall|j: int| 0 <= j < i ==> !sel_matches(#[trigger] s[j], sel),
    ensures
        first_sel(s, sel) == first_sel(s.skip(i as int), sel),
    decreases i,
{
    if i == 0 {
        assert(s.skip(0) =~= s);
    } else {
        assert(!sel_matches(s[0], sel));
        assert(s.drop_first() =~= s.skip(1));
        lemma_first_sel_skip(s.skip(1), sel, (i - 1) as nat);
        assert(s.skip(1).skip(i - 1) =~= s.skip(i as int));
    }
}

fn sel_matches_exec(c: &Node, sel: Selector) -> (b: bool)
    ensures
        b == sel_matches(*c, sel),
{
    match sel {
        Selector::NamedOfKind(k) => c.named && c.get_kind() == k,
        Selector::AnyOfKind(k) => c.get_kind() == k,
        Selector::AnyNamed => c.named,
        Selector::NamedQuantity => c.named && {
            let g = c.get_kind();
            g == NodeKind::Quantity || g == NodeKind::NegativeQuantity
        },
    }
}

/// The first child among `children` that `sel` selects, as the formatters
/// look children up.
pub fn find_sel<'a>(children: &'a Vec<Node>, sel: Selector) -> (r: Option<&'a Node>)
    ensures
        match first_sel(children@, sel) {
            Some(n) => r matches Some(m) && *m == n,
            None => r is None,
        },
{
    let mut i: usize = 0;
    while i < children.len()
        invariant
            i <= children@.len(),
            forall|j: int| 0 <= j < i ==> !sel_matches(#[trigger] children@[j], sel),
        decreases children@.len() - i,
    {
        if sel_matches_exec(&children[i], sel) {
            proof {
                lemma_first_sel_skip(children@, sel, i as nat);
                assert(children@.skip(i as int)[0] == children@[i as int]);
            }
            return Some(&children[i]);
        }
        i = i + 1;
    }
    proof {
        lemma_first_sel_skip(children@, sel, i as nat);
        assert(children@.skip(i as int).len() == 0);
    }
    None
}

/// The first error node of the subtree rooted at `n`, depth-first,
/// children in order.
pub open spec fn first_err(n: Node) -> Option<Node>
    decreases n,
{
    if n.error {
        Some(n)
    } else {
        first_err_in(n.children@)
    }
}

/// The first error node found under any element of `s`, in order.
pub open spec fn first_err_in(s: Seq<Node>) -> Option<Node>
    decreases s,
{
    if s.len() == 0 {
        None
    } else {
        match first_err(s[0]) {
            Some(e) => Some(e),
            None => first_err_in(s.drop_first()),
        }
    }
}

pub proof fn lemma_first_err_in_skip(s: Seq<Node>, i: nat)
    requires
        i <= s.len(),
        forall|j: int| 0 <= j < i ==> first_err(#[trigger] s[j]) is None,
    ensures
        first_err_in(s) == first_err_in(s.skip(i as int)),
    decreases i,
{
    if i == 0 {
        assert(s.skip(0) =~= s);
    } else {
        assert(first_err(s[0]) is None);
        assert(s.drop_first() =~= s.skip(1));
        lemma_first_err_in_skip(s.skip(1), (i - 1) as nat);
        assert(s.skip(1).skip(i - 1) =~= s.skip(i as int));
    }
}

/// Depth-first search for the first error node; returns its 0-based start
/// position.
pub fn find_first_error(n: &Node) -> (r: Option<(usize, usize)>)
    ensures
        match first_err(*n) {
            Some(e) => r == Some((e.row, e.col)),
            None => r is None,
        },
    decreases *n,
{
    if n.error {
        return Some((n.row, n.col));
    }
    let mut i: usize = 0;
    while i < n.children.len()
        invariant
            i <= n.children@.len(),
            !n.error,
            forall|j: int| 0 <= j < i ==> first_err(#[trigger] n.children@[j]) is None,
        decreases n.children@.len() - i,
    {
        let c = &n.children[i];
        let sub = find_first_error(c);
        match sub {
            Some(p) => {
                proof {
                    lemma_first_err_in_skip(n.children@, i as nat);
                    assert(n.children@.skip(i as int)[0] == n.children@[i as int]);
                }
                return Some(p);
            },
            None => {},
        }
        i = i + 1;
    }
    proof {
        lemma_first_err_in_skip(n.children@, i as nat);
        assert(n.children@.skip(i as int).len() == 0);
    }
    None
}

} // verus!
