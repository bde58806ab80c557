use ledger_fmt::beautify;
use ledger_fmt::errors::FmtError;
use ledger_fmt::node::{Node, SyntaxTree};

fn node(kind: &str, named: bool, text: &str, children: Vec<Node>) -> Node {
    Node {
        kind: kind.to_string(),
        named,
        error: false,
        text: text.to_string(),
        row: 0,
        col: 0,
        children,
    }
}

fn journal_item(inner: Node) -> Node {
    node("journal_item", true, "", vec![inner])
}

fn blank() -> Node {
    node("\n", false, "\n", vec![])
}

fn tree(children: Vec<Node>) -> SyntaxTree {
    SyntaxTree { has_error: false, root: node("source_file", true, "", children) }
}

fn account_directive(name: &str, subs: Vec<Node>) -> Node {
    let mut children = vec![node("account", true, name, vec![])];
    children.extend(subs);
    node("directive", true, "", vec![node("account_directive", true, "", children)])
}

fn note_subdirective(value: &str) -> Node {
    node(
        "account_subdirective",
        false,
        "",
        vec![node("note_subdirective", true, "", vec![node("value", true, value, vec![])])],
    )
}

#[test]
fn account_note_subdirective_reindented() {
    // A subdirective indented with four spaces in the source comes out at
    // exactly one two-space unit.
    let t = tree(vec![journal_item(account_directive(
        "Assets:Checking",
        vec![note_subdirective("Primary account")],
    ))]);
    let out = beautify(&t).unwrap();
    assert_eq!(out, "account Assets:Checking\n  note Primary account\n");
}

#[test]
fn beautify_is_deterministic() {
    // Two runs over the same tree produce byte-identical output.
    let t = tree(vec![journal_item(account_directive(
        "Assets:Checking",
        vec![note_subdirective("Primary account")],
    ))]);
    let once = beautify(&t).unwrap();
    let again = beautify(&t).unwrap();
    assert_eq!(once, again);
}

#[test]
fn three_blank_lines_collapse_to_one() {
    let t = tree(vec![
        journal_item(account_directive("Assets", vec![])),
        blank(),
        blank(),
        blank(),
        journal_item(account_directive("Expenses", vec![])),
    ]);
    let out = beautify(&t).unwrap();
    assert_eq!(out, "account Assets\n\naccount Expenses\n");
}

#[test]
fn leading_blank_lines_are_dropped() {
    let t = tree(vec![blank(), blank(), journal_item(account_directive("Assets", vec![]))]);
    let out = beautify(&t).unwrap();
    assert_eq!(out, "account Assets\n");
}

#[test]
fn trailing_blank_run_leaves_single_blank_line() {
    let t = tree(vec![journal_item(account_directive("Assets", vec![])), blank(), blank()]);
    let out = beautify(&t).unwrap();
    assert_eq!(out, "account Assets\n\n");
}

#[test]
fn empty_document_formats_to_nothing() {
    let t = tree(vec![]);
    assert_eq!(beautify(&t).unwrap(), "");
}

fn amount(quantity_kind: &str, quantity: &str, commodity: Option<&str>) -> Node {
    let mut children = vec![node(quantity_kind, true, quantity, vec![])];
    if let Some(c) = commodity {
        children.push(node("commodity", true, c, vec![]));
    }
    node("amount", true, "", children)
}

fn posting(children: Vec<Node>) -> Node {
    node("posting", true, "", children)
}

fn plain_xact(header: Vec<Node>, body: Vec<Node>) -> Node {
    let mut children = header;
    children.extend(body);
    node("xact", true, "", vec![node("plain_xact", true, "", children)])
}

fn date(d: &str) -> Node {
    node("date", true, d, vec![])
}

#[test]
fn posting_amount_aligned_to_sixty_column_target() {
    // Account text ends at column 17; the quantity "100.00" is padded so the
    // token "100.00 USD" sits against the 60-column target.
    let t = tree(vec![journal_item(plain_xact(
        vec![date("2024/01/01")],
        vec![posting(vec![
            node("account", true, "Assets:Checking", vec![]),
            amount("quantity", "100.00", Some("USD")),
        ])],
    ))]);
    let out = beautify(&t).unwrap();
    let expected = format!("2024/01/01\n  Assets:Checking{}100.00 USD\n", " ".repeat(36));
    assert_eq!(out, expected);
    // The quantity's first character stands at column 60 - 6 - 1 = 53.
    let line = out.lines().nth(1).unwrap();
    assert_eq!(line.find("100.00").unwrap(), 53);
}

#[test]
fn posting_amount_overflows_gracefully_past_target() {
    // An account so long the line passes column 60: no padding, the amount
    // follows immediately.
    let long = "Assets:".repeat(10);
    let t = tree(vec![journal_item(plain_xact(
        vec![date("2024/01/01")],
        vec![posting(vec![
            node("account", true, &long, vec![]),
            amount("quantity", "1.00", None),
        ])],
    ))]);
    let out = beautify(&t).unwrap();
    assert_eq!(out, format!("2024/01/01\n  {}1.00\n", long));
}

#[test]
fn posting_without_optional_fields_synthesizes_nothing() {
    let t = tree(vec![journal_item(plain_xact(
        vec![date("2024/01/01")],
        vec![posting(vec![node("account", true, "Assets", vec![])])],
    ))]);
    let out = beautify(&t).unwrap();
    assert_eq!(out, "2024/01/01\n  Assets\n");
}

#[test]
fn plain_xact_without_code_gains_no_empty_code_field() {
    let t = tree(vec![journal_item(plain_xact(
        vec![date("2024/01/01"), node("payee", true, "Grocer", vec![])],
        vec![],
    ))]);
    let out = beautify(&t).unwrap();
    assert_eq!(out, "2024/01/01 Grocer\n");
}

#[test]
fn plain_xact_full_header_order() {
    let t = tree(vec![journal_item(plain_xact(
        vec![
            date("2024/01/01"),
            node("effective_date", true, "2024/01/05", vec![]),
            node("status", true, "*", vec![]),
            node("code", true, "(42)", vec![]),
            node("payee", true, "Grocer", vec![]),
        ],
        vec![],
    ))]);
    let out = beautify(&t).unwrap();
    assert_eq!(out, "2024/01/01=2024/01/05 * (42) Grocer\n");
}

#[test]
fn posting_fallback_spacing_before_note() {
    let t = tree(vec![journal_item(plain_xact(
        vec![date("2024/01/01")],
        vec![posting(vec![
            node("account", true, "Assets", vec![]),
            node("note", true, "; memo ", vec![]),
        ])],
    ))]);
    let out = beautify(&t).unwrap();
    let expected = format!("2024/01/01\n  Assets{}; memo\n", " ".repeat(52));
    assert_eq!(out, expected);
}

#[test]
fn posting_with_price_and_balance_assertion() {
    let t = tree(vec![journal_item(plain_xact(
        vec![date("2024/01/01")],
        vec![posting(vec![
            node("account", true, "Assets", vec![]),
            amount("quantity", "2", Some("AAPL")),
            node(
                "price",
                true,
                "",
                vec![node("@", false, "@", vec![]), amount("quantity", "100.00", Some("USD"))],
            ),
            node(
                "balance_assertion",
                true,
                "",
                vec![amount("quantity", "4", Some("AAPL"))],
            ),
        ])],
    ))]);
    let out = beautify(&t).unwrap();
    // col after "  Assets" is 8; quantity "2" has length 1, so padding is
    // 60 - 8 - 1 - 1 = 50.
    let expected = format!("2024/01/01\n  Assets{}2 AAPL @ 100.00 USD = 4 AAPL\n", " ".repeat(50));
    assert_eq!(out, expected);
}

#[test]
fn commodity_format_subdirective_preserves_amount_verbatim() {
    let fmt_sub = node(
        "commodity_subdirective",
        false,
        "",
        vec![node(
            "format_subdirective",
            true,
            "",
            vec![amount("negative_quantity", " -1,000.00 ", Some("USD"))],
        )],
    );
    let t = tree(vec![journal_item(node(
        "directive",
        true,
        "",
        vec![node(
            "commodity_directive",
            true,
            "",
            vec![node("commodity", true, "USD", vec![]), fmt_sub],
        )],
    ))]);
    let out = beautify(&t).unwrap();
    assert_eq!(out, "commodity USD\n  format -1,000.00 USD\n");
}

#[test]
fn syntax_error_reports_one_based_line() {
    let mut bad = node("ERROR", true, "oops", vec![]);
    bad.error = true;
    bad.row = 2;
    let root = node("source_file", true, "", vec![journal_item(bad)]);
    let t = SyntaxTree { has_error: true, root };
    let e = beautify(&t).unwrap_err();
    assert_eq!(e, FmtError::SyntaxError { line: 3 });
    assert_eq!(e.message(), "Parsed file contains errors (at line 3).");
}

#[test]
fn error_flag_without_error_node_is_inconsistency() {
    let t = SyntaxTree {
        has_error: true,
        root: node("source_file", true, "", vec![]),
    };
    let e = beautify(&t).unwrap_err();
    assert_eq!(e, FmtError::InconsistentTree);
    assert_eq!(e.message(), "An error occurred, but no ERROR node was found.");
}

#[test]
fn amount_without_quantity_is_structural_error() {
    let mut am = node("amount", true, "", vec![node("commodity", true, "USD", vec![])]);
    am.row = 5;
    am.col = 7;
    let t = tree(vec![journal_item(plain_xact(
        vec![date("2024/01/01")],
        vec![posting(vec![node("account", true, "Assets", vec![]), am])],
    ))]);
    let e = beautify(&t).unwrap_err();
    assert_eq!(e, FmtError::MissingChild { row: 5, col: 7 });
    assert_eq!(e.message(), "Error accessing token around line 5 col 7");
}

#[test]
fn periodic_xact_header_and_posting() {
    let t = tree(vec![journal_item(node(
        "xact",
        true,
        "",
        vec![node(
            "periodic_xact",
            true,
            "",
            vec![
                node("interval", true, " monthly ", vec![]),
                posting(vec![
                    node("account", true, "Expenses:Rent", vec![]),
                    amount("quantity", "500", Some("EUR")),
                ]),
            ],
        )],
    ))]);
    let out = beautify(&t).unwrap();
    let expected = format!("~ monthly\n  Expenses:Rent{}500 EUR\n", " ".repeat(41));
    assert_eq!(out, expected);
}

#[test]
fn automated_xact_header_with_note() {
    let t = tree(vec![journal_item(node(
        "xact",
        true,
        "",
        vec![node(
            "automated_xact",
            true,
            "",
            vec![
                node("query", true, " expr true ", vec![]),
                node("note", true, "; doubled", vec![]),
            ],
        )],
    ))]);
    let out = beautify(&t).unwrap();
    assert_eq!(out, "= expr true ; doubled\n");
}

#[test]
fn word_directive_joins_tokens_with_single_spaces() {
    let t = tree(vec![journal_item(node(
        "directive",
        true,
        "",
        vec![node(
            "word_directive",
            true,
            "",
            vec![
                node("word", false, "include", vec![]),
                node("whitespace", false, "   ", vec![]),
                node("path", false, "  other.ledger ", vec![]),
            ],
        )],
    ))]);
    let out = beautify(&t).unwrap();
    assert_eq!(out, "include other.ledger\n");
}

#[test]
fn tag_directive_with_check_subdirective() {
    let t = tree(vec![journal_item(node(
        "directive",
        true,
        "",
        vec![node(
            "tag_directive",
            true,
            "",
            vec![
                node("tag", true, " receipt ", vec![]),
                node("check_subdirective", true, "", vec![node("value", true, "value > 0", vec![])]),
            ],
        )],
    ))]);
    let out = beautify(&t).unwrap();
    assert_eq!(out, "tag receipt\n  check value > 0\n");
}

#[test]
fn comments_are_copied_verbatim() {
    let t = tree(vec![
        journal_item(node("comment", true, "; a comment\n", vec![])),
        journal_item(account_directive("Assets", vec![])),
    ]);
    let out = beautify(&t).unwrap();
    assert_eq!(out, "; a comment\naccount Assets\n");
}

#[test]
fn unknown_items_are_skipped_silently() {
    let t = tree(vec![
        journal_item(node("mystery", true, "???", vec![])),
        journal_item(account_directive("Assets", vec![])),
    ]);
    let out = beautify(&t).unwrap();
    assert_eq!(out, "account Assets\n");
}

#[test]
fn account_default_subdirective_is_bare_keyword() {
    let sub = node(
        "account_subdirective",
        false,
        "",
        vec![node("default_subdirective", true, "", vec![])],
    );
    let t = tree(vec![journal_item(account_directive("Assets", vec![sub]))]);
    let out = beautify(&t).unwrap();
    assert_eq!(out, "account Assets\n  default\n");
}

#[test]
fn parse_failure_message() {
    let e = FmtError::ParseFailure;
    assert_eq!(e.message(), "Could not parse file.");
}

#[test]
fn price_without_amount_is_structural_error() {
    let mut price = node("price", true, "", vec![node("@", false, "@", vec![])]);
    price.row = 9;
    price.col = 4;
    let t = tree(vec![journal_item(plain_xact(
        vec![date("2024/01/01")],
        vec![posting(vec![
            node("account", true, "Assets", vec![]),
            price,
        ])],
    ))]);
    let e = beautify(&t).unwrap_err();
    assert_eq!(e, FmtError::MissingChild { row: 9, col: 4 });
}

#[test]
fn indent_emits_level_units_and_extra_spaces() {
    let mut st = ledger_fmt::layout::State::new();
    st.level = 3;
    st.extra = 1;
    st.indent();
    let out: String = st.out.iter().collect();
    assert_eq!(out, " ".repeat(7));
    assert_eq!(st.col, 7);
}

#[test]
fn println_resets_column_and_counts_rows() {
    let mut st = ledger_fmt::layout::State::new();
    st.print("abc");
    assert_eq!(st.col, 3);
    st.println("def");
    assert_eq!(st.col, 0);
    assert_eq!(st.row, 1);
    let out: String = st.out.iter().collect();
    assert_eq!(out, "abcdef\n");
}

#[test]
fn option_directive_copied_verbatim() {
    let t = tree(vec![journal_item(node(
        "directive",
        true,
        "",
        vec![node("option", true, "--sort date", vec![])],
    ))]);
    // The option line is unterminated until the run's final line break.
    assert_eq!(beautify(&t).unwrap(), "--sort date\n");
}

#[test]
fn skipped_item_between_blank_runs_adds_no_blank_line() {
    // An unrecognized item emits nothing, so blank runs on both sides of it
    // still collapse to a single blank line.
    let t = tree(vec![
        journal_item(account_directive("Assets", vec![])),
        blank(),
        journal_item(node("mystery", true, "", vec![])),
        blank(),
        blank(),
        journal_item(account_directive("Expenses", vec![])),
    ]);
    assert_eq!(beautify(&t).unwrap(), "account Assets\n\naccount Expenses\n");
}

#[test]
fn plain_xact_header_fields_in_fixed_order() {
    // Header fields come out in the fixed order date, effective date,
    // status, code, payee, whatever order the tree holds them in.
    let t = tree(vec![journal_item(plain_xact(
        vec![
            node("payee", true, "Grocer", vec![]),
            node("status", true, "*", vec![]),
            date("2024/01/01"),
        ],
        vec![],
    ))]);
    let out = beautify(&t).unwrap();
    assert_eq!(out, "2024/01/01 * Grocer\n");
}
