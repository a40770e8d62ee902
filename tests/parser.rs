use lisp_vm::{parse, ASTNode, Parser};

fn parse_string(s: &str) -> Vec<ASTNode> {
    parse(s)
}

fn quote(n: ASTNode) -> ASTNode {
    ASTNode::Quote(Box::new(n))
}

fn id(s: &str) -> ASTNode {
    ASTNode::Identifier(s.to_string())
}

#[test]
fn test_list() {
    let testing = "(call \"1\" 2 test)";
    let nodes = parse_string(testing);
    for i in &nodes {
        println!("{i:?}");
    }
    assert_eq!(
        nodes,
        vec![ASTNode::List(vec![
            id("call"),
            ASTNode::StringLiteral("1".into()),
            ASTNode::NumberLiteral(2),
            id("test"),
        ])]
    );
}

#[test]
fn test_string() {
    let input = "\"12345`'sxz   asc~''sdf\"";
    let nodes = parse_string(input);
    assert_eq!(
        nodes[0],
        ASTNode::StringLiteral("12345`'sxz   asc~''sdf".into())
    );
}

#[test]
fn test_numbers() {
    let input = "-100500 100500";
    let nodes = parse_string(input);
    assert_eq!(nodes[0], ASTNode::NumberLiteral(-100500));
    assert_eq!(nodes[1], ASTNode::NumberLiteral(100500));
}

#[test]
fn test_quotes() {
    let input = "'123 'abc '\"abc\" '(a b c d)";
    let nodes = parse_string(input);
    assert_eq!(nodes[0], quote(ASTNode::NumberLiteral(123)));
    assert_eq!(nodes[1], quote(ASTNode::Identifier("abc".into())));
    assert_eq!(nodes[2], quote(ASTNode::StringLiteral("abc".into())));
    assert_eq!(
        nodes[3],
        quote(ASTNode::List(vec![
            ASTNode::Identifier("a".into()),
            ASTNode::Identifier("b".into()),
            ASTNode::Identifier("c".into()),
            ASTNode::Identifier("d".into()),
        ]))
    );
}

#[test]
fn unbalanced_input_keeps_only_closed_nodes() {
    assert_eq!(parse_string("(a (b)"), Vec::<ASTNode>::new());
    assert_eq!(parse_string("x (a (b)"), vec![id("x")]);
    assert_eq!(parse_string("(a) (b"), vec![ASTNode::List(vec![id("a")])]);
}

#[test]
fn trailing_quote_and_stray_close_end_the_stream() {
    assert_eq!(parse_string("1 '"), vec![ASTNode::NumberLiteral(1)]);
    assert_eq!(parse_string("1 ) 2"), vec![ASTNode::NumberLiteral(1)]);
    assert_eq!(parse_string("'"), Vec::<ASTNode>::new());
}

#[test]
fn unrecognized_character_truncates() {
    assert_eq!(parse_string("1 2 # 3"), vec![ASTNode::NumberLiteral(1), ASTNode::NumberLiteral(2)]);
    assert_eq!(parse_string("\"open"), Vec::<ASTNode>::new());
}

#[test]
fn keywords_and_identifiers() {
    assert_eq!(
        parse_string("true false null trueish -x - +"),
        vec![
            ASTNode::BoolLiteral(true),
            ASTNode::BoolLiteral(false),
            ASTNode::Null,
            id("trueish"),
            id("-x"),
            id("-"),
            id("+"),
        ]
    );
}

#[test]
fn number_edges() {
    assert_eq!(
        parse_string("-9223372036854775808 9223372036854775807 -7abc"),
        vec![
            ASTNode::NumberLiteral(i64::MIN),
            ASTNode::NumberLiteral(i64::MAX),
            ASTNode::NumberLiteral(-7),
            id("abc"),
        ]
    );
    assert_eq!(parse_string("1 9223372036854775808 2"), vec![ASTNode::NumberLiteral(1)]);
}

#[test]
fn whitespace_kinds_are_skipped() {
    assert_eq!(
        parse_string(" \t\n\u{c}(a\tb)"),
        vec![ASTNode::List(vec![id("a"), id("b")])]
    );
}

#[test]
fn parser_hands_out_nodes_one_by_one() {
    let mut p = Parser::new("1 (x) 'y");
    assert_eq!(p.next(), Some(ASTNode::NumberLiteral(1)));
    assert_eq!(p.next(), Some(ASTNode::List(vec![id("x")])));
    assert_eq!(p.next(), Some(quote(id("y"))));
    assert_eq!(p.next(), None);
    assert_eq!(p.next(), None);
}

#[test]
fn printed_tree_parses_back() {
    let tree = ASTNode::List(vec![
        id("f"),
        ASTNode::NumberLiteral(-3),
        ASTNode::StringLiteral("s t".into()),
        quote(ASTNode::List(vec![ASTNode::BoolLiteral(false), ASTNode::Null])),
        ASTNode::List(vec![]),
    ]);
    let text = "(f -3 \"s t\" '(false null) ())";
    assert_eq!(parse_string(text), vec![tree]);
}

#[test]
fn to_text_parses_back_to_the_same_tree() {
    let tree = ASTNode::List(vec![
        id("gcd"),
        ASTNode::NumberLiteral(i64::MIN),
        ASTNode::NumberLiteral(0),
        ASTNode::NumberLiteral(1234),
        ASTNode::StringLiteral("a b".into()),
        quote(ASTNode::List(vec![ASTNode::BoolLiteral(true), ASTNode::Null])),
        ASTNode::List(vec![]),
    ]);
    let text = tree.to_text();
    assert_eq!(text, "(gcd -9223372036854775808 0 1234 \"a b\" '(true null ) () )");
    assert_eq!(parse_string(&text), vec![tree]);
}

#[test]
fn to_text_of_atoms() {
    assert_eq!(ASTNode::NumberLiteral(-45).to_text(), "-45");
    assert_eq!(quote(id("x")).to_text(), "'x");
    assert_eq!(ASTNode::BoolLiteral(false).to_text(), "false");
}

#[test]
fn balance_of_input_lines() {
    assert!(lisp_vm::balanced("(+ 1 (mod 5 2))\n"));
    assert!(!lisp_vm::balanced("(a (b)"));
    assert!(lisp_vm::balanced(""));
    assert!(!lisp_vm::balanced(")"));
}
