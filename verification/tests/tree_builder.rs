use ast2md::error::{SyntaxError, SyntaxErrorKind};
use ast2md::node_type::NodeType;
use ast2md::parser::Parser;
use ast2md::pipeline::parse_dump;
use ast2md::swift_dump_ast::{Attribute, DumpAst, Node};
use ast2md::token::Token;

fn ident(s: &str) -> Token {
    Token::Identifier(s.to_string())
}

fn build(tokens: Vec<Token>) -> Result<DumpAst, SyntaxError> {
    Parser::new(tokens).create_dump_ast()
}

fn err(kind: SyntaxErrorKind, position: usize) -> SyntaxError {
    SyntaxError { kind, position }
}

fn leaf(tag: &str) -> Node {
    Node::new(false, tag.to_string(), vec![], vec![], NodeType::classify(tag))
}

#[test]
fn leaf_node_without_attributes_or_children() {
    let ast = build(vec![Token::Open, ident("marker"), Token::Close]).unwrap();
    assert_eq!(ast.nodes, vec![leaf("marker")]);
    assert_eq!(ast.nodes[0].category, NodeType::OtherType);
}

#[test]
fn several_top_level_nodes_keep_their_order() {
    let ast = parse_dump("(a) (b)\n(c)").unwrap();
    let tags: Vec<&str> = ast.nodes.iter().map(|n| n.tag.as_str()).collect();
    assert_eq!(tags, vec!["a", "b", "c"]);
}

#[test]
fn attributes_are_classified_by_token_kind() {
    let ast = parse_dump("(var_decl \"x\" type=\"Int\" implicit access=internal)").unwrap();
    assert_eq!(ast.nodes.len(), 1);
    let node = &ast.nodes[0];
    assert_eq!(node.tag, "var_decl");
    assert_eq!(node.category, NodeType::Declaration);
    assert_eq!(
        node.attributes,
        vec![
            Attribute::Literal("x".to_string()),
            Attribute::Property { key: "type".to_string(), value: "Int".to_string() },
            Attribute::Flag("implicit".to_string()),
            Attribute::Property { key: "access".to_string(), value: "internal".to_string() },
        ]
    );
    assert!(node.children.is_empty());
}

#[test]
fn children_keep_source_order_even_between_attributes() {
    let ast = parse_dump("(p (c1) \"lit\" (c2 (g)) flag (c3))").unwrap();
    let p = &ast.nodes[0];
    let tags: Vec<&str> = p.children.iter().map(|n| n.tag.as_str()).collect();
    assert_eq!(tags, vec!["c1", "c2", "c3"]);
    assert_eq!(
        p.attributes,
        vec![Attribute::Literal("lit".to_string()), Attribute::Flag("flag".to_string())]
    );
    assert_eq!(p.children[1].children, vec![leaf("g")]);
}

#[test]
fn wrapper_has_no_tag_no_attributes_and_one_child() {
    let ast = parse_dump("(Original init: (integer_literal_expr value=1))").unwrap();
    let wrapper = &ast.nodes[0];
    assert!(wrapper.is_original);
    assert_eq!(wrapper.tag, "");
    assert!(wrapper.attributes.is_empty());
    assert_eq!(wrapper.category, NodeType::OtherType);
    assert_eq!(wrapper.children.len(), 1);
    assert_eq!(wrapper.children[0].tag, "integer_literal_expr");
    assert_eq!(wrapper.children[0].category, NodeType::Expression);
    assert!(!wrapper.children[0].is_original);
}

#[test]
fn wrappers_may_nest() {
    let ast = parse_dump("(Original init: (Original init: (x)))").unwrap();
    assert!(ast.nodes[0].is_original);
    assert!(ast.nodes[0].children[0].is_original);
    assert_eq!(ast.nodes[0].children[0].children, vec![leaf("x")]);
}

#[test]
fn close_without_open_is_unmatched() {
    assert_eq!(parse_dump(")").unwrap_err(), err(SyntaxErrorKind::UnmatchedClose, 0));
    assert_eq!(parse_dump("(a))").unwrap_err(), err(SyntaxErrorKind::UnmatchedClose, 3));
}

#[test]
fn running_out_of_tokens_is_unexpected_end() {
    assert_eq!(parse_dump("(").unwrap_err(), err(SyntaxErrorKind::UnexpectedEnd, 1));
    assert_eq!(parse_dump("(a").unwrap_err(), err(SyntaxErrorKind::UnexpectedEnd, 2));
    assert_eq!(parse_dump("(a (b)").unwrap_err(), err(SyntaxErrorKind::UnexpectedEnd, 5));
    assert_eq!(parse_dump("(Original init:").unwrap_err(), err(SyntaxErrorKind::UnexpectedEnd, 2));
    assert_eq!(
        parse_dump("(Original init: (a)").unwrap_err(),
        err(SyntaxErrorKind::UnexpectedEnd, 5)
    );
}

#[test]
fn token_in_the_wrong_place_is_unexpected() {
    assert_eq!(parse_dump("a").unwrap_err(), err(SyntaxErrorKind::UnexpectedToken, 0));
    assert_eq!(parse_dump("(a) \"x\"").unwrap_err(), err(SyntaxErrorKind::UnexpectedToken, 3));
    assert_eq!(parse_dump("()").unwrap_err(), err(SyntaxErrorKind::UnexpectedToken, 1));
    assert_eq!(parse_dump("(\"x\")").unwrap_err(), err(SyntaxErrorKind::UnexpectedToken, 1));
    assert_eq!(parse_dump("((a))").unwrap_err(), err(SyntaxErrorKind::UnexpectedToken, 1));
    assert_eq!(parse_dump("(k=v)").unwrap_err(), err(SyntaxErrorKind::UnexpectedToken, 1));
    assert_eq!(
        parse_dump("(a Original init: (b))").unwrap_err(),
        err(SyntaxErrorKind::UnexpectedToken, 2)
    );
    assert_eq!(
        parse_dump("(Original init: x)").unwrap_err(),
        err(SyntaxErrorKind::UnexpectedToken, 2)
    );
    assert_eq!(
        parse_dump("(Original init: )").unwrap_err(),
        err(SyntaxErrorKind::UnexpectedToken, 2)
    );
    assert_eq!(
        parse_dump("(Original init: (a) (b))").unwrap_err(),
        err(SyntaxErrorKind::UnexpectedToken, 5)
    );
    assert_eq!(
        parse_dump("(Original init: (a) flag)").unwrap_err(),
        err(SyntaxErrorKind::UnexpectedToken, 5)
    );
}

#[test]
fn tokenizer_failure_comes_before_tree_failure() {
    assert_eq!(
        parse_dump(") \"open").unwrap_err(),
        err(SyntaxErrorKind::UnterminatedString, 2)
    );
}

#[test]
fn parsing_twice_gives_the_same_forest() {
    let text = "(source_file \"a.swift\" (func_decl \"f()\" type=\"() -> ()\" (brace_stmt)))";
    assert_eq!(parse_dump(text), parse_dump(text));
    assert_eq!(parse_dump("(a"), parse_dump("(a"));
}

#[test]
fn reclassifying_an_attribute_changes_nothing() {
    let attributes = vec![
        Attribute::Literal("x y".to_string()),
        Attribute::Property { key: "k".to_string(), value: "".to_string() },
        Attribute::Flag("implicit".to_string()),
    ];
    for a in &attributes {
        assert_eq!(&a.reclassify(), a);
        assert_eq!(Attribute::classify(&a.token()).as_ref(), Some(a));
    }
    assert_eq!(attributes[0].token(), Token::QuotedString("x y".to_string()));
    assert_eq!(
        attributes[1].token(),
        Token::KeyValueFragment("k".to_string(), "".to_string())
    );
    assert_eq!(attributes[2].token(), ident("implicit"));
}

#[test]
fn parentheses_and_marker_stand_for_no_attribute() {
    assert_eq!(Attribute::classify(&Token::Open), None);
    assert_eq!(Attribute::classify(&Token::Close), None);
    assert_eq!(Attribute::classify(&Token::ProcessedMarker), None);
}
