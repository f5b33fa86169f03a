use ast2md::node_type::NodeType;
use ast2md::pipeline::parse_dump;
use ast2md::swift_dump_ast::{Attribute, DumpAst, Node};

fn round_trip(text: &str) {
    let ast = parse_dump(text).unwrap();
    let printed = ast.pretty_print();
    let again = parse_dump(&printed).unwrap();
    assert_eq!(again, ast, "printed as {:?}", printed);
    assert_eq!(again.pretty_print(), printed);
}

#[test]
fn printed_form_of_a_small_forest() {
    let ast = parse_dump("(decl \"x\" type=\"Int\" (Original init: (decl \"y\"))) (leaf)").unwrap();
    assert_eq!(
        ast.pretty_print(),
        "(decl\n  \"x\"\n  type=\"Int\"\n  (Original init:\n    (decl\n      \"y\")))\n(leaf)\n"
    );
}

#[test]
fn printed_form_of_one_node() {
    let ast = parse_dump("(a flag (b k=v))").unwrap();
    assert_eq!(ast.nodes[0].pretty_print(), "(a\n  flag\n  (b\n    k=\"v\"))");
    assert_eq!(ast.nodes[0].children[0].pretty_print(), "(b\n  k=\"v\")");
}

#[test]
fn empty_forest_prints_as_nothing() {
    assert_eq!(parse_dump("").unwrap().pretty_print(), "");
    assert_eq!(parse_dump(" \n ").unwrap().pretty_print(), "");
}

#[test]
fn quotes_and_backslashes_are_escaped() {
    let ast = parse_dump(r#"(a "q\"b\\" k="\\\"")"#).unwrap();
    assert_eq!(
        ast.nodes[0].attributes,
        vec![
            Attribute::Literal("q\"b\\".to_string()),
            Attribute::Property { key: "k".to_string(), value: "\\\"".to_string() },
        ]
    );
    assert_eq!(ast.pretty_print(), "(a\n  \"q\\\"b\\\\\"\n  k=\"\\\\\\\"\")\n");
}

#[test]
fn attributes_are_printed_before_children() {
    let ast = parse_dump("(p (c) \"late\")").unwrap();
    assert_eq!(ast.pretty_print(), "(p\n  \"late\"\n  (c))\n");
}

#[test]
fn printing_then_parsing_gives_the_forest_back() {
    round_trip("");
    round_trip("(a)");
    round_trip("(decl \"x\" type=\"Int\")");
    round_trip("(decl (Original init: (decl \"y\" type=\"Int\")))");
    round_trip("(a (b) \"x\" (c (d k=v)) flag) (e)");
    round_trip("(a \"\" k=\"\" \" \" \"(\" \")\" \"=\" \"a\nb\")");
    round_trip(r#"(a "\"" "\\" k="\"\\\"" "\\\\")"#);
    round_trip("(source_file \"a.swift\" (func_decl range=[a.swift:1:1] \"f()\" interface_type=\"() -> ()\"))");
    round_trip("(Original init: (Original init: (x)))");
    round_trip("(é \"ü\" ö=\"ä\" ß)");
}

#[test]
fn words_that_look_like_the_marker_survive_printing() {
    round_trip("(Original  init:)");
    round_trip("(a Original\ninit: (b))");
    round_trip("(Original\tinit:x Original)");
    let ast = parse_dump("(a Original  init:)").unwrap();
    assert_eq!(
        ast.nodes[0].attributes,
        vec![Attribute::Flag("Original".to_string()), Attribute::Flag("init:".to_string())]
    );
    assert_eq!(ast.pretty_print(), "(a\n  Original\n  init:)\n");
}

#[test]
fn hand_built_forest_survives_printing() {
    let child = Node::new(
        false,
        "var_decl".to_string(),
        vec![
            Attribute::Literal("v".to_string()),
            Attribute::Property { key: "type".to_string(), value: "A \"B\"".to_string() },
        ],
        vec![],
        NodeType::Declaration,
    );
    let wrapper = Node::new(true, String::new(), vec![], vec![child], NodeType::OtherType);
    let top = Node::new(
        false,
        "top".to_string(),
        vec![Attribute::Flag("f".to_string())],
        vec![wrapper],
        NodeType::OtherType,
    );
    let ast = DumpAst { nodes: vec![top] };
    let printed = ast.pretty_print();
    assert_eq!(
        printed,
        "(top\n  f\n  (Original init:\n    (var_decl\n      \"v\"\n      type=\"A \\\"B\\\"\")))\n"
    );
    assert_eq!(parse_dump(&printed).unwrap(), ast);
}

#[test]
fn parsed_forests_are_well_formed() {
    for text in ["", "(a)", "(decl \"x\" k=v (Original init: (b)))", "(Original  init:)"] {
        let ast = parse_dump(text).unwrap();
        assert!(ast.is_well_formed(), "on {:?}", text);
        for node in &ast.nodes {
            assert!(node.is_well_formed());
        }
    }
}

#[test]
fn ill_formed_forests_are_recognised() {
    let leaf = |tag: &str| Node::new(false, tag.to_string(), vec![], vec![], NodeType::classify(tag));
    assert!(leaf("a").is_well_formed());
    assert!(!leaf("").is_well_formed());
    assert!(!leaf("a b").is_well_formed());
    assert!(!leaf("a(").is_well_formed());
    assert!(!leaf("k=v").is_well_formed());
    assert!(!Node::new(false, "decl".to_string(), vec![], vec![], NodeType::OtherType).is_well_formed());
    assert!(Node::new(false, "decl".to_string(), vec![], vec![], NodeType::Declaration).is_well_formed());
    assert!(!Node::new(false, "a".to_string(), vec![Attribute::Flag("".to_string())], vec![], NodeType::OtherType)
        .is_well_formed());
    assert!(!Node::new(
        false,
        "a".to_string(),
        vec![Attribute::Property { key: "k k".to_string(), value: "v".to_string() }],
        vec![],
        NodeType::OtherType
    )
    .is_well_formed());
    assert!(Attribute::Literal("any \" thing".to_string()).is_well_formed());
    assert!(Attribute::Flag("word".to_string()).is_well_formed());
    assert!(!Attribute::Flag("two words".to_string()).is_well_formed());
    // wrappers: no tag, no attributes, exactly one child, fallback category
    let wrapper = |tag: &str, attributes: Vec<Attribute>, children: Vec<Node>, category: NodeType| {
        Node::new(true, tag.to_string(), attributes, children, category)
    };
    assert!(wrapper("", vec![], vec![leaf("a")], NodeType::OtherType).is_well_formed());
    assert!(!wrapper("", vec![], vec![], NodeType::OtherType).is_well_formed());
    assert!(!wrapper("", vec![], vec![leaf("a"), leaf("b")], NodeType::OtherType).is_well_formed());
    assert!(!wrapper("t", vec![], vec![leaf("a")], NodeType::OtherType).is_well_formed());
    assert!(!wrapper("", vec![Attribute::Flag("f".to_string())], vec![leaf("a")], NodeType::OtherType)
        .is_well_formed());
    assert!(!wrapper("", vec![], vec![leaf("a")], NodeType::Declaration).is_well_formed());
    assert!(!wrapper("", vec![], vec![leaf("")], NodeType::OtherType).is_well_formed());
    // a forest is well-formed when each node is
    assert!(DumpAst { nodes: vec![] }.is_well_formed());
    assert!(DumpAst { nodes: vec![leaf("a"), leaf("b")] }.is_well_formed());
    assert!(!DumpAst { nodes: vec![leaf("a"), leaf("")] }.is_well_formed());
    let nested_bad = Node::new(false, "a".to_string(), vec![], vec![leaf("b c")], NodeType::OtherType);
    assert!(!DumpAst { nodes: vec![nested_bad] }.is_well_formed());
}

#[test]
fn ill_formed_forest_need_not_survive_printing() {
    let odd = Node::new(false, "two words".to_string(), vec![], vec![], NodeType::OtherType);
    let ast = DumpAst { nodes: vec![odd] };
    assert!(!ast.is_well_formed());
    assert_eq!(ast.pretty_print(), "(two words)\n");
    assert_ne!(parse_dump(&ast.pretty_print()).unwrap(), ast);
}
