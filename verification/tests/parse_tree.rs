use std::path::PathBuf;

use ast2md::cli_args::{CliArgs, Command};
use ast2md::error::{SyntaxError, SyntaxErrorKind};
use ast2md::generated::{
    create_ast, create_attribute, create_node, create_property, pest_parser, print, unquote,
    Pair, Rule, SwiftDumpAstParser,
};
use ast2md::pipeline::parse_dump;
use ast2md::swift_dump_ast::Attribute;

fn leaf(rule: Rule, text: &str) -> Pair {
    Pair::new(rule, text.to_string(), vec![])
}

fn attribute(inner: Pair) -> Pair {
    Pair::new(Rule::attribute, inner.text.clone(), vec![inner])
}

fn property(key: &str, value: Pair) -> Pair {
    let text = format!("{}={}", key, value.text);
    Pair::new(Rule::property, text, vec![leaf(Rule::identifier, key), value])
}

fn node(inner: Vec<Pair>) -> Pair {
    Pair::new(Rule::node, String::new(), inner)
}

fn sample() -> Pair {
    // (decl "x" (child) type="Int" access=internal)
    Pair::new(
        Rule::ast,
        String::new(),
        vec![node(vec![
            attribute(leaf(Rule::identifier, "decl")),
            attribute(leaf(Rule::string, "\"x\"")),
            node(vec![attribute(leaf(Rule::identifier, "child"))]),
            attribute(property("type", leaf(Rule::string, "\"Int\""))),
            attribute(property("access", leaf(Rule::identifier, "internal"))),
        ])],
    )
}

#[test]
fn forest_of_a_parse_tree() {
    let tree = sample();
    assert!(tree.is_well_formed());
    let ast = create_ast(&tree);
    assert_eq!(ast, parse_dump("(decl \"x\" (child) type=\"Int\" access=internal)").unwrap());
}

#[test]
fn node_attribute_and_property_of_pairs() {
    let tree = sample();
    let node_pair = &tree.inner[0];
    let built = create_node(node_pair);
    assert_eq!(built.tag, "decl");
    assert_eq!(built.children.len(), 1);
    assert_eq!(built.attributes.len(), 3);
    assert_eq!(create_attribute(&node_pair.inner[1]), Attribute::Literal("x".to_string()));
    assert_eq!(
        create_attribute(&node_pair.inner[3]),
        Attribute::Property { key: "type".to_string(), value: "Int".to_string() }
    );
    assert_eq!(create_attribute(&node_pair.inner[0]), Attribute::Flag("decl".to_string()));
    assert_eq!(
        create_property(&node_pair.inner[4].inner[0]),
        Attribute::Property { key: "access".to_string(), value: "internal".to_string() }
    );
}

#[test]
fn wrapper_pair_becomes_wrapper_node() {
    let tree = node(vec![
        leaf(Rule::processed, "Original init:"),
        node(vec![attribute(leaf(Rule::identifier, "x"))]),
    ]);
    assert!(tree.is_well_formed());
    let built = create_node(&tree);
    assert!(built.is_original);
    assert_eq!(built.tag, "");
    assert!(built.attributes.is_empty());
    assert_eq!(built.children.len(), 1);
    assert_eq!(built.children[0].tag, "x");
}

#[test]
fn quoted_text_is_unquoted() {
    assert_eq!(unquote("\"\""), "");
    assert_eq!(unquote("\"a b\""), "a b");
    assert_eq!(unquote(r#""a\"b\\c""#), "a\"b\\c");
    assert_eq!(unquote("\"a\" and more"), "a");
    assert_eq!(unquote(""), "");
    assert_eq!(unquote("\"open"), "");
}

#[test]
fn outline_of_a_parse_tree() {
    assert_eq!(
        print(&sample(), ""),
        "- ast:\n  - node: decl\n    - \"x\"\n    - node: child\n    - type: \"Int\"\n    - access: internal\n"
    );
    assert_eq!(
        print(&sample().inner[0], "> "),
        "> - node: decl\n>   - \"x\"\n>   - node: child\n>   - type: \"Int\"\n>   - access: internal\n"
    );
}

#[test]
fn outline_of_pairs_of_other_rules() {
    assert_eq!(print(&leaf(Rule::identifier, "abc"), ""), "- UNKNOWN RULE: identifier\n");
    assert_eq!(print(&leaf(Rule::string, "\"s\""), " "), " - UNKNOWN RULE: string\n");
    assert_eq!(
        print(&property("k", leaf(Rule::identifier, "v")), ""),
        "- UNKNOWN RULE: property\n  - UNKNOWN RULE: identifier\n  - UNKNOWN RULE: identifier\n"
    );
    assert_eq!(print(&leaf(Rule::processed, "Original init:"), ""), "- UNKNOWN RULE: processed\n");
    assert_eq!(print(&attribute(leaf(Rule::identifier, "flag")), "  "), "  - flag\n");
}

#[test]
fn outline_of_a_wrapper() {
    let tree = node(vec![
        leaf(Rule::processed, "Original init:"),
        node(vec![attribute(leaf(Rule::identifier, "x"))]),
    ]);
    assert_eq!(print(&tree, ""), "- node: Original init:\n  - node: x\n");
}

#[test]
fn outline_and_forest_together() {
    let (outline, ast) = pest_parser(&sample());
    assert_eq!(outline, print(&sample(), ""));
    assert_eq!(ast, create_ast(&sample()));
}

#[test]
fn malformed_parse_trees_are_recognised() {
    assert!(!leaf(Rule::identifier, "").is_well_formed());
    assert!(!leaf(Rule::identifier, "a b").is_well_formed());
    assert!(!leaf(Rule::identifier, "a=b").is_well_formed());
    assert!(leaf(Rule::identifier, "a.b:c").is_well_formed());
    assert!(!leaf(Rule::string, "x").is_well_formed());
    assert!(!leaf(Rule::string, "\"").is_well_formed());
    assert!(!leaf(Rule::string, "\"x").is_well_formed());
    assert!(!leaf(Rule::string, "\"x\"y\"").is_well_formed());
    assert!(!leaf(Rule::string, "\"x\\\"").is_well_formed());
    assert!(leaf(Rule::string, "\"x\\\"\"").is_well_formed());
    assert!(!leaf(Rule::processed, "Processed init:").is_well_formed());
    assert!(leaf(Rule::processed, "Original init:").is_well_formed());
    assert!(!node(vec![]).is_well_formed());
    assert!(!node(vec![attribute(leaf(Rule::string, "\"x\""))]).is_well_formed());
    assert!(!node(vec![leaf(Rule::processed, "Original init:")]).is_well_formed());
    assert!(!node(vec![
        attribute(leaf(Rule::identifier, "a")),
        leaf(Rule::identifier, "loose")
    ])
    .is_well_formed());
    assert!(!Pair::new(Rule::attribute, String::new(), vec![]).is_well_formed());
    assert!(!Pair::new(Rule::ast, String::new(), vec![leaf(Rule::identifier, "a")]).is_well_formed());
    assert!(!Pair::new(
        Rule::ast,
        String::new(),
        vec![node(vec![attribute(leaf(Rule::identifier, ""))])]
    )
    .is_well_formed());
    assert!(Pair::new(Rule::ast, String::new(), vec![]).is_well_formed());
}

#[test]
fn grammar_reader_builds_the_parse_tree() {
    let tree = SwiftDumpAstParser::parse("(decl \"x\" (child) type=\"Int\" access=internal)").unwrap();
    assert!(tree.is_well_formed());
    assert_eq!(tree.rule, Rule::ast);
    assert_eq!(tree.inner.len(), 1);
    let n = &tree.inner[0];
    assert_eq!(n.rule, Rule::node);
    let rules: Vec<Rule> = n.inner.iter().map(|p| p.rule).collect();
    assert_eq!(
        rules,
        vec![Rule::attribute, Rule::attribute, Rule::node, Rule::attribute, Rule::attribute]
    );
    assert_eq!(n.inner[0].inner[0], leaf(Rule::identifier, "decl"));
    assert_eq!(n.inner[1].inner[0], leaf(Rule::string, "\"x\""));
    assert_eq!(n.inner[3].inner[0], property("type", leaf(Rule::string, "\"Int\"")));
    assert_eq!(n.inner[4].inner[0], property("access", leaf(Rule::string, "\"internal\"")));
    assert_eq!(
        print(&tree, ""),
        "- ast:\n  - node: decl\n    - \"x\"\n    - node: child\n    - type: \"Int\"\n    - access: \"internal\"\n"
    );
}

#[test]
fn grammar_reader_and_tree_builder_agree() {
    let texts = [
        "",
        "(a)",
        "(decl \"x\" type=\"Int\")",
        "(decl (Original init: (decl \"y\" type=\"Int\")))",
        "(a (b) \"x\\\"\" (c (d k=v)) flag) (e)",
        "(Original init: (Original init: (x)))",
    ];
    for text in texts {
        let tree = SwiftDumpAstParser::parse(text).unwrap();
        assert!(tree.is_well_formed());
        assert_eq!(create_ast(&tree), parse_dump(text).unwrap(), "on {:?}", text);
    }
}

#[test]
fn grammar_reader_fails_as_the_tree_builder_does() {
    let texts = ["(", ")", "(a", "(a))", "()", "(\"x\")", "(a \"x", "(a =)", "(Original init: x)", "a", "\"ab\\"];
    for text in texts {
        let expected: SyntaxError = parse_dump(text).unwrap_err();
        assert_eq!(SwiftDumpAstParser::parse(text).unwrap_err(), expected, "on {:?}", text);
    }
    assert_eq!(
        SwiftDumpAstParser::parse("(a").unwrap_err(),
        SyntaxError { kind: SyntaxErrorKind::UnexpectedEnd, position: 2 }
    );
}

#[test]
fn command_line_choices() {
    let manual = Command::Manual { filename: Some(PathBuf::from("first.ast")) };
    let generated = Command::Generated { filename: None };
    assert_eq!(manual.filename(), &Some(PathBuf::from("first.ast")));
    assert_eq!(generated.filename(), &None);
    assert!(!manual.is_generated());
    assert!(generated.is_generated());
    let args = CliArgs { level: log::LevelFilter::Warn, command: generated };
    assert!(args.command.is_generated());
    assert_eq!(args.level, log::LevelFilter::Warn);
}
