use ast2md::data_extractor::TypeRecord;
use ast2md::error::SyntaxErrorKind;
use ast2md::node_type::NodeType;
use ast2md::pipeline::{parse_dump, run_manual};
use ast2md::swift_dump_ast::Attribute;

#[test]
fn single_declaration_yields_one_record() {
    let records = run_manual("(decl \"x\" type=\"Int\")").unwrap();
    assert_eq!(
        records,
        vec![TypeRecord {
            name: "x".to_string(),
            declared_type: "Int".to_string(),
            category: NodeType::Declaration,
            is_original: false,
        }]
    );
}

#[test]
fn original_wrapper_sets_flag_and_wraps_child() {
    let ast = parse_dump("(decl (Original init: (decl \"y\" type=\"Int\")))").unwrap();
    assert_eq!(ast.nodes.len(), 1);
    let top = &ast.nodes[0];
    assert!(!top.is_original);
    assert_eq!(top.children.len(), 1);
    let wrapper = &top.children[0];
    assert!(wrapper.is_original);
    assert!(wrapper.attributes.is_empty());
    assert_eq!(wrapper.children.len(), 1);
    let child = &wrapper.children[0];
    assert!(!child.is_original);
    assert_eq!(child.tag, "decl");
    assert_eq!(
        child.attributes,
        vec![
            Attribute::Literal("y".to_string()),
            Attribute::Property { key: "type".to_string(), value: "Int".to_string() },
        ]
    );
}

#[test]
fn missing_close_is_a_syntax_error() {
    let err = run_manual("(decl \"x\"").unwrap_err();
    assert_eq!(err.kind, SyntaxErrorKind::UnexpectedEnd);
    assert_eq!(err.position, 3);
}

#[test]
fn declaration_without_type_yields_no_record() {
    let records = run_manual("(decl \"z\")").unwrap();
    assert!(records.is_empty());
    let records = run_manual("(decl \"z\" (decl \"a\" type=\"A\")) (decl \"b\" type=\"B\")").unwrap();
    let names: Vec<&str> = records.iter().map(|r| r.name.as_str()).collect();
    assert_eq!(names, vec!["a", "b"]);
}

#[test]
fn empty_input_is_an_empty_forest() {
    let ast = parse_dump("").unwrap();
    assert!(ast.nodes.is_empty());
    assert!(run_manual("").unwrap().is_empty());
}
