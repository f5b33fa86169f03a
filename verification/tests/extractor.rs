use ast2md::data_extractor::{is_name_key, is_type_key, record_of, DataExtractor, TypeRecord};
use ast2md::error::{SyntaxError, SyntaxErrorKind};
use ast2md::node_type::{is_declaration_tag, is_expression_tag, is_statement_tag, NodeType};
use ast2md::cli_args::Command;
use ast2md::pipeline::{parse_dump, run, run_generated, run_manual};

fn record(name: &str, ty: &str, is_original: bool) -> TypeRecord {
    TypeRecord {
        name: name.to_string(),
        declared_type: ty.to_string(),
        category: NodeType::Declaration,
        is_original,
    }
}

#[test]
fn records_come_in_pre_order() {
    let text = "(func_decl \"f\" type=\"F\"
                   (param_decl \"p\" type=\"P\")
                   (brace_stmt (var_decl \"v\" type=\"V\")))
                (var_decl \"w\" type=\"W\")";
    assert_eq!(
        run_manual(text).unwrap(),
        vec![
            record("f", "F", false),
            record("p", "P", false),
            record("v", "V", false),
            record("w", "W", false)
        ]
    );
}

#[test]
fn only_declarations_yield_records() {
    assert_eq!(run_manual("(call_expr \"f\" type=\"Int\")").unwrap(), vec![]);
    assert_eq!(run_manual("(brace_stmt \"f\" type=\"Int\")").unwrap(), vec![]);
    assert_eq!(run_manual("(unknown_thing \"f\" type=\"Int\")").unwrap(), vec![]);
    assert_eq!(run_manual("(var_decl \"f\" type=\"Int\")").unwrap(), vec![record("f", "Int", false)]);
}

#[test]
fn children_of_a_node_without_record_are_still_visited() {
    assert_eq!(
        run_manual("(source_file (decl \"no_type\" (decl \"inner\" type=\"T\")))").unwrap(),
        vec![record("inner", "T", false)]
    );
}

#[test]
fn first_type_bearing_property_wins() {
    assert_eq!(
        run_manual("(decl \"x\" other=\"O\" interface_type=\"I\" type=\"T\")").unwrap(),
        vec![record("x", "I", false)]
    );
    assert_eq!(
        run_manual("(decl \"x\" type=T interface_type=\"I\")").unwrap(),
        vec![record("x", "T", false)]
    );
    assert_eq!(run_manual("(decl \"x\" typo=\"T\")").unwrap(), vec![]);
}

#[test]
fn name_is_first_literal_then_name_property_then_empty() {
    assert_eq!(
        run_manual("(decl name=\"n\" type=\"T\" \"first\" \"second\")").unwrap(),
        vec![record("first", "T", false)]
    );
    assert_eq!(
        run_manual("(decl type=\"T\" name=\"n\" name=\"m\")").unwrap(),
        vec![record("n", "T", false)]
    );
    assert_eq!(run_manual("(decl type=\"T\" flag)").unwrap(), vec![record("", "T", false)]);
}

#[test]
fn declarations_inside_a_wrapper_are_marked() {
    let text = "(pattern_binding_decl
                  (Original init: (decl \"o\" type=\"T\" (decl \"deep\" type=\"D\")))
                  (decl \"p\" type=\"T\"))";
    assert_eq!(
        run_manual(text).unwrap(),
        vec![record("o", "T", true), record("deep", "D", true), record("p", "T", false)]
    );
}

#[test]
fn extractor_can_be_used_on_its_own() {
    let ast = parse_dump("(decl \"x\" type=\"Int\") (decl \"y\")").unwrap();
    assert_eq!(record_of(&ast.nodes[0], false), Some(record("x", "Int", false)));
    assert_eq!(record_of(&ast.nodes[0], true), Some(record("x", "Int", true)));
    assert_eq!(record_of(&ast.nodes[1], false), None);
    let extractor = DataExtractor::new(ast.nodes);
    assert_eq!(extractor.extract_data(), vec![record("x", "Int", false)]);
    assert_eq!(extractor.extract_data(), vec![record("x", "Int", false)]);
}

#[test]
fn malformed_input_yields_no_records() {
    assert_eq!(run_manual("(decl \"x\" type=\"Int\"").unwrap_err().kind, SyntaxErrorKind::UnexpectedEnd);
    assert_eq!(
        run_manual("(decl \"x\" type=\"Int\") (decl \"y").unwrap_err().kind,
        SyntaxErrorKind::UnterminatedString
    );
}

#[test]
fn both_readers_give_the_same_records() {
    let texts = [
        "",
        "(decl \"x\" type=\"Int\")",
        "(decl (Original init: (decl \"y\" type=\"Int\")))",
        "(decl \"x\"",
        "(decl \"z\")",
        "(source_file \"a.swift\" (func_decl \"f()\" interface_type=\"() -> ()\" access=internal
            (parameter_list) (brace_stmt (var_decl \"v\" type=\"[\\\"q\\\"]\"))))",
        ")",
        "(a =)",
        "(\"x\")",
    ];
    for text in texts {
        assert_eq!(run_generated(text), run_manual(text), "on {:?}", text);
    }
    assert_eq!(run_generated("(decl \"x\" type=\"Int\")").unwrap(), vec![record("x", "Int", false)]);
}

#[test]
fn tag_tables() {
    assert!(is_declaration_tag("decl"));
    assert!(is_declaration_tag("func_decl"));
    assert!(is_declaration_tag("top_level_code_decl"));
    assert!(!is_declaration_tag("call_expr"));
    assert!(!is_declaration_tag("Decl"));
    assert!(!is_declaration_tag(""));
    assert!(is_expression_tag("call_expr"));
    assert!(is_expression_tag("assign_expr"));
    assert!(!is_expression_tag("decl"));
    assert!(is_statement_tag("brace_stmt"));
    assert!(is_statement_tag("switch_stmt"));
    assert!(!is_statement_tag("expr"));
    assert_eq!(NodeType::classify("decl"), NodeType::Declaration);
    assert_eq!(NodeType::classify("expr"), NodeType::Expression);
    assert_eq!(NodeType::classify("stmt"), NodeType::Statement);
    assert_eq!(NodeType::classify("source_file"), NodeType::OtherType);
    assert_eq!(NodeType::classify(""), NodeType::OtherType);
}

#[test]
fn category_names_and_kinds() {
    assert_eq!(NodeType::Declaration.name(), "declaration");
    assert_eq!(NodeType::Expression.name(), "expression");
    assert_eq!(NodeType::Statement.name(), "statement");
    assert_eq!(NodeType::OtherType.name(), "other");
    assert!(NodeType::Declaration.is_declaration_like());
    assert!(!NodeType::Expression.is_declaration_like());
    assert!(!NodeType::Statement.is_declaration_like());
    assert!(!NodeType::OtherType.is_declaration_like());
}

#[test]
fn recognised_keys() {
    assert!(is_type_key("type"));
    assert!(is_type_key("interface_type"));
    assert!(!is_type_key("Type"));
    assert!(!is_type_key("name"));
    assert!(is_name_key("name"));
    assert!(!is_name_key("type"));
}

#[test]
fn failure_messages() {
    assert_eq!(SyntaxErrorKind::UnterminatedString.message(), "unterminated quoted string");
    assert_eq!(SyntaxErrorKind::UnterminatedEscape.message(), "unterminated escape sequence");
    assert_eq!(SyntaxErrorKind::UnexpectedCharacter.message(), "unexpected character");
    assert_eq!(SyntaxErrorKind::UnexpectedToken.message(), "unexpected token");
    assert_eq!(SyntaxErrorKind::UnmatchedClose.message(), "unmatched closing parenthesis");
    assert_eq!(SyntaxErrorKind::UnexpectedEnd.message(), "unexpected end of input");
}

#[test]
fn chosen_reader_is_run() {
    let text = "(decl \"x\" type=\"Int\") (decl \"y\" type=\"Bool\")";
    let expected = vec![record("x", "Int", false), record("y", "Bool", false)];
    assert_eq!(run(&Command::Manual { filename: None }, text).unwrap(), expected);
    assert_eq!(run(&Command::Generated { filename: None }, text).unwrap(), expected);
    assert_eq!(
        run(&Command::Generated { filename: None }, "(decl").unwrap_err().kind,
        SyntaxErrorKind::UnexpectedEnd
    );
}

#[test]
fn records_inside_wrappers_can_be_left_out() {
    let text = "(pattern_binding_decl
                  (Original init: (decl \"o\" type=\"T\" (decl \"deep\" type=\"D\")))
                  (decl \"p\" type=\"T\")
                  (decl \"q\" type=\"U\"))";
    let extractor = DataExtractor::new(parse_dump(text).unwrap().nodes);
    assert_eq!(extractor.extract_data().len(), 4);
    assert_eq!(
        extractor.extract_outside_wrappers(),
        vec![record("p", "T", false), record("q", "U", false)]
    );
    let none = DataExtractor::new(parse_dump("(Original init: (decl \"o\" type=\"T\"))").unwrap().nodes);
    assert_eq!(none.extract_outside_wrappers(), vec![]);
}

#[test]
fn failure_descriptions() {
    let at = |kind, position| SyntaxError { kind, position }.description();
    assert_eq!(at(SyntaxErrorKind::UnterminatedString, 0), "unterminated quoted string at character 0");
    assert_eq!(at(SyntaxErrorKind::UnterminatedEscape, 7), "unterminated escape sequence at character 7");
    assert_eq!(at(SyntaxErrorKind::UnexpectedCharacter, 10), "unexpected character at character 10");
    assert_eq!(at(SyntaxErrorKind::UnexpectedToken, 99), "unexpected token at token 99");
    assert_eq!(at(SyntaxErrorKind::UnmatchedClose, 100), "unmatched closing parenthesis at token 100");
    assert_eq!(at(SyntaxErrorKind::UnexpectedEnd, 1234567890), "unexpected end of input at token 1234567890");
    assert_eq!(
        at(SyntaxErrorKind::UnexpectedEnd, usize::MAX),
        format!("unexpected end of input at token {}", usize::MAX)
    );
    assert_eq!(run_manual("(decl \"x\"").unwrap_err().description(), "unexpected end of input at token 3");
    assert_eq!(
        run_manual("(decl \"x").unwrap_err().description(),
        "unterminated quoted string at character 6"
    );
    assert!(SyntaxErrorKind::UnexpectedEnd.counts_tokens());
    assert!(!SyntaxErrorKind::UnterminatedString.counts_tokens());
}
