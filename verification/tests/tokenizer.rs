use ast2md::error::{SyntaxError, SyntaxErrorKind};
use ast2md::lexer::{tokenize, Lexer};
use ast2md::token::Token;

fn ident(s: &str) -> Token {
    Token::Identifier(s.to_string())
}

fn quoted(s: &str) -> Token {
    Token::QuotedString(s.to_string())
}

fn key_value(k: &str, v: &str) -> Token {
    Token::KeyValueFragment(k.to_string(), v.to_string())
}

#[test]
fn parentheses_words_and_strings() {
    assert_eq!(
        tokenize("(decl \"x\" flag)").unwrap(),
        vec![Token::Open, ident("decl"), quoted("x"), ident("flag"), Token::Close]
    );
}

#[test]
fn whitespace_is_discarded_between_tokens() {
    assert_eq!(
        tokenize(" \t(\n a \r\n ) \n").unwrap(),
        vec![Token::Open, ident("a"), Token::Close]
    );
    assert_eq!(tokenize("   \n\t ").unwrap(), vec![]);
}

#[test]
fn whitespace_is_kept_inside_strings() {
    assert_eq!(tokenize("\" a\tb\n\"").unwrap(), vec![quoted(" a\tb\n")]);
}

#[test]
fn tokens_need_no_whitespace_between_them() {
    assert_eq!(
        tokenize("(a\"x\"(b))").unwrap(),
        vec![
            Token::Open,
            ident("a"),
            quoted("x"),
            Token::Open,
            ident("b"),
            Token::Close,
            Token::Close
        ]
    );
}

#[test]
fn key_value_with_quoted_value() {
    assert_eq!(tokenize("type=\"Int\"").unwrap(), vec![key_value("type", "Int")]);
    assert_eq!(tokenize("type=\"\"").unwrap(), vec![key_value("type", "")]);
    assert_eq!(
        tokenize("type=\"(Int) -> ()\"").unwrap(),
        vec![key_value("type", "(Int) -> ()")]
    );
}

#[test]
fn key_value_with_bare_value() {
    assert_eq!(tokenize("access=internal").unwrap(), vec![key_value("access", "internal")]);
    assert_eq!(tokenize("value=42)").unwrap(), vec![key_value("value", "42"), Token::Close]);
    assert_eq!(tokenize("x=-1.5e3").unwrap(), vec![key_value("x", "-1.5e3")]);
}

#[test]
fn identifier_not_followed_by_equals_is_bare() {
    assert_eq!(tokenize("implicit type=\"T\"").unwrap(), vec![ident("implicit"), key_value("type", "T")]);
}

#[test]
fn escapes_are_resolved() {
    assert_eq!(tokenize(r#""a\"b""#).unwrap(), vec![quoted("a\"b")]);
    assert_eq!(tokenize(r#""a\\""#).unwrap(), vec![quoted("a\\")]);
    assert_eq!(tokenize(r#""a\nb""#).unwrap(), vec![quoted("anb")]);
    assert_eq!(tokenize(r#"k="\"""#).unwrap(), vec![key_value("k", "\"")]);
}

#[test]
fn marker_is_its_own_token() {
    assert_eq!(
        tokenize("(Original init: (x))").unwrap(),
        vec![
            Token::Open,
            Token::ProcessedMarker,
            Token::Open,
            ident("x"),
            Token::Close,
            Token::Close
        ]
    );
    assert_eq!(tokenize("Original init:x").unwrap(), vec![Token::ProcessedMarker, ident("x")]);
}

#[test]
fn near_markers_are_words() {
    assert_eq!(tokenize("Original  init:").unwrap(), vec![ident("Original"), ident("init:")]);
    assert_eq!(tokenize("Original\ninit:").unwrap(), vec![ident("Original"), ident("init:")]);
    assert_eq!(tokenize("Original init").unwrap(), vec![ident("Original"), ident("init")]);
    assert_eq!(tokenize("Processed init:").unwrap(), vec![ident("Processed"), ident("init:")]);
    assert_eq!(tokenize("original init:").unwrap(), vec![ident("original"), ident("init:")]);
}

#[test]
fn non_ascii_text_counts_characters() {
    assert_eq!(tokenize("\"héllo\" wörld").unwrap(), vec![quoted("héllo"), ident("wörld")]);
    assert_eq!(
        tokenize("é \"x").unwrap_err(),
        SyntaxError { kind: SyntaxErrorKind::UnterminatedString, position: 2 }
    );
}

#[test]
fn unterminated_string_reports_the_opening_quote() {
    assert_eq!(
        tokenize("(a \"xyz").unwrap_err(),
        SyntaxError { kind: SyntaxErrorKind::UnterminatedString, position: 3 }
    );
    assert_eq!(
        tokenize("\"").unwrap_err(),
        SyntaxError { kind: SyntaxErrorKind::UnterminatedString, position: 0 }
    );
    assert_eq!(
        tokenize("k=\"v").unwrap_err(),
        SyntaxError { kind: SyntaxErrorKind::UnterminatedString, position: 2 }
    );
    assert_eq!(
        tokenize(r#""a\""#).unwrap_err(),
        SyntaxError { kind: SyntaxErrorKind::UnterminatedString, position: 0 }
    );
}

#[test]
fn unterminated_escape_reports_the_backslash() {
    assert_eq!(
        tokenize("\"ab\\").unwrap_err(),
        SyntaxError { kind: SyntaxErrorKind::UnterminatedEscape, position: 3 }
    );
}

#[test]
fn stray_equals_is_unexpected() {
    assert_eq!(
        tokenize("(a =b)").unwrap_err(),
        SyntaxError { kind: SyntaxErrorKind::UnexpectedCharacter, position: 3 }
    );
    assert_eq!(
        tokenize("key= value").unwrap_err(),
        SyntaxError { kind: SyntaxErrorKind::UnexpectedCharacter, position: 3 }
    );
    assert_eq!(
        tokenize("key=)").unwrap_err(),
        SyntaxError { kind: SyntaxErrorKind::UnexpectedCharacter, position: 3 }
    );
    assert_eq!(
        tokenize("key=").unwrap_err(),
        SyntaxError { kind: SyntaxErrorKind::UnexpectedCharacter, position: 3 }
    );
    assert_eq!(
        tokenize("a=b=c").unwrap_err(),
        SyntaxError { kind: SyntaxErrorKind::UnexpectedCharacter, position: 3 }
    );
}

#[test]
fn failure_returns_no_partial_tokens() {
    let r = tokenize("(a b c \"open");
    assert!(r.is_err());
}

#[test]
fn lexer_hands_out_tokens_one_at_a_time() {
    let mut lexer = Lexer::new(" (a) ");
    assert_eq!(lexer.next_token(), Ok(Some(Token::Open)));
    assert_eq!(lexer.next_token(), Ok(Some(ident("a"))));
    assert_eq!(lexer.next_token(), Ok(Some(Token::Close)));
    assert_eq!(lexer.next_token(), Ok(None));
    assert_eq!(lexer.next_token(), Ok(None));
}

#[test]
fn lexer_tokenize_continues_from_its_position() {
    let mut lexer = Lexer::new("(a b)");
    assert_eq!(lexer.next_token(), Ok(Some(Token::Open)));
    assert_eq!(lexer.tokenize().unwrap(), vec![ident("a"), ident("b"), Token::Close]);
    assert_eq!(lexer.tokenize().unwrap(), vec![]);
}

#[test]
fn lexer_stays_in_place_after_a_failure() {
    let mut lexer = Lexer::new("a =");
    assert_eq!(lexer.next_token(), Ok(Some(ident("a"))));
    let e = SyntaxError { kind: SyntaxErrorKind::UnexpectedCharacter, position: 2 };
    assert_eq!(lexer.next_token(), Err(e));
    assert_eq!(lexer.next_token(), Err(e));
}

#[test]
fn word_before_a_dangling_equals_is_handed_out_first() {
    let mut lexer = Lexer::new("key= value");
    assert_eq!(lexer.next_token(), Ok(Some(ident("key"))));
    assert_eq!(
        lexer.next_token(),
        Err(SyntaxError { kind: SyntaxErrorKind::UnexpectedCharacter, position: 3 })
    );
    let mut lexer = Lexer::new("(a b=)");
    assert_eq!(lexer.next_token(), Ok(Some(Token::Open)));
    assert_eq!(lexer.next_token(), Ok(Some(ident("a"))));
    assert_eq!(lexer.next_token(), Ok(Some(ident("b"))));
    assert_eq!(
        lexer.next_token(),
        Err(SyntaxError { kind: SyntaxErrorKind::UnexpectedCharacter, position: 4 })
    );
}
