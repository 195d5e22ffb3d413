use mova::lexer::Lexer;
use mova::token::{TokenKind, Value};

fn float_of(value: &Value) -> f32 {
    match value {
        Value::Float(text) => text.parse::<f32>().unwrap(),
        _ => panic!("not a float value: {:?}", value),
    }
}

#[test]
fn lexer_eat_number_int() {
    let source = "123456";
    let mut lexer = Lexer::new("/test.mv", source);

    let token = lexer.eat_number().unwrap().unwrap();

    assert_eq!(token.kind, TokenKind::Int);
    assert_eq!(token.value, Value::Int(123456));
}

#[test]
fn lexer_eat_number_float() {
    let source = "3.14";
    let mut lexer = Lexer::new("/test.mv", source);

    let token = lexer.eat_number().unwrap().unwrap();

    assert_eq!(token.kind, TokenKind::Float);
    assert_eq!(float_of(&token.value), 3.14);
}

#[test]
fn lexer_eat_string_is_valid_string() {
    let source = "\"abcdef\"";
    let mut lexer = Lexer::new("/test.mv", source);

    let token = lexer.eat_string().unwrap().unwrap();

    assert_eq!(token.kind, TokenKind::String);
    assert_eq!(token.value, Value::Str("abcdef".to_string()));
}

#[test]
fn lexer_eat_string_is_unterminated_string() {
    let source = "\"abcdef";
    let mut lexer = Lexer::new("/test.mv", source);

    assert!(lexer.eat_string().is_err());
}

#[test]
fn lexer_eat_identifier_starts_with_undescore() {
    let source = "_asd";
    let mut lexer = Lexer::new("/test.mv", source);

    let token = lexer.eat_identifier().unwrap();

    assert_eq!(token.kind, TokenKind::Identifier);
    assert_eq!(token.value, Value::Str("_asd".to_string()))
}

#[test]
fn lexer_eat_identifier_starts_with_number() {
    let source = "10_asd";
    let mut lexer = Lexer::new("/test.mv", source);

    let token = lexer.eat_identifier();

    assert!(token.is_none());
}

#[test]
fn lexer_eat_identifier_import() {
    let source = "import";
    let mut lexer = Lexer::new("/test.mv", source);

    let token = lexer.eat_identifier().unwrap();

    assert_eq!(token.kind, TokenKind::Import);
    assert_eq!(token.value, Value::Str("import".to_string()))
}

#[test]
fn lexer_parse_empty_fn_without_parameters() {
    let source = "fn foo() { }";
    let mut lexer = Lexer::new("/test.mv", source);

    let tokens = lexer.tokenize().unwrap();

    assert_eq!(tokens.len(), 6);
    assert_eq!(tokens[0].kind, TokenKind::Fn);
    assert_eq!(tokens[1].kind, TokenKind::Identifier);
    assert_eq!(tokens[1].value, Value::from("foo"));
    assert_eq!(tokens[2].kind, TokenKind::LeftParen);
    assert_eq!(tokens[3].kind, TokenKind::RightParen);
    assert_eq!(tokens[4].kind, TokenKind::LeftBrace);
    assert_eq!(tokens[5].kind, TokenKind::RightBrace);
}
