use mova::lexer::Lexer;
use mova::token::{Token, TokenKind, Value};
use mova::token_stream::TokenStream;

fn stream(source: &str) -> TokenStream {
    TokenStream::new(Lexer::new("/test.mv", source).tokenize().unwrap())
}

#[test]
fn at_end_exactly_when_every_token_is_consumed() {
    let mut s = stream("a b c");
    let mut steps = 0;
    while !s.is_at_end() {
        s.next();
        steps += 1;
    }
    assert_eq!(steps, 3);
    assert!(s.next().is_none());
    assert!(s.is_at_end());
}

#[test]
fn empty_stream_is_at_end() {
    assert!(stream("").is_at_end());
}

#[test]
fn end_marker_ends_the_stream() {
    let tokens = vec![Token::new(TokenKind::Identifier, 1, Value::from("a")), Token::eof()];
    let mut s = TokenStream::new(tokens);
    assert!(!s.is_at_end());
    s.next();
    assert!(s.is_at_end());
}

#[test]
fn current_peek_and_next() {
    let mut s = stream("a b");
    assert_eq!(s.current().value, Value::from("a"));
    assert_eq!(s.peek().unwrap().value, Value::from("b"));
    assert_eq!(s.next().unwrap().value, Value::from("b"));
    assert!(s.peek().is_none());
}

#[test]
fn next_expected_checks_the_kind() {
    let mut s = stream("fn f");
    assert_eq!(s.next_expected(TokenKind::Identifier, "name").unwrap().value, Value::from("f"));
    let e = s.next_expected(TokenKind::LeftParen, "expected '('").unwrap_err();
    assert_eq!(e.message, "expected '('");
}

#[test]
fn advance_if_match_moves_only_on_a_match() {
    let mut s = stream("= x");
    assert!(!s.advance_if_match(TokenKind::Plus));
    assert!(s.advance_if_match(TokenKind::Equal));
    assert_eq!(s.current().value, Value::from("x"));
    assert!(s.check(s.current(), TokenKind::Identifier));
}

#[test]
fn operator_classes() {
    let mut s = stream(">= -x += y");
    assert!(!s.advance_if_unary());
    assert!(s.advance_if_cmp());
    assert!(s.advance_if_unary());
    assert!(s.advance_if_match_any(&[TokenKind::Plus, TokenKind::Identifier]));
    assert!(s.is_assign());
    assert!(!s.advance_if_cmp());
}

#[test]
fn next_keeps_advancing_past_the_end() {
    let mut s = stream("a");
    assert!(s.next().is_none());
    assert!(s.next().is_none());
    assert!(s.is_at_end());
    assert!(s.peek().is_none());
}
