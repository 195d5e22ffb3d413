use mova::ast::{Decl, Expr};
use mova::lexer::Lexer;
use mova::parser::{compare_token_kind, DeclParser};
use mova::token::TokenKind;
use mova::token_stream::{ParseError, TokenStream};

fn parse(source: &str) -> Result<Vec<Decl>, ParseError> {
    let tokens = Lexer::new("/test.mv", source).tokenize().unwrap();
    DeclParser::new().parse(&mut TokenStream::new(tokens))
}

fn message(source: &str) -> String {
    parse(source).unwrap_err().message
}

#[test]
fn binding_without_initializer_gives_no_declaration() {
    assert_eq!(parse("var x: ;").unwrap().len(), 0);
    assert_eq!(parse("let y: ;").unwrap().len(), 0);
}

#[test]
fn binding_with_initializer_fails_in_the_expression_grammar() {
    assert_eq!(message("var x: = 5;"), "failed parsing expression");
}

#[test]
fn empty_function() {
    let decls = parse("fn foo() { }").unwrap();
    assert_eq!(decls.len(), 1);
    match &decls[0] {
        Decl::Fn(f) => {
            assert_eq!(f.name, "foo");
            assert!(f.params.is_empty());
            assert!(f.stmts.is_empty());
        },
        _ => panic!("expected a function"),
    }
}

#[test]
fn function_parameters() {
    let decls = parse("fn add(let a, var b) {}").unwrap();
    match &decls[0] {
        Decl::Fn(f) => {
            assert_eq!(f.params.len(), 2);
            assert_eq!((f.params[0].name.as_str(), f.params[0].is_mutable), ("a", false));
            assert_eq!((f.params[1].name.as_str(), f.params[1].is_mutable), ("b", true));
        },
        _ => panic!("expected a function"),
    }
}

#[test]
fn non_empty_body_fails() {
    assert_eq!(message("fn f() { x }"), "expected '}' after function body");
    assert_eq!(message("fn f(let a) { return }"), "expected '}' after function body");
}

#[test]
fn stray_tokens_are_passed_over() {
    let decls = parse("; 1 fn a() {} x fn b() {}").unwrap();
    assert_eq!(decls.len(), 2);
}

#[test]
fn parse_errors_name_what_was_expected() {
    assert_eq!(message("var ;"), "expected variable name");
    assert_eq!(message("let x ;"), "expected ':' after variable declaration");
    assert_eq!(message("var x: 1"), "expected ';' at the end of declaration");
    assert_eq!(message("fn ("), "expected function name");
    assert_eq!(message("fn f {"), "expected '(' after function name");
    assert_eq!(message("fn f(let 1)"), "expected identifier after 'let' keyword");
    assert_eq!(message("fn f(var)"), "expected identifier after 'var' keyword");
    assert_eq!(message("fn f(let a"), "expected ')' after parameters");
    assert_eq!(message("fn f() ;"), "expected '{' after function parameters");
    assert_eq!(message("fn f() {"), "expected '}' after function body");
}

#[test]
fn compare_token_kind_on_absent_token() {
    assert!(!compare_token_kind(None, TokenKind::RightParen));
}

#[test]
fn parsing_leaves_the_stream_at_its_end() {
    for source in ["var x: ;", "fn foo() { }", "; 1 x"] {
        let tokens = Lexer::new("/test.mv", source).tokenize().unwrap();
        let mut stream = TokenStream::new(tokens);
        assert!(DeclParser::new().parse(&mut stream).is_ok());
        assert!(stream.is_at_end());
    }
}

#[test]
fn binding_with_a_parsed_initializer_names_the_declaration() {
    let tokens = Lexer::new("/test.mv", "5 ;").tokenize().unwrap();
    let mut stream = TokenStream::new(tokens);
    let r = DeclParser::new().finish_binding(&mut stream, Some("x".to_string()), Some(Expr {}));
    let (name, _) = r.unwrap().unwrap();
    assert_eq!(name, "x");
    assert_eq!(stream.current().kind, TokenKind::Semicolon);
}

#[test]
fn binding_without_a_parsed_initializer_fails() {
    let tokens = Lexer::new("/test.mv", "5 ;").tokenize().unwrap();
    let mut stream = TokenStream::new(tokens);
    let e = DeclParser::new().finish_binding(&mut stream, Some("x".to_string()), None).unwrap_err();
    assert_eq!(e.message, "failed parsing expression");
    let tokens = Lexer::new("/test.mv", "5 6").tokenize().unwrap();
    let mut stream = TokenStream::new(tokens);
    let e = DeclParser::new().finish_binding(&mut stream, Some("x".to_string()), Some(Expr {})).unwrap_err();
    assert_eq!(e.message, "expected ';' at the end of declaration");
}
