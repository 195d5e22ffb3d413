use mova::compiler::{CompileError, Compiled, Compiler, Phase};
use mova::lexical::LexErrorKind;

fn compiler(source: &str, phase: Phase) -> Compiler {
    Compiler::new("/test.mv".to_string(), source.to_string(), phase)
}

#[test]
fn lexer_phase_gives_tokens() {
    match compiler("fn f() {}", Phase::Lexer).compile() {
        Ok(Compiled::Tokens(tokens)) => assert_eq!(tokens.len(), 6),
        other => panic!("unexpected {:?}", other),
    }
}

#[test]
fn parser_phase_gives_a_stream() {
    match compiler("fn f() {}", Phase::Parser).compile() {
        Ok(Compiled::Stream(s)) => assert!(!s.is_at_end()),
        other => panic!("unexpected {:?}", other),
    }
}

#[test]
fn all_phase_gives_declarations() {
    match compiler("fn f() {} fn g() {}", Phase::All).compile() {
        Ok(Compiled::Decls(decls)) => assert_eq!(decls.len(), 2),
        other => panic!("unexpected {:?}", other),
    }
}

#[test]
fn lex_error_stops_the_run() {
    match compiler("fn $", Phase::All).compile() {
        Err(CompileError::Lex(e)) => assert_eq!(e.kind, LexErrorKind::UnknownToken),
        other => panic!("unexpected {:?}", other),
    }
}

#[test]
fn parse_error_stops_the_run() {
    match compiler("fn f() { x }", Phase::All).compile() {
        Err(CompileError::Parse(e)) => assert_eq!(e.message, "expected '}' after function body"),
        other => panic!("unexpected {:?}", other),
    }
}
