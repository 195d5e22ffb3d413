use mova::lexer::Lexer;
use mova::lexical::{LexError, LexErrorKind};
use mova::token::{Token, TokenKind, TokenMod, TokenSuffix, Value};

fn lex(source: &str) -> Result<Vec<Token>, LexError> {
    Lexer::new("/test.mv", source).tokenize()
}

fn kinds(source: &str) -> Vec<TokenKind> {
    lex(source).unwrap().iter().map(|t| t.kind).collect()
}

#[test]
fn digits_give_one_int_token() {
    let tokens = lex("42").unwrap();
    assert_eq!(tokens.len(), 1);
    assert_eq!(tokens[0].kind, TokenKind::Int);
    assert_eq!(tokens[0].value, Value::Int(42));
    assert_eq!(tokens[0].suffix, TokenSuffix::Bare);
    assert_eq!(tokens[0].modd, TokenMod::Plain);
    assert_eq!(tokens[0].line, 1);
}

#[test]
fn largest_int_fits() {
    let tokens = lex("2147483647").unwrap();
    assert_eq!(tokens[0].value, Value::Int(i32::MAX));
}

#[test]
fn int_above_i32_is_an_error() {
    let e = lex("x 2147483648").unwrap_err();
    assert_eq!(e, LexError { kind: LexErrorKind::IntegerOutOfRange, line: 1, column: 3 });
}

#[test]
fn decimal_gives_one_float_token() {
    let tokens = lex("12.50").unwrap();
    assert_eq!(tokens.len(), 1);
    assert_eq!(tokens[0].kind, TokenKind::Float);
    assert_eq!(tokens[0].value, Value::Float("12.50".to_string()));
    assert_eq!(tokens[0].suffix, TokenSuffix::Bare);
}

#[test]
fn trailing_dot_is_not_a_float() {
    let tokens = lex("10.").unwrap();
    assert_eq!(tokens.len(), 2);
    assert_eq!(tokens[0].value, Value::Int(10));
    assert_eq!(tokens[1].kind, TokenKind::Dot);
    assert_eq!(tokens[1].value, Value::from("."));
}

#[test]
fn dot_dot_after_int() {
    assert_eq!(kinds("1..2"), vec![TokenKind::Int, TokenKind::DotDot, TokenKind::Int]);
}

#[test]
fn unknown_suffix_combination_is_an_error() {
    let e = lex("10LU ").unwrap_err();
    assert_eq!(e.kind, LexErrorKind::UnknownSuffix);
    assert_eq!((e.line, e.column), (1, 5));
}

#[test]
fn unknown_suffix_at_end_of_input_is_an_error() {
    assert_eq!(lex("7UUU").unwrap_err().kind, LexErrorKind::UnknownSuffix);
}

#[test]
fn float_suffix_after_int_suffix_is_an_error() {
    let e = lex("10UD").unwrap_err();
    assert_eq!(e, LexError { kind: LexErrorKind::InvalidIntSuffix, line: 1, column: 4 });
}

#[test]
fn int_suffix_stops_at_other_letters() {
    let tokens = lex("11Ux").unwrap();
    assert_eq!(tokens.len(), 2);
    assert_eq!(tokens[0].suffix, TokenSuffix::U);
    assert_eq!(tokens[1].value, Value::from("x"));
}

#[test]
fn comment_gives_no_token() {
    assert_eq!(lex("// a comment").unwrap().len(), 0);
}

#[test]
fn comment_ends_at_newline() {
    let tokens = lex("a // b c\nd").unwrap();
    assert_eq!(tokens.len(), 2);
    assert_eq!(tokens[1].value, Value::from("d"));
    assert_eq!(tokens[1].line, 2);
}

#[test]
fn underscore_identifier() {
    let tokens = lex("_asd").unwrap();
    assert_eq!(tokens.len(), 1);
    assert_eq!(tokens[0].kind, TokenKind::Identifier);
    assert_eq!(tokens[0].value, Value::from("_asd"));
}

#[test]
fn digits_then_letters_split_into_number_and_identifier() {
    let tokens = lex("10_asd").unwrap();
    assert_eq!(tokens.len(), 2);
    assert_eq!(tokens[0].value, Value::Int(10));
    assert_eq!(tokens[1].kind, TokenKind::Identifier);
    assert_eq!(tokens[1].value, Value::from("_asd"));
}

#[test]
fn non_ascii_letters_make_identifiers() {
    let tokens = lex("héllo wörld").unwrap();
    assert_eq!(tokens.len(), 2);
    assert_eq!(tokens[0].value, Value::Str("héllo".to_string()));
    assert_eq!(tokens[1].value, Value::Str("wörld".to_string()));
}

#[test]
fn keywords_are_recognised() {
    assert_eq!(
        kinds("var let fn return defer varx"),
        vec![
            TokenKind::Var,
            TokenKind::Let,
            TokenKind::Fn,
            TokenKind::Return,
            TokenKind::Defer,
            TokenKind::Identifier,
        ]
    );
}

#[test]
fn string_literal_is_consumed_with_its_quotes() {
    let tokens = lex("\"a b\" x").unwrap();
    assert_eq!(tokens.len(), 2);
    assert_eq!(tokens[0].kind, TokenKind::String);
    assert_eq!(tokens[0].value, Value::from("a b"));
    assert_eq!(tokens[1].value, Value::from("x"));
}

#[test]
fn unterminated_string_is_an_error() {
    let e = lex("x \"abc").unwrap_err();
    assert_eq!(e, LexError { kind: LexErrorKind::UnterminatedString, line: 1, column: 3 });
}

#[test]
fn unknown_character_is_an_error_with_position() {
    let e = lex("a\n  $").unwrap_err();
    assert_eq!(e, LexError { kind: LexErrorKind::UnknownToken, line: 2, column: 3 });
}

#[test]
fn tab_is_not_whitespace() {
    assert_eq!(lex("\t").unwrap_err().kind, LexErrorKind::UnknownToken);
}

#[test]
fn operators_take_the_long_form_when_they_can() {
    assert_eq!(
        kinds(":: : -- -= -> - ++ += + /= / *= * != ! == = <= < >= >"),
        vec![
            TokenKind::ColonColon,
            TokenKind::Colon,
            TokenKind::Dec,
            TokenKind::MinusEqual,
            TokenKind::MinusGreater,
            TokenKind::Minus,
            TokenKind::Inc,
            TokenKind::PlusEqual,
            TokenKind::Plus,
            TokenKind::SlashEqual,
            TokenKind::Slash,
            TokenKind::StarEqual,
            TokenKind::Star,
            TokenKind::BangEqual,
            TokenKind::Bang,
            TokenKind::EqualEqual,
            TokenKind::Equal,
            TokenKind::LessEqual,
            TokenKind::Less,
            TokenKind::GreaterEqual,
            TokenKind::Greater,
        ]
    );
}

#[test]
fn single_character_punctuation() {
    assert_eq!(
        kinds("()[]{};,#|@?^"),
        vec![
            TokenKind::LeftParen,
            TokenKind::RightParen,
            TokenKind::LeftBracket,
            TokenKind::RightBracket,
            TokenKind::LeftBrace,
            TokenKind::RightBrace,
            TokenKind::Semicolon,
            TokenKind::Comma,
            TokenKind::Sharp,
            TokenKind::Pipe,
            TokenKind::At,
            TokenKind::Question,
            TokenKind::Hat,
        ]
    );
}

#[test]
fn punctuation_carries_its_lexeme() {
    let tokens = lex("; -=").unwrap();
    assert_eq!(tokens[0].value, Value::from(";"));
    assert_eq!(tokens[1].value, Value::from("-="));
}

#[test]
fn tokens_record_the_line_they_start_on() {
    let tokens = lex("a\nb\n\n  c").unwrap();
    let lines: Vec<u32> = tokens.iter().map(|t| t.line).collect();
    assert_eq!(lines, vec![1, 2, 4]);
}

#[test]
fn empty_source_gives_no_tokens() {
    assert_eq!(lex("").unwrap().len(), 0);
}

#[test]
fn file_path_is_kept() {
    assert_eq!(Lexer::new("/src/main.mv", "x").file_path(), "/src/main.mv");
}

#[test]
fn suffix_spellings() {
    assert_eq!(TokenSuffix::from(&"ULL".to_string()), Some(TokenSuffix::ULL));
    assert_eq!(TokenSuffix::from(&"D".to_string()), Some(TokenSuffix::D));
    assert_eq!(TokenSuffix::from(&"LU".to_string()), None);
    assert_eq!(TokenSuffix::from(&"".to_string()), None);
}

#[test]
fn eof_token() {
    let t = Token::eof();
    assert_eq!(t.kind, TokenKind::Eof);
    assert_eq!(t.value, Value::Empty);
    assert_eq!(t.line, 0);
}

#[test]
fn value_get_str() {
    assert_eq!(Value::from("abc").get_str(), "abc".to_string());
}

#[test]
fn keyword_table_lookup() {
    let table = Lexer::init_keywords();
    assert_eq!(table.get(&"while".to_string()), Some(TokenKind::While));
    assert_eq!(table.get(&"fall".to_string()), Some(TokenKind::Fall));
    assert_eq!(table.get(&"whilst".to_string()), None);
}

#[test]
fn leading_newline_counts_as_a_line() {
    let tokens = lex("\nfoo").unwrap();
    assert_eq!(tokens[0].line, 2);
    let e = lex("\n$").unwrap_err();
    assert_eq!(e, LexError { kind: LexErrorKind::UnknownToken, line: 2, column: 1 });
}

#[test]
fn comment_line_moves_the_next_token_one_line_down() {
    assert_eq!(lex("\nx").unwrap()[0].line, 2);
    assert_eq!(lex("//c\n\nx").unwrap()[0].line, 3);
}

#[test]
fn float_suffix_right_after_int_is_an_error() {
    let e = lex("10D").unwrap_err();
    assert_eq!(e, LexError { kind: LexErrorKind::InvalidIntSuffix, line: 1, column: 3 });
}
