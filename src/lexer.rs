use vstd::prelude::*;

use crate::chars_nav::CharsNavigator;
use crate::keywords::{keyword_entries, lemma_keyword_kinds, KeywordTable};
use crate::lexical::{
    comment_end, decimal_value, digits_end, error_at, find_char, ident_end, ident_step,
    is_int_suffix_letter, lemma_digits_end, lemma_find_char, lemma_step_advances, lex_from,
    number_step, prepend, punct_step, starts_ident, starts_number, starts_string, string_step,
    suffix_end, LexError, LexErrorKind, Step,
};
use crate::text::{alphabetic, is_digit, push_char};
use crate::token::{suffix_of, tokens_view, Token, TokenKind, TokenSuffix, TokenView, Value};

verus! {

broadcast use CharsNavigator::lemma_pos_nonneg;

/// Whether `r` is what the lexer owes for step `st`, the cursor having
/// moved to `q`: the emitted token, nothing for a skip, or the error.
pub open spec fn scanned(st: Step, r: Result<Option<Token>, LexError>, q: int) -> bool {
    match st {
        Step::Emit(t, q0) => r is Ok && r->Ok_0 is Some && r->Ok_0->Some_0@ == t && q == q0,
        Step::Skip(q0) => r is Ok && r->Ok_0 is None && q == q0,
        Step::Fail(e) => r is Err && r->Err_0 == e,
        Step::End => false,
    }
}

/// The tokens `ts` followed by those of `r`, or the error of `r`.
pub open spec fn prepend_all(ts: Seq<TokenView>, r: Result<Seq<TokenView>, LexError>) -> Result<
    Seq<TokenView>,
    LexError,
> {
    match r {
        Ok(v) => Ok(ts + v),
        Err(e) => Err(e),
    }
}

/// The mathematical content of a tokenizing result.
pub open spec fn lexed_view(r: Result<Vec<Token>, LexError>) -> Result<Seq<TokenView>, LexError> {
    match r {
        Ok(v) => Ok(tokens_view(v@)),
        Err(e) => Err(e),
    }
}

/// Turns source text into tokens in one pass.
pub struct Lexer {
    file_path: String,
    nav: CharsNavigator,
    keywords: KeywordTable,
}

impl Lexer {
    /// The source text.
    pub closed spec fn text(&self) -> Seq<char> {
        self.nav.text()
    }

    /// The position of the next character to scan.
    pub closed spec fn pos(&self) -> int {
        self.nav.pos()
    }

    /// The path reported in diagnostics.
    pub closed spec fn path(&self) -> Seq<char> {
        self.file_path@
    }

    pub closed spec fn wf(&self) -> bool {
        &&& self.nav.wf()
        &&& self.keywords@ == keyword_entries()
    }

    /// The cursor stays within the text, whose length fits a `u32`.
    pub proof fn lemma_wf(&self)
        requires
            self.wf(),
        ensures
            0 <= self.pos() <= self.text().len() < u32::MAX,
    {
        self.nav.lemma_wf();
    }

    /// A lexer at the start of `source`; `file_path` only names it in
    /// diagnostics.
    pub fn new(file_path: &str, source: &str) -> (r: Self)
        requires
            source@.len() < u32::MAX,
        ensures
            r.wf(),
            r.text() == source@,
            r.pos() == 0,
            r.path() == file_path@,
    {
        Lexer {
            file_path: String::from_str(file_path),
            nav: CharsNavigator::new(source),
            keywords: Self::init_keywords(),
        }
    }

    /// The keyword table.
    pub fn init_keywords() -> (r: KeywordTable)
        ensures
            r@ == keyword_entries(),
    {
        KeywordTable::new()
    }

    /// The path reported in diagnostics.
    pub fn file_path(&self) -> (r: &str)
        ensures
            r@ == self.path(),
    {
        self.file_path.as_str()
    }

    /// All tokens from the cursor to the end of the input, or the first
    /// lexical error.
    pub fn tokenize(&mut self) -> (r: Result<Vec<Token>, LexError>)
        requires
            old(self).wf(),
        ensures
            final(self).wf(),
            final(self).text() == old(self).text(),
            final(self).path() == old(self).path(),
            lexed_view(r) == lex_from(old(self).text(), old(self).pos()),
    {
        let ghost s = self.text();
        let ghost p0 = self.pos();
        proof {
            self.lemma_wf();
        }
        let mut vec: Vec<Token> = Vec::new();
        assert(tokens_view(vec@) + Seq::<TokenView>::empty() =~= Seq::<TokenView>::empty());
        loop
            invariant
                self.wf(),
                self.text() == s,
                self.path() == old(self).path(),
                s == old(self).text(),
                p0 == old(self).pos(),
                0 <= self.pos() <= s.len(),
                lex_from(s, p0) == prepend_all(tokens_view(vec@), lex_from(s, self.pos())),
            decreases s.len() - self.pos(),
        {
            let ghost before = tokens_view(vec@);
            let next = self.eat_token();
            proof {
                self.lemma_wf();
            }
            match next {
                Err(e) => {
                    return Err(e);
                },
                Ok(token) => {
                    if token.kind == TokenKind::Eof {
                        assert(before + Seq::<TokenView>::empty() =~= before);
                        return Ok(vec);
                    }
                    let ghost t = token@;
                    vec.push(token);
                    proof {
                        assert(tokens_view(vec@) =~= before.push(t));
                        match lex_from(s, self.pos()) {
                            Ok(v) => {
                                assert(before + (seq![t] + v) =~= before.push(t) + v);
                            },
                            Err(_) => {},
                        }
                    }
                },
            }
        }
    }

    /// The next token, skipping blanks and comments; the end marker once
    /// the input is exhausted.
    fn eat_token(&mut self) -> (r: Result<Token, LexError>)
        requires
            old(self).wf(),
        ensures
            final(self).wf(),
            final(self).text() == old(self).text(),
            final(self).path() == old(self).path(),
            match r {
                Ok(t) => if t.kind == TokenKind::Eof {
                    lex_from(old(self).text(), old(self).pos()) == Ok::<Seq<TokenView>, LexError>(
                        seq![],
                    )
                } else {
                    old(self).pos() < final(self).pos() && lex_from(
                        old(self).text(),
                        old(self).pos(),
                    ) == prepend(t@, lex_from(old(self).text(), final(self).pos()))
                },
                Err(e) => lex_from(old(self).text(), old(self).pos()) == Err::<
                    Seq<TokenView>,
                    LexError,
                >(e),
            },
    {
        let ghost s = self.text();
        let ghost p0 = self.pos();
        proof {
            self.lemma_wf();
        }
        while !self.nav.is_at_end()
            invariant
                self.wf(),
                self.text() == s,
                self.path() == old(self).path(),
                s == old(self).text(),
                p0 == old(self).pos(),
                0 <= p0 <= self.pos() <= s.len(),
                lex_from(s, p0) == lex_from(s, self.pos()),
            decreases s.len() - self.pos(),
        {
            let ghost p = self.pos();
            proof {
                lemma_step_advances(s, p);
            }
            match self.eat_number() {
                Err(e) => {
                    return Err(e);
                },
                Ok(Some(t)) => {
                    return Ok(t);
                },
                Ok(None) => {},
            }
            match self.eat_string() {
                Err(e) => {
                    return Err(e);
                },
                Ok(Some(t)) => {
                    return Ok(t);
                },
                Ok(None) => {},
            }
            match self.eat_identifier() {
                Some(t) => {
                    proof {
                        lemma_keyword_kinds(s.subrange(p, ident_end(s, p + 1)));
                    }
                    return Ok(t);
                },
                None => {},
            }
            match self.eat_punct() {
                Err(e) => {
                    return Err(e);
                },
                Ok(Some(t)) => {
                    return Ok(t);
                },
                Ok(None) => {},
            }
        }
        Ok(Token::eof())
    }

    /// Appends the run of digits at the cursor to `text` and moves past it;
    /// gives the run's value when it fits an `i32`.
    fn eat_digits(&mut self, text: &mut String) -> (r: Option<i32>)
        requires
            old(self).wf(),
        ensures
            final(self).wf(),
            final(self).text() == old(self).text(),
            final(self).path() == old(self).path(),
            final(self).pos() == digits_end(old(self).text(), old(self).pos()),
            final(text)@ == old(text)@ + old(self).text().subrange(
                old(self).pos(),
                final(self).pos(),
            ),
            r == if decimal_value(old(self).text().subrange(old(self).pos(), final(self).pos()))
                <= i32::MAX {
                Some(
                    decimal_value(
                        old(self).text().subrange(old(self).pos(), final(self).pos()),
                    ) as i32,
                )
            } else {
                None::<i32>
            },
    {
        let ghost s = self.text();
        let ghost p0 = self.pos();
        proof {
            self.lemma_wf();
        }
        let ghost t0 = text@;
        let mut value: i64 = 0;
        let mut overflow = false;
        loop
            invariant
                self.wf(),
                self.text() == s,
                self.path() == old(self).path(),
                0 <= p0 <= self.pos() <= s.len(),
                digits_end(s, p0) == digits_end(s, self.pos()),
                text@ == t0 + s.subrange(p0, self.pos()),
                overflow == (decimal_value(s.subrange(p0, self.pos())) > i32::MAX),
                !overflow ==> value == decimal_value(s.subrange(p0, self.pos())),
                0 <= value <= i32::MAX,
            ensures
                self.wf(),
                self.text() == s,
                self.path() == old(self).path(),
                self.pos() == digits_end(s, p0),
                text@ == t0 + s.subrange(p0, self.pos()),
                overflow == (decimal_value(s.subrange(p0, self.pos())) > i32::MAX),
                !overflow ==> value == decimal_value(s.subrange(p0, self.pos())),
                0 <= value <= i32::MAX,
            decreases s.len() - self.pos(),
        {
            let ghost p = self.pos();
            let c = match self.nav.current() {
                Some(c) => c,
                None => {
                    break ;
                },
            };
            if !is_digit(c) {
                break ;
            }
            push_char(text, c);
            let ghost digits = s.subrange(p0, p + 1);
            assert(digits.drop_last() =~= s.subrange(p0, p));
            assert(digits.last() == c);
            let d: i64 = (c as u32 - '0' as u32) as i64;
            if !overflow {
                if value * 10 + d <= i32::MAX as i64 {
                    value = value * 10 + d;
                } else {
                    overflow = true;
                }
            }
            self.nav.next();
            assert(text@ =~= t0 + s.subrange(p0, self.pos()));
        }
        if overflow {
            None
        } else {
            Some(value as i32)
        }
    }

    /// A number at the cursor: `None` unless a digit is there.
    pub fn eat_number(&mut self) -> (r: Result<Option<Token>, LexError>)
        requires
            old(self).wf(),
        ensures
            final(self).wf(),
            final(self).text() == old(self).text(),
            final(self).path() == old(self).path(),
            !starts_number(old(self).text(), old(self).pos()) ==> r == Ok::<
                Option<Token>,
                LexError,
            >(None) && final(self).pos() == old(self).pos(),
            starts_number(old(self).text(), old(self).pos()) ==> scanned(
                number_step(old(self).text(), old(self).pos()),
                r,
                final(self).pos(),
            ),
    {
        let ghost s = self.text();
        let ghost p0 = self.pos();
        proof {
            self.lemma_wf();
        }
        let line = self.nav.line();
        let column = self.nav.column();
        let c = match self.nav.current() {
            Some(c) => c,
            None => {
                return Ok(None);
            },
        };
        if !is_digit(c) {
            return Ok(None);
        }
        let mut text = String::new();
        let value = self.eat_digits(&mut text);
        let ghost d = self.pos();
        proof {
            lemma_digits_end(s, p0);
        }
        assert(text@ =~= s.subrange(p0, d));
        match self.eat_int_suffix() {
            Err(e) => {
                return Err(e);
            },
            Ok(Some(suffix)) => {
                return match value {
                    Some(v) => Ok(
                        Some(Token::new_number(TokenKind::Int, line, Value::Int(v), suffix)),
                    ),
                    None => Err(
                        LexError { kind: LexErrorKind::IntegerOutOfRange, line, column },
                    ),
                };
            },
            Ok(None) => {},
        }
        let is_next_dot = match self.nav.current() {
            Some(c) => c == '.',
            None => false,
        };
        let is_after_next_digit = match self.nav.peek() {
            Some(c) => is_digit(c),
            None => false,
        };
        if is_next_dot && is_after_next_digit {
            push_char(&mut text, '.');
            assert(text@ =~= s.subrange(p0, d + 1));
            self.nav.next();
            self.eat_digits(&mut text);
            proof {
                self.lemma_wf();
                lemma_digits_end(s, d + 1);
            }
            assert(text@ =~= s.subrange(p0, self.pos()));
            let suffix = self.eat_float_suffix();
            return Ok(Some(Token::new_number(TokenKind::Float, line, Value::Float(text), suffix)));
        }
        match value {
            Some(v) => Ok(Some(Token::new(TokenKind::Int, line, Value::Int(v)))),
            None => Err(LexError { kind: LexErrorKind::IntegerOutOfRange, line, column }),
        }
    }

    /// An integer suffix at the cursor: `None` unless `U`, `L` or `D` is
    /// there; otherwise the run of `U`/`L` (possibly empty) must spell a
    /// suffix and not be followed by `D`.
    fn eat_int_suffix(&mut self) -> (r: Result<Option<TokenSuffix>, LexError>)
        requires
            old(self).wf(),
        ensures
            final(self).wf(),
            final(self).text() == old(self).text(),
            final(self).path() == old(self).path(),
            ({
                let s = old(self).text();
                let p = old(self).pos();
                let e = suffix_end(s, p);
                if !(p < s.len() && (is_int_suffix_letter(s[p]) || s[p] == 'D')) {
                    r == Ok::<Option<TokenSuffix>, LexError>(None) && final(self).pos() == p
                } else if e < s.len() && s[e] == 'D' {
                    r == Err::<Option<TokenSuffix>, LexError>(
                        error_at(s, e, LexErrorKind::InvalidIntSuffix),
                    )
                } else {
                    match suffix_of(s.subrange(p, e)) {
                        Some(sf) => r == Ok::<Option<TokenSuffix>, LexError>(Some(sf))
                            && final(self).pos() == e,
                        None => r == Err::<Option<TokenSuffix>, LexError>(
                            error_at(s, e, LexErrorKind::UnknownSuffix),
                        ),
                    }
                }
            }),
    {
        let ghost s = self.text();
        let ghost p0 = self.pos();
        proof {
            self.lemma_wf();
        }
        let is_next_suffix = match self.nav.current() {
            Some(c) => c == 'U' || c == 'L' || c == 'D',
            None => false,
        };
        if !is_next_suffix {
            return Ok(None);
        }
        let mut suffix = String::new();
        loop
            invariant
                self.wf(),
                self.text() == s,
                self.path() == old(self).path(),
                0 <= p0 <= self.pos() <= s.len(),
                suffix_end(s, p0) == suffix_end(s, self.pos()),
                suffix@ == s.subrange(p0, self.pos()),
            ensures
                self.wf(),
                self.text() == s,
                self.path() == old(self).path(),
                self.pos() == suffix_end(s, p0),
                suffix@ == s.subrange(p0, self.pos()),
            decreases s.len() - self.pos(),
        {
            match self.nav.current() {
                Some(c) => {
                    if c == 'U' || c == 'L' {
                        push_char(&mut suffix, c);
                        self.nav.next();
                        assert(suffix@ =~= s.subrange(p0, self.pos()));
                    } else {
                        break ;
                    }
                },
                None => {
                    break ;
                },
            }
        }
        let is_d = match self.nav.current() {
            Some(c) => c == 'D',
            None => false,
        };
        if is_d {
            return Err(
                LexError {
                    kind: LexErrorKind::InvalidIntSuffix,
                    line: self.nav.line(),
                    column: self.nav.column(),
                },
            );
        }
        match TokenSuffix::from(&suffix) {
            Some(token_suffix) => Ok(Some(token_suffix)),
            None => Err(
                LexError {
                    kind: LexErrorKind::UnknownSuffix,
                    line: self.nav.line(),
                    column: self.nav.column(),
                },
            ),
        }
    }

    /// A float suffix at the cursor: `D` if there (and consumed), else none.
    fn eat_float_suffix(&mut self) -> (r: TokenSuffix)
        requires
            old(self).wf(),
        ensures
            final(self).wf(),
            final(self).text() == old(self).text(),
            final(self).path() == old(self).path(),
            ({
                let s = old(self).text();
                let p = old(self).pos();
                if p < s.len() && s[p] == 'D' {
                    r == TokenSuffix::D && final(self).pos() == p + 1
                } else {
                    r == TokenSuffix::Bare && final(self).pos() == p
                }
            }),
    {
        proof {
            self.lemma_wf();
        }
        let is_next_suffix = match self.nav.current() {
            Some(c) => c == 'D',
            None => false,
        };
        if !is_next_suffix {
            return TokenSuffix::Bare;
        }
        self.nav.next();
        TokenSuffix::D
    }

    /// A string literal at the cursor: `None` unless `"` is there.
    pub fn eat_string(&mut self) -> (r: Result<Option<Token>, LexError>)
        requires
            old(self).wf(),
        ensures
            final(self).wf(),
            final(self).text() == old(self).text(),
            final(self).path() == old(self).path(),
            !starts_string(old(self).text(), old(self).pos()) ==> r == Ok::<
                Option<Token>,
                LexError,
            >(None) && final(self).pos() == old(self).pos(),
            starts_string(old(self).text(), old(self).pos()) ==> scanned(
                string_step(old(self).text(), old(self).pos()),
                r,
                final(self).pos(),
            ),
    {
        let ghost s = self.text();
        let ghost p0 = self.pos();
        proof {
            self.lemma_wf();
        }
        let line = self.nav.line();
        let column = self.nav.column();
        match self.nav.current() {
            Some(c) => {
                if c != '\"' {
                    return Ok(None);
                }
            },
            None => {
                return Ok(None);
            },
        }
        let mut string = String::new();
        loop
            invariant_except_break
                0 <= p0 <= self.pos() < s.len(),
                find_char(s, p0 + 1, '"') == find_char(s, self.pos() + 1, '"'),
                string@ == s.subrange(p0 + 1, self.pos() + 1),
            invariant
                self.wf(),
                self.text() == s,
                self.path() == old(self).path(),
            ensures
                self.wf(),
                self.text() == s,
                self.path() == old(self).path(),
                p0 < self.pos() <= s.len(),
                self.pos() == find_char(s, p0 + 1, '"'),
                self.pos() < s.len() ==> string@ == s.subrange(p0 + 1, self.pos()),
            decreases s.len() - self.pos(),
        {
            match self.nav.next() {
                Some(c) => {
                    if c == '\"' {
                        break ;
                    }
                    push_char(&mut string, c);
                    assert(string@ =~= s.subrange(p0 + 1, self.pos() + 1));
                },
                None => {
                    break ;
                },
            }
        }
        if self.nav.is_at_end() {
            return Err(LexError { kind: LexErrorKind::UnterminatedString, line, column });
        }
        self.nav.next();
        Ok(Some(Token::new(TokenKind::String, line, Value::Str(string))))
    }

    /// An identifier or keyword at the cursor: `None` unless a letter or
    /// `_` is there.
    pub fn eat_identifier(&mut self) -> (r: Option<Token>)
        requires
            old(self).wf(),
        ensures
            final(self).wf(),
            final(self).text() == old(self).text(),
            final(self).path() == old(self).path(),
            !starts_ident(old(self).text(), old(self).pos()) ==> r is None && final(self).pos()
                == old(self).pos(),
            starts_ident(old(self).text(), old(self).pos()) ==> scanned(
                ident_step(old(self).text(), old(self).pos()),
                Ok(r),
                final(self).pos(),
            ),
    {
        let ghost s = self.text();
        let ghost p0 = self.pos();
        proof {
            self.lemma_wf();
        }
        let line = self.nav.line();
        let first = match self.nav.current() {
            Some(c) => c,
            None => {
                return None;
            },
        };
        if !(alphabetic(first) || first == '_') {
            return None;
        }
        let mut identifier = String::new();
        push_char(&mut identifier, first);
        assert(identifier@ =~= s.subrange(p0, p0 + 1));
        loop
            invariant
                self.wf(),
                self.text() == s,
                self.path() == old(self).path(),
                0 <= p0 <= self.pos() < s.len(),
                ident_end(s, p0 + 1) == ident_end(s, self.pos() + 1),
                identifier@ == s.subrange(p0, self.pos() + 1),
            ensures
                self.wf(),
                self.text() == s,
                self.path() == old(self).path(),
                0 <= p0 <= self.pos() < s.len(),
                ident_end(s, p0 + 1) == self.pos() + 1,
                identifier@ == s.subrange(p0, self.pos() + 1),
            decreases s.len() - self.pos(),
        {
            match self.nav.peek() {
                Some(c) => {
                    if alphabetic(c) || c == '_' || is_digit(c) {
                        self.nav.next();
                        push_char(&mut identifier, c);
                        assert(identifier@ =~= s.subrange(p0, self.pos() + 1));
                    } else {
                        break ;
                    }
                },
                None => {
                    break ;
                },
            }
        }
        self.nav.next();
        let kind = match self.keywords.get(&identifier) {
            Some(k) => k,
            None => TokenKind::Identifier,
        };
        Some(Token::new(kind, line, Value::Str(identifier)))
    }
    /// Punctuation, an operator, a blank or a comment at the cursor; `None`
    /// when nothing is emitted.
    fn eat_punct(&mut self) -> (r: Result<Option<Token>, LexError>)
        requires
            old(self).wf(),
            old(self).pos() < old(self).text().len(),
        ensures
            final(self).wf(),
            final(self).text() == old(self).text(),
            final(self).path() == old(self).path(),
            scanned(punct_step(old(self).text(), old(self).pos()), r, final(self).pos()),
    {
        let ghost s = self.text();
        let ghost p0 = self.pos();
        proof {
            self.lemma_wf();
        }
        proof {
            lemma_find_char(s, p0 + 2, '\n');
            reveal_strlit("::");
            reveal_strlit("..");
            reveal_strlit("--");
            reveal_strlit("-=");
            reveal_strlit("->");
            reveal_strlit("++");
            reveal_strlit("+=");
            reveal_strlit("/=");
            reveal_strlit("*=");
            reveal_strlit("!=");
            reveal_strlit("==");
            reveal_strlit("<=");
            reveal_strlit(">=");
        }
        let line = self.nav.line();
        let column = self.nav.column();
        let c = match self.nav.current() {
            Some(c) => c,
            None => {
                return Ok(None);
            },
        };
        let (kind, lexeme): (TokenKind, &'static str) = match c {
            '(' => (TokenKind::LeftParen, "("),
            ')' => (TokenKind::RightParen, ")"),
            '[' => (TokenKind::LeftBracket, "["),
            ']' => (TokenKind::RightBracket, "]"),
            '{' => (TokenKind::LeftBrace, "{"),
            '}' => (TokenKind::RightBrace, "}"),
            ';' => (TokenKind::Semicolon, ";"),
            ':' => {
                if self.nav.next_if_match(c) {
                    (TokenKind::ColonColon, "::")
                } else {
                    (TokenKind::Colon, ":")
                }
            },
            '.' => {
                if self.nav.next_if_match(c) {
                    (TokenKind::DotDot, "..")
                } else {
                    (TokenKind::Dot, ".")
                }
            },
            '-' => {
                if self.nav.next_if_match(c) {
                    (TokenKind::Dec, "--")
                } else if self.nav.next_if_match('=') {
                    (TokenKind::MinusEqual, "-=")
                } else if self.nav.next_if_match('>') {
                    (TokenKind::MinusGreater, "->")
                } else {
                    (TokenKind::Minus, "-")
                }
            },
            '+' => {
                if self.nav.next_if_match(c) {
                    (TokenKind::Inc, "++")
                } else if self.nav.next_if_match('=') {
                    (TokenKind::PlusEqual, "+=")
                } else {
                    (TokenKind::Plus, "+")
                }
            },
            '/' => {
                if self.nav.next_if_match('=') {
                    (TokenKind::SlashEqual, "/=")
                } else if self.nav.next_if_match(c) {
                    self.skip_line();
                    return Ok(None);
                } else {
                    (TokenKind::Slash, "/")
                }
            },
            '*' => {
                if self.nav.next_if_match('=') {
                    (TokenKind::StarEqual, "*=")
                } else {
                    (TokenKind::Star, "*")
                }
            },
            ',' => (TokenKind::Comma, ","),
            '#' => (TokenKind::Sharp, "#"),
            '|' => (TokenKind::Pipe, "|"),
            '@' => (TokenKind::At, "@"),
            '?' => (TokenKind::Question, "?"),
            '!' => {
                if self.nav.next_if_match('=') {
                    (TokenKind::BangEqual, "!=")
                } else {
                    (TokenKind::Bang, "!")
                }
            },
            '=' => {
                if self.nav.next_if_match('=') {
                    (TokenKind::EqualEqual, "==")
                } else {
                    (TokenKind::Equal, "=")
                }
            },
            '<' => {
                if self.nav.next_if_match('=') {
                    (TokenKind::LessEqual, "<=")
                } else {
                    (TokenKind::Less, "<")
                }
            },
            '>' => {
                if self.nav.next_if_match('=') {
                    (TokenKind::GreaterEqual, ">=")
                } else {
                    (TokenKind::Greater, ">")
                }
            },
            '^' => (TokenKind::Hat, "^"),
            '\n' | ' ' => {
                self.nav.next();
                return Ok(None);
            },
            _ => {
                return Err(LexError { kind: LexErrorKind::UnknownToken, line, column });
            },
        };
        proof {
            reveal_strlit("(");
            reveal_strlit(")");
            reveal_strlit("[");
            reveal_strlit("]");
            reveal_strlit("{");
            reveal_strlit("}");
            reveal_strlit(";");
            reveal_strlit(":");
            reveal_strlit(".");
            reveal_strlit("-");
            reveal_strlit("+");
            reveal_strlit("/");
            reveal_strlit("*");
            reveal_strlit(",");
            reveal_strlit("#");
            reveal_strlit("|");
            reveal_strlit("@");
            reveal_strlit("?");
            reveal_strlit("!");
            reveal_strlit("=");
            reveal_strlit("<");
            reveal_strlit(">");
            reveal_strlit("^");
        }
        self.nav.next();
        Ok(Some(Token::new(kind, line, Value::from(lexeme))))
    }

    /// Skips the rest of a line comment whose `//` ends at the cursor, and
    /// the newline that closes it.
    fn skip_line(&mut self)
        requires
            old(self).wf(),
            1 <= old(self).pos() < old(self).text().len(),
        ensures
            final(self).wf(),
            final(self).text() == old(self).text(),
            final(self).path() == old(self).path(),
            final(self).pos() == comment_end(old(self).text(), old(self).pos() - 1),
    {
        let ghost s = self.text();
        let ghost p0 = self.pos();
        proof {
            self.lemma_wf();
        }
        loop
            invariant_except_break
                p0 <= self.pos() < s.len(),
                find_char(s, p0 + 1, '\n') == find_char(s, self.pos() + 1, '\n'),
            invariant
                self.wf(),
                self.text() == s,
                self.path() == old(self).path(),
            ensures
                self.wf(),
                self.text() == s,
                self.path() == old(self).path(),
                (self.pos() < s.len() && self.pos() == find_char(s, p0 + 1, '\n')) || (self.pos()
                    == s.len() && find_char(s, p0 + 1, '\n') == s.len()),
            decreases s.len() - self.pos(),
        {
            match self.nav.next() {
                Some(c) => {
                    if c == '\n' {
                        break ;
                    }
                },
                None => {
                    break ;
                },
            }
        }
        self.nav.next();
    }
}

} // verus!
