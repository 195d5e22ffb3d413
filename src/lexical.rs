//! The lexical grammar, stated over the source's characters: where each
//! token ends, what it carries, and which inputs are rejected.
use vstd::prelude::*;

use crate::chars_nav::{char_at, column_at, line_at};
use crate::keywords::{keyword_kind, lemma_keyword_kinds};
use crate::text::{is_decimal_digit, is_letter};
use crate::token::{suffix_of, TokenKind, TokenMod, TokenSuffix, TokenView, ValueView};

verus! {

/// Why tokenizing stopped.
#[derive(PartialEq, Eq, Structural, Debug, Clone, Copy)]
pub enum LexErrorKind {
    /// A string literal that reaches the end of the input.
    UnterminatedString,
    /// A character that starts no token.
    UnknownToken,
    /// `D`, a float suffix, after an integer's `U`/`L` suffix.
    InvalidIntSuffix,
    /// A run of `U`/`L` letters that spells no suffix.
    UnknownSuffix,
    /// An integer literal above `i32::MAX`.
    IntegerOutOfRange,
}

/// A fatal lexical error and the position it was found at.
#[derive(PartialEq, Eq, Structural, Debug, Clone, Copy)]
pub struct LexError {
    pub kind: LexErrorKind,
    pub line: u32,
    pub column: u32,
}

/// The error of kind `kind` at position `p` of `s`.
pub open spec fn error_at(s: Seq<char>, p: int, kind: LexErrorKind) -> LexError {
    LexError { kind, line: line_at(s, p) as u32, column: column_at(s, p) as u32 }
}

/// What the lexer does at one position.
pub ghost enum Step {
    /// The input is exhausted.
    End,
    /// Nothing is emitted and scanning goes on at the given position.
    Skip(int),
    /// A token is emitted and scanning goes on at the given position.
    Emit(TokenView, int),
    /// Tokenizing stops with an error.
    Fail(LexError),
}

/// The first position at or after `p` that holds no decimal digit.
pub open spec fn digits_end(s: Seq<char>, p: int) -> int
    decreases s.len() - p,
{
    if 0 <= p < s.len() && is_decimal_digit(s[p]) {
        digits_end(s, p + 1)
    } else {
        p
    }
}

/// An integer suffix letter.
pub open spec fn is_int_suffix_letter(c: char) -> bool {
    c == 'U' || c == 'L'
}

/// The first position at or after `p` that holds no `U` or `L`.
pub open spec fn suffix_end(s: Seq<char>, p: int) -> int
    decreases s.len() - p,
{
    if 0 <= p < s.len() && is_int_suffix_letter(s[p]) {
        suffix_end(s, p + 1)
    } else {
        p
    }
}

/// A character that may continue an identifier.
pub open spec fn is_ident_char(c: char) -> bool {
    is_letter(c) || c == '_' || is_decimal_digit(c)
}

/// The first position at or after `p` that cannot continue an identifier.
pub open spec fn ident_end(s: Seq<char>, p: int) -> int
    decreases s.len() - p,
{
    if 0 <= p < s.len() && is_ident_char(s[p]) {
        ident_end(s, p + 1)
    } else {
        p
    }
}

/// The first position at or after `p` that holds `c`, or `s.len()`.
pub open spec fn find_char(s: Seq<char>, p: int, c: char) -> int
    decreases s.len() - p,
{
    if p < 0 || p >= s.len() {
        s.len() as int
    } else if s[p] == c {
        p
    } else {
        find_char(s, p + 1, c)
    }
}

/// The number that the decimal digits `d` spell.
pub open spec fn decimal_value(d: Seq<char>) -> int
    decreases d.len(),
{
    if d.len() == 0 {
        0
    } else {
        decimal_value(d.drop_last()) * 10 + (d.last() as int - '0' as int)
    }
}

/// An integer token of value `v` with suffix `sf` starting at `p`, ending
/// before `q`; out of range values are an error.
pub open spec fn int_step(s: Seq<char>, p: int, v: int, sf: TokenSuffix, q: int) -> Step {
    if v > i32::MAX {
        Step::Fail(error_at(s, p, LexErrorKind::IntegerOutOfRange))
    } else {
        Step::Emit(
            TokenView {
                kind: TokenKind::Int,
                modd: TokenMod::Plain,
                suffix: sf,
                value: ValueView::Int(v as i32),
                line: line_at(s, p) as u32,
            },
            q,
        )
    }
}

/// A number starting at `p`: digits; then either a run of `U`/`L` that must
/// spell a suffix, where a `D` right after the digits or after the run is
/// an error (`D` is for floats only); or `.` and at least one digit with an
/// optional `D`, which makes it a float.
pub open spec fn number_step(s: Seq<char>, p: int) -> Step {
    let d = digits_end(s, p);
    let v = decimal_value(s.subrange(p, d));
    if d < s.len() && (is_int_suffix_letter(s[d]) || s[d] == 'D') {
        let e = suffix_end(s, d);
        if e < s.len() && s[e] == 'D' {
            Step::Fail(error_at(s, e, LexErrorKind::InvalidIntSuffix))
        } else {
            match suffix_of(s.subrange(d, e)) {
                Some(sf) => int_step(s, p, v, sf, e),
                None => Step::Fail(error_at(s, e, LexErrorKind::UnknownSuffix)),
            }
        }
    } else if d + 1 < s.len() && s[d] == '.' && is_decimal_digit(s[d + 1]) {
        let f = digits_end(s, d + 1);
        let has_d = f < s.len() && s[f] == 'D';
        Step::Emit(
            TokenView {
                kind: TokenKind::Float,
                modd: TokenMod::Plain,
                suffix: if has_d {
                    TokenSuffix::D
                } else {
                    TokenSuffix::Bare
                },
                value: ValueView::Float(s.subrange(p, f)),
                line: line_at(s, p) as u32,
            },
            if has_d {
                f + 1
            } else {
                f
            },
        )
    } else {
        int_step(s, p, v, TokenSuffix::Bare, d)
    }
}

/// A string literal opened at `p`: its text runs verbatim up to the next
/// `"`, which is consumed too.
pub open spec fn string_step(s: Seq<char>, p: int) -> Step {
    let k = find_char(s, p + 1, '"');
    if k >= s.len() {
        Step::Fail(error_at(s, p, LexErrorKind::UnterminatedString))
    } else {
        Step::Emit(
            TokenView {
                kind: TokenKind::String,
                modd: TokenMod::Plain,
                suffix: TokenSuffix::Bare,
                value: ValueView::Str(s.subrange(p + 1, k)),
                line: line_at(s, p) as u32,
            },
            k + 1,
        )
    }
}

/// An identifier or keyword starting at `p`.
pub open spec fn ident_step(s: Seq<char>, p: int) -> Step {
    let j = ident_end(s, p + 1);
    let word = s.subrange(p, j);
    Step::Emit(
        TokenView {
            kind: match keyword_kind(word) {
                Some(k) => k,
                None => TokenKind::Identifier,
            },
            modd: TokenMod::Plain,
            suffix: TokenSuffix::Bare,
            value: ValueView::Str(word),
            line: line_at(s, p) as u32,
        },
        j,
    )
}

/// A punctuation token of kind `kind` spelled `lexeme`, starting at `p`.
pub open spec fn punct(s: Seq<char>, p: int, kind: TokenKind, lexeme: Seq<char>) -> Step {
    Step::Emit(
        TokenView {
            kind,
            modd: TokenMod::Plain,
            suffix: TokenSuffix::Bare,
            value: ValueView::Str(lexeme),
            line: line_at(s, p) as u32,
        },
        p + lexeme.len(),
    )
}

/// Where scanning resumes after a line comment whose `//` starts at `p`:
/// after the next newline, or at the end.
pub open spec fn comment_end(s: Seq<char>, p: int) -> int {
    let k = find_char(s, p + 2, '\n');
    if k < s.len() {
        k + 1
    } else {
        s.len() as int
    }
}

/// Punctuation, operators, comments and blanks at `p`; one character of
/// lookahead picks between a short and a long form.
pub open spec fn punct_step(s: Seq<char>, p: int) -> Step {
    let c = s[p];
    let n = char_at(s, p + 1);
    if c == '(' {
        punct(s, p, TokenKind::LeftParen, "("@)
    } else if c == ')' {
        punct(s, p, TokenKind::RightParen, ")"@)
    } else if c == '[' {
        punct(s, p, TokenKind::LeftBracket, "["@)
    } else if c == ']' {
        punct(s, p, TokenKind::RightBracket, "]"@)
    } else if c == '{' {
        punct(s, p, TokenKind::LeftBrace, "{"@)
    } else if c == '}' {
        punct(s, p, TokenKind::RightBrace, "}"@)
    } else if c == ';' {
        punct(s, p, TokenKind::Semicolon, ";"@)
    } else if c == ':' {
        if n == Some(':') {
            punct(s, p, TokenKind::ColonColon, "::"@)
        } else {
            punct(s, p, TokenKind::Colon, ":"@)
        }
    } else if c == '.' {
        if n == Some('.') {
            punct(s, p, TokenKind::DotDot, ".."@)
        } else {
            punct(s, p, TokenKind::Dot, "."@)
        }
    } else if c == '-' {
        if n == Some('-') {
            punct(s, p, TokenKind::Dec, "--"@)
        } else if n == Some('=') {
            punct(s, p, TokenKind::MinusEqual, "-="@)
        } else if n == Some('>') {
            punct(s, p, TokenKind::MinusGreater, "->"@)
        } else {
            punct(s, p, TokenKind::Minus, "-"@)
        }
    } else if c == '+' {
        if n == Some('+') {
            punct(s, p, TokenKind::Inc, "++"@)
        } else if n == Some('=') {
            punct(s, p, TokenKind::PlusEqual, "+="@)
        } else {
            punct(s, p, TokenKind::Plus, "+"@)
        }
    } else if c == '/' {
        if n == Some('=') {
            punct(s, p, TokenKind::SlashEqual, "/="@)
        } else if n == Some('/') {
            Step::Skip(comment_end(s, p))
        } else {
            punct(s, p, TokenKind::Slash, "/"@)
        }
    } else if c == '*' {
        if n == Some('=') {
            punct(s, p, TokenKind::StarEqual, "*="@)
        } else {
            punct(s, p, TokenKind::Star, "*"@)
        }
    } else if c == ',' {
        punct(s, p, TokenKind::Comma, ","@)
    } else if c == '#' {
        punct(s, p, TokenKind::Sharp, "#"@)
    } else if c == '|' {
        punct(s, p, TokenKind::Pipe, "|"@)
    } else if c == '@' {
        punct(s, p, TokenKind::At, "@"@)
    } else if c == '?' {
        punct(s, p, TokenKind::Question, "?"@)
    } else if c == '!' {
        if n == Some('=') {
            punct(s, p, TokenKind::BangEqual, "!="@)
        } else {
            punct(s, p, TokenKind::Bang, "!"@)
        }
    } else if c == '=' {
        if n == Some('=') {
            punct(s, p, TokenKind::EqualEqual, "=="@)
        } else {
            punct(s, p, TokenKind::Equal, "="@)
        }
    } else if c == '<' {
        if n == Some('=') {
            punct(s, p, TokenKind::LessEqual, "<="@)
        } else {
            punct(s, p, TokenKind::Less, "<"@)
        }
    } else if c == '>' {
        if n == Some('=') {
            punct(s, p, TokenKind::GreaterEqual, ">="@)
        } else {
            punct(s, p, TokenKind::Greater, ">"@)
        }
    } else if c == '^' {
        punct(s, p, TokenKind::Hat, "^"@)
    } else if c == '\n' || c == ' ' {
        Step::Skip(p + 1)
    } else {
        Step::Fail(error_at(s, p, LexErrorKind::UnknownToken))
    }
}

/// Whether a number starts at `p`.
pub open spec fn starts_number(s: Seq<char>, p: int) -> bool {
    0 <= p < s.len() && is_decimal_digit(s[p])
}

/// Whether a string literal starts at `p`.
pub open spec fn starts_string(s: Seq<char>, p: int) -> bool {
    0 <= p < s.len() && s[p] == '"'
}

/// Whether an identifier starts at `p`.
pub open spec fn starts_ident(s: Seq<char>, p: int) -> bool {
    0 <= p < s.len() && (is_letter(s[p]) || s[p] == '_')
}

/// The lexer's move at `p`: numbers are tried first, then strings, then
/// identifiers, then punctuation.
pub open spec fn step(s: Seq<char>, p: int) -> Step {
    if p < 0 || p >= s.len() {
        Step::End
    } else if starts_number(s, p) {
        number_step(s, p)
    } else if starts_string(s, p) {
        string_step(s, p)
    } else if starts_ident(s, p) {
        ident_step(s, p)
    } else {
        punct_step(s, p)
    }
}

/// `t` followed by the tokens of `r`, or the error of `r`.
pub open spec fn prepend(t: TokenView, r: Result<Seq<TokenView>, LexError>) -> Result<
    Seq<TokenView>,
    LexError,
> {
    match r {
        Ok(v) => Ok(seq![t] + v),
        Err(e) => Err(e),
    }
}

/// The tokens of `s` from position `p` on, or the first error.
pub open spec fn lex_from(s: Seq<char>, p: int) -> Result<Seq<TokenView>, LexError>
    decreases s.len() - p,
{
    proof {
        lemma_step_advances(s, p);
    }
    match step(s, p) {
        Step::End => Ok(seq![]),
        Step::Fail(e) => Err(e),
        Step::Skip(q) => lex_from(s, q),
        Step::Emit(t, q) => prepend(t, lex_from(s, q)),
    }
}

/// The tokens of the whole source `s`, or the first error.
pub open spec fn lex(s: Seq<char>) -> Result<Seq<TokenView>, LexError> {
    lex_from(s, 0)
}

pub proof fn lemma_digits_end(s: Seq<char>, p: int)
    requires
        0 <= p <= s.len(),
    ensures
        p <= digits_end(s, p) <= s.len(),
        forall|i: int| p <= i < digits_end(s, p) ==> is_decimal_digit(#[trigger] s[i]),
        digits_end(s, p) < s.len() ==> !is_decimal_digit(s[digits_end(s, p)]),
    decreases s.len() - p,
{
    if p < s.len() && is_decimal_digit(s[p]) {
        lemma_digits_end(s, p + 1);
    }
}

pub proof fn lemma_suffix_end(s: Seq<char>, p: int)
    requires
        0 <= p <= s.len(),
    ensures
        p <= suffix_end(s, p) <= s.len(),
        forall|i: int| p <= i < suffix_end(s, p) ==> is_int_suffix_letter(#[trigger] s[i]),
        suffix_end(s, p) < s.len() ==> !is_int_suffix_letter(s[suffix_end(s, p)]),
    decreases s.len() - p,
{
    if p < s.len() && is_int_suffix_letter(s[p]) {
        lemma_suffix_end(s, p + 1);
    }
}

pub proof fn lemma_ident_end(s: Seq<char>, p: int)
    requires
        0 <= p <= s.len(),
    ensures
        p <= ident_end(s, p) <= s.len(),
        forall|i: int| p <= i < ident_end(s, p) ==> is_ident_char(#[trigger] s[i]),
        ident_end(s, p) < s.len() ==> !is_ident_char(s[ident_end(s, p)]),
    decreases s.len() - p,
{
    if p < s.len() && is_ident_char(s[p]) {
        lemma_ident_end(s, p + 1);
    }
}

pub proof fn lemma_find_char(s: Seq<char>, p: int, c: char)
    requires
        0 <= p,
    ensures
        p <= find_char(s, p, c) <= s.len() || (p > s.len() && find_char(s, p, c) == s.len()),
        forall|i: int| p <= i < find_char(s, p, c) ==> #[trigger] s[i] != c,
        find_char(s, p, c) < s.len() ==> s[find_char(s, p, c)] == c,
    decreases s.len() - p,
{
    if p < s.len() && s[p] != c {
        lemma_find_char(s, p + 1, c);
    }
}

/// Each step that goes on does so strictly further along, within the input.
pub proof fn lemma_step_advances(s: Seq<char>, p: int)
    ensures
        step(s, p) matches Step::Skip(q) ==> p < q <= s.len(),
        step(s, p) matches Step::Emit(_, q) ==> p < q <= s.len(),
{
    if 0 <= p < s.len() {
        if starts_number(s, p) {
            lemma_digits_end(s, p);
            let d = digits_end(s, p);
            if d < s.len() && is_int_suffix_letter(s[d]) {
                lemma_suffix_end(s, d);
            } else if d + 1 < s.len() && s[d] == '.' && is_decimal_digit(s[d + 1]) {
                lemma_digits_end(s, d + 1);
            }
        } else if starts_string(s, p) {
            lemma_find_char(s, p + 1, '"');
        } else if starts_ident(s, p) {
            lemma_ident_end(s, p + 1);
        } else {
            lemma_find_char(s, p + 2, '\n');
            reveal_strlit("(");
            reveal_strlit(")");
            reveal_strlit("[");
            reveal_strlit("]");
            reveal_strlit("{");
            reveal_strlit("}");
            reveal_strlit(";");
            reveal_strlit("::");
            reveal_strlit(":");
            reveal_strlit("..");
            reveal_strlit(".");
            reveal_strlit("--");
            reveal_strlit("-=");
            reveal_strlit("->");
            reveal_strlit("-");
            reveal_strlit("++");
            reveal_strlit("+=");
            reveal_strlit("+");
            reveal_strlit("/=");
            reveal_strlit("/");
            reveal_strlit("*=");
            reveal_strlit("*");
            reveal_strlit(",");
            reveal_strlit("#");
            reveal_strlit("|");
            reveal_strlit("@");
            reveal_strlit("?");
            reveal_strlit("!=");
            reveal_strlit("!");
            reveal_strlit("==");
            reveal_strlit("=");
            reveal_strlit("<=");
            reveal_strlit("<");
            reveal_strlit(">=");
            reveal_strlit(">");
            reveal_strlit("^");
        }
    }
}

/// A run of digits from `p` to the end ends at the end.
proof fn lemma_digits_to_end(s: Seq<char>, p: int)
    requires
        0 <= p <= s.len(),
        forall|i: int| p <= i < s.len() ==> is_decimal_digit(#[trigger] s[i]),
    ensures
        digits_end(s, p) == s.len(),
    decreases s.len() - p,
{
    if p < s.len() {
        lemma_digits_to_end(s, p + 1);
    }
}

/// A run of digits from `p` that stops before a non-digit at `q` ends at `q`.
proof fn lemma_digits_to(s: Seq<char>, p: int, q: int)
    requires
        0 <= p <= q < s.len(),
        forall|i: int| p <= i < q ==> is_decimal_digit(#[trigger] s[i]),
        !is_decimal_digit(s[q]),
    ensures
        digits_end(s, p) == q,
    decreases q - p,
{
    if p < q {
        lemma_digits_to(s, p + 1, q);
    }
}

/// A run of `U`/`L` from `p` to the end ends at the end.
proof fn lemma_suffix_to_end(s: Seq<char>, p: int)
    requires
        0 <= p <= s.len(),
        forall|i: int| p <= i < s.len() ==> is_int_suffix_letter(#[trigger] s[i]),
    ensures
        suffix_end(s, p) == s.len(),
    decreases s.len() - p,
{
    if p < s.len() {
        lemma_suffix_to_end(s, p + 1);
    }
}

/// Without a newline after the first character, everything is on line 1.
proof fn lemma_first_line(s: Seq<char>, p: int)
    requires
        -1 <= p,
        forall|i: int| 0 <= i < s.len() ==> #[trigger] s[i] != '\n',
    ensures
        line_at(s, p) == 1,
    decreases p + 1,
{
    if p >= 0 {
        lemma_first_line(s, p - 1);
    }
}

/// Whether every character of `s` is a decimal digit.
pub open spec fn all_digits(s: Seq<char>) -> bool {
    forall|i: int| 0 <= i < s.len() ==> is_decimal_digit(#[trigger] s[i])
}

/// An integer token of value `v` with suffix `sf` on line 1.
pub open spec fn int_token(v: int, sf: TokenSuffix) -> TokenView {
    TokenView {
        kind: TokenKind::Int,
        modd: TokenMod::Plain,
        suffix: sf,
        value: ValueView::Int(v as i32),
        line: 1,
    }
}

/// A source made of digits alone is one integer token holding the number
/// they spell, without suffix, on line 1; a number above `i32::MAX` is an
/// error instead.
pub proof fn lemma_digits_lex_to_int(s: Seq<char>)
    requires
        s.len() > 0,
        all_digits(s),
    ensures
        decimal_value(s) <= i32::MAX ==> lex(s) == Ok::<Seq<TokenView>, LexError>(
            seq![int_token(decimal_value(s), TokenSuffix::Bare)],
        ),
        decimal_value(s) > i32::MAX ==> lex(s) == Err::<Seq<TokenView>, LexError>(
            error_at(s, 0, LexErrorKind::IntegerOutOfRange),
        ),
{
    lemma_digits_to_end(s, 0);
    assert(s.subrange(0, s.len() as int) =~= s);
    lemma_first_line(s, 0);
    assert(lex_from(s, s.len() as int) == Ok::<Seq<TokenView>, LexError>(seq![]));
    assert(seq![int_token(decimal_value(s), TokenSuffix::Bare)] + seq![] =~= seq![
        int_token(decimal_value(s), TokenSuffix::Bare),
    ]);
}

/// `digits.digits` is one float token holding exactly that text, without
/// suffix, on line 1.
pub proof fn lemma_decimal_lex_to_float(a: Seq<char>, b: Seq<char>)
    requires
        a.len() > 0,
        b.len() > 0,
        all_digits(a),
        all_digits(b),
    ensures
        lex(a + seq!['.'] + b) == Ok::<Seq<TokenView>, LexError>(
            seq![
                TokenView {
                    kind: TokenKind::Float,
                    modd: TokenMod::Plain,
                    suffix: TokenSuffix::Bare,
                    value: ValueView::Float(a + seq!['.'] + b),
                    line: 1,
                },
            ],
        ),
{
    let s = a + seq!['.'] + b;
    let d = a.len() as int;
    assert(s[d] == '.');
    assert forall|i: int| 0 <= i < d implies is_decimal_digit(#[trigger] s[i]) by {
        assert(s[i] == a[i]);
    }
    lemma_digits_to(s, 0, d);
    assert forall|i: int| d + 1 <= i < s.len() implies is_decimal_digit(#[trigger] s[i]) by {
        assert(s[i] == b[i - d - 1]);
    }
    lemma_digits_to_end(s, d + 1);
    assert forall|i: int| 0 <= i < s.len() implies #[trigger] s[i] != '\n' by {
        if i < d {
            assert(s[i] == a[i]);
        } else if i > d {
            assert(s[i] == b[i - d - 1]);
        }
    }
    lemma_first_line(s, 0);
    assert(s.subrange(0, s.len() as int) =~= s);
    let t = TokenView {
        kind: TokenKind::Float,
        modd: TokenMod::Plain,
        suffix: TokenSuffix::Bare,
        value: ValueView::Float(s),
        line: 1,
    };
    assert(number_step(s, 0) == Step::Emit(t, s.len() as int));
    assert(lex_from(s, s.len() as int) == Ok::<Seq<TokenView>, LexError>(seq![]));
    assert(seq![t] + seq![] =~= seq![t]);
}

/// `digits.` with nothing after the dot is no float: the digits stand as an
/// integer and the dot is a token of its own.
pub proof fn lemma_trailing_dot_is_not_float(a: Seq<char>)
    requires
        a.len() > 0,
        all_digits(a),
        decimal_value(a) <= i32::MAX,
    ensures
        lex(a + seq!['.']) == Ok::<Seq<TokenView>, LexError>(
            seq![
                int_token(decimal_value(a), TokenSuffix::Bare),
                TokenView {
                    kind: TokenKind::Dot,
                    modd: TokenMod::Plain,
                    suffix: TokenSuffix::Bare,
                    value: ValueView::Str("."@),
                    line: 1,
                },
            ],
        ),
{
    let s = a + seq!['.'];
    let d = a.len() as int;
    assert(s[d] == '.');
    assert forall|i: int| 0 <= i < d implies is_decimal_digit(#[trigger] s[i]) by {
        assert(s[i] == a[i]);
    }
    lemma_digits_to(s, 0, d);
    assert forall|i: int| 0 <= i < s.len() implies #[trigger] s[i] != '\n' by {
        if i < d {
            assert(s[i] == a[i]);
        }
    }
    lemma_first_line(s, 0);
    lemma_first_line(s, d);
    assert(s.subrange(0, d) =~= a);
    reveal_strlit(".");
    let dot = TokenView {
        kind: TokenKind::Dot,
        modd: TokenMod::Plain,
        suffix: TokenSuffix::Bare,
        value: ValueView::Str("."@),
        line: 1,
    };
    assert(step(s, 0) == Step::Emit(int_token(decimal_value(a), TokenSuffix::Bare), d));
    assert(step(s, d) == Step::Emit(dot, d + 1));
    assert(lex_from(s, d + 1) == Ok::<Seq<TokenView>, LexError>(seq![]));
    assert(seq![dot] + seq![] =~= seq![dot]);
    assert(lex_from(s, d) == Ok::<Seq<TokenView>, LexError>(seq![dot]));
    assert(seq![int_token(decimal_value(a), TokenSuffix::Bare)] + seq![dot] =~= seq![
        int_token(decimal_value(a), TokenSuffix::Bare),
        dot,
    ]);
}

/// Digits followed by a run of `U`/`L` letters: when the letters spell a
/// suffix, one integer token with that suffix; otherwise an unknown-suffix
/// error at the end of the input.
pub proof fn lemma_int_suffix_lex(a: Seq<char>, u: Seq<char>)
    requires
        a.len() > 0,
        u.len() > 0,
        all_digits(a),
        forall|i: int| 0 <= i < u.len() ==> is_int_suffix_letter(#[trigger] u[i]),
        decimal_value(a) <= i32::MAX,
    ensures
        suffix_of(u) matches Some(sf) ==> lex(a + u) == Ok::<Seq<TokenView>, LexError>(
            seq![int_token(decimal_value(a), sf)],
        ),
        suffix_of(u) is None ==> lex(a + u) == Err::<Seq<TokenView>, LexError>(
            error_at(a + u, (a + u).len() as int, LexErrorKind::UnknownSuffix),
        ),
{
    let s = a + u;
    let d = a.len() as int;
    assert(s[d] == u[0]);
    assert forall|i: int| 0 <= i < d implies is_decimal_digit(#[trigger] s[i]) by {
        assert(s[i] == a[i]);
    }
    lemma_digits_to(s, 0, d);
    assert forall|i: int| d <= i < s.len() implies is_int_suffix_letter(#[trigger] s[i]) by {
        assert(s[i] == u[i - d]);
    }
    lemma_suffix_to_end(s, d);
    assert forall|i: int| 0 <= i < s.len() implies #[trigger] s[i] != '\n' by {
        if i < d {
            assert(s[i] == a[i]);
        } else {
            assert(s[i] == u[i - d]);
        }
    }
    lemma_first_line(s, 0);
    assert(s.subrange(0, d) =~= a);
    assert(s.subrange(d, s.len() as int) =~= u);
    assert(lex_from(s, s.len() as int) == Ok::<Seq<TokenView>, LexError>(seq![]));
    if let Some(sf) = suffix_of(u) {
        assert(seq![int_token(decimal_value(a), sf)] + seq![] =~= seq![
            int_token(decimal_value(a), sf),
        ]);
    }
}

/// How an integer suffix tag is spelled; empty for the tags an integer
/// cannot carry.
pub open spec fn int_suffix_spelling(sf: TokenSuffix) -> Seq<char> {
    match sf {
        TokenSuffix::U => seq!['U'],
        TokenSuffix::L => seq!['L'],
        TokenSuffix::LL => seq!['L', 'L'],
        TokenSuffix::UL => seq!['U', 'L'],
        TokenSuffix::ULL => seq!['U', 'L', 'L'],
        _ => seq![],
    }
}

/// Every integer suffix tag, written after digits, reads back as that tag.
pub proof fn lemma_int_suffix_round_trip(a: Seq<char>, sf: TokenSuffix)
    requires
        a.len() > 0,
        all_digits(a),
        decimal_value(a) <= i32::MAX,
        int_suffix_spelling(sf).len() > 0,
    ensures
        lex(a + int_suffix_spelling(sf)) == Ok::<Seq<TokenView>, LexError>(
            seq![int_token(decimal_value(a), sf)],
        ),
{
    let u = int_suffix_spelling(sf);
    assert(u.len() == 1 ==> u[0] == 'U' || u[0] == 'L');
    match sf {
        TokenSuffix::LL => {
            assert(u[0] == 'L' && u[1] == 'L');
            assert(u != seq!['U', 'L']);
        },
        TokenSuffix::UL => {
            assert(u[0] == 'U' && u[1] == 'L');
            assert(u != seq!['L', 'L']);
        },
        _ => {},
    }
    assert(suffix_of(u) == Some(sf));
    lemma_int_suffix_lex(a, u);
}

/// A token emitted at one step meets the data model's invariant and is
/// no end marker.
proof fn lemma_step_token_wf(s: Seq<char>, p: int)
    ensures
        step(s, p) matches Step::Emit(t, _) ==> t.wf() && t.kind != TokenKind::Eof,
{
    if 0 <= p < s.len() {
        if starts_number(s, p) {
            lemma_digits_end(s, p);
            let d = digits_end(s, p);
            if d < s.len() && is_int_suffix_letter(s[d]) {
                lemma_suffix_end(s, d);
                let u = s.subrange(d, suffix_end(s, d));
                assert(u[0] == s[d]);
                assert(u != seq!['D']);
            } else if d < s.len() && s[d] == 'D' {
                lemma_suffix_end(s, d);
            }
        } else if !starts_string(s, p) && starts_ident(s, p) {
            lemma_ident_end(s, p + 1);
            lemma_keyword_kinds(s.subrange(p, ident_end(s, p + 1)));
        }
    }
}

/// Every token the lexer emits meets the data model's invariant (numbers
/// carry a number, everything else text, only numbers have a suffix, no
/// modifier), and none is an end marker.
pub proof fn lemma_lex_tokens_wf(s: Seq<char>, p: int)
    ensures
        lex_from(s, p) matches Ok(ts) ==> forall|i: int|
            0 <= i < ts.len() ==> (#[trigger] ts[i]).wf() && ts[i].kind != TokenKind::Eof,
    decreases s.len() - p,
{
    lemma_step_advances(s, p);
    lemma_step_token_wf(s, p);
    match step(s, p) {
        Step::Skip(q) => {
            lemma_lex_tokens_wf(s, q);
        },
        Step::Emit(t, q) => {
            lemma_lex_tokens_wf(s, q);
            if let Ok(rest) = lex_from(s, q) {
                let ts = seq![t] + rest;
                assert forall|i: int| 0 <= i < ts.len() implies (#[trigger] ts[i]).wf()
                    && ts[i].kind != TokenKind::Eof by {
                    if i > 0 {
                        assert(ts[i] == rest[i - 1]);
                    }
                }
            }
        },
        _ => {},
    }
}

/// Numbers are tried before identifiers: a source that starts with a digit
/// starts with a number token (or fails), whatever letters follow.
pub proof fn lemma_digit_starts_a_number(s: Seq<char>)
    requires
        s.len() > 0,
        is_decimal_digit(s[0]),
    ensures
        lex(s) matches Ok(ts) ==> ts.len() > 0 && (ts[0].kind == TokenKind::Int || ts[0].kind
            == TokenKind::Float),
{
    lemma_step_advances(s, 0);
}

/// A run of `U`/`L` from `p` that stops before another character at `q`
/// ends at `q`.
proof fn lemma_suffix_to(s: Seq<char>, p: int, q: int)
    requires
        0 <= p <= q < s.len(),
        forall|i: int| p <= i < q ==> is_int_suffix_letter(#[trigger] s[i]),
        !is_int_suffix_letter(s[q]),
    ensures
        suffix_end(s, p) == q,
    decreases q - p,
{
    if p < q {
        lemma_suffix_to(s, p + 1, q);
    }
}

/// Digits followed by a run of `U`/`L` letters that spells no suffix are an
/// unknown-suffix error at the end of the run, whatever follows it (unless a
/// `D` follows, which is the float-suffix error instead).
pub proof fn lemma_unknown_suffix_fails(a: Seq<char>, u: Seq<char>, rest: Seq<char>)
    requires
        a.len() > 0,
        u.len() > 0,
        all_digits(a),
        forall|i: int| 0 <= i < u.len() ==> is_int_suffix_letter(#[trigger] u[i]),
        suffix_of(u) is None,
        rest.len() == 0 || (!is_int_suffix_letter(rest[0]) && rest[0] != 'D'),
    ensures
        lex(a + u + rest) == Err::<Seq<TokenView>, LexError>(
            error_at(a + u + rest, (a.len() + u.len()) as int, LexErrorKind::UnknownSuffix),
        ),
{
    let s = a + u + rest;
    let d = a.len() as int;
    let e = d + u.len();
    assert(s[d] == u[0]);
    assert forall|i: int| 0 <= i < d implies is_decimal_digit(#[trigger] s[i]) by {
        assert(s[i] == a[i]);
    }
    lemma_digits_to(s, 0, d);
    assert forall|i: int| d <= i < e implies is_int_suffix_letter(#[trigger] s[i]) by {
        assert(s[i] == u[i - d]);
    }
    if rest.len() == 0 {
        assert(s.len() == e);
        lemma_suffix_to_end(s, d);
    } else {
        assert(s[e] == rest[0]);
        lemma_suffix_to(s, d, e);
    }
    assert(s.subrange(d, e) =~= u);
}

} // verus!
