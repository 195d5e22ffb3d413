use vstd::prelude::*;
use vstd::string::*;

verus! {

/// The lexical category of a token.
#[derive(PartialEq, Eq, Structural, Debug, Clone, Copy)]
pub enum TokenKind {
    LeftParen,
    RightParen,
    LeftBracket,
    RightBracket,
    Identifier,
    String,
    Int,
    Float,
    LeftBrace,
    RightBrace,
    Star,
    Slash,
    Dot,
    DotDot,
    Sharp,
    Comma,
    Semicolon,
    Colon,
    ColonColon,
    Minus,
    Plus,
    BangEqual,
    Bang,
    Pipe,
    EqualEqual,
    Equal,
    LessEqual,
    Less,
    GreaterEqual,
    Greater,
    SlashEqual,
    MinusEqual,
    StarEqual,
    PlusEqual,
    Question,
    False,
    True,
    Fn,
    Loop,
    If,
    Else,
    Print,
    For,
    While,
    Struct,
    Internal,
    Enum,
    And,
    Or,
    Let,
    Var,
    Nil,
    Return,
    Break,
    Continue,
    Inc,
    Dec,
    Hat,
    At,
    Impl,
    Init,
    Switch,
    MinusGreater,
    Fall,
    Import,
    Defer,
    Eof,
}

/// The suffix written after a numeric literal.
#[derive(PartialEq, Eq, Structural, Debug, Clone, Copy)]
pub enum TokenSuffix {
    Bare,
    D,
    L,
    LL,
    U,
    UL,
    ULL,
}

/// The suffix tag spelled by `s`, if `s` spells one.
pub open spec fn suffix_of(s: Seq<char>) -> Option<TokenSuffix> {
    if s == seq!['D'] {
        Some(TokenSuffix::D)
    } else if s == seq!['L'] {
        Some(TokenSuffix::L)
    } else if s == seq!['L', 'L'] {
        Some(TokenSuffix::LL)
    } else if s == seq!['U'] {
        Some(TokenSuffix::U)
    } else if s == seq!['U', 'L'] {
        Some(TokenSuffix::UL)
    } else if s == seq!['U', 'L', 'L'] {
        Some(TokenSuffix::ULL)
    } else {
        None
    }
}

impl TokenSuffix {
    /// Reads a suffix tag from its spelling.
    pub fn from(str: &String) -> (r: Option<TokenSuffix>)
        ensures
            r == suffix_of(str@),
    {
        let s = str.as_str();
        let n = s.unicode_len();
        if n == 0 || n > 3 {
            return None;
        }
        let c0 = s.get_char(0);
        if n == 1 {
            proof {
                assert(str@ =~= seq![c0]);
            }
            if c0 == 'D' {
                Some(TokenSuffix::D)
            } else if c0 == 'L' {
                Some(TokenSuffix::L)
            } else if c0 == 'U' {
                Some(TokenSuffix::U)
            } else {
                None
            }
        } else if n == 2 {
            let c1 = s.get_char(1);
            if c0 == 'L' && c1 == 'L' {
                proof {
                    assert(str@ =~= seq!['L', 'L']);
                }
                Some(TokenSuffix::LL)
            } else if c0 == 'U' && c1 == 'L' {
                proof {
                    assert(str@ =~= seq!['U', 'L']);
                }
                Some(TokenSuffix::UL)
            } else {
                None
            }
        } else {
            let c1 = s.get_char(1);
            let c2 = s.get_char(2);
            if c0 == 'U' && c1 == 'L' && c2 == 'L' {
                proof {
                    assert(str@ =~= seq!['U', 'L', 'L']);
                }
                Some(TokenSuffix::ULL)
            } else {
                None
            }
        }
    }
}

/// A literal modifier; reserved, and always `Plain` today.
#[derive(PartialEq, Eq, Structural, Debug, Clone, Copy)]
pub enum TokenMod {
    Plain,
    Hex,
    Bin,
    Oct,
    Char,
    Multiline,
}

/// The shape of a type annotation.
#[derive(PartialEq, Eq, Structural, Debug, Clone, Copy)]
pub enum TypeKind {
    Base,
    Pointer,
    Array,
}

/// The literal value a token carries.
///
/// A floating literal is kept as its decimal text `digits.digits`, exactly
/// as written (without suffix); turning it into a binary float is left to
/// whoever consumes the token.
#[derive(PartialEq, Debug, Clone)]
pub enum Value {
    Empty,
    Int(i32),
    Float(String),
    Str(String),
}

/// The mathematical content of a [`Value`].
pub ghost enum ValueView {
    Empty,
    Int(i32),
    Float(Seq<char>),
    Str(Seq<char>),
}

impl View for Value {
    type V = ValueView;

    open spec fn view(&self) -> ValueView {
        match self {
            Value::Empty => ValueView::Empty,
            Value::Int(i) => ValueView::Int(*i),
            Value::Float(s) => ValueView::Float(s@),
            Value::Str(s) => ValueView::Str(s@),
        }
    }
}

impl Value {
    /// A string value holding `slice`.
    pub fn from(slice: &'static str) -> (r: Value)
        ensures
            r@ == ValueView::Str(slice@),
    {
        Value::Str(String::from_str(slice))
    }

    /// The text of a string value.
    pub fn get_str(&self) -> (r: String)
        requires
            self is Str,
        ensures
            ValueView::Str(r@) == self@,
    {
        match self {
            Value::Str(s) => s.clone(),
            _ => String::new(),
        }
    }
}

/// One lexical unit: its kind, literal value, numeric suffix and the line
/// on which it starts (`0` for the end marker).
#[derive(PartialEq, Debug, Clone)]
pub struct Token {
    pub kind: TokenKind,
    pub modd: TokenMod,
    pub suffix: TokenSuffix,
    pub value: Value,
    pub line: u32,
}

/// The mathematical content of a [`Token`].
pub ghost struct TokenView {
    pub kind: TokenKind,
    pub modd: TokenMod,
    pub suffix: TokenSuffix,
    pub value: ValueView,
    pub line: u32,
}

impl View for Token {
    type V = TokenView;

    open spec fn view(&self) -> TokenView {
        TokenView {
            kind: self.kind,
            modd: self.modd,
            suffix: self.suffix,
            value: self.value@,
            line: self.line,
        }
    }
}

/// The view of each token of `v`.
pub open spec fn tokens_view(v: Seq<Token>) -> Seq<TokenView> {
    v.map_values(|t: Token| t@)
}

/// Whether `kind` is one of the reserved words.
pub open spec fn is_keyword_kind(kind: TokenKind) -> bool {
    match kind {
        TokenKind::False | TokenKind::True | TokenKind::Fn | TokenKind::Loop | TokenKind::If
        | TokenKind::Else | TokenKind::Print | TokenKind::For | TokenKind::While
        | TokenKind::Struct | TokenKind::Internal | TokenKind::Enum | TokenKind::And
        | TokenKind::Or | TokenKind::Let | TokenKind::Var | TokenKind::Nil | TokenKind::Return
        | TokenKind::Break | TokenKind::Continue | TokenKind::Impl | TokenKind::Init
        | TokenKind::Switch | TokenKind::Fall | TokenKind::Import | TokenKind::Defer => true,
        _ => false,
    }
}

impl TokenView {
    /// The data model's invariant: numeric kinds carry a number of their
    /// own kind, the end marker carries nothing and sits on line `0`, every
    /// other kind carries text; only numbers have a suffix (a float at most
    /// `D`, an integer never `D`), and no token has a modifier.
    pub open spec fn wf(self) -> bool {
        &&& self.modd == TokenMod::Plain
        &&& match self.kind {
            TokenKind::Int => self.value is Int && self.suffix != TokenSuffix::D,
            TokenKind::Float => self.value is Float && (self.suffix == TokenSuffix::Bare
                || self.suffix == TokenSuffix::D),
            TokenKind::Eof => self.value is Empty && self.suffix == TokenSuffix::Bare
                && self.line == 0,
            _ => self.value is Str && self.suffix == TokenSuffix::Bare,
        }
    }
}

impl Token {
    /// A token without suffix or modifier.
    pub fn new(kind: TokenKind, line: u32, value: Value) -> (r: Self)
        ensures
            r@ == (TokenView {
                kind,
                modd: TokenMod::Plain,
                suffix: TokenSuffix::Bare,
                value: value@,
                line,
            }),
    {
        Token { kind: kind, modd: TokenMod::Plain, suffix: TokenSuffix::Bare, value: value, line: line }
    }

    /// A numeric token with its suffix.
    pub fn new_number(kind: TokenKind, line: u32, value: Value, suffix: TokenSuffix) -> (r: Self)
        ensures
            r@ == (TokenView { kind, modd: TokenMod::Plain, suffix, value: value@, line }),
    {
        Token { kind: kind, modd: TokenMod::Plain, suffix: suffix, value: value, line: line }
    }

    /// The end-of-stream marker.
    pub fn eof() -> (r: Self)
        ensures
            r@ == (TokenView {
                kind: TokenKind::Eof,
                modd: TokenMod::Plain,
                suffix: TokenSuffix::Bare,
                value: ValueView::Empty,
                line: 0,
            }),
            r@.wf(),
    {
        Token {
            kind: TokenKind::Eof,
            value: Value::Empty,
            modd: TokenMod::Plain,
            suffix: TokenSuffix::Bare,
            line: 0,
        }
    }
}

} // verus!
