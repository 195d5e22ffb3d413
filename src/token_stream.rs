use vstd::prelude::*;

use crate::lexical::{lemma_lex_tokens_wf, lex, LexError};
use crate::token::{tokens_view, Token, TokenKind, TokenView};

verus! {

/// A fatal parse error, with its diagnostic.
#[derive(PartialEq, Debug, Clone)]
pub struct ParseError {
    pub message: String,
}

/// The kind of the token at `i`, if there is one.
pub open spec fn kind_at(ts: Seq<TokenView>, i: int) -> Option<TokenKind> {
    if 0 <= i < ts.len() {
        Some(ts[i].kind)
    } else {
        None
    }
}

/// Whether a cursor at `c` is at the end: past the last token, or on an
/// end marker.
pub open spec fn at_end(ts: Seq<TokenView>, c: int) -> bool {
    c >= ts.len() || ts[c].kind == TokenKind::Eof
}

/// Whether the token after the cursor `c` has kind `kind`.
pub open spec fn next_is(ts: Seq<TokenView>, c: int, kind: TokenKind) -> bool {
    kind_at(ts, c + 1) == Some(kind)
}

/// A comparison operator.
pub open spec fn is_cmp_kind(k: TokenKind) -> bool {
    k == TokenKind::Greater || k == TokenKind::GreaterEqual || k == TokenKind::Less || k
        == TokenKind::LessEqual || k == TokenKind::BangEqual || k == TokenKind::EqualEqual
}

/// A prefix operator.
pub open spec fn is_unary_kind(k: TokenKind) -> bool {
    k == TokenKind::Minus || k == TokenKind::Bang || k == TokenKind::Inc || k == TokenKind::Dec
        || k == TokenKind::At
}

/// An assignment operator.
pub open spec fn is_assign_kind(k: TokenKind) -> bool {
    k == TokenKind::Equal || k == TokenKind::PlusEqual || k == TokenKind::MinusEqual || k
        == TokenKind::SlashEqual || k == TokenKind::StarEqual
}

/// A forward-only cursor over a token sequence.
#[derive(Debug)]
pub struct TokenStream {
    current: usize,
    tokens: Vec<Token>,
}

impl TokenStream {
    /// The tokens streamed over.
    pub closed spec fn tokens(&self) -> Seq<TokenView> {
        tokens_view(self.tokens@)
    }

    /// The index of the current token (at or beyond the length once past
    /// the last one).
    pub closed spec fn cursor(&self) -> int {
        self.current as int
    }

    /// The cursor and the number of tokens are machine-sized.
    pub broadcast proof fn lemma_cursor_range(&self)
        ensures
            0 <= #[trigger] self.cursor() <= usize::MAX,
            self.tokens().len() <= usize::MAX,
    {
        assert(self.tokens@.len() == self.tokens.len());
    }

    /// A stream on the first of `tokens`.
    pub fn new(tokens: Vec<Token>) -> (r: Self)
        ensures
            r.tokens() == tokens_view(tokens@),
            r.cursor() == 0,
    {
        TokenStream { current: 0, tokens: tokens }
    }

    /// Whether the cursor has passed the last token or sits on an end marker.
    pub fn is_at_end(&self) -> (r: bool)
        ensures
            r == at_end(self.tokens(), self.cursor()),
    {
        self.current >= self.tokens.len() || self.tokens[self.current].kind == TokenKind::Eof
    }

    /// The token at the cursor.
    pub fn current(&self) -> (r: &Token)
        requires
            self.cursor() < self.tokens().len(),
        ensures
            r@ == self.tokens()[self.cursor()],
    {
        &self.tokens[self.current]
    }

    /// The token after the cursor, if any.
    pub fn peek(&self) -> (r: Option<&Token>)
        ensures
            r is Some <==> self.cursor() + 1 < self.tokens().len(),
            r is Some ==> r->Some_0@ == self.tokens()[self.cursor() + 1],
    {
        if self.current < self.tokens.len() && self.current < self.tokens.len() - 1 {
            Some(&self.tokens[self.current + 1])
        } else {
            None
        }
    }

    /// Moves the cursor one token on and returns the token now under it,
    /// if there is one.
    pub fn next(&mut self) -> (r: Option<&Token>)
        requires
            old(self).cursor() < usize::MAX,
        ensures
            final(self).tokens() == old(self).tokens(),
            final(self).cursor() == old(self).cursor() + 1,
            r is Some <==> final(self).cursor() < final(self).tokens().len(),
            r is Some ==> r->Some_0@ == final(self).tokens()[final(self).cursor()],
    {
        self.current = self.current + 1;
        if self.current < self.tokens.len() {
            Some(&self.tokens[self.current])
        } else {
            None
        }
    }

    /// Moves on and returns the new token when it has kind `kind`; any
    /// other outcome is the error carrying `msg`.
    pub fn next_expected(&mut self, kind: TokenKind, msg: &str) -> (r: Result<&Token, ParseError>)
        requires
            old(self).cursor() < usize::MAX,
        ensures
            final(self).tokens() == old(self).tokens(),
            final(self).cursor() == old(self).cursor() + 1,
            r is Ok <==> next_is(old(self).tokens(), old(self).cursor(), kind),
            r is Ok ==> r->Ok_0@ == final(self).tokens()[final(self).cursor()],
            r is Err ==> r->Err_0.message@ == msg@,
    {
        match self.next() {
            Some(token) => {
                if token.kind == kind {
                    Ok(token)
                } else {
                    Err(ParseError { message: String::from_str(msg) })
                }
            },
            None => Err(ParseError { message: String::from_str(msg) }),
        }
    }

    /// Whether `token` has kind `kind`.
    pub fn check(&self, token: &Token, kind: TokenKind) -> (r: bool)
        ensures
            r == (token.kind == kind),
    {
        token.kind == kind
    }

    /// Moves on when the token at the cursor has kind `kind`; tells whether
    /// it did.
    pub fn advance_if_match(&mut self, kind: TokenKind) -> (r: bool)
        ensures
            final(self).tokens() == old(self).tokens(),
            r == (kind_at(old(self).tokens(), old(self).cursor()) == Some(kind)),
            final(self).cursor() == if r {
                old(self).cursor() + 1
            } else {
                old(self).cursor()
            },
    {
        if self.current < self.tokens.len() && self.tokens[self.current].kind == kind {
            self.next();
            true
        } else {
            false
        }
    }

    /// Moves on when the token at the cursor has one of `kinds`; tells
    /// whether it did.
    pub fn advance_if_match_any(&mut self, kinds: &[TokenKind]) -> (r: bool)
        ensures
            final(self).tokens() == old(self).tokens(),
            r == (exists|i: int|
                0 <= i < kinds@.len() && kind_at(old(self).tokens(), old(self).cursor()) == Some(
                    #[trigger] kinds@[i],
                )),
            final(self).cursor() == if r {
                old(self).cursor() + 1
            } else {
                old(self).cursor()
            },
    {
        let mut i: usize = 0;
        while i < kinds.len()
            invariant
                i <= kinds@.len(),
                    self.tokens() == old(self).tokens(),
                self.cursor() == old(self).cursor(),
                forall|j: int|
                    0 <= j < i ==> kind_at(old(self).tokens(), old(self).cursor()) != Some(
                        #[trigger] kinds@[j],
                    ),
            decreases kinds@.len() - i,
        {
            if self.advance_if_match(kinds[i]) {
                return true;
            }
            i = i + 1;
        }
        false
    }

    /// Moves on past a comparison operator at the cursor.
    pub fn advance_if_cmp(&mut self) -> (r: bool)
        ensures
            final(self).tokens() == old(self).tokens(),
            r == (kind_at(old(self).tokens(), old(self).cursor()) is Some && is_cmp_kind(
                kind_at(old(self).tokens(), old(self).cursor())->Some_0,
            )),
            final(self).cursor() == if r {
                old(self).cursor() + 1
            } else {
                old(self).cursor()
            },
    {
        let kinds = [
            TokenKind::Greater,
            TokenKind::GreaterEqual,
            TokenKind::Less,
            TokenKind::LessEqual,
            TokenKind::BangEqual,
            TokenKind::EqualEqual,
        ];
        let r = self.advance_if_match_any(&kinds);
        proof {
            let k = kind_at(old(self).tokens(), old(self).cursor());
            if k is Some && is_cmp_kind(k->Some_0) {
                assert(k == Some(kinds@[0]) || k == Some(kinds@[1]) || k == Some(kinds@[2]) || k
                    == Some(kinds@[3]) || k == Some(kinds@[4]) || k == Some(kinds@[5]));
            }
        }
        r
    }

    /// Moves on past a prefix operator at the cursor.
    pub fn advance_if_unary(&mut self) -> (r: bool)
        ensures
            final(self).tokens() == old(self).tokens(),
            r == (kind_at(old(self).tokens(), old(self).cursor()) is Some && is_unary_kind(
                kind_at(old(self).tokens(), old(self).cursor())->Some_0,
            )),
            final(self).cursor() == if r {
                old(self).cursor() + 1
            } else {
                old(self).cursor()
            },
    {
        let kinds = [
            TokenKind::Minus,
            TokenKind::Bang,
            TokenKind::Inc,
            TokenKind::Dec,
            TokenKind::At,
        ];
        let r = self.advance_if_match_any(&kinds);
        proof {
            let k = kind_at(old(self).tokens(), old(self).cursor());
            if k is Some && is_unary_kind(k->Some_0) {
                assert(k == Some(kinds@[0]) || k == Some(kinds@[1]) || k == Some(kinds@[2]) || k
                    == Some(kinds@[3]) || k == Some(kinds@[4]));
            }
        }
        r
    }

    /// Whether the token at the cursor is an assignment operator.
    pub fn is_assign(&self) -> (r: bool)
        requires
            self.cursor() < self.tokens().len(),
        ensures
            r == is_assign_kind(self.tokens()[self.cursor()].kind),
    {
        let assign_kinds = [
            TokenKind::Equal,
            TokenKind::PlusEqual,
            TokenKind::MinusEqual,
            TokenKind::SlashEqual,
            TokenKind::StarEqual,
        ];
        proof {
            self.lemma_cursor_range();
        }
        let current = self.current();
        let mut i: usize = 0;
        while i < 5
            invariant
                i <= 5,
                0 <= self.cursor() < self.tokens().len(),
                current@ == self.tokens()[self.cursor()],
                assign_kinds@ == seq![
                    TokenKind::Equal,
                    TokenKind::PlusEqual,
                    TokenKind::MinusEqual,
                    TokenKind::SlashEqual,
                    TokenKind::StarEqual,
                ],
                forall|j: int| 0 <= j < i ==> current.kind != #[trigger] assign_kinds@[j],
            decreases 5 - i,
        {
            if self.check(current, assign_kinds[i]) {
                return true;
            }
            i = i + 1;
        }
        false
    }
}

/// Over tokens that hold no end marker, as the lexer emits them, the stream
/// is at its end exactly when its cursor has passed every token, and never
/// before.
pub proof fn lemma_end_exactly_when_consumed(s: &TokenStream)
    requires
        forall|i: int| 0 <= i < s.tokens().len() ==> (#[trigger] s.tokens()[i]).kind != TokenKind::Eof,
    ensures
        at_end(s.tokens(), s.cursor()) <==> s.cursor() >= s.tokens().len(),
{
    s.lemma_cursor_range();
}

/// A stream over the tokens the lexer emitted for `source` is at its end
/// exactly when its cursor has passed every one of them.
pub proof fn lemma_lexed_stream_end(source: Seq<char>, s: &TokenStream)
    requires
        lex(source) == Ok::<Seq<TokenView>, LexError>(s.tokens()),
    ensures
        at_end(s.tokens(), s.cursor()) <==> s.cursor() >= s.tokens().len(),
{
    lemma_lex_tokens_wf(source, 0);
    lemma_end_exactly_when_consumed(s);
}

} // verus!
