use vstd::prelude::*;

use crate::ast::{
    decls_view, params_view, Decl, DeclView, Expr, FnDecl, FnParam, LetDecl, Stmt, VarDecl,
};
use crate::token::{Token, TokenKind, TokenView, Value, ValueView};
use crate::token_stream::{at_end, next_is, ParseError, TokenStream};

verus! {

broadcast use TokenStream::lemma_cursor_range;

/// The text a token carries, if it carries text.
pub open spec fn str_of(t: TokenView) -> Option<Seq<char>> {
    match t.value {
        ValueView::Str(s) => Some(s),
        _ => None,
    }
}

/// A `var` or `let` binding whose keyword sits at `c`: a name, `:`, then
/// `;`, or `=`, an initializer and `;`. The expression grammar has no
/// productions yet, so an initializer is always an error; a binding
/// without one yields no declaration. On success, where the cursor ends.
pub open spec fn binding_rule(ts: Seq<TokenView>, c: int) -> Result<int, Seq<char>> {
    if !next_is(ts, c, TokenKind::Identifier) {
        Err("expected variable name"@)
    } else if !next_is(ts, c + 1, TokenKind::Colon) {
        Err("expected ':' after variable declaration"@)
    } else if next_is(ts, c + 2, TokenKind::Equal) {
        Err("failed parsing expression"@)
    } else if !next_is(ts, c + 2, TokenKind::Semicolon) {
        Err("expected ';' at the end of declaration"@)
    } else {
        Ok(c + 3)
    }
}

/// The parameter list after the cursor `c`, up to (not past) the `)`:
/// `let name` and `var name` each give a parameter, any other token is
/// passed over. On success, the parameters and where the cursor ends.
pub open spec fn params_rule(ts: Seq<TokenView>, c: int) -> Result<
    (Seq<(Seq<char>, bool)>, int),
    Seq<char>,
>
    decreases ts.len() - c,
{
    if next_is(ts, c, TokenKind::RightParen) {
        Ok((seq![], c))
    } else if c < -1 || c + 1 >= ts.len() {
        Err("expected ')' after parameters"@)
    } else {
        let k = ts[c + 1].kind;
        if k == TokenKind::Let || k == TokenKind::Var {
            if !next_is(ts, c + 1, TokenKind::Identifier) {
                Err(
                    if k == TokenKind::Let {
                        "expected identifier after 'let' keyword"@
                    } else {
                        "expected identifier after 'var' keyword"@
                    },
                )
            } else {
                match str_of(ts[c + 2]) {
                    None => Err("expected Value::Str"@),
                    Some(name) => match params_rule(ts, c + 2) {
                        Err(m) => Err(m),
                        Ok((ps, e)) => Ok((seq![(name, k == TokenKind::Var)] + ps, e)),
                    },
                }
            }
        } else {
            params_rule(ts, c + 1)
        }
    }
}

/// A function whose `fn` sits at `c`: a name, `(`, parameters, `)`, then
/// a body, which the statement grammar accepts only empty (`{` `}`).
pub open spec fn fn_rule(ts: Seq<TokenView>, c: int) -> Result<(DeclView, int), Seq<char>> {
    if !next_is(ts, c, TokenKind::Identifier) {
        Err("expected function name"@)
    } else if !next_is(ts, c + 1, TokenKind::LeftParen) {
        Err("expected '(' after function name"@)
    } else {
        match params_rule(ts, c + 2) {
            Err(m) => Err(m),
            Ok((ps, e)) => if !next_is(ts, e, TokenKind::RightParen) {
                Err("expected ')' after parameters"@)
            } else if !next_is(ts, e + 1, TokenKind::LeftBrace) {
                Err("expected '{' after function parameters"@)
            } else if !next_is(ts, e + 2, TokenKind::RightBrace) {
                Err("expected '}' after function body"@)
            } else {
                match str_of(ts[c + 1]) {
                    None => Err("expected Value::Str"@),
                    Some(name) => Ok((DeclView::Fn(name, ps, 0), e + 3)),
                }
            },
        }
    }
}

/// The declarations from the cursor `c` on, or the first error: `var`,
/// `let` and `fn` start a declaration, any other token is passed over.
pub open spec fn parse_decls(ts: Seq<TokenView>, c: int) -> Result<Seq<DeclView>, Seq<char>>
    decreases ts.len() - c,
{
    if c < 0 || at_end(ts, c) {
        Ok(seq![])
    } else {
        let k = ts[c].kind;
        if k == TokenKind::Var || k == TokenKind::Let {
            match binding_rule(ts, c) {
                Err(m) => Err(m),
                Ok(c2) => parse_decls(ts, c2),
            }
        } else if k == TokenKind::Fn {
            proof {
                lemma_params_rule(ts, c + 2);
            }
            match fn_rule(ts, c) {
                Err(m) => Err(m),
                Ok((d, c2)) => match parse_decls(ts, c2) {
                    Err(m) => Err(m),
                    Ok(ds) => Ok(seq![d] + ds),
                },
            }
        } else {
            parse_decls(ts, c + 1)
        }
    }
}

/// The parameter list ends after where it starts, on a cursor followed by `)`.
pub proof fn lemma_params_rule(ts: Seq<TokenView>, c: int)
    ensures
        params_rule(ts, c) matches Ok((_, e)) ==> c <= e && next_is(ts, e, TokenKind::RightParen),
    decreases ts.len() - c,
{
    if !next_is(ts, c, TokenKind::RightParen) && !(c < -1 || c + 1 >= ts.len()) {
        let k = ts[c + 1].kind;
        if k == TokenKind::Let || k == TokenKind::Var {
            lemma_params_rule(ts, c + 2);
        } else {
            lemma_params_rule(ts, c + 1);
        }
    }
}

/// The declarations of a parse result, or its error message.
pub open spec fn parsed_view(r: Result<Vec<Decl>, ParseError>) -> Result<Seq<DeclView>, Seq<char>> {
    match r {
        Ok(ds) => Ok(decls_view(ds@)),
        Err(e) => Err(e.message@),
    }
}

/// Whether `token` is present and of kind `token_kind`.
pub fn compare_token_kind(token: Option<&Token>, token_kind: TokenKind) -> (r: bool)
    ensures
        r == (token is Some && token->Some_0.kind == token_kind),
{
    match token {
        Some(t) => t.kind == token_kind,
        None => false,
    }
}

/// The text of `v` when it is a string value.
fn str_value(v: &Value) -> (r: Option<String>)
    ensures
        r is Some <==> v@ is Str,
        r is Some ==> v@ == ValueView::Str(r->Some_0@),
{
    match v {
        Value::Str(s) => Some(s.clone()),
        _ => None,
    }
}

fn error(msg: &str) -> (r: ParseError)
    ensures
        r.message@ == msg@,
{
    ParseError { message: String::from_str(msg) }
}

/// The expression grammar; it has no productions yet, so parsing always
/// fails and leaves the stream as it was.
pub struct ExprParser {}

impl ExprParser {
    pub fn new() -> Self {
        ExprParser {  }
    }

    /// Parses one expression after the cursor; there is none yet.
    pub fn parse(&mut self, stream: &mut TokenStream) -> (r: Option<Expr>)
        ensures
            r is None,
            *final(stream) == *old(stream),
    {
        None
    }
}

/// The statement grammar; today it accepts only an empty block.
pub struct StmtParser {}

impl StmtParser {
    pub fn new() -> Self {
        StmtParser {  }
    }

    /// Parses the block after the cursor: `{` then `}`, ending on the `}`.
    pub fn parse(&mut self, stream: &mut TokenStream) -> (r: Result<Vec<Stmt>, ParseError>)
        requires
            old(stream).cursor() < usize::MAX,
        ensures
            final(stream).tokens() == old(stream).tokens(),
            ({
                let ts = old(stream).tokens();
                let c = old(stream).cursor();
                if !next_is(ts, c, TokenKind::LeftBrace) {
                    r is Err && r->Err_0.message@ == "expected '{' after function parameters"@
                } else if !next_is(ts, c + 1, TokenKind::RightBrace) {
                    r is Err && r->Err_0.message@ == "expected '}' after function body"@
                } else {
                    r is Ok && r->Ok_0@.len() == 0 && final(stream).cursor() == c + 2
                }
            }),
    {
        match stream.next_expected(TokenKind::LeftBrace, "expected '{' after function parameters") {
            Ok(_) => {},
            Err(e) => {
                return Err(e);
            },
        }
        match stream.next_expected(TokenKind::RightBrace, "expected '}' after function body") {
            Ok(_) => {},
            Err(e) => {
                return Err(e);
            },
        }
        Ok(Vec::new())
    }
}

/// The top-level parser: builds declarations from a token stream.
pub struct DeclParser {}

impl DeclParser {
    pub fn new() -> Self {
        DeclParser {  }
    }

    /// All declarations from the cursor of `stream` to its end, or the
    /// first error; on success the stream is left at its end.
    pub fn parse(&mut self, stream: &mut TokenStream) -> (r: Result<Vec<Decl>, ParseError>)
        ensures
            parsed_view(r) == parse_decls(old(stream).tokens(), old(stream).cursor()),
            final(stream).tokens() == old(stream).tokens(),
            r is Ok ==> at_end(final(stream).tokens(), final(stream).cursor()),
    {
        let ghost ts = stream.tokens();
        let ghost c0 = stream.cursor();
        let mut decls = Vec::<Decl>::new();
        assert(decls_view(decls@) + Seq::<DeclView>::empty() =~= Seq::<DeclView>::empty());
        while !stream.is_at_end()
            invariant
                stream.tokens() == ts,
                ts == old(stream).tokens(),
                c0 == old(stream).cursor(),
                stream.cursor() <= ts.len() || stream.cursor() == c0,
                parse_decls(ts, c0) == match parse_decls(ts, stream.cursor()) {
                    Ok(ds) => Ok(decls_view(decls@) + ds),
                    Err(m) => Err(m),
                },
            decreases ts.len() - stream.cursor(),
        {
            let ghost c = stream.cursor();
            let ghost before = decls_view(decls@);
            let kind = stream.current().kind;
            if kind == TokenKind::Var {
                match self.parse_var(stream) {
                    Err(e) => {
                        return Err(e);
                    },
                    Ok(Some(d)) => {
                        decls.push(d);
                    },
                    Ok(None) => {},
                }
            } else if kind == TokenKind::Let {
                match self.parse_let(stream) {
                    Err(e) => {
                        return Err(e);
                    },
                    Ok(Some(d)) => {
                        decls.push(d);
                    },
                    Ok(None) => {},
                }
            } else if kind == TokenKind::Fn {
                proof {
                    lemma_params_rule(ts, c + 2);
                }
                match self.parse_fn(stream) {
                    Err(e) => {
                        return Err(e);
                    },
                    Ok(d) => {
                        let ghost dv = d@;
                        decls.push(d);
                        proof {
                            assert(decls_view(decls@) =~= before.push(dv));
                            match parse_decls(ts, stream.cursor()) {
                                Ok(ds) => {
                                    assert(before + (seq![dv] + ds) =~= before.push(dv) + ds);
                                },
                                Err(_) => {},
                            }
                        }
                    },
                }
            } else {
                stream.next();
            }
        }
        proof {
            assert(decls_view(decls@) + Seq::<DeclView>::empty() =~= decls_view(decls@));
        }
        Ok(decls)
    }

    /// The name, `:` and `;` of a binding whose keyword is at the cursor,
    /// with its initializer when there is one.
    fn parse_binding(&mut self, stream: &mut TokenStream) -> (r: Result<Option<(String, Expr)>, ParseError>)
        requires
            old(stream).cursor() < old(stream).tokens().len(),
        ensures
            final(stream).tokens() == old(stream).tokens(),
            match binding_rule(old(stream).tokens(), old(stream).cursor()) {
                Ok(c2) => r is Ok && r->Ok_0 is None && final(stream).cursor() == c2,
                Err(m) => r is Err && r->Err_0.message@ == m,
            },
    {
        let name = match stream.next_expected(TokenKind::Identifier, "expected variable name") {
            Ok(t) => str_value(&t.value),
            Err(e) => {
                return Err(e);
            },
        };
        match stream.next_expected(
            TokenKind::Colon,
            "expected ':' after variable declaration",
        ) {
            Ok(_) => {},
            Err(e) => {
                return Err(e);
            },
        }
        if compare_token_kind(stream.peek(), TokenKind::Equal) {
            stream.next();
            let expr = ExprParser::new().parse(stream);
            return self.finish_binding(stream, name, expr);
        }
        self.expect_semicolor(stream)?;
        Ok(None)
    }

    /// What follows the initializer of a binding named `name` (`None` when
    /// the name token carried no text), given what the expression grammar
    /// returned: with no expression, an error; otherwise the `;` after the
    /// cursor, then the binding of the name to the expression.
    pub fn finish_binding(
        &mut self,
        stream: &mut TokenStream,
        name: Option<String>,
        expr: Option<Expr>,
    ) -> (r: Result<Option<(String, Expr)>, ParseError>)
        requires
            old(stream).cursor() < usize::MAX,
        ensures
            final(stream).tokens() == old(stream).tokens(),
            expr is None ==> r is Err && r->Err_0.message@ == "failed parsing expression"@,
            expr is Some && !next_is(old(stream).tokens(), old(stream).cursor(), TokenKind::Semicolon)
                ==> r is Err && r->Err_0.message@ == "expected ';' at the end of declaration"@,
            expr is Some && next_is(old(stream).tokens(), old(stream).cursor(), TokenKind::Semicolon)
                ==> final(stream).cursor() == old(stream).cursor() + 1 && if name is Some {
                r is Ok && r->Ok_0 is Some && r->Ok_0->Some_0.0@ == name->Some_0@
            } else {
                r is Err && r->Err_0.message@ == "expected Value::Str"@
            },
    {
        let expr = match expr {
            Some(expr) => expr,
            None => {
                return Err(error("failed parsing expression"));
            },
        };
        self.expect_semicolor(stream)?;
        match name {
            Some(name) => Ok(Some((name, expr))),
            None => Err(error("expected Value::Str")),
        }
    }

    /// A `var` declaration whose keyword is at the cursor; `None` when it
    /// has no initializer.
    fn parse_var(&mut self, stream: &mut TokenStream) -> (r: Result<Option<Decl>, ParseError>)
        requires
            old(stream).cursor() < old(stream).tokens().len(),
        ensures
            final(stream).tokens() == old(stream).tokens(),
            match binding_rule(old(stream).tokens(), old(stream).cursor()) {
                Ok(c2) => r is Ok && r->Ok_0 is None && final(stream).cursor() == c2,
                Err(m) => r is Err && r->Err_0.message@ == m,
            },
    {
        match self.parse_binding(stream) {
            Ok(Some((name, expr))) => Ok(Some(Decl::Var(VarDecl { name, expr }))),
            Ok(None) => Ok(None),
            Err(e) => Err(e),
        }
    }

    /// A `let` declaration whose keyword is at the cursor; `None` when it
    /// has no initializer.
    fn parse_let(&mut self, stream: &mut TokenStream) -> (r: Result<Option<Decl>, ParseError>)
        requires
            old(stream).cursor() < old(stream).tokens().len(),
        ensures
            final(stream).tokens() == old(stream).tokens(),
            match binding_rule(old(stream).tokens(), old(stream).cursor()) {
                Ok(c2) => r is Ok && r->Ok_0 is None && final(stream).cursor() == c2,
                Err(m) => r is Err && r->Err_0.message@ == m,
            },
    {
        match self.parse_binding(stream) {
            Ok(Some((name, expr))) => Ok(Some(Decl::Let(LetDecl { name, expr }))),
            Ok(None) => Ok(None),
            Err(e) => Err(e),
        }
    }

    /// A function declaration whose `fn` is at the cursor.
    fn parse_fn(&mut self, stream: &mut TokenStream) -> (r: Result<Decl, ParseError>)
        requires
            old(stream).cursor() < old(stream).tokens().len(),
        ensures
            final(stream).tokens() == old(stream).tokens(),
            match fn_rule(old(stream).tokens(), old(stream).cursor()) {
                Ok((d, c2)) => r is Ok && r->Ok_0@ == d && final(stream).cursor() == c2,
                Err(m) => r is Err && r->Err_0.message@ == m,
            },
    {
        let ghost ts = stream.tokens();
        let ghost c0 = stream.cursor();
        let name = match stream.next_expected(TokenKind::Identifier, "expected function name") {
            Ok(t) => str_value(&t.value),
            Err(e) => {
                return Err(e);
            },
        };
        match stream.next_expected(TokenKind::LeftParen, "expected '(' after function name") {
            Ok(_) => {},
            Err(e) => {
                return Err(e);
            },
        }
        let mut fn_params = Vec::<FnParam>::new();
        assert(params_view(fn_params@) + Seq::<(Seq<char>, bool)>::empty() =~= Seq::<
            (Seq<char>, bool),
        >::empty());
        while !compare_token_kind(stream.peek(), TokenKind::RightParen)
            invariant
                stream.tokens() == ts,
                ts == old(stream).tokens(),
                c0 == old(stream).cursor(),
                next_is(ts, c0, TokenKind::Identifier),
                next_is(ts, c0 + 1, TokenKind::LeftParen),
                0 <= stream.cursor() < ts.len(),
                params_rule(ts, c0 + 2) == match params_rule(ts, stream.cursor()) {
                    Ok((ps, e)) => Ok((params_view(fn_params@) + ps, e)),
                    Err(m) => Err(m),
                },
            decreases ts.len() - stream.cursor(),
        {
            let ghost before = params_view(fn_params@);
            let kind = match stream.next() {
                Some(t) => t.kind,
                None => {
                    return Err(error("expected ')' after parameters"));
                },
            };
            if kind == TokenKind::Let || kind == TokenKind::Var {
                let msg = if kind == TokenKind::Let {
                    "expected identifier after 'let' keyword"
                } else {
                    "expected identifier after 'var' keyword"
                };
                let param_name = match stream.next_expected(TokenKind::Identifier, msg) {
                    Ok(t) => str_value(&t.value),
                    Err(e) => {
                        return Err(e);
                    },
                };
                match param_name {
                    Some(param_name) => {
                        let ghost pv = (param_name@, kind == TokenKind::Var);
                        fn_params.push(FnParam { name: param_name, is_mutable: kind == TokenKind::Var });
                        proof {
                            assert(params_view(fn_params@) =~= before.push(pv));
                            match params_rule(ts, stream.cursor()) {
                                Ok((ps, e)) => {
                                    assert(before + (seq![pv] + ps) =~= before.push(pv) + ps);
                                },
                                Err(_) => {},
                            }
                        }
                    },
                    None => {
                        return Err(error("expected Value::Str"));
                    },
                }
            }
        }
        proof {
            assert(params_view(fn_params@) + Seq::<(Seq<char>, bool)>::empty() =~= params_view(
                fn_params@,
            ));
        }
        match stream.next_expected(TokenKind::RightParen, "expected ')' after parameters") {
            Ok(_) => {},
            Err(e) => {
                return Err(e);
            },
        }
        let stmts = match StmtParser::new().parse(stream) {
            Ok(stmts) => stmts,
            Err(e) => {
                return Err(e);
            },
        };
        match name {
            Some(name) => Ok(Decl::Fn(FnDecl { name, params: fn_params, stmts })),
            None => Err(error("expected Value::Str")),
        }
    }

    /// The `;` that ends a binding.
    fn expect_semicolor(&mut self, stream: &mut TokenStream) -> (r: Result<(), ParseError>)
        requires
            old(stream).cursor() < usize::MAX,
        ensures
            final(stream).tokens() == old(stream).tokens(),
            final(stream).cursor() == old(stream).cursor() + 1,
            r is Ok <==> next_is(
                old(stream).tokens(),
                old(stream).cursor(),
                TokenKind::Semicolon,
            ),
            r is Err ==> r->Err_0.message@ == "expected ';' at the end of declaration"@,
    {
        match stream.next_expected(
            TokenKind::Semicolon,
            "expected ';' at the end of declaration",
        ) {
            Ok(_) => Ok(()),
            Err(e) => Err(e),
        }
    }
}

/// A function whose body holds anything before its closing brace fails
/// with "expected '}' after function body": the statement grammar accepts
/// only an empty body.
pub proof fn lemma_nonempty_body_fails(ts: Seq<TokenView>, c: int)
    requires
        0 <= c < ts.len(),
        ts[c].kind == TokenKind::Fn,
        next_is(ts, c, TokenKind::Identifier),
        next_is(ts, c + 1, TokenKind::LeftParen),
        params_rule(ts, c + 2) matches Ok((_, e)) && next_is(ts, e + 1, TokenKind::LeftBrace)
            && e + 3 < ts.len() && ts[e + 3].kind != TokenKind::RightBrace,
    ensures
        parse_decls(ts, c) == Err::<Seq<DeclView>, Seq<char>>("expected '}' after function body"@),
{
    lemma_params_rule(ts, c + 2);
}

} // verus!
