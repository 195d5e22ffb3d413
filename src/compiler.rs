use vstd::prelude::*;

use crate::ast::{decls_view, Decl};
use crate::lexer::Lexer;
use crate::lexical::{lex, LexError};
use crate::parser::{parse_decls, DeclParser};
use crate::token::{tokens_view, Token};
use crate::token_stream::{ParseError, TokenStream};

verus! {

/// How far the pipeline runs.
#[derive(PartialEq, Eq, Structural, Debug, Clone, Copy)]
pub enum Phase {
    /// Tokenizing only.
    Lexer,
    /// Tokenizing, then a token stream over the tokens.
    Parser,
    /// Tokenizing, then parsing the declarations.
    All,
}

/// What a run of the pipeline produced, by phase.
#[derive(Debug)]
pub enum Compiled {
    Tokens(Vec<Token>),
    Stream(TokenStream),
    Decls(Vec<Decl>),
}

/// The first fatal error of a run.
#[derive(Debug)]
pub enum CompileError {
    Lex(LexError),
    Parse(ParseError),
}

/// One source file and how far to take it.
pub struct Compiler {
    file_path: String,
    file_source: String,
    phase: Phase,
}

impl Compiler {
    /// The path reported in diagnostics.
    pub closed spec fn path(&self) -> Seq<char> {
        self.file_path@
    }

    /// The source text.
    pub closed spec fn source(&self) -> Seq<char> {
        self.file_source@
    }

    /// The phase the run stops after.
    pub closed spec fn phase(&self) -> Phase {
        self.phase
    }

    pub fn new(file_path: String, file_source: String, phase: Phase) -> (r: Self)
        ensures
            r.path() == file_path@,
            r.source() == file_source@,
            r.phase() == phase,
    {
        Compiler { file_path: file_path, file_source: file_source, phase: phase }
    }

    /// Runs the pipeline up to the phase: the tokens, a stream on the
    /// first of them, or the declarations; or the first error.
    pub fn compile(&self) -> (r: Result<Compiled, CompileError>)
        requires
            self.source().len() < u32::MAX,
        ensures
            match lex(self.source()) {
                Err(e) => r matches Err(CompileError::Lex(e2)) && e2 == e,
                Ok(ts) => match self.phase() {
                    Phase::Lexer => r matches Ok(Compiled::Tokens(v)) && tokens_view(v@) == ts,
                    Phase::Parser => r matches Ok(Compiled::Stream(s)) && s.tokens()
                        == ts && s.cursor() == 0,
                    Phase::All => match parse_decls(ts, 0) {
                        Ok(ds) => r matches Ok(Compiled::Decls(v)) && decls_view(v@) == ds,
                        Err(m) => r matches Err(CompileError::Parse(e)) && e.message@ == m,
                    },
                },
            },
    {
        let mut lexer = Lexer::new(self.file_path.as_str(), self.file_source.as_str());
        let tokens = match lexer.tokenize() {
            Ok(tokens) => tokens,
            Err(e) => {
                return Err(CompileError::Lex(e));
            },
        };
        if self.phase == Phase::Lexer {
            return Ok(Compiled::Tokens(tokens));
        }
        let mut stream = TokenStream::new(tokens);
        if self.phase == Phase::Parser {
            return Ok(Compiled::Stream(stream));
        }
        match DeclParser::new().parse(&mut stream) {
            Ok(decls) => Ok(Compiled::Decls(decls)),
            Err(e) => Err(CompileError::Parse(e)),
        }
    }
}

} // verus!
