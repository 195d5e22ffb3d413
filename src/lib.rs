//! The front end of a small language: a lexer that turns source text into
//! tokens, a cursor over those tokens, and a parser for top-level
//! declarations (`var`, `let`, `fn`).
pub mod ast;
pub mod chars_nav;
pub mod compiler;
pub mod keywords;
pub mod lexer;
pub mod lexical;
pub mod parser;
pub mod text;
pub mod token;
pub mod token_stream;
