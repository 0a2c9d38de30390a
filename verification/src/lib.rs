//! A lexer and recursive-descent parser for a small arithmetic and
//! function-definition language.
//!
//! A line of source text is turned into tokens by [`lexer::TokenIter`] and
//! into an abstract syntax tree by the parsers in [`ast`]. Every parser is
//! specified against a mathematical model of the grammar: spec functions
//! over the token sequence that say exactly which tree is built and which
//! error is reported.

pub mod ast;
pub mod lexer;
