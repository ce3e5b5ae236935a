//! Front end for a small statically typed expression language: a lexer that
//! turns source text into span-tagged tokens, and a recursive-descent parser
//! that builds a span-tagged abstract syntax tree.

pub mod ast;
pub mod intern;
pub mod lex_model;
pub mod lexer;
pub mod loc;
pub mod parse_model;
pub mod parser;
pub mod span;
