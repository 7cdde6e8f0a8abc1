//! Syntactic front end for a small dynamically-typed scripting language.
//!
//! The library turns source text into a sequence of statements, each either a
//! well-formed abstract syntax tree or a structured parse error.  Expressions
//! are parsed with operator-precedence (Pratt) parsing; statements with
//! recursive descent.  Every tree has a canonical text rendering that callers
//! may rely on byte for byte.

pub mod ast;
pub mod error;
pub mod lexer;
pub mod numeral;
pub mod parser;
pub mod token;
