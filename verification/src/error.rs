//! Error taxonomy of the front end.
//!
//! Lexical errors come from the tokenizer and are forwarded by the parser;
//! syntax errors report an expected-token mismatch with the offending line;
//! end-of-input errors report a token stream exhausted mid-construct.

use vstd::prelude::*;

use crate::token::{SpecToken, Token};

verus! {

/// A failure of the tokenizer.  Lexical errors are items of the token
/// stream, distinct from tokens; the parser forwards them.
#[derive(Debug, Clone, Copy, PartialEq, Eq, Structural)]
pub enum LexError {
    /// A character that starts no token.
    UnexpectedChar { c: char, line: usize },
    /// A string literal still open at the end of the input.
    UnterminatedString { line: usize },
}

/// A failure of the parser: a lexical error forwarded, an expected-token
/// mismatch at a known line, or input ending in the middle of a construct.
#[derive(Debug, Clone, PartialEq)]
pub enum ParseError {
    /// A lexical error surfaced by the token source.
    Lexical(LexError),
    /// The next token is not the expected one.
    UnexpectedToken { expected: Token, line: usize },
    /// The input ended where a specific token was expected.
    UnexpectedEnd { expected: Token },
    /// Something other than an identifier where one is required.
    ExpectedIdentifier { line: usize },
    /// The input ended where an identifier was required.
    ExpectedIdentifierAtEnd,
    /// A token that cannot start an expression.
    ExpectedExpression { line: usize },
    /// A statement requires an expression but none is present.
    MissingExpression,
    /// An array literal element followed by something other than `,` or `]`.
    ArraySeparator { line: usize },
    /// The input ended inside an array literal.
    ArraySeparatorAtEnd,
}

/// The mathematical value of a `ParseError`.
#[verifier::ext_equal]
pub ghost enum SpecParseError {
    Lexical(LexError),
    UnexpectedToken { expected: SpecToken, line: usize },
    UnexpectedEnd { expected: SpecToken },
    ExpectedIdentifier { line: usize },
    ExpectedIdentifierAtEnd,
    ExpectedExpression { line: usize },
    MissingExpression,
    ArraySeparator { line: usize },
    ArraySeparatorAtEnd,
}

impl View for ParseError {
    type V = SpecParseError;

    open spec fn view(&self) -> SpecParseError {
        match self {
            ParseError::Lexical(e) => SpecParseError::Lexical(*e),
            ParseError::UnexpectedToken { expected, line } => SpecParseError::UnexpectedToken {
                expected: expected@,
                line: *line,
            },
            ParseError::UnexpectedEnd { expected } => SpecParseError::UnexpectedEnd {
                expected: expected@,
            },
            ParseError::ExpectedIdentifier { line } => SpecParseError::ExpectedIdentifier {
                line: *line,
            },
            ParseError::ExpectedIdentifierAtEnd => SpecParseError::ExpectedIdentifierAtEnd,
            ParseError::ExpectedExpression { line } => SpecParseError::ExpectedExpression {
                line: *line,
            },
            ParseError::MissingExpression => SpecParseError::MissingExpression,
            ParseError::ArraySeparator { line } => SpecParseError::ArraySeparator { line: *line },
            ParseError::ArraySeparatorAtEnd => SpecParseError::ArraySeparatorAtEnd,
        }
    }
}

} // verus!
