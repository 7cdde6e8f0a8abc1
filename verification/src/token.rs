//! Tokens of the language.
//!
//! The tokenizer produces a sequence of `TokenKind` values (a token together
//! with the source line it starts on), terminated by an explicit `EOF` token.
//! In specifications a token is seen as a `SpecToken`, whose payloads are
//! character sequences.

use vstd::prelude::*;

use crate::numeral::{Numeral, SpecNumeral};

verus! {

/// A lexical token.  Payload-carrying variants hold identifier text, a
/// normalized number literal, or the contents of a string literal.
#[derive(Debug, Clone, PartialEq)]
pub enum Token {
    LParen,
    RParen,
    LBrace,
    RBrace,
    LBracket,
    RBracket,
    Comma,
    Semicolon,
    Assign,
    AssignEqual,
    Bang,
    BangEqual,
    Less,
    LessEqual,
    Greater,
    GreaterEqual,
    Plus,
    Minus,
    Star,
    Slash,
    Fn,
    Return,
    If,
    Else,
    Print,
    Let,
    And,
    Or,
    True,
    False,
    Len,
    First,
    Last,
    Rest,
    Push,
    Ident(String),
    Number(Numeral),
    Str(String),
    EOF,
}

/// The mathematical value of a `Token`.
#[verifier::ext_equal]
pub ghost enum SpecToken {
    LParen,
    RParen,
    LBrace,
    RBrace,
    LBracket,
    RBracket,
    Comma,
    Semicolon,
    Assign,
    AssignEqual,
    Bang,
    BangEqual,
    Less,
    LessEqual,
    Greater,
    GreaterEqual,
    Plus,
    Minus,
    Star,
    Slash,
    Fn,
    Return,
    If,
    Else,
    Print,
    Let,
    And,
    Or,
    True,
    False,
    Len,
    First,
    Last,
    Rest,
    Push,
    Ident(Seq<char>),
    Number(SpecNumeral),
    Str(Seq<char>),
    EOF,
}

impl View for Token {
    type V = SpecToken;

    open spec fn view(&self) -> SpecToken {
        match self {
            Token::LParen => SpecToken::LParen,
            Token::RParen => SpecToken::RParen,
            Token::LBrace => SpecToken::LBrace,
            Token::RBrace => SpecToken::RBrace,
            Token::LBracket => SpecToken::LBracket,
            Token::RBracket => SpecToken::RBracket,
            Token::Comma => SpecToken::Comma,
            Token::Semicolon => SpecToken::Semicolon,
            Token::Assign => SpecToken::Assign,
            Token::AssignEqual => SpecToken::AssignEqual,
            Token::Bang => SpecToken::Bang,
            Token::BangEqual => SpecToken::BangEqual,
            Token::Less => SpecToken::Less,
            Token::LessEqual => SpecToken::LessEqual,
            Token::Greater => SpecToken::Greater,
            Token::GreaterEqual => SpecToken::GreaterEqual,
            Token::Plus => SpecToken::Plus,
            Token::Minus => SpecToken::Minus,
            Token::Star => SpecToken::Star,
            Token::Slash => SpecToken::Slash,
            Token::Fn => SpecToken::Fn,
            Token::Return => SpecToken::Return,
            Token::If => SpecToken::If,
            Token::Else => SpecToken::Else,
            Token::Print => SpecToken::Print,
            Token::Let => SpecToken::Let,
            Token::And => SpecToken::And,
            Token::Or => SpecToken::Or,
            Token::True => SpecToken::True,
            Token::False => SpecToken::False,
            Token::Len => SpecToken::Len,
            Token::First => SpecToken::First,
            Token::Last => SpecToken::Last,
            Token::Rest => SpecToken::Rest,
            Token::Push => SpecToken::Push,
            Token::Ident(s) => SpecToken::Ident(s@),
            Token::Number(n) => SpecToken::Number(n@),
            Token::Str(s) => SpecToken::Str(s@),
            Token::EOF => SpecToken::EOF,
        }
    }
}

/// A token together with the source line it starts on.
#[derive(Debug, Clone, PartialEq)]
pub struct TokenKind {
    pub token: Token,
    pub line: usize,
}

/// The mathematical value of a `TokenKind`.
#[verifier::ext_equal]
pub ghost struct SpecTokenKind {
    pub token: SpecToken,
    pub line: usize,
}

impl View for TokenKind {
    type V = SpecTokenKind;

    open spec fn view(&self) -> SpecTokenKind {
        SpecTokenKind { token: self.token@, line: self.line }
    }
}

impl Token {
    /// A copy with the same value.
    pub fn duplicate(&self) -> (r: Token)
        ensures
            r@ == self@,
    {
        match self {
            Token::LParen => Token::LParen,
            Token::RParen => Token::RParen,
            Token::LBrace => Token::LBrace,
            Token::RBrace => Token::RBrace,
            Token::LBracket => Token::LBracket,
            Token::RBracket => Token::RBracket,
            Token::Comma => Token::Comma,
            Token::Semicolon => Token::Semicolon,
            Token::Assign => Token::Assign,
            Token::AssignEqual => Token::AssignEqual,
            Token::Bang => Token::Bang,
            Token::BangEqual => Token::BangEqual,
            Token::Less => Token::Less,
            Token::LessEqual => Token::LessEqual,
            Token::Greater => Token::Greater,
            Token::GreaterEqual => Token::GreaterEqual,
            Token::Plus => Token::Plus,
            Token::Minus => Token::Minus,
            Token::Star => Token::Star,
            Token::Slash => Token::Slash,
            Token::Fn => Token::Fn,
            Token::Return => Token::Return,
            Token::If => Token::If,
            Token::Else => Token::Else,
            Token::Print => Token::Print,
            Token::Let => Token::Let,
            Token::And => Token::And,
            Token::Or => Token::Or,
            Token::True => Token::True,
            Token::False => Token::False,
            Token::Len => Token::Len,
            Token::First => Token::First,
            Token::Last => Token::Last,
            Token::Rest => Token::Rest,
            Token::Push => Token::Push,
            Token::Ident(s) => Token::Ident(s.clone()),
            Token::Number(n) => Token::Number(n.duplicate()),
            Token::Str(s) => Token::Str(s.clone()),
            Token::EOF => Token::EOF,
        }
    }

    /// Structural equality of two tokens, payloads included.
    #[verifier::rlimit(100)]
    #[verifier::spinoff_prover]
    pub fn same(&self, other: &Token) -> (r: bool)
        ensures
            r == (self@ == other@),
    {
        match (self, other) {
            (Token::LParen, Token::LParen) => return true,
            (Token::RParen, Token::RParen) => return true,
            (Token::LBrace, Token::LBrace) => return true,
            (Token::RBrace, Token::RBrace) => return true,
            (Token::LBracket, Token::LBracket) => return true,
            (Token::RBracket, Token::RBracket) => return true,
            (Token::Comma, Token::Comma) => return true,
            (Token::Semicolon, Token::Semicolon) => return true,
            (Token::Assign, Token::Assign) => return true,
            (Token::AssignEqual, Token::AssignEqual) => return true,
            (Token::Bang, Token::Bang) => return true,
            (Token::BangEqual, Token::BangEqual) => return true,
            (Token::Less, Token::Less) => return true,
            (Token::LessEqual, Token::LessEqual) => return true,
            (Token::Greater, Token::Greater) => return true,
            (Token::GreaterEqual, Token::GreaterEqual) => return true,
            (Token::Plus, Token::Plus) => return true,
            (Token::Minus, Token::Minus) => return true,
            (Token::Star, Token::Star) => return true,
            (Token::Slash, Token::Slash) => return true,
            (Token::Fn, Token::Fn) => return true,
            (Token::Return, Token::Return) => return true,
            (Token::If, Token::If) => return true,
            (Token::Else, Token::Else) => return true,
            (Token::Print, Token::Print) => return true,
            (Token::Let, Token::Let) => return true,
            (Token::And, Token::And) => return true,
            (Token::Or, Token::Or) => return true,
            (Token::True, Token::True) => return true,
            (Token::False, Token::False) => return true,
            (Token::Len, Token::Len) => return true,
            (Token::First, Token::First) => return true,
            (Token::Last, Token::Last) => return true,
            (Token::Rest, Token::Rest) => return true,
            (Token::Push, Token::Push) => return true,
            (Token::Ident(a), Token::Ident(b)) => return *a == *b,
            (Token::Number(a), Token::Number(b)) => return a.same(b),
            (Token::Str(a), Token::Str(b)) => return *a == *b,
            (Token::EOF, Token::EOF) => return true,
            _ => return false,
        }
    }
}

} // verus!
