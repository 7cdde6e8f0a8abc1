//! The parser: operator-precedence (Pratt) expression parsing combined with
//! recursive-descent statement parsing.
//!
//! `Parser::parse` turns the token stream of one input into a sequence of
//! top-level results, each a well-formed tree or a parse error; a malformed
//! statement yields one error and parsing resumes at the next statement
//! boundary.  The `spec_parse_*` functions are the mathematical definition
//! of the parser; every executable method is proved to return exactly what
//! its spec function says, leaving the token cursor exactly where the spec
//! function says.
//!
//! Each spec function takes the token stream and a cursor and returns its
//! result together with the new cursor.  At a few recursion sites the cursor
//! handed on is written `at_least(lo, p)`: the parser has consumed at least
//! one token there, so the bound is inert; it keeps the definitions
//! well-founded.

use vstd::prelude::*;

use crate::ast::{SpecAst, SpecTy, AST, Op, Type};
use crate::error::{LexError, ParseError, SpecParseError};
use crate::numeral::{spec_is_digit, SpecNumeral};
use crate::lexer::{lex, lex_item_view, lex_items_view, spec_lex, LexItem, SpecLexItem};
use crate::token::{SpecToken, SpecTokenKind, Token, TokenKind};

verus! {

/// A parse outcome in specifications: the result and the new cursor.
pub type SpecParsed = (Result<SpecAst, SpecParseError>, int);

/// Tokens not yet consumed; zero once the cursor has passed the end.
pub open spec fn rem(toks: Seq<SpecLexItem>, i: int) -> int {
    if i <= toks.len() {
        toks.len() - i
    } else {
        0
    }
}

/// `p`, but never below `lo`.
pub open spec fn at_least(lo: int, p: int) -> int {
    if p < lo {
        lo
    } else {
        p
    }
}

/// The `Nil` leaf.
pub open spec fn nil_ast() -> SpecAst {
    SpecAst::Type(SpecTy::Nil)
}

/// A one-operand operator application.
pub open spec fn unary(op: Op, a: SpecAst) -> SpecAst {
    SpecAst::Expr(op, seq![a])
}

/// A two-operand operator application.
pub open spec fn binary(op: Op, a: SpecAst, b: SpecAst) -> SpecAst {
    SpecAst::Expr(op, seq![a, b])
}

/// The item under the cursor, if any.
pub open spec fn spec_peek(toks: Seq<SpecLexItem>, i: int) -> Option<SpecLexItem> {
    if 0 <= i < toks.len() {
        Option::Some(toks[i])
    } else {
        Option::None
    }
}

/// True when the item under the cursor is the token `t`.
pub open spec fn spec_is_next(toks: Seq<SpecLexItem>, i: int, t: SpecToken) -> bool {
    match spec_peek(toks, i) {
        Option::Some(Result::Ok(k)) => k.token == t,
        _ => false,
    }
}

/// Requires the token `t` under the cursor and steps over it; otherwise an
/// error, leaving the cursor in place.
pub open spec fn spec_expect(toks: Seq<SpecLexItem>, i: int, t: SpecToken) -> (Result<
    (),
    SpecParseError,
>, int) {
    match spec_peek(toks, i) {
        Option::Some(Result::Ok(k)) => if k.token == t {
            (Result::Ok(()), i + 1)
        } else {
            (Result::Err(SpecParseError::UnexpectedToken { expected: t, line: k.line }), i)
        },
        Option::Some(Result::Err(e)) => (Result::Err(SpecParseError::Lexical(e)), i),
        Option::None => (Result::Err(SpecParseError::UnexpectedEnd { expected: t }), i),
    }
}

/// The operator continuing an expression that `t` announces, if any.
pub open spec fn op_of_token(t: SpecToken) -> Option<Op> {
    match t {
        SpecToken::Plus => Option::Some(Op::Plus),
        SpecToken::Minus => Option::Some(Op::Minus),
        SpecToken::Star => Option::Some(Op::Star),
        SpecToken::Slash => Option::Some(Op::Slash),
        SpecToken::LParen => Option::Some(Op::Fn),
        SpecToken::AssignEqual => Option::Some(Op::AssignEqual),
        SpecToken::Bang => Option::Some(Op::Bang),
        SpecToken::BangEqual => Option::Some(Op::BangEqual),
        SpecToken::Less => Option::Some(Op::Less),
        SpecToken::LessEqual => Option::Some(Op::LessEqual),
        SpecToken::Greater => Option::Some(Op::Greater),
        SpecToken::GreaterEqual => Option::Some(Op::GreaterEqual),
        SpecToken::And => Option::Some(Op::And),
        SpecToken::Or => Option::Some(Op::Or),
        SpecToken::LBracket => Option::Some(Op::Index),
        _ => Option::None,
    }
}

/// The left binding power of postfix and call-like operators.
pub open spec fn spec_postfix_bp(op: Op) -> Option<u8> {
    match op {
        Op::Fn | Op::Index | Op::Len => Option::Some(13u8),
        Op::ReAssign => Option::Some(12u8),
        _ => Option::None,
    }
}

/// The right binding power of the unary prefix operators.
pub open spec fn spec_prefix_bp(op: Op) -> u8 {
    11u8
}

/// The binding powers of the infix operators: higher binds tighter, and the
/// right power one above the left gives left-associativity.
pub open spec fn spec_infix_bp(op: Op) -> Option<(u8, u8)> {
    match op {
        Op::And | Op::Or => Option::Some((3u8, 4u8)),
        Op::BangEqual | Op::AssignEqual | Op::Less | Op::LessEqual | Op::Greater
            | Op::GreaterEqual => Option::Some((5u8, 6u8)),
        Op::Plus | Op::Minus => Option::Some((7u8, 8u8)),
        Op::Star | Op::Slash => Option::Some((9u8, 10u8)),
        _ => Option::None,
    }
}

/// One expression, parsed by precedence climbing: one token is consumed as
/// the left operand (literals, unary prefixes, groups, function literals,
/// `if`-expressions, array literals, built-in calls), and operators of
/// binding power at least `min_bp` then extend it.  A bare identifier
/// followed by `=` is a reassignment node of its own, short-circuiting the
/// operator loop.  An exhausted stream yields `Nil`; a token that starts no
/// expression is an error.
pub open spec fn spec_parse_expression(toks: Seq<SpecLexItem>, i: int, min_bp: u8) -> SpecParsed
    decreases rem(toks, i), 1int,
{
    if !(0 <= i < toks.len()) {
        (Result::Ok(nil_ast()), i)
    } else {
        match toks[i] {
            Result::Err(e) => (Result::Err(SpecParseError::Lexical(e)), i + 1),
            Result::Ok(k) => match k.token {
                SpecToken::Str(v) => spec_parse_led(
                    toks,
                    i + 1,
                    min_bp,
                    SpecAst::Type(SpecTy::String(v)),
                ),
                SpecToken::Number(n) => spec_parse_led(
                    toks,
                    i + 1,
                    min_bp,
                    SpecAst::Type(SpecTy::Number(n)),
                ),
                SpecToken::True => spec_parse_led(
                    toks,
                    i + 1,
                    min_bp,
                    SpecAst::Type(SpecTy::Bool(true)),
                ),
                SpecToken::False => spec_parse_led(
                    toks,
                    i + 1,
                    min_bp,
                    SpecAst::Type(SpecTy::Bool(false)),
                ),
                SpecToken::Ident(s) => {
                    if spec_is_next(toks, i + 1, SpecToken::Assign) {
                        let (r, i2) = spec_parse_expression(toks, i + 1, 0);
                        match r {
                            Result::Err(e) => (Result::Err(e), i2),
                            Result::Ok(v) => (
                                Result::Ok(
                                    SpecAst::Reassign { ident: s, value: Box::new(v) },
                                ),
                                i2,
                            ),
                        }
                    } else {
                        spec_parse_led(toks, i + 1, min_bp, SpecAst::Type(SpecTy::Ident(s)))
                    }
                },
                SpecToken::Fn => {
                    let (r, i2) = spec_parse_fun(toks, i + 1);
                    match r {
                        Result::Err(e) => (Result::Err(e), i2),
                        Result::Ok(a) => spec_parse_led(toks, at_least(i + 1, i2), min_bp, a),
                    }
                },
                SpecToken::If => {
                    let (r, i2) = spec_parse_if(toks, i + 1);
                    match r {
                        Result::Err(e) => (Result::Err(e), i2),
                        Result::Ok(a) => spec_parse_led(toks, at_least(i + 1, i2), min_bp, a),
                    }
                },
                SpecToken::LBracket => {
                    let (r, i2) = spec_parse_array(toks, i + 1);
                    match r {
                        Result::Err(e) => (Result::Err(e), i2),
                        Result::Ok(a) => spec_parse_led(toks, at_least(i + 1, i2), min_bp, a),
                    }
                },
                SpecToken::Assign => {
                    let (r, i2) = spec_parse_expression(toks, i + 1, 0);
                    match r {
                        Result::Err(e) => (Result::Err(e), i2),
                        Result::Ok(a) => spec_parse_led(
                            toks,
                            at_least(i + 1, i2),
                            min_bp,
                            unary(Op::Assing, a),
                        ),
                    }
                },
                SpecToken::LParen => {
                    let (r, i2) = spec_parse_expression(toks, i + 1, 0);
                    match r {
                        Result::Err(e) => (Result::Err(e), i2),
                        Result::Ok(a) => {
                            let (e3, i3) = spec_expect(
                                toks,
                                at_least(i + 1, i2),
                                SpecToken::RParen,
                            );
                            match e3 {
                                Result::Err(e) => (Result::Err(e), i3),
                                Result::Ok(_) => spec_parse_led(
                                    toks,
                                    i3,
                                    min_bp,
                                    unary(Op::Grouped, a),
                                ),
                            }
                        },
                    }
                },
                SpecToken::Len => spec_parse_builtin_one(toks, i + 1, min_bp, Op::Len),
                SpecToken::First => spec_parse_builtin_one(toks, i + 1, min_bp, Op::First),
                SpecToken::Last => spec_parse_builtin_one(toks, i + 1, min_bp, Op::Last),
                SpecToken::Rest => spec_parse_builtin_one(toks, i + 1, min_bp, Op::Rest),
                SpecToken::Push => spec_parse_push(toks, i + 1, min_bp),
                SpecToken::Bang => {
                    let (r, i2) = spec_parse_expression(toks, i + 1, spec_prefix_bp(Op::Bang));
                    match r {
                        Result::Err(e) => (Result::Err(e), i2),
                        Result::Ok(a) => spec_parse_led(
                            toks,
                            at_least(i + 1, i2),
                            min_bp,
                            unary(Op::Bang, a),
                        ),
                    }
                },
                SpecToken::Minus => {
                    let (r, i2) = spec_parse_expression(toks, i + 1, spec_prefix_bp(Op::Minus));
                    match r {
                        Result::Err(e) => (Result::Err(e), i2),
                        Result::Ok(a) => spec_parse_led(
                            toks,
                            at_least(i + 1, i2),
                            min_bp,
                            unary(Op::Minus, a),
                        ),
                    }
                },
                _ => (Result::Err(SpecParseError::ExpectedExpression { line: k.line }), i + 1),
            },
        }
    }
}

/// The tail of a built-in call form `op ( expression )`, the keyword already
/// consumed; the result then continues through the operator loop.
pub open spec fn spec_parse_builtin_one(
    toks: Seq<SpecLexItem>,
    i: int,
    min_bp: u8,
    op: Op,
) -> SpecParsed
    decreases rem(toks, i), 3int,
{
    let (e1, i1) = spec_expect(toks, i, SpecToken::LParen);
    match e1 {
        Result::Err(e) => (Result::Err(e), i1),
        Result::Ok(_) => {
            let (r, i2) = spec_parse_expression(toks, i1, 0);
            match r {
                Result::Err(e) => (Result::Err(e), i2),
                Result::Ok(a) => {
                    let (e3, i3) = spec_expect(toks, at_least(i1, i2), SpecToken::RParen);
                    match e3 {
                        Result::Err(e) => (Result::Err(e), i3),
                        Result::Ok(_) => spec_parse_led(toks, i3, min_bp, unary(op, a)),
                    }
                },
            }
        },
    }
}

/// The tail of the built-in call form `push ( expression , expression )`,
/// the keyword already consumed; like the other built-ins, the result then
/// continues through the operator loop.
pub open spec fn spec_parse_push(toks: Seq<SpecLexItem>, i: int, min_bp: u8) -> SpecParsed
    decreases rem(toks, i), 3int,
{
    let (e1, i1) = spec_expect(toks, i, SpecToken::LParen);
    match e1 {
        Result::Err(e) => (Result::Err(e), i1),
        Result::Ok(_) => {
            let (r, i2) = spec_parse_expression(toks, i1, 0);
            match r {
                Result::Err(e) => (Result::Err(e), i2),
                Result::Ok(a) => {
                    let (e3, i3) = spec_expect(toks, at_least(i1, i2), SpecToken::Comma);
                    match e3 {
                        Result::Err(e) => (Result::Err(e), i3),
                        Result::Ok(_) => {
                            let (r4, i4) = spec_parse_expression(toks, i3, 0);
                            match r4 {
                                Result::Err(e) => (Result::Err(e), i4),
                                Result::Ok(b) => {
                                    let (e5, i5) = spec_expect(
                                        toks,
                                        at_least(i3, i4),
                                        SpecToken::RParen,
                                    );
                                    match e5 {
                                        Result::Err(e) => (Result::Err(e), i5),
                                        Result::Ok(_) => spec_parse_led(
                                            toks,
                                            i5,
                                            min_bp,
                                            binary(Op::Push, a, b),
                                        ),
                                    }
                                },
                            }
                        },
                    }
                },
            }
        },
    }
}

/// The operator loop of precedence climbing: while the next token maps to
/// an operator whose left binding power reaches `min_bp`, the accumulated
/// tree is extended by a postfix or call-like form, or combined with a
/// right operand parsed at the operator's right binding power.
pub open spec fn spec_parse_led(
    toks: Seq<SpecLexItem>,
    i: int,
    min_bp: u8,
    acc: SpecAst,
) -> SpecParsed
    decreases rem(toks, i), 2int,
{
    match spec_peek(toks, i) {
        Option::Some(Result::Ok(k)) => match op_of_token(k.token) {
            Option::None => (Result::Ok(acc), i),
            Option::Some(op) => match spec_postfix_bp(op) {
                Option::Some(lbp) => {
                    if lbp < min_bp {
                        (Result::Ok(acc), i)
                    } else if op == Op::Fn {
                        let (e1, i1) = spec_expect(toks, i, SpecToken::LParen);
                        match e1 {
                            Result::Err(e) => (Result::Err(e), i1),
                            Result::Ok(_) => {
                                let (ra, i2) = spec_parse_args(toks, i1);
                                match ra {
                                    Result::Err(e) => (Result::Err(e), i2),
                                    Result::Ok(args) => {
                                        let (e3, i3) = spec_expect(
                                            toks,
                                            at_least(i1, i2),
                                            SpecToken::RParen,
                                        );
                                        match e3 {
                                            Result::Err(e) => (Result::Err(e), i3),
                                            Result::Ok(_) => spec_parse_led(
                                                toks,
                                                i3,
                                                min_bp,
                                                unary(
                                                    Op::Fn,
                                                    SpecAst::Call {
                                                        calle: Box::new(acc),
                                                        args,
                                                    },
                                                ),
                                            ),
                                        }
                                    },
                                }
                            },
                        }
                    } else if op == Op::Index {
                        let (e1, i1) = spec_expect(toks, i, SpecToken::LBracket);
                        match e1 {
                            Result::Err(e) => (Result::Err(e), i1),
                            Result::Ok(_) => {
                                let (r, i2) = spec_parse_expression(toks, i1, 0);
                                match r {
                                    Result::Err(e) => (Result::Err(e), i2),
                                    Result::Ok(idx) => {
                                        let (e3, i3) = spec_expect(
                                            toks,
                                            at_least(i1, i2),
                                            SpecToken::RBracket,
                                        );
                                        match e3 {
                                            Result::Err(e) => (Result::Err(e), i3),
                                            Result::Ok(_) => spec_parse_led(
                                                toks,
                                                i3,
                                                min_bp,
                                                binary(Op::Index, acc, idx),
                                            ),
                                        }
                                    },
                                }
                            },
                        }
                    } else {
                        // No token announces the remaining postfix
                        // operators.
                        (Result::Ok(acc), i)
                    }
                },
                Option::None => match spec_infix_bp(op) {
                    Option::Some((lbp, rbp)) => {
                        if lbp < min_bp {
                            (Result::Ok(acc), i)
                        } else if i + 1 >= toks.len() {
                            // The right operand parse finds an exhausted
                            // stream and yields `Nil` on the spot.
                            (Result::Ok(binary(op, acc, nil_ast())), i + 1)
                        } else {
                            let (r, i2) = spec_parse_expression(toks, i + 1, rbp);
                            match r {
                                Result::Err(e) => (Result::Err(e), i2),
                                Result::Ok(rhs) => spec_parse_led(
                                    toks,
                                    at_least(i + 2, i2),
                                    min_bp,
                                    binary(op, acc, rhs),
                                ),
                            }
                        }
                    },
                    Option::None => (Result::Ok(acc), i),
                },
            },
        },
        _ => (Result::Ok(acc), i),
    }
}

/// A call's argument list, the opening parenthesis already consumed: empty
/// if `)` follows at once, else expressions separated by commas.
pub open spec fn spec_parse_args(toks: Seq<SpecLexItem>, i: int) -> (Result<
    Seq<SpecAst>,
    SpecParseError,
>, int)
    decreases rem(toks, i), 4int,
{
    if spec_is_next(toks, i, SpecToken::RParen) {
        spec_parse_args_rest(toks, i, Seq::empty())
    } else {
        let (r, i2) = spec_parse_expression(toks, i, 0);
        match r {
            Result::Err(e) => (Result::Err(e), i2),
            Result::Ok(a) => spec_parse_args_rest(toks, at_least(i, i2), seq![a]),
        }
    }
}

/// Further call arguments: one more expression for each comma.
pub open spec fn spec_parse_args_rest(toks: Seq<SpecLexItem>, i: int, acc: Seq<SpecAst>) -> (Result<
    Seq<SpecAst>,
    SpecParseError,
>, int)
    decreases rem(toks, i), 3int,
{
    if spec_is_next(toks, i, SpecToken::Comma) {
        if i + 1 >= toks.len() {
            // The expression parse finds an exhausted stream and yields
            // `Nil` on the spot.
            (Result::Ok(acc.push(nil_ast())), i + 1)
        } else {
            let (r, i2) = spec_parse_expression(toks, i + 1, 0);
            match r {
                Result::Err(e) => (Result::Err(e), i2),
                Result::Ok(a) => spec_parse_args_rest(toks, at_least(i + 2, i2), acc.push(a)),
            }
        }
    } else {
        (Result::Ok(acc), i)
    }
}

/// An array literal's elements, the opening bracket already consumed: an
/// immediate `]` gives the empty array, else expressions separated by
/// commas, ended by `]`, with no trailing comma permitted.
pub open spec fn spec_parse_array(toks: Seq<SpecLexItem>, i: int) -> SpecParsed
    decreases rem(toks, i), 4int,
{
    if spec_is_next(toks, i, SpecToken::RBracket) {
        (Result::Ok(SpecAst::Type(SpecTy::Arr(Seq::empty()))), i + 1)
    } else {
        spec_parse_array_loop(toks, i, Seq::empty())
    }
}

/// The element loop of an array literal: after every consumed comma one
/// more element is required.
pub open spec fn spec_parse_array_loop(
    toks: Seq<SpecLexItem>,
    i: int,
    acc: Seq<SpecAst>,
) -> SpecParsed
    decreases rem(toks, i), 3int,
{
    let (r, i2) = spec_parse_expression(toks, i, 0);
    match r {
        Result::Err(e) => (Result::Err(e), i2),
        Result::Ok(a) => {
            let j = at_least(if 0 <= i < toks.len() {
                i + 1
            } else {
                i
            }, i2);
            match spec_peek(toks, j) {
                Option::Some(Result::Ok(k)) => if k.token == SpecToken::RBracket {
                    (Result::Ok(SpecAst::Type(SpecTy::Arr(acc.push(a)))), j + 1)
                } else if k.token == SpecToken::Comma {
                    spec_parse_array_loop(toks, j + 1, acc.push(a))
                } else {
                    (
                        Result::Err(SpecParseError::ArraySeparator { line: k.line }),
                        j,
                    )
                },
                Option::Some(Result::Err(e)) => (Result::Err(SpecParseError::Lexical(e)), j),
                Option::None => (Result::Err(SpecParseError::ArraySeparatorAtEnd), j),
            }
        },
    }
}

/// A `let` statement, its keyword still in the stream: an identifier, an
/// optional `=` initializer (else `Nil`), and a terminating `;`.
pub open spec fn spec_parse_let(toks: Seq<SpecLexItem>, i: int) -> SpecParsed
    decreases rem(toks, i), 4int,
{
    let i1 = if spec_is_next(toks, i, SpecToken::Let) {
        i + 1
    } else {
        i
    };
    if !(0 <= i1 < toks.len()) {
        (Result::Err(SpecParseError::ExpectedIdentifierAtEnd), i1)
    } else {
        match toks[i1] {
            Result::Err(e) => (Result::Err(SpecParseError::Lexical(e)), i1 + 1),
            Result::Ok(k) => match k.token {
                SpecToken::Ident(name) => {
                    let i2 = i1 + 1;
                    match spec_peek(toks, i2) {
                        Option::Some(Result::Ok(k2)) => if k2.token == SpecToken::Assign {
                            let (r, i3) = spec_parse_expression(toks, i2, 0);
                            match r {
                                Result::Err(e) => (Result::Err(e), i3),
                                Result::Ok(v) => spec_parse_let_end(
                                    toks,
                                    at_least(i2 + 1, i3),
                                    name,
                                    v,
                                ),
                            }
                        } else {
                            spec_parse_let_end(toks, i2, name, nil_ast())
                        },
                        Option::Some(Result::Err(e)) => (
                            Result::Err(SpecParseError::Lexical(e)),
                            i2,
                        ),
                        Option::None => spec_parse_let_end(toks, i2, name, nil_ast()),
                    }
                },
                _ => (Result::Err(SpecParseError::ExpectedIdentifier { line: k.line }), i1 + 1),
            },
        }
    }
}

/// The terminating `;` of a `let` statement, and the finished node.
pub open spec fn spec_parse_let_end(
    toks: Seq<SpecLexItem>,
    i: int,
    name: Seq<char>,
    value: SpecAst,
) -> SpecParsed {
    let (e, i2) = spec_expect(toks, i, SpecToken::Semicolon);
    match e {
        Result::Err(err) => (Result::Err(err), i2),
        Result::Ok(_) => (
            Result::Ok(SpecAst::Let { ident: name, value: Box::new(value) }),
            i2,
        ),
    }
}

/// A `return` statement: the keyword, one expression, and `;`.
pub open spec fn spec_parse_return(toks: Seq<SpecLexItem>, i: int) -> SpecParsed
    decreases rem(toks, i), 4int,
{
    let i1 = if 0 <= i < toks.len() {
        i + 1
    } else {
        i
    };
    let (r, i2) = spec_parse_expression(toks, i1, 0);
    match r {
        Result::Err(e) => (Result::Err(e), i2),
        Result::Ok(v) => {
            let (e3, i3) = spec_expect(toks, at_least(i1, i2), SpecToken::Semicolon);
            match e3 {
                Result::Err(e) => (Result::Err(e), i3),
                Result::Ok(_) => (Result::Ok(SpecAst::Return { value: Box::new(v) }), i3),
            }
        },
    }
}

/// A `print` statement: the keyword, one required expression, and `;`.
pub open spec fn spec_parse_print(toks: Seq<SpecLexItem>, i: int) -> SpecParsed
    decreases rem(toks, i), 4int,
{
    let i1 = if 0 <= i < toks.len() {
        i + 1
    } else {
        i
    };
    match spec_peek(toks, i1) {
        Option::Some(Result::Ok(_)) => {
            let (r, i2) = spec_parse_expression(toks, i1, 0);
            match r {
                Result::Err(e) => (Result::Err(e), i2),
                Result::Ok(v) => {
                    let (e3, i3) = spec_expect(toks, at_least(i1 + 1, i2), SpecToken::Semicolon);
                    match e3 {
                        Result::Err(e) => (Result::Err(e), i3),
                        Result::Ok(_) => (Result::Ok(SpecAst::Print(Box::new(v))), i3),
                    }
                },
            }
        },
        _ => (Result::Err(SpecParseError::MissingExpression), i1),
    }
}

/// An `if` statement or expression, its keyword possibly already consumed:
/// a condition, a braced block, and an optional `else` with its block.
pub open spec fn spec_parse_if(toks: Seq<SpecLexItem>, i: int) -> SpecParsed
    decreases rem(toks, i), 4int,
{
    let i1 = if spec_is_next(toks, i, SpecToken::If) {
        i + 1
    } else {
        i
    };
    let (rc, ic) = spec_parse_expression(toks, i1, 0);
    match rc {
        Result::Err(e) => (Result::Err(e), ic),
        Result::Ok(cond) => {
            let (e1, ib) = spec_expect(toks, at_least(i1, ic), SpecToken::LBrace);
            match e1 {
                Result::Err(e) => (Result::Err(e), ib),
                Result::Ok(_) => {
                    let (ry, iy) = spec_parse_block(toks, ib);
                    match ry {
                        Result::Err(e) => (Result::Err(e), iy),
                        Result::Ok(yes) => {
                            let (e2, iz) = spec_expect(
                                toks,
                                at_least(ib, iy),
                                SpecToken::RBrace,
                            );
                            match e2 {
                                Result::Err(e) => (Result::Err(e), iz),
                                Result::Ok(_) => spec_parse_else(toks, iz, cond, yes),
                            }
                        },
                    }
                },
            }
        },
    }
}

/// The optional `else` clause of an `if`.
pub open spec fn spec_parse_else(
    toks: Seq<SpecLexItem>,
    i: int,
    cond: SpecAst,
    yes: Seq<SpecAst>,
) -> SpecParsed
    decreases rem(toks, i), 3int,
{
    match spec_peek(toks, i) {
        Option::Some(Result::Ok(k)) => if k.token == SpecToken::Else {
            let (e1, ib) = spec_expect(toks, i + 1, SpecToken::LBrace);
            match e1 {
                Result::Err(e) => (Result::Err(e), ib),
                Result::Ok(_) => {
                    let (rn, inn) = spec_parse_block(toks, ib);
                    match rn {
                        Result::Err(e) => (Result::Err(e), inn),
                        Result::Ok(no) => {
                            let (e2, iz) = spec_expect(
                                toks,
                                at_least(ib, inn),
                                SpecToken::RBrace,
                            );
                            match e2 {
                                Result::Err(e) => (Result::Err(e), iz),
                                Result::Ok(_) => (
                                    Result::Ok(
                                        SpecAst::If {
                                            condition: Box::new(cond),
                                            yes,
                                            no: Option::Some(no),
                                        },
                                    ),
                                    iz,
                                ),
                            }
                        },
                    }
                },
            }
        } else {
            (
                Result::Ok(
                    SpecAst::If { condition: Box::new(cond), yes, no: Option::None },
                ),
                i,
            )
        },
        _ => (
            Result::Ok(SpecAst::If { condition: Box::new(cond), yes, no: Option::None }),
            i,
        ),
    }
}

/// A function declaration or literal, its keyword possibly already
/// consumed: an optional name, a parenthesized parameter list, and a braced
/// body.
pub open spec fn spec_parse_fun(toks: Seq<SpecLexItem>, i: int) -> SpecParsed
    decreases rem(toks, i), 4int,
{
    let i1 = if spec_is_next(toks, i, SpecToken::Fn) {
        i + 1
    } else {
        i
    };
    let name_i2 = match spec_peek(toks, i1) {
        Option::Some(Result::Ok(k)) => match k.token {
            SpecToken::Ident(nm) => (Option::Some(nm), i1 + 1),
            _ => (Option::None, i1),
        },
        _ => (Option::None, i1),
    };
    let name = name_i2.0;
    let i2 = name_i2.1;
    let (e1, i3) = spec_expect(toks, i2, SpecToken::LParen);
    match e1 {
        Result::Err(e) => (Result::Err(e), i3),
        Result::Ok(_) => {
            let (rp, i4) = spec_parse_params(toks, i3);
            match rp {
                Result::Err(e) => (Result::Err(e), i4),
                Result::Ok(params) => {
                    let (e2, i5) = spec_expect(toks, at_least(i3, i4), SpecToken::RParen);
                    match e2 {
                        Result::Err(e) => (Result::Err(e), i5),
                        Result::Ok(_) => {
                            let (e3, i6) = spec_expect(toks, i5, SpecToken::LBrace);
                            match e3 {
                                Result::Err(e) => (Result::Err(e), i6),
                                Result::Ok(_) => {
                                    let (rb, i7) = spec_parse_block(toks, i6);
                                    match rb {
                                        Result::Err(e) => (Result::Err(e), i7),
                                        Result::Ok(body) => {
                                            let (e4, i8) = spec_expect(
                                                toks,
                                                at_least(i6, i7),
                                                SpecToken::RBrace,
                                            );
                                            match e4 {
                                                Result::Err(e) => (Result::Err(e), i8),
                                                Result::Ok(_) => (
                                                    Result::Ok(
                                                        SpecAst::Fn { name, params, body },
                                                    ),
                                                    i8,
                                                ),
                                            }
                                        },
                                    }
                                },
                            }
                        },
                    }
                },
            }
        },
    }
}

/// A parameter list: bare identifiers separated by commas, possibly empty.
pub open spec fn spec_parse_params(toks: Seq<SpecLexItem>, i: int) -> (Result<
    Seq<Seq<char>>,
    SpecParseError,
>, int)
    decreases rem(toks, i), 1int,
{
    if spec_is_next(toks, i, SpecToken::RParen) {
        spec_parse_params_rest(toks, i, Seq::empty())
    } else {
        if !(0 <= i < toks.len()) {
            (Result::Err(SpecParseError::ExpectedIdentifierAtEnd), i)
        } else {
            match toks[i] {
                Result::Err(e) => (Result::Err(SpecParseError::Lexical(e)), i + 1),
                Result::Ok(k) => match k.token {
                    SpecToken::Ident(name) => spec_parse_params_rest(toks, i + 1, seq![name]),
                    _ => (
                        Result::Err(SpecParseError::ExpectedIdentifier { line: k.line }),
                        i + 1,
                    ),
                },
            }
        }
    }
}

/// Further parameters: one more identifier for each comma.
pub open spec fn spec_parse_params_rest(
    toks: Seq<SpecLexItem>,
    i: int,
    acc: Seq<Seq<char>>,
) -> (Result<Seq<Seq<char>>, SpecParseError>, int)
    decreases rem(toks, i), 0int,
{
    if spec_is_next(toks, i, SpecToken::Comma) {
        if !(0 <= i + 1 < toks.len()) {
            (Result::Err(SpecParseError::ExpectedIdentifierAtEnd), i + 1)
        } else {
            match toks[i + 1] {
                Result::Err(e) => (Result::Err(SpecParseError::Lexical(e)), i + 2),
                Result::Ok(k) => match k.token {
                    SpecToken::Ident(name) => spec_parse_params_rest(toks, i + 2, acc.push(name)),
                    _ => (
                        Result::Err(SpecParseError::ExpectedIdentifier { line: k.line }),
                        i + 2,
                    ),
                },
            }
        }
    } else {
        (Result::Ok(acc), i)
    }
}

/// An expression statement: one expression, and an optional terminating `;`.
pub open spec fn spec_parse_expression_statements(toks: Seq<SpecLexItem>, i: int) -> SpecParsed
    decreases rem(toks, i), 4int,
{
    let (r, i2) = spec_parse_expression(toks, i, 0);
    match r {
        Result::Err(e) => (Result::Err(e), i2),
        Result::Ok(a) => if spec_is_next(toks, i2, SpecToken::Semicolon) {
            (Result::Ok(a), i2 + 1)
        } else {
            (Result::Ok(a), i2)
        },
    }
}

/// True when `t` may start an expression statement.
pub open spec fn starts_expression(t: SpecToken) -> bool {
    match t {
        SpecToken::LParen | SpecToken::LBracket | SpecToken::Number(_) | SpecToken::Str(_)
            | SpecToken::Ident(_) | SpecToken::Bang | SpecToken::Minus | SpecToken::True
            | SpecToken::Len | SpecToken::First | SpecToken::Last | SpecToken::Rest
            | SpecToken::Push | SpecToken::False => true,
        _ => false,
    }
}

/// The statement loop shared by top-level parsing and block parsing: each
/// step parses one statement (or records one error and steps past the
/// offending item) and parsing continues; `EOF`, the end of the stream, or
/// a token that starts no statement ends the loop.
pub open spec fn spec_parse_statements(toks: Seq<SpecLexItem>, i: int, acc: Seq<Result<
    SpecAst,
    SpecParseError,
>>) -> (Seq<Result<SpecAst, SpecParseError>>, int)
    decreases rem(toks, i), 6int,
{
    match spec_peek(toks, i) {
        Option::None => (acc, i),
        Option::Some(Result::Err(e)) => spec_parse_statements(
            toks,
            i + 1,
            acc.push(Result::Err(SpecParseError::Lexical(e))),
        ),
        Option::Some(Result::Ok(k)) => {
            if k.token == SpecToken::EOF {
                (acc, i)
            } else if k.token == SpecToken::Fn {
                let (r, i2) = spec_parse_fun(toks, i);
                spec_parse_statements(toks, at_least(i + 1, i2), acc.push(r))
            } else if k.token == SpecToken::Return {
                let (r, i2) = spec_parse_return(toks, i);
                spec_parse_statements(toks, at_least(i + 1, i2), acc.push(r))
            } else if k.token == SpecToken::If {
                let (r, i2) = spec_parse_if(toks, i);
                spec_parse_statements(toks, at_least(i + 1, i2), acc.push(r))
            } else if k.token == SpecToken::Print {
                let (r, i2) = spec_parse_print(toks, i);
                spec_parse_statements(toks, at_least(i + 1, i2), acc.push(r))
            } else if k.token == SpecToken::Let {
                let (r, i2) = spec_parse_let(toks, i);
                spec_parse_statements(toks, at_least(i + 1, i2), acc.push(r))
            } else if starts_expression(k.token) {
                let (r, i2) = spec_parse_expression_statements(toks, i);
                spec_parse_statements(toks, at_least(i + 1, i2), acc.push(r))
            } else {
                (acc, i)
            }
        },
    }
}

/// Turns a statement list into a block: the statements up to the first
/// error, or that error.
pub open spec fn spec_collect_block(rs: Seq<Result<SpecAst, SpecParseError>>) -> Result<
    Seq<SpecAst>,
    SpecParseError,
>
    decreases rs.len(),
{
    if rs.len() == 0 {
        Result::Ok(Seq::empty())
    } else {
        match rs[0] {
            Result::Err(e) => Result::Err(e),
            Result::Ok(a) => match spec_collect_block(rs.drop_first()) {
                Result::Err(e) => Result::Err(e),
                Result::Ok(rest) => Result::Ok(seq![a] + rest),
            },
        }
    }
}

/// A brace-delimited block body: the statement loop, stopped by `}`, with
/// the first statement-level error failing the whole block.
pub open spec fn spec_parse_block(toks: Seq<SpecLexItem>, i: int) -> (Result<
    Seq<SpecAst>,
    SpecParseError,
>, int)
    decreases rem(toks, i), 7int,
{
    let (rs, i2) = spec_parse_statements(toks, i, Seq::empty());
    (spec_collect_block(rs), i2)
}

/// The mathematical value of one parse result.
pub open spec fn res_view(r: Result<AST, ParseError>) -> Result<SpecAst, SpecParseError> {
    match r {
        Result::Ok(a) => Result::Ok(a@),
        Result::Err(e) => Result::Err(e@),
    }
}

/// The mathematical value of a sequence of parse results.
pub open spec fn results_view(v: Seq<Result<AST, ParseError>>) -> Seq<Result<
    SpecAst,
    SpecParseError,
>> {
    v.map_values(|r: Result<AST, ParseError>| res_view(r))
}

/// A one-element vector.
fn vec1<T>(a: T) -> (v: Vec<T>)
    ensures
        v@ =~= seq![a],
{
    let mut v = Vec::new();
    v.push(a);
    v
}

/// A two-element vector.
fn vec2<T>(a: T, b: T) -> (v: Vec<T>)
    ensures
        v@ =~= seq![a, b],
{
    let mut v = Vec::new();
    v.push(a);
    v.push(b);
    v
}

/// The parser: a token stream and a cursor into it.
pub struct Parser {
    tokens: Vec<LexItem>,
    pos: usize,
}

impl Parser {
    /// The token stream being parsed.
    pub closed spec fn toks(&self) -> Seq<SpecLexItem> {
        lex_items_view(self.tokens@)
    }

    /// The cursor: how many items have been consumed.
    pub closed spec fn at(&self) -> int {
        self.pos as int
    }

    /// Builds a parser over the token stream of `input`.
    pub fn new(input: String) -> (r: Self)
        ensures
            r.toks() == spec_lex(input@),
            r.at() == 0,
    {
        Parser { tokens: lex(input.as_str()), pos: 0 }
    }

    /// Steps over one item, if any is left.
    fn advance(&mut self)
        ensures
            final(self).toks() == old(self).toks(),
            final(self).at() == if 0 <= old(self).at() < old(self).toks().len() {
                old(self).at() + 1
            } else {
                old(self).at()
            },
    {
        if self.pos < self.tokens.len() {
            self.pos = self.pos + 1;
        }
    }

    /// True when the item under the cursor is the token `expected`.
    pub fn is_next_token(&self, expected: Token) -> (r: bool)
        ensures
            r == spec_is_next(self.toks(), self.at(), expected@),
    {
        if self.pos < self.tokens.len() {
            match &self.tokens[self.pos] {
                Result::Ok(k) => k.token.same(&expected),
                Result::Err(_) => false,
            }
        } else {
            false
        }
    }

    /// The lexical error under the cursor, if the next item is one.
    fn peek_err(&self) -> (r: Option<LexError>)
        ensures
            match spec_peek(self.toks(), self.at()) {
                Option::Some(Result::Err(e)) => r == Option::Some(e),
                _ => r is None,
            },
    {
        if self.pos < self.tokens.len() {
            match &self.tokens[self.pos] {
                Result::Ok(_) => Option::None,
                Result::Err(e) => Option::Some(*e),
            }
        } else {
            Option::None
        }
    }

    /// Requires the token `tok` under the cursor and steps over it;
    /// otherwise reports what was expected, and where.
    pub fn expect_peek(&mut self, tok: Token) -> (r: Result<(), ParseError>)
        ensures
            final(self).toks() == old(self).toks(),
            old(self).at() <= final(self).at(),
            ({
                let (sr, p) = spec_expect(old(self).toks(), old(self).at(), tok@);
                final(self).at() == p && match r {
                    Result::Ok(_) => sr is Ok,
                    Result::Err(e) => sr == Result::Err::<(), SpecParseError>(e@),
                }
            }),
    {
        if self.pos < self.tokens.len() {
            match &self.tokens[self.pos] {
                Result::Ok(k) => {
                    if k.token.same(&tok) {
                        self.pos = self.pos + 1;
                        Result::Ok(())
                    } else {
                        let line = k.line;
                        Result::Err(ParseError::UnexpectedToken { expected: tok, line })
                    }
                },
                Result::Err(e) => Result::Err(ParseError::Lexical(*e)),
            }
        } else {
            Result::Err(ParseError::UnexpectedEnd { expected: tok })
        }
    }

    /// Takes the item under the cursor, as the token source's `next` would:
    /// a copy of the item, the cursor stepped over it.
    fn next_kind(&mut self) -> (r: Option<LexItem>)
        ensures
            final(self).toks() == old(self).toks(),
            old(self).at() <= final(self).at(),
            match spec_peek(old(self).toks(), old(self).at()) {
                Option::None => r is None && final(self).at() == old(self).at(),
                Option::Some(it) => match r {
                    Option::Some(got) => lex_item_view(got) == it && final(self).at() == old(
                        self,
                    ).at() + 1,
                    Option::None => false,
                },
            },
    {
        if self.pos < self.tokens.len() {
            let owned: LexItem = match &self.tokens[self.pos] {
                Result::Ok(k) => Result::Ok(TokenKind { token: k.token.duplicate(), line: k.line }),
                Result::Err(e) => Result::Err(*e),
            };
            self.pos = self.pos + 1;
            Option::Some(owned)
        } else {
            Option::None
        }
    }

    /// Takes an identifier under the cursor, if one is there.
    fn take_ident_if_next(&mut self) -> (r: Option<String>)
        ensures
            final(self).toks() == old(self).toks(),
            old(self).at() <= final(self).at(),
            match spec_peek(old(self).toks(), old(self).at()) {
                Option::Some(Result::Ok(k)) => match k.token {
                    SpecToken::Ident(nm) => match r {
                        Option::Some(s) => s@ == nm && final(self).at() == old(self).at() + 1,
                        Option::None => false,
                    },
                    _ => r is None && final(self).at() == old(self).at(),
                },
                _ => r is None && final(self).at() == old(self).at(),
            },
    {
        if self.pos < self.tokens.len() {
            let name = match &self.tokens[self.pos] {
                Result::Ok(k) => match &k.token {
                    Token::Ident(s) => Option::Some(s.clone()),
                    _ => Option::None,
                },
                _ => Option::None,
            };
            if name.is_some() {
                self.pos = self.pos + 1;
            }
            name
        } else {
            Option::None
        }
    }

    /// The operator announced by the token under the cursor, if any.
    fn next_op(&self) -> (r: Option<Op>)
        ensures
            match spec_peek(self.toks(), self.at()) {
                Option::Some(Result::Ok(k)) => r == op_of_token(k.token),
                _ => r is None,
            },
    {
        if self.pos < self.tokens.len() {
            match &self.tokens[self.pos] {
                Result::Ok(k) => match &k.token {
                    Token::Plus => Option::Some(Op::Plus),
                    Token::Minus => Option::Some(Op::Minus),
                    Token::Star => Option::Some(Op::Star),
                    Token::Slash => Option::Some(Op::Slash),
                    Token::LParen => Option::Some(Op::Fn),
                    Token::AssignEqual => Option::Some(Op::AssignEqual),
                    Token::Bang => Option::Some(Op::Bang),
                    Token::BangEqual => Option::Some(Op::BangEqual),
                    Token::Less => Option::Some(Op::Less),
                    Token::LessEqual => Option::Some(Op::LessEqual),
                    Token::Greater => Option::Some(Op::Greater),
                    Token::GreaterEqual => Option::Some(Op::GreaterEqual),
                    Token::And => Option::Some(Op::And),
                    Token::Or => Option::Some(Op::Or),
                    Token::LBracket => Option::Some(Op::Index),
                    _ => Option::None,
                },
                Result::Err(_) => Option::None,
            }
        } else {
            Option::None
        }
    }

    /// The left binding power of postfix and call-like operators.
    pub fn postfix_binding_power(&self, op: Op) -> (r: Option<(u8, ())>)
        ensures
            match spec_postfix_bp(op) {
                Option::Some(l) => r == Option::Some((l, ())),
                Option::None => r is None,
            },
    {
        match op {
            Op::Fn | Op::Index | Op::Len => Option::Some((13, ())),
            Op::ReAssign => Option::Some((12, ())),
            _ => Option::None,
        }
    }

    /// The right binding power of the unary prefix operators.  Other
    /// operators have none: they are excluded by precondition.
    pub fn prefix_binding_power(&self, op: Op) -> (r: ((), u8))
        requires
            op == Op::Plus || op == Op::Minus || op == Op::Bang,
        ensures
            r.1 == spec_prefix_bp(op),
    {
        ((), 11)
    }

    /// The binding powers of the infix operators.
    pub fn infix_binding_power(&self, op: Op) -> (r: Option<(u8, u8)>)
        ensures
            r == spec_infix_bp(op),
    {
        match op {
            Op::And | Op::Or => Option::Some((3, 4)),
            Op::BangEqual | Op::AssignEqual | Op::Less | Op::LessEqual | Op::Greater
                | Op::GreaterEqual => Option::Some((5, 6)),
            Op::Plus | Op::Minus => Option::Some((7, 8)),
            Op::Star | Op::Slash => Option::Some((9, 10)),
            _ => Option::None,
        }
    }

    /// The source line of the token under the cursor, if one is there.
    fn peek_line(&self) -> (r: Option<usize>)
        ensures
            match spec_peek(self.toks(), self.at()) {
                Option::Some(Result::Ok(k)) => r == Option::Some(k.line),
                _ => r is None,
            },
    {
        if self.pos < self.tokens.len() {
            match &self.tokens[self.pos] {
                Result::Ok(k) => Option::Some(k.line),
                Result::Err(_) => Option::None,
            }
        } else {
            Option::None
        }
    }

    /// True when a token (not a lexical error) is under the cursor.
    fn peek_ok(&self) -> (r: bool)
        ensures
            r == (spec_peek(self.toks(), self.at()) matches Option::Some(Result::Ok(_))),
    {
        if self.pos < self.tokens.len() {
            match &self.tokens[self.pos] {
                Result::Ok(_) => true,
                Result::Err(_) => false,
            }
        } else {
            false
        }
    }

    /// Parses the whole input: one result for each top-level statement, in
    /// source order, errors included.
    pub fn parse(&mut self) -> (r: Vec<Result<AST, ParseError>>)
        ensures
            final(self).toks() == old(self).toks(),
            old(self).at() <= final(self).at(),
            ({
                let (srs, p) = spec_parse_statements(
                    old(self).toks(),
                    old(self).at(),
                    Seq::empty(),
                );
                final(self).at() == p && results_view(r@) == srs
            }),
    {
        self.parse_statement()
    }

    /// The statement loop: parses statements until `EOF`, the end of the
    /// stream, or a token that starts no statement.
    fn parse_statement(&mut self) -> (r: Vec<Result<AST, ParseError>>)
        ensures
            final(self).toks() == old(self).toks(),
            old(self).at() <= final(self).at(),
            ({
                let (srs, p) = spec_parse_statements(
                    old(self).toks(),
                    old(self).at(),
                    Seq::empty(),
                );
                final(self).at() == p && results_view(r@) == srs
            }),
        decreases rem(self.toks(), self.at()), 7int,
    {
        let mut statements: Vec<Result<AST, ParseError>> = Vec::new();
        proof {
            assert(results_view(statements@) =~= Seq::<Result<SpecAst, SpecParseError>>::empty());
        }
        self.parse_statements_into(&mut statements);
        statements
    }

    /// One step of the statement loop, then the rest, accumulated in `acc`.
    #[verifier::rlimit(100)]
    #[verifier::spinoff_prover]
    fn parse_statements_into(&mut self, acc: &mut Vec<Result<AST, ParseError>>)
        ensures
            final(self).toks() == old(self).toks(),
            old(self).at() <= final(self).at(),
            ({
                let (srs, p) = spec_parse_statements(
                    old(self).toks(),
                    old(self).at(),
                    results_view(old(acc)@),
                );
                final(self).at() == p && results_view(final(acc)@) == srs
            }),
        decreases rem(self.toks(), self.at()), 6int,
    {
        let ghost toks = self.toks();
        let ghost i0 = self.at();
        let ghost acc0 = results_view(acc@);
        if let Option::Some(e) = self.peek_err() {
            acc.push(Result::Err(ParseError::Lexical(e)));
            self.advance();
            proof {
                assert(results_view(acc@) =~= acc0.push(
                    Result::Err(SpecParseError::Lexical(e)),
                ));
            }
            self.parse_statements_into(acc);
            return ;
        }
        let d = self.stmt_dispatch();
        if d == Dispatch::Stop {
            return ;
        }
        let r = if d == Dispatch::FnKw {
            self.parse_fun()
        } else if d == Dispatch::ReturnKw {
            self.parse_return()
        } else if d == Dispatch::IfKw {
            self.parse_if()
        } else if d == Dispatch::PrintKw {
            self.parse_print()
        } else if d == Dispatch::LetKw {
            self.parse_let()
        } else {
            self.parse_expression_statements()
        };
        proof {
            assert(results_view(acc@.push(r)) =~= acc0.push(res_view(r)));
        }
        acc.push(r);
        self.parse_statements_into(acc);
    }

    /// Which statement form, if any, the token under the cursor starts.
    fn stmt_dispatch(&self) -> (r: Dispatch)
        ensures
            match spec_peek(self.toks(), self.at()) {
                Option::Some(Result::Ok(k)) => r == spec_dispatch(k.token),
                _ => r == Dispatch::Stop,
            },
    {
        if self.pos < self.tokens.len() {
            match &self.tokens[self.pos] {
                Result::Ok(k) => match &k.token {
                    Token::Fn => Dispatch::FnKw,
                    Token::Return => Dispatch::ReturnKw,
                    Token::If => Dispatch::IfKw,
                    Token::Print => Dispatch::PrintKw,
                    Token::Let => Dispatch::LetKw,
                    Token::LParen | Token::LBracket | Token::Number(_) | Token::Str(_)
                        | Token::Ident(_) | Token::Bang | Token::Minus | Token::True
                        | Token::Len | Token::First | Token::Last | Token::Rest | Token::Push
                        | Token::False => Dispatch::ExprStart,
                    _ => Dispatch::Stop,
                },
                Result::Err(_) => Dispatch::Stop,
            }
        } else {
            Dispatch::Stop
        }
    }

    /// One expression, by precedence climbing; see `spec_parse_expression`.
    #[verifier::rlimit(100)]
    #[verifier::spinoff_prover]
    fn parse_expression(&mut self, prev_binding: u8) -> (r: Result<AST, ParseError>)
        ensures
            final(self).toks() == old(self).toks(),
            old(self).at() <= final(self).at(),
            0 <= old(self).at() < old(self).toks().len() ==> old(self).at() < final(self).at(),
            ({
                let (sr, p) = spec_parse_expression(
                    old(self).toks(),
                    old(self).at(),
                    prev_binding,
                );
                final(self).at() == p && res_view(r) == sr
            }),
        decreases rem(self.toks(), self.at()), 1int,
    {
        let l_side = match self.next_kind() {
            Option::Some(it) => it,
            Option::None => {
                proof {
                    crate::ast::lemma_view_type_node(Type::Nil);
                }
                return Result::Ok(AST::Type(Type::Nil));
            },
        };
        let l_side = match l_side {
            Result::Ok(k) => k,
            Result::Err(e) => {
                return Result::Err(ParseError::Lexical(e));
            },
        };
        let to_return = match l_side.token {
            Token::Str(val) => {
                proof {
                    crate::ast::lemma_view_type_node(Type::String(val));
                }
                AST::Type(Type::String(val))
            },
            Token::Number(num) => {
                proof {
                    crate::ast::lemma_view_type_node(Type::Number(num));
                }
                AST::Type(Type::Number(num))
            },
            Token::True => {
                proof {
                    crate::ast::lemma_view_type_node(Type::Bool(true));
                }
                AST::Type(Type::Bool(true))
            },
            Token::False => {
                proof {
                    crate::ast::lemma_view_type_node(Type::Bool(false));
                }
                AST::Type(Type::Bool(false))
            },
            Token::Ident(ident) => {
                if self.is_next_token(Token::Assign) {
                    // A bare identifier followed by `=` is a reassignment:
                    // a node of its own, short-circuiting the operator loop.
                    let value = match self.parse_expression(0) {
                        Result::Ok(v) => v,
                        Result::Err(e) => {
                            return Result::Err(e);
                        },
                    };
                    return Result::Ok(AST::Reassign { ident, value: Box::new(value) });
                }
                proof {
                    crate::ast::lemma_view_type_node(Type::Ident(ident));
                }
                AST::Type(Type::Ident(ident))
            },
            Token::Fn => match self.parse_fun() {
                Result::Ok(a) => a,
                Result::Err(e) => {
                    return Result::Err(e);
                },
            },
            Token::If => match self.parse_if() {
                Result::Ok(a) => a,
                Result::Err(e) => {
                    return Result::Err(e);
                },
            },
            Token::LBracket => match self.parse_array() {
                Result::Ok(a) => a,
                Result::Err(e) => {
                    return Result::Err(e);
                },
            },
            Token::Assign => {
                let r_side = match self.parse_expression(0) {
                    Result::Ok(a) => a,
                    Result::Err(e) => {
                        return Result::Err(e);
                    },
                };
                proof {
                    crate::ast::lemma_asts_view_one(r_side);
                }
                AST::Expr(Op::Assing, vec1(r_side))
            },
            Token::LParen => {
                let r_side = match self.parse_expression(0) {
                    Result::Ok(a) => a,
                    Result::Err(e) => {
                        return Result::Err(e);
                    },
                };
                match self.expect_peek(Token::RParen) {
                    Result::Ok(_) => {},
                    Result::Err(e) => {
                        return Result::Err(e);
                    },
                }
                proof {
                    crate::ast::lemma_asts_view_one(r_side);
                }
                AST::Expr(Op::Grouped, vec1(r_side))
            },
            Token::Len => {
                return self.parse_builtin_one(prev_binding, Op::Len);
            },
            Token::First => {
                return self.parse_builtin_one(prev_binding, Op::First);
            },
            Token::Last => {
                return self.parse_builtin_one(prev_binding, Op::Last);
            },
            Token::Rest => {
                return self.parse_builtin_one(prev_binding, Op::Rest);
            },
            Token::Push => {
                return self.parse_push(prev_binding);
            },
            Token::Bang => {
                let bp = self.prefix_binding_power(Op::Bang);
                let r_side = match self.parse_expression(bp.1) {
                    Result::Ok(a) => a,
                    Result::Err(e) => {
                        return Result::Err(e);
                    },
                };
                proof {
                    crate::ast::lemma_asts_view_one(r_side);
                }
                AST::Expr(Op::Bang, vec1(r_side))
            },
            Token::Minus => {
                let bp = self.prefix_binding_power(Op::Minus);
                let r_side = match self.parse_expression(bp.1) {
                    Result::Ok(a) => a,
                    Result::Err(e) => {
                        return Result::Err(e);
                    },
                };
                proof {
                    crate::ast::lemma_asts_view_one(r_side);
                }
                AST::Expr(Op::Minus, vec1(r_side))
            },
            _ => {
                return Result::Err(ParseError::ExpectedExpression { line: l_side.line });
            },
        };
        self.parse_led(prev_binding, to_return)
    }

    /// The tail of a built-in call form `op ( expression )`.
    #[verifier::rlimit(100)]
    #[verifier::spinoff_prover]
    fn parse_builtin_one(&mut self, prev_binding: u8, op: Op) -> (r: Result<AST, ParseError>)
        ensures
            final(self).toks() == old(self).toks(),
            old(self).at() <= final(self).at(),
            ({
                let (sr, p) = spec_parse_builtin_one(
                    old(self).toks(),
                    old(self).at(),
                    prev_binding,
                    op,
                );
                final(self).at() == p && res_view(r) == sr
            }),
        decreases rem(self.toks(), self.at()), 3int,
    {
        match self.expect_peek(Token::LParen) {
            Result::Ok(_) => {},
            Result::Err(e) => {
                return Result::Err(e);
            },
        }
        let right = match self.parse_expression(0) {
            Result::Ok(a) => a,
            Result::Err(e) => {
                return Result::Err(e);
            },
        };
        match self.expect_peek(Token::RParen) {
            Result::Ok(_) => {},
            Result::Err(e) => {
                return Result::Err(e);
            },
        }
        proof {
            crate::ast::lemma_asts_view_one(right);
        }
        self.parse_led(prev_binding, AST::Expr(op, vec1(right)))
    }

    /// The tail of the built-in call form `push ( expression , expression )`.
    #[verifier::rlimit(100)]
    #[verifier::spinoff_prover]
    fn parse_push(&mut self, prev_binding: u8) -> (r: Result<AST, ParseError>)
        ensures
            final(self).toks() == old(self).toks(),
            old(self).at() <= final(self).at(),
            ({
                let (sr, p) = spec_parse_push(old(self).toks(), old(self).at(), prev_binding);
                final(self).at() == p && res_view(r) == sr
            }),
        decreases rem(self.toks(), self.at()), 3int,
    {
        match self.expect_peek(Token::LParen) {
            Result::Ok(_) => {},
            Result::Err(e) => {
                return Result::Err(e);
            },
        }
        let left = match self.parse_expression(0) {
            Result::Ok(a) => a,
            Result::Err(e) => {
                return Result::Err(e);
            },
        };
        match self.expect_peek(Token::Comma) {
            Result::Ok(_) => {},
            Result::Err(e) => {
                return Result::Err(e);
            },
        }
        let right = match self.parse_expression(0) {
            Result::Ok(a) => a,
            Result::Err(e) => {
                return Result::Err(e);
            },
        };
        match self.expect_peek(Token::RParen) {
            Result::Ok(_) => {},
            Result::Err(e) => {
                return Result::Err(e);
            },
        }
        proof {
            crate::ast::lemma_asts_view_two(left, right);
        }
        self.parse_led(prev_binding, AST::Expr(Op::Push, vec2(left, right)))
    }

    /// The operator loop of precedence climbing; see `spec_parse_led`.
    #[verifier::rlimit(100)]
    #[verifier::spinoff_prover]
    fn parse_led(&mut self, prev_binding: u8, to_return: AST) -> (r: Result<AST, ParseError>)
        ensures
            final(self).toks() == old(self).toks(),
            old(self).at() <= final(self).at(),
            ({
                let (sr, p) = spec_parse_led(
                    old(self).toks(),
                    old(self).at(),
                    prev_binding,
                    to_return@,
                );
                final(self).at() == p && res_view(r) == sr
            }),
        decreases rem(self.toks(), self.at()), 2int,
    {
        let op = match self.next_op() {
            Option::Some(op) => op,
            Option::None => {
                return Result::Ok(to_return);
            },
        };
        if let Option::Some((l_binding, _)) = self.postfix_binding_power(op) {
            if l_binding < prev_binding {
                return Result::Ok(to_return);
            }
            match op {
                Op::Fn => {
                    match self.expect_peek(Token::LParen) {
                        Result::Ok(_) => {},
                        Result::Err(e) => {
                            return Result::Err(e);
                        },
                    }
                    let args = match self.parse_args() {
                        Result::Ok(a) => a,
                        Result::Err(e) => {
                            return Result::Err(e);
                        },
                    };
                    match self.expect_peek(Token::RParen) {
                        Result::Ok(_) => {},
                        Result::Err(e) => {
                            return Result::Err(e);
                        },
                    }
                    let call = AST::Call { calle: Box::new(to_return), args };
                    proof {
                        crate::ast::lemma_asts_view_one(call);
                    }
                    self.parse_led(prev_binding, AST::Expr(Op::Fn, vec1(call)))
                },
                Op::Index => {
                    match self.expect_peek(Token::LBracket) {
                        Result::Ok(_) => {},
                        Result::Err(e) => {
                            return Result::Err(e);
                        },
                    }
                    let r_side = match self.parse_expression(0) {
                        Result::Ok(a) => a,
                        Result::Err(e) => {
                            return Result::Err(e);
                        },
                    };
                    match self.expect_peek(Token::RBracket) {
                        Result::Ok(_) => {},
                        Result::Err(e) => {
                            return Result::Err(e);
                        },
                    }
                    proof {
                        crate::ast::lemma_asts_view_two(to_return, r_side);
                    }
                    self.parse_led(prev_binding, AST::Expr(Op::Index, vec2(to_return, r_side)))
                },
                _ => {
                    // No other operator both carries a postfix binding power
                    // and is announced by a token.
                    Result::Ok(to_return)
                },
            }
        } else if let Option::Some((l_binding, r_binding)) = self.infix_binding_power(op) {
            if l_binding < prev_binding {
                return Result::Ok(to_return);
            }
            self.advance();
            let r_side = match self.parse_expression(r_binding) {
                Result::Ok(a) => a,
                Result::Err(e) => {
                    return Result::Err(e);
                },
            };
            proof {
                crate::ast::lemma_asts_view_two(to_return, r_side);
            }
            self.parse_led(prev_binding, AST::Expr(op, vec2(to_return, r_side)))
        } else {
            Result::Ok(to_return)
        }
    }

    /// A call's argument list; see `spec_parse_args`.
    #[verifier::loop_isolation(false)]
    #[verifier::rlimit(100)]
    #[verifier::spinoff_prover]
    fn parse_args(&mut self) -> (r: Result<Vec<AST>, ParseError>)
        ensures
            final(self).toks() == old(self).toks(),
            old(self).at() <= final(self).at(),
            ({
                let (sr, p) = spec_parse_args(old(self).toks(), old(self).at());
                final(self).at() == p && match r {
                    Result::Ok(v) => sr == Result::Ok::<Seq<SpecAst>, SpecParseError>(
                        crate::ast::asts_view(v@),
                    ),
                    Result::Err(e) => sr == Result::Err::<Seq<SpecAst>, SpecParseError>(e@),
                }
            }),
        decreases rem(self.toks(), self.at()), 4int,
    {
        let ghost toks = self.toks();
        let ghost i0 = self.at();
        let mut params: Vec<AST> = Vec::new();
        proof {
            assert(crate::ast::asts_view(params@) =~= Seq::<SpecAst>::empty());
        }
        if !self.is_next_token(Token::RParen) {
            let a = match self.parse_expression(0) {
                Result::Ok(a) => a,
                Result::Err(e) => {
                    return Result::Err(e);
                },
            };
            proof {
                crate::ast::lemma_asts_view_push(params@, a);
            }
            params.push(a);
        }
        while self.is_next_token(Token::Comma)
            invariant
                self.toks() == toks,
                i0 <= self.at(),
                spec_parse_args(toks, i0) == spec_parse_args_rest(
                    toks,
                    self.at(),
                    crate::ast::asts_view(params@),
                ),
            decreases rem(self.toks(), self.at()),
        {
            self.advance();
            let a = match self.parse_expression(0) {
                Result::Ok(a) => a,
                Result::Err(e) => {
                    return Result::Err(e);
                },
            };
            proof {
                crate::ast::lemma_asts_view_push(params@, a);
            }
            params.push(a);
        }
        Result::Ok(params)
    }

    /// An array literal's elements; see `spec_parse_array`.
    #[verifier::loop_isolation(false)]
    #[verifier::rlimit(100)]
    #[verifier::spinoff_prover]
    fn parse_array(&mut self) -> (r: Result<AST, ParseError>)
        ensures
            final(self).toks() == old(self).toks(),
            old(self).at() <= final(self).at(),
            ({
                let (sr, p) = spec_parse_array(old(self).toks(), old(self).at());
                final(self).at() == p && res_view(r) == sr
            }),
        decreases rem(self.toks(), self.at()), 4int,
    {
        let ghost toks = self.toks();
        let ghost i0 = self.at();
        if self.is_next_token(Token::RBracket) {
            self.advance();
            let empty: Vec<AST> = Vec::new();
            proof {
                assert(crate::ast::asts_view(empty@) =~= Seq::<SpecAst>::empty());
                crate::ast::lemma_view_type_node(Type::Arr(empty));
            }
            return Result::Ok(AST::Type(Type::Arr(empty)));
        }
        let mut vector: Vec<AST> = Vec::new();
        proof {
            assert(crate::ast::asts_view(vector@) =~= Seq::<SpecAst>::empty());
        }
        loop
            invariant
                self.toks() == toks,
                i0 <= self.at(),
                spec_parse_array(toks, i0) == spec_parse_array_loop(
                    toks,
                    self.at(),
                    crate::ast::asts_view(vector@),
                ),
            decreases rem(self.toks(), self.at()),
        {
            let a = match self.parse_expression(0) {
                Result::Ok(a) => a,
                Result::Err(e) => {
                    return Result::Err(e);
                },
            };
            proof {
                crate::ast::lemma_asts_view_push(vector@, a);
            }
            vector.push(a);
            if self.is_next_token(Token::RBracket) {
                self.advance();
                proof {
                    crate::ast::lemma_view_type_node(Type::Arr(vector));
                }
                return Result::Ok(AST::Type(Type::Arr(vector)));
            } else if self.is_next_token(Token::Comma) {
                self.advance();
            } else if let Option::Some(e) = self.peek_err() {
                return Result::Err(ParseError::Lexical(e));
            } else if let Option::Some(line) = self.peek_line() {
                return Result::Err(ParseError::ArraySeparator { line });
            } else {
                return Result::Err(ParseError::ArraySeparatorAtEnd);
            }
        }
    }

    /// A `let` statement; see `spec_parse_let`.
    #[verifier::rlimit(100)]
    #[verifier::spinoff_prover]
    fn parse_let(&mut self) -> (r: Result<AST, ParseError>)
        ensures
            final(self).toks() == old(self).toks(),
            old(self).at() <= final(self).at(),
            spec_is_next(old(self).toks(), old(self).at(), SpecToken::Let) ==> old(self).at()
                < final(self).at(),
            ({
                let (sr, p) = spec_parse_let(old(self).toks(), old(self).at());
                final(self).at() == p && res_view(r) == sr
            }),
        decreases rem(self.toks(), self.at()), 4int,
    {
        if self.is_next_token(Token::Let) {
            self.advance();
        }
        proof {
            assert(self.at() == (if spec_is_next(
                old(self).toks(),
                old(self).at(),
                SpecToken::Let,
            ) {
                old(self).at() + 1
            } else {
                old(self).at()
            }));
        }
        let k = match self.next_kind() {
            Option::None => {
                return Result::Err(ParseError::ExpectedIdentifierAtEnd);
            },
            Option::Some(Result::Err(e)) => {
                return Result::Err(ParseError::Lexical(e));
            },
            Option::Some(Result::Ok(k)) => k,
        };
        let ident = match k.token {
            Token::Ident(s) => s,
            _ => {
                return Result::Err(ParseError::ExpectedIdentifier { line: k.line });
            },
        };
        let value = if self.is_next_token(Token::Assign) {
            match self.parse_expression(0) {
                Result::Ok(v) => v,
                Result::Err(e) => {
                    return Result::Err(e);
                },
            }
        } else if let Option::Some(e) = self.peek_err() {
            return Result::Err(ParseError::Lexical(e));
        } else {
            proof {
                crate::ast::lemma_view_type_node(Type::Nil);
            }
            AST::Type(Type::Nil)
        };
        proof {
            assert(spec_parse_let(old(self).toks(), old(self).at()) == spec_parse_let_end(
                old(self).toks(),
                self.at(),
                ident@,
                value@,
            ));
        }
        self.parse_let_end(ident, value)
    }

    /// The terminating `;` of a `let` statement, and the finished node.
    #[verifier::rlimit(100)]
    #[verifier::spinoff_prover]
    fn parse_let_end(&mut self, ident: String, value: AST) -> (r: Result<AST, ParseError>)
        ensures
            final(self).toks() == old(self).toks(),
            old(self).at() <= final(self).at(),
            ({
                let (sr, p) = spec_parse_let_end(
                    old(self).toks(),
                    old(self).at(),
                    ident@,
                    value@,
                );
                final(self).at() == p && res_view(r) == sr
            }),
    {
        match self.expect_peek(Token::Semicolon) {
            Result::Ok(_) => {},
            Result::Err(e) => {
                return Result::Err(e);
            },
        }
        Result::Ok(AST::Let { ident, value: Box::new(value) })
    }

    /// A `return` statement; see `spec_parse_return`.
    #[verifier::rlimit(100)]
    #[verifier::spinoff_prover]
    fn parse_return(&mut self) -> (r: Result<AST, ParseError>)
        ensures
            final(self).toks() == old(self).toks(),
            old(self).at() <= final(self).at(),
            0 <= old(self).at() < old(self).toks().len() ==> old(self).at() < final(self).at(),
            ({
                let (sr, p) = spec_parse_return(old(self).toks(), old(self).at());
                final(self).at() == p && res_view(r) == sr
            }),
        decreases rem(self.toks(), self.at()), 4int,
    {
        self.advance();
        let value = match self.parse_expression(0) {
            Result::Ok(v) => v,
            Result::Err(e) => {
                return Result::Err(e);
            },
        };
        match self.expect_peek(Token::Semicolon) {
            Result::Ok(_) => {},
            Result::Err(e) => {
                return Result::Err(e);
            },
        }
        Result::Ok(AST::Return { value: Box::new(value) })
    }

    /// An `if` statement or expression; see `spec_parse_if`.
    #[verifier::rlimit(100)]
    #[verifier::spinoff_prover]
    fn parse_if(&mut self) -> (r: Result<AST, ParseError>)
        ensures
            final(self).toks() == old(self).toks(),
            old(self).at() <= final(self).at(),
            spec_is_next(old(self).toks(), old(self).at(), SpecToken::If) ==> old(self).at()
                < final(self).at(),
            ({
                let (sr, p) = spec_parse_if(old(self).toks(), old(self).at());
                final(self).at() == p && res_view(r) == sr
            }),
        decreases rem(self.toks(), self.at()), 4int,
    {
        if self.is_next_token(Token::If) {
            self.advance();
        }
        let condition = match self.parse_expression(0) {
            Result::Ok(c) => c,
            Result::Err(e) => {
                return Result::Err(e);
            },
        };
        match self.expect_peek(Token::LBrace) {
            Result::Ok(_) => {},
            Result::Err(e) => {
                return Result::Err(e);
            },
        }
        let yes = match self.parse_block() {
            Result::Ok(b) => b,
            Result::Err(e) => {
                return Result::Err(e);
            },
        };
        match self.expect_peek(Token::RBrace) {
            Result::Ok(_) => {},
            Result::Err(e) => {
                return Result::Err(e);
            },
        }
        let no = if self.is_next_token(Token::Else) {
            self.advance();
            match self.expect_peek(Token::LBrace) {
                Result::Ok(_) => {},
                Result::Err(e) => {
                    return Result::Err(e);
                },
            }
            let no_block = match self.parse_block() {
                Result::Ok(b) => b,
                Result::Err(e) => {
                    return Result::Err(e);
                },
            };
            match self.expect_peek(Token::RBrace) {
                Result::Ok(_) => {},
                Result::Err(e) => {
                    return Result::Err(e);
                },
            }
            Option::Some(no_block)
        } else {
            Option::None
        };
        Result::Ok(AST::If { condition: Box::new(condition), yes, no })
    }

    /// A `print` statement; see `spec_parse_print`.
    #[verifier::rlimit(100)]
    #[verifier::spinoff_prover]
    fn parse_print(&mut self) -> (r: Result<AST, ParseError>)
        ensures
            final(self).toks() == old(self).toks(),
            old(self).at() <= final(self).at(),
            0 <= old(self).at() < old(self).toks().len() ==> old(self).at() < final(self).at(),
            ({
                let (sr, p) = spec_parse_print(old(self).toks(), old(self).at());
                final(self).at() == p && res_view(r) == sr
            }),
        decreases rem(self.toks(), self.at()), 4int,
    {
        self.advance();
        if self.peek_ok() {
            let to_return = match self.parse_expression(0) {
                Result::Ok(v) => v,
                Result::Err(e) => {
                    return Result::Err(e);
                },
            };
            match self.expect_peek(Token::Semicolon) {
                Result::Ok(_) => {},
                Result::Err(e) => {
                    return Result::Err(e);
                },
            }
            Result::Ok(AST::Print(Box::new(to_return)))
        } else {
            Result::Err(ParseError::MissingExpression)
        }
    }

    /// An expression statement; see `spec_parse_expression_statements`.
    #[verifier::rlimit(100)]
    #[verifier::spinoff_prover]
    fn parse_expression_statements(&mut self) -> (r: Result<AST, ParseError>)
        ensures
            final(self).toks() == old(self).toks(),
            old(self).at() <= final(self).at(),
            0 <= old(self).at() < old(self).toks().len() ==> old(self).at() < final(self).at(),
            ({
                let (sr, p) = spec_parse_expression_statements(old(self).toks(), old(self).at());
                final(self).at() == p && res_view(r) == sr
            }),
        decreases rem(self.toks(), self.at()), 4int,
    {
        let expr = match self.parse_expression(0) {
            Result::Ok(a) => a,
            Result::Err(e) => {
                return Result::Err(e);
            },
        };
        if self.is_next_token(Token::Semicolon) {
            self.advance();
        }
        Result::Ok(expr)
    }

    /// A function declaration or literal; see `spec_parse_fun`.
    #[verifier::rlimit(100)]
    #[verifier::spinoff_prover]
    fn parse_fun(&mut self) -> (r: Result<AST, ParseError>)
        ensures
            final(self).toks() == old(self).toks(),
            old(self).at() <= final(self).at(),
            spec_is_next(old(self).toks(), old(self).at(), SpecToken::Fn) ==> old(self).at()
                < final(self).at(),
            ({
                let (sr, p) = spec_parse_fun(old(self).toks(), old(self).at());
                final(self).at() == p && res_view(r) == sr
            }),
        decreases rem(self.toks(), self.at()), 4int,
    {
        if self.is_next_token(Token::Fn) {
            self.advance();
        }
        let name = self.take_ident_if_next();
        match self.expect_peek(Token::LParen) {
            Result::Ok(_) => {},
            Result::Err(e) => {
                return Result::Err(e);
            },
        }
        let params = match self.parse_params() {
            Result::Ok(p) => p,
            Result::Err(e) => {
                return Result::Err(e);
            },
        };
        match self.expect_peek(Token::RParen) {
            Result::Ok(_) => {},
            Result::Err(e) => {
                return Result::Err(e);
            },
        }
        match self.expect_peek(Token::LBrace) {
            Result::Ok(_) => {},
            Result::Err(e) => {
                return Result::Err(e);
            },
        }
        let body = match self.parse_block() {
            Result::Ok(b) => b,
            Result::Err(e) => {
                return Result::Err(e);
            },
        };
        match self.expect_peek(Token::RBrace) {
            Result::Ok(_) => {},
            Result::Err(e) => {
                return Result::Err(e);
            },
        }
        Result::Ok(AST::Fn { name, params, body })
    }

    /// A parameter list; see `spec_parse_params`.
    #[verifier::loop_isolation(false)]
    #[verifier::rlimit(100)]
    pub fn parse_params(&mut self) -> (r: Result<Vec<String>, ParseError>)
        ensures
            final(self).toks() == old(self).toks(),
            old(self).at() <= final(self).at(),
            ({
                let (sr, p) = spec_parse_params(old(self).toks(), old(self).at());
                final(self).at() == p && match r {
                    Result::Ok(ps) => sr == Result::Ok::<Seq<Seq<char>>, SpecParseError>(
                        ps.deep_view(),
                    ),
                    Result::Err(e) => sr == Result::Err::<Seq<Seq<char>>, SpecParseError>(e@),
                }
            }),
    {
        let ghost toks = self.toks();
        let ghost i0 = self.at();
        let mut params: Vec<String> = Vec::new();
        proof {
            assert(params.deep_view() =~= Seq::<Seq<char>>::empty());
        }
        if !self.is_next_token(Token::RParen) {
            let k = match self.next_kind() {
                Option::None => {
                    return Result::Err(ParseError::ExpectedIdentifierAtEnd);
                },
                Option::Some(Result::Err(e)) => {
                    return Result::Err(ParseError::Lexical(e));
                },
                Option::Some(Result::Ok(k)) => k,
            };
            match k.token {
                Token::Ident(name) => {
                    let ghost dv = params.deep_view();
                    let ghost nv = name@;
                    params.push(name);
                    proof {
                        assert(params.deep_view() =~= dv.push(nv));
                    }
                },
                _ => {
                    return Result::Err(ParseError::ExpectedIdentifier { line: k.line });
                },
            }
        }
        while self.is_next_token(Token::Comma)
            invariant
                self.toks() == toks,
                i0 <= self.at(),
                spec_parse_params(toks, i0) == spec_parse_params_rest(
                    toks,
                    self.at(),
                    params.deep_view(),
                ),
            decreases rem(self.toks(), self.at()),
        {
            self.advance();
            let k = match self.next_kind() {
                Option::None => {
                    return Result::Err(ParseError::ExpectedIdentifierAtEnd);
                },
                Option::Some(Result::Err(e)) => {
                    return Result::Err(ParseError::Lexical(e));
                },
                Option::Some(Result::Ok(k)) => k,
            };
            match k.token {
                Token::Ident(name) => {
                    let ghost dv = params.deep_view();
                    let ghost nv = name@;
                    params.push(name);
                    proof {
                        assert(params.deep_view() =~= dv.push(nv));
                    }
                },
                _ => {
                    return Result::Err(ParseError::ExpectedIdentifier { line: k.line });
                },
            }
        }
        Result::Ok(params)
    }

    /// A block body: the statement loop, with the first error failing the
    /// whole block; see `spec_parse_block`.
    #[verifier::loop_isolation(false)]
    #[verifier::rlimit(100)]
    #[verifier::spinoff_prover]
    fn parse_block(&mut self) -> (r: Result<Vec<AST>, ParseError>)
        ensures
            final(self).toks() == old(self).toks(),
            old(self).at() <= final(self).at(),
            ({
                let (sr, p) = spec_parse_block(old(self).toks(), old(self).at());
                final(self).at() == p && match r {
                    Result::Ok(v) => sr == Result::Ok::<Seq<SpecAst>, SpecParseError>(
                        crate::ast::asts_view(v@),
                    ),
                    Result::Err(e) => sr == Result::Err::<Seq<SpecAst>, SpecParseError>(e@),
                }
            }),
        decreases rem(self.toks(), self.at()), 8int,
    {
        let mut results = self.parse_statement();
        let ghost whole = results_view(results@);
        let mut to_return: Vec<AST> = Vec::new();
        proof {
            assert(crate::ast::asts_view(to_return@) =~= Seq::<SpecAst>::empty());
            assert(crate::ast::asts_view(to_return@) + Seq::<SpecAst>::empty() =~= crate::ast::asts_view(to_return@));
        }
        while results.len() > 0
            invariant
                match spec_collect_block(results_view(results@)) {
                    Result::Ok(rest) => spec_collect_block(whole) == Result::Ok::<
                        Seq<SpecAst>,
                        SpecParseError,
                    >(crate::ast::asts_view(to_return@) + rest),
                    Result::Err(e) => spec_collect_block(whole) == Result::Err::<
                        Seq<SpecAst>,
                        SpecParseError,
                    >(e),
                },
            decreases results.len(),
        {
            let ghost rv = results_view(results@);
            let ghost done = crate::ast::asts_view(to_return@);
            let first = results.remove(0);
            proof {
                assert(results_view(results@) =~= rv.drop_first());
                assert(rv[0] == res_view(first));
            }
            match first {
                Result::Ok(ast) => {
                    proof {
                        crate::ast::lemma_asts_view_push(to_return@, ast);
                        if spec_collect_block(rv.drop_first()) is Ok {
                            let rest = spec_collect_block(rv.drop_first())->Ok_0;
                            assert(done + (seq![crate::ast::ast_view(ast)] + rest) =~= (done.push(
                                crate::ast::ast_view(ast),
                            ) + rest));
                        }
                    }
                    to_return.push(ast);
                },
                Result::Err(err) => {
                    return Result::Err(err);
                },
            }
        }
        proof {
            assert(results_view(results@) =~= Seq::<Result<SpecAst, SpecParseError>>::empty());
            assert(crate::ast::asts_view(to_return@) + Seq::<SpecAst>::empty()
                =~= crate::ast::asts_view(to_return@));
        }
        Result::Ok(to_return)
    }
}

/// Which statement form a leading token starts.
#[derive(PartialEq, Eq, Structural)]
enum Dispatch {
    Stop,
    FnKw,
    ReturnKw,
    IfKw,
    PrintKw,
    LetKw,
    ExprStart,
}

/// The statement dispatch on a leading token.
spec fn spec_dispatch(t: SpecToken) -> Dispatch {
    match t {
        SpecToken::Fn => Dispatch::FnKw,
        SpecToken::Return => Dispatch::ReturnKw,
        SpecToken::If => Dispatch::IfKw,
        SpecToken::Print => Dispatch::PrintKw,
        SpecToken::Let => Dispatch::LetKw,
        _ => if starts_expression(t) {
            Dispatch::ExprStart
        } else {
            Dispatch::Stop
        },
    }
}

/// Error recovery: a statement's result, error or not, never changes how
/// the rest of the input parses.  What the statement loop produces after
/// any already-collected results is exactly what it would produce starting
/// from nothing: a malformed statement yields its one error and parsing
/// resumes at the next statement boundary.
#[verifier::rlimit(100)]
#[verifier::spinoff_prover]
pub proof fn lemma_errors_do_not_stop_parsing(
    toks: Seq<SpecLexItem>,
    i: int,
    acc: Seq<Result<SpecAst, SpecParseError>>,
)
    ensures
        ({
            let (rs, p) = spec_parse_statements(toks, i, acc);
            let (rs0, p0) = spec_parse_statements(toks, i, Seq::empty());
            rs == acc + rs0 && p == p0
        }),
    decreases rem(toks, i),
{
    let (rs0, p0) = spec_parse_statements(toks, i, Seq::empty());
    match spec_peek(toks, i) {
        Option::None => {
            assert(acc + Seq::<Result<SpecAst, SpecParseError>>::empty() =~= acc);
        },
        Option::Some(Result::Err(e)) => {
            let r = Result::Err::<SpecAst, SpecParseError>(SpecParseError::Lexical(e));
            lemma_errors_do_not_stop_parsing(toks, i + 1, acc.push(r));
            lemma_errors_do_not_stop_parsing(toks, i + 1, Seq::empty().push(r));
            let (rs1, _) = spec_parse_statements(toks, i + 1, Seq::empty());
            assert(acc + (Seq::empty().push(r) + rs1) =~= acc.push(r) + rs1);
        },
        Option::Some(Result::Ok(k)) => {
            if k.token == SpecToken::EOF {
                assert(acc + Seq::<Result<SpecAst, SpecParseError>>::empty() =~= acc);
            } else if k.token == SpecToken::Fn || k.token == SpecToken::Return || k.token
                == SpecToken::If || k.token == SpecToken::Print || k.token == SpecToken::Let
                || starts_expression(k.token) {
                let (r, i2) = if k.token == SpecToken::Fn {
                    spec_parse_fun(toks, i)
                } else if k.token == SpecToken::Return {
                    spec_parse_return(toks, i)
                } else if k.token == SpecToken::If {
                    spec_parse_if(toks, i)
                } else if k.token == SpecToken::Print {
                    spec_parse_print(toks, i)
                } else if k.token == SpecToken::Let {
                    spec_parse_let(toks, i)
                } else {
                    spec_parse_expression_statements(toks, i)
                };
                let j = at_least(i + 1, i2);
                lemma_errors_do_not_stop_parsing(toks, j, acc.push(r));
                lemma_errors_do_not_stop_parsing(toks, j, Seq::empty().push(r));
                let (rs1, _) = spec_parse_statements(toks, j, Seq::empty());
                assert(acc + (Seq::empty().push(r) + rs1) =~= acc.push(r) + rs1);
            } else {
                assert(acc + Seq::<Result<SpecAst, SpecParseError>>::empty() =~= acc);
            }
        },
    }
}

/// The canonical rendering of a well-formed number lexes back to exactly
/// that number, followed by the end marker.
proof fn lemma_lex_number_text(n: SpecNumeral)
    requires
        crate::numeral::numeral_wf(n),
    ensures
        spec_lex(crate::ast::render_num(n)) =~= seq![
            crate::lexer::lex_ok(SpecToken::Number(n), 1),
            crate::lexer::lex_ok(SpecToken::EOF, 1),
        ],
{
    let text = crate::ast::render_num(n);
    let wl = n.whole.len() as int;
    assert(spec_is_digit(n.whole[0]));
    if n.frac.len() == 0 {
        proof_lex_number_empty_frac(n);
    } else {
        proof_lex_number_with_frac(n);
    }
}

/// The integral case: the rendering is the whole part plus `".0"`.
#[verifier::spinoff_prover]
proof fn proof_lex_number_empty_frac(n: SpecNumeral)
    requires
        crate::numeral::numeral_wf(n),
        n.frac.len() == 0,
    ensures
        spec_lex(crate::ast::render_num(n)) =~= seq![
            crate::lexer::lex_ok(SpecToken::Number(n), 1),
            crate::lexer::lex_ok(SpecToken::EOF, 1),
        ],
{
    reveal_strlit(".0");
    let text = crate::ast::render_num(n);
    let wl = n.whole.len() as int;
    assert(".0"@.len() == 2);
    assert(".0"@[0] == '.');
    assert(".0"@[1] == '0');
    assert(text =~= n.whole + ".0"@);
    assert(text.len() == wl + 2);
    assert(forall|k: int| 0 <= k < wl ==> text[k] == n.whole[k]);
    assert(text[wl] == '.');
    assert(text[wl + 1] == '0');
    assert(spec_is_digit(text[0]));
    crate::lexer::lemma_digits_end_run(text, 0, wl);
    crate::lexer::lemma_digits_end_run(text, wl + 1, wl + 2);
    assert(crate::lexer::number_end(text, 0) == wl + 2);
    assert(text.subrange(0, wl) =~= n.whole);
    assert(crate::numeral::strip_leading_zeros(n.whole) == n.whole);
    assert(text.subrange(wl + 1, wl + 2) =~= seq!['0']);
    assert(seq!['0'].subrange(0, 0) =~= Seq::<char>::empty());
    assert(crate::numeral::strip_trailing_zeros(Seq::<char>::empty())
        =~= Seq::<char>::empty());
    assert(crate::numeral::strip_trailing_zeros(seq!['0'])
        == crate::numeral::strip_trailing_zeros(seq!['0'].subrange(0, 0)));
    assert(crate::numeral::strip_trailing_zeros(seq!['0']) =~= Seq::<char>::empty());
    assert(crate::lexer::number_token(text, 0) == SpecToken::Number(
        SpecNumeral { whole: n.whole, frac: crate::numeral::strip_trailing_zeros(seq!['0']) },
    ));
    assert(SpecNumeral {
        whole: n.whole,
        frac: crate::numeral::strip_trailing_zeros(seq!['0']),
    } =~= n);
    assert(crate::lexer::spec_lex_from(text, wl + 2, 1) =~= seq![
        crate::lexer::lex_ok(SpecToken::EOF, 1),
    ]);
    assert(spec_lex(text) =~= seq![crate::lexer::lex_ok(SpecToken::Number(n), 1)]
        + crate::lexer::spec_lex_from(text, wl + 2, 1));
}

/// The fractional case: the rendering is whole part, dot, fractional part.
#[verifier::spinoff_prover]
proof fn proof_lex_number_with_frac(n: SpecNumeral)
    requires
        crate::numeral::numeral_wf(n),
        n.frac.len() > 0,
    ensures
        spec_lex(crate::ast::render_num(n)) =~= seq![
            crate::lexer::lex_ok(SpecToken::Number(n), 1),
            crate::lexer::lex_ok(SpecToken::EOF, 1),
        ],
{
    reveal_strlit(".");
    let text = crate::ast::render_num(n);
    let wl = n.whole.len() as int;
    let fl = n.frac.len() as int;
    assert("."@.len() == 1);
    assert("."@[0] == '.');
    assert(text =~= n.whole + "."@ + n.frac);
    assert(text.len() == wl + 1 + fl);
    assert(forall|k: int| 0 <= k < wl ==> text[k] == n.whole[k]);
    assert(text[wl] == '.');
    assert(forall|k: int| wl + 1 <= k < wl + 1 + fl ==> text[k] == n.frac[k - wl - 1]);
    assert(spec_is_digit(text[0]));
    crate::lexer::lemma_digits_end_run(text, 0, wl);
    crate::lexer::lemma_digits_end_run(text, wl + 1, wl + 1 + fl);
    assert(spec_is_digit(text[wl + 1]));
    assert(crate::lexer::number_end(text, 0) == wl + 1 + fl);
    assert(text.subrange(0, wl) =~= n.whole);
    assert(crate::numeral::strip_leading_zeros(n.whole) == n.whole);
    assert(text.subrange(wl + 1, wl + 1 + fl) =~= n.frac);
    assert(crate::numeral::strip_trailing_zeros(n.frac) == n.frac);
    assert(crate::lexer::number_token(text, 0) == SpecToken::Number(
        SpecNumeral { whole: n.whole, frac: n.frac },
    ));
    assert(SpecNumeral { whole: n.whole, frac: n.frac } =~= n);
    assert(crate::lexer::spec_lex_from(text, wl + 1 + fl, 1) =~= seq![
        crate::lexer::lex_ok(SpecToken::EOF, 1),
    ]);
    assert(spec_lex(text) =~= seq![crate::lexer::lex_ok(SpecToken::Number(n), 1)]
        + crate::lexer::spec_lex_from(text, wl + 1 + fl, 1));
}

/// A stream of one number token and the end marker parses to the one
/// number leaf.
proof fn lemma_parse_single_number(n: SpecNumeral)
    ensures
        ({
            let toks = seq![
                crate::lexer::lex_ok(SpecToken::Number(n), 1),
                crate::lexer::lex_ok(SpecToken::EOF, 1),
            ];
            spec_parse_statements(toks, 0, Seq::empty()) == (
                seq![Result::Ok::<SpecAst, SpecParseError>(SpecAst::Type(SpecTy::Number(n)))],
                1int,
            )
        }),
{
    let toks = seq![
        crate::lexer::lex_ok(SpecToken::Number(n), 1),
        crate::lexer::lex_ok(SpecToken::EOF, 1),
    ];
    let leaf = SpecAst::Type(SpecTy::Number(n));
    assert(toks.len() == 2);
    assert(toks[0] == crate::lexer::lex_ok(SpecToken::Number(n), 1));
    assert(toks[1] == crate::lexer::lex_ok(SpecToken::EOF, 1));
    assert(spec_parse_led(toks, 1, 0, leaf) == (Result::Ok::<SpecAst, SpecParseError>(leaf), 1int));
    assert(spec_parse_expression(toks, 0, 0) == (Result::Ok::<SpecAst, SpecParseError>(leaf), 1int));
    assert(spec_parse_expression_statements(toks, 0) == (
        Result::Ok::<SpecAst, SpecParseError>(leaf),
        1int,
    ));
    assert(spec_parse_statements(toks, 1, Seq::empty().push(
        Result::Ok::<SpecAst, SpecParseError>(leaf),
    )) == (Seq::empty().push(Result::Ok::<SpecAst, SpecParseError>(leaf)), 1int));
    assert(spec_parse_statements(toks, 0, Seq::empty()) == (
        Seq::empty().push(Result::Ok::<SpecAst, SpecParseError>(leaf)),
        1int,
    ));
    assert(Seq::empty().push(Result::Ok::<SpecAst, SpecParseError>(leaf)) =~= seq![
        Result::Ok::<SpecAst, SpecParseError>(leaf),
    ]);
}

/// Rendering round-trips on the number fragment of the grammar: parsing
/// the canonical rendering of any well-formed number leaf yields exactly
/// that leaf again, whose rendering is the same text.
pub proof fn lemma_number_rendering_round_trips(n: SpecNumeral)
    requires
        crate::numeral::numeral_wf(n),
    ensures
        ({
            let (rs, _) = spec_parse_statements(
                spec_lex(crate::ast::render_num(n)),
                0,
                Seq::empty(),
            );
            rs == seq![
                Result::Ok::<SpecAst, SpecParseError>(SpecAst::Type(SpecTy::Number(n))),
            ]
        }),
        crate::ast::render_ast(SpecAst::Type(SpecTy::Number(n))) == crate::ast::render_num(n),
{
    lemma_lex_number_text(n);
    lemma_parse_single_number(n);
    reveal_with_fuel(crate::ast::render_ast, 2);
    reveal_with_fuel(crate::ast::render_ty, 2);
}

/// Well-formed identifier text that is no keyword lexes back to exactly
/// that identifier, followed by the end marker.
#[verifier::spinoff_prover]
proof fn lemma_lex_ident_text(w: Seq<char>)
    requires
        crate::lexer::spec_is_ident_text(w),
        crate::lexer::keyword_or_ident(w) == SpecToken::Ident(w),
    ensures
        spec_lex(w) =~= seq![
            crate::lexer::lex_ok(SpecToken::Ident(w), 1),
            crate::lexer::lex_ok(SpecToken::EOF, 1),
        ],
{
    let wl = w.len() as int;
    assert(crate::lexer::spec_is_alpha(w[0]));
    crate::lexer::lemma_ident_end_run(w, 0, wl);
    assert(w.subrange(0, wl) =~= w);
    assert(crate::lexer::spec_lex_from(w, wl, 1) =~= seq![
        crate::lexer::lex_ok(SpecToken::EOF, 1),
    ]);
    assert(spec_lex(w) =~= seq![crate::lexer::lex_ok(SpecToken::Ident(w), 1)]
        + crate::lexer::spec_lex_from(w, wl, 1));
}

/// A stream of one identifier token and the end marker parses to the one
/// identifier leaf.
proof fn lemma_parse_single_ident(w: Seq<char>)
    ensures
        ({
            let toks = seq![
                crate::lexer::lex_ok(SpecToken::Ident(w), 1),
                crate::lexer::lex_ok(SpecToken::EOF, 1),
            ];
            spec_parse_statements(toks, 0, Seq::empty()) == (
                seq![Result::Ok::<SpecAst, SpecParseError>(SpecAst::Type(SpecTy::Ident(w)))],
                1int,
            )
        }),
{
    let toks = seq![
        crate::lexer::lex_ok(SpecToken::Ident(w), 1),
        crate::lexer::lex_ok(SpecToken::EOF, 1),
    ];
    let leaf = SpecAst::Type(SpecTy::Ident(w));
    assert(toks.len() == 2);
    assert(toks[0] == crate::lexer::lex_ok(SpecToken::Ident(w), 1));
    assert(toks[1] == crate::lexer::lex_ok(SpecToken::EOF, 1));
    assert(!spec_is_next(toks, 1, SpecToken::Assign));
    assert(spec_parse_led(toks, 1, 0, leaf) == (Result::Ok::<SpecAst, SpecParseError>(leaf), 1int));
    assert(spec_parse_expression(toks, 0, 0) == (Result::Ok::<SpecAst, SpecParseError>(leaf), 1int));
    assert(spec_parse_expression_statements(toks, 0) == (
        Result::Ok::<SpecAst, SpecParseError>(leaf),
        1int,
    ));
    assert(spec_parse_statements(toks, 1, Seq::empty().push(
        Result::Ok::<SpecAst, SpecParseError>(leaf),
    )) == (Seq::empty().push(Result::Ok::<SpecAst, SpecParseError>(leaf)), 1int));
    assert(spec_parse_statements(toks, 0, Seq::empty()) == (
        Seq::empty().push(Result::Ok::<SpecAst, SpecParseError>(leaf)),
        1int,
    ));
    assert(Seq::empty().push(Result::Ok::<SpecAst, SpecParseError>(leaf)) =~= seq![
        Result::Ok::<SpecAst, SpecParseError>(leaf),
    ]);
}

/// Rendering round-trips on the identifier fragment of the grammar:
/// parsing the canonical rendering of any identifier leaf whose text is no
/// keyword yields exactly that leaf again, whose rendering is the same
/// text.
pub proof fn lemma_identifier_rendering_round_trips(w: Seq<char>)
    requires
        crate::lexer::spec_is_ident_text(w),
        crate::lexer::keyword_or_ident(w) == SpecToken::Ident(w),
    ensures
        ({
            let (rs, _) = spec_parse_statements(spec_lex(w), 0, Seq::empty());
            rs == seq![
                Result::Ok::<SpecAst, SpecParseError>(SpecAst::Type(SpecTy::Ident(w))),
            ]
        }),
        crate::ast::render_ast(SpecAst::Type(SpecTy::Ident(w))) == w,
{
    lemma_lex_ident_text(w);
    lemma_parse_single_ident(w);
    reveal_with_fuel(crate::ast::render_ast, 2);
    reveal_with_fuel(crate::ast::render_ty, 2);
}

/// Left-associativity: every infix operator's right binding power is one
/// above its left binding power, so equal-precedence operators group from
/// the left; the grammar has no right-associative operator.
pub proof fn lemma_infix_left_associative(op: Op)
    ensures
        match spec_infix_bp(op) {
            Option::Some(bp) => bp.1 == bp.0 + 1,
            Option::None => true,
        },
{
}

} // verus!
