use script_parser::ast::{Op, Type, AST};
use script_parser::error::{LexError, ParseError};
use script_parser::numeral::Numeral;
use script_parser::parser::Parser;
use script_parser::token::Token;

/// An integral number literal.
fn num(s: &str) -> Numeral {
    Numeral::new(s.to_string(), String::new())
}

/// Parses one input and renders each statement, panicking on errors.
fn renderings(input: &str) -> Vec<String> {
    Parser::new(input.to_string())
        .parse()
        .into_iter()
        .map(|r| match r {
            Ok(ast) => ast.render(),
            Err(e) => panic!("Parsing failed: {:?}", e),
        })
        .collect()
}

#[test]
fn malformed_statement_recovers() {
    let input = "let ;\nprint 42;";
    let mut parser = Parser::new(input.to_string());
    let statements = parser.parse();
    assert_eq!(statements.len(), 2);
    assert_eq!(
        statements[0],
        Err(ParseError::ExpectedIdentifier { line: 1 })
    );
    assert_eq!(
        statements[1],
        Ok(AST::Print(Box::new(AST::Type(Type::Number(num("42"))))))
    );
}

#[test]
fn error_then_next_statement_parses() {
    let input = "(1 2; 2;";
    let mut parser = Parser::new(input.to_string());
    let statements = parser.parse();
    // The failed group leaves `2; 2;` behind: one error, two statements.
    assert_eq!(statements.len(), 3);
    assert_eq!(
        statements[0],
        Err(ParseError::UnexpectedToken {
            expected: Token::RParen,
            line: 1
        })
    );
    assert!(statements[1].is_ok());
    assert!(statements[2].is_ok());
}

#[test]
fn lexical_error_is_collected() {
    let mut parser = Parser::new("@".to_string());
    let statements = parser.parse();
    assert_eq!(statements.len(), 1);
    assert_eq!(
        statements[0],
        Err(ParseError::Lexical(LexError::UnexpectedChar {
            c: '@',
            line: 1
        }))
    );
}

#[test]
fn unterminated_string_is_lexical_error() {
    let mut parser = Parser::new("\"abc".to_string());
    let statements = parser.parse();
    assert_eq!(statements.len(), 1);
    assert_eq!(
        statements[0],
        Err(ParseError::Lexical(LexError::UnterminatedString { line: 1 }))
    );
}

#[test]
fn print_without_expression_fails() {
    let mut parser = Parser::new("print @;".to_string());
    let statements = parser.parse();
    assert_eq!(statements[0], Err(ParseError::MissingExpression));
}

#[test]
fn operator_cannot_start_expression() {
    let mut parser = Parser::new("print +;".to_string());
    let statements = parser.parse();
    assert_eq!(
        statements[0],
        Err(ParseError::ExpectedExpression { line: 1 })
    );
}

#[test]
fn array_needs_separator() {
    let mut parser = Parser::new("[1 2];".to_string());
    let statements = parser.parse();
    assert_eq!(statements[0], Err(ParseError::ArraySeparator { line: 1 }));
}

#[test]
fn missing_semicolon_after_let() {
    let mut parser = Parser::new("let x = 1".to_string());
    let statements = parser.parse();
    assert_eq!(
        statements[0],
        Err(ParseError::UnexpectedToken {
            expected: Token::Semicolon,
            line: 1
        })
    );
}

#[test]
fn error_lines_count_newlines() {
    let mut parser = Parser::new("\n\nlet ;".to_string());
    let statements = parser.parse();
    assert_eq!(
        statements[0],
        Err(ParseError::ExpectedIdentifier { line: 3 })
    );
}

#[test]
fn lines_advance_inside_strings() {
    let mut parser = Parser::new("\"a\nb\" @".to_string());
    let statements = parser.parse();
    assert_eq!(statements.len(), 2);
    assert_eq!(
        statements[0],
        Ok(AST::Type(Type::String("a\nb".to_string())))
    );
    assert_eq!(
        statements[1],
        Err(ParseError::Lexical(LexError::UnexpectedChar {
            c: '@',
            line: 2
        }))
    );
}

#[test]
fn numbers_render_normalized() {
    assert_eq!(renderings("007;"), vec!["7.0".to_string()]);
    assert_eq!(renderings("1.250;"), vec!["1.25".to_string()]);
    assert_eq!(renderings("0.0;"), vec!["0.0".to_string()]);
    assert_eq!(renderings("00.500;"), vec!["0.5".to_string()]);
    assert_eq!(renderings("2;"), vec!["2.0".to_string()]);
}

#[test]
fn rendering_is_idempotent_on_reparse() {
    for input in ["42;", "true", "hello", "[1, 2.50, 0.125]", "nil_ish"] {
        let first = renderings(input);
        assert_eq!(first.len(), 1);
        let second = renderings(first[0].as_str());
        assert_eq!(first, second);
    }
}

#[test]
fn if_else_renders_canonically() {
    assert_eq!(
        renderings("if x > 0 { print x; } else { print 0; }"),
        vec!["if (> x 0.0) { x } else { 0.0 }".to_string()]
    );
}

#[test]
fn fn_declaration_renders_canonically() {
    assert_eq!(
        renderings("fn add(a, b) { return a + b; }"),
        vec!["add a b return (+ a b)}".to_string()]
    );
}

#[test]
fn anonymous_fn_renders_canonically() {
    assert_eq!(
        renderings("fn(a) { return a; }"),
        vec!["(fun a return a}".to_string()]
    );
}

#[test]
fn calls_chain_as_postfix() {
    assert_eq!(
        renderings("f(1)(2);"),
        vec!["(call ((call (f 1.0)) 2.0))".to_string()]
    );
}

#[test]
fn reassign_stmt() {
    let input = "x = 10;";
    let expected = AST::Reassign {
        ident: "x".to_string(),
        value: Box::new(AST::Expr(
            Op::Assing,
            vec![AST::Type(Type::Number(num("10")))],
        )),
    };

    let mut parser = Parser::new(input.to_string());
    let statements = parser.parse();
    assert_eq!(statements.len(), 1);
    assert_eq!(statements[0], Ok(expected));
}

#[test]
fn index_expr() {
    assert_eq!(renderings("a[1];"), vec!["(index a 1.0)".to_string()]);
}

#[test]
fn push_expr() {
    let input = "push(arr, 1);";
    let expected = AST::Expr(
        Op::Push,
        vec![
            AST::Type(Type::Ident("arr".to_string())),
            AST::Type(Type::Number(num("1"))),
        ],
    );
    let mut parser = Parser::new(input.to_string());
    let statements = parser.parse();
    assert_eq!(statements, vec![Ok(expected)]);
}

#[test]
fn push_needs_no_own_semicolon() {
    let mut parser = Parser::new("push(arr, 1)".to_string());
    let statements = parser.parse();
    assert_eq!(statements.len(), 1);
    assert!(statements[0].is_ok());
}

#[test]
fn push_composes_in_expressions() {
    assert_eq!(
        renderings("push(a, 1) + 2;"),
        vec!["(+ (Push a 1.0) 2.0)".to_string()]
    );
}

#[test]
fn array_rejects_trailing_comma() {
    let mut parser = Parser::new("[1, 2,];".to_string());
    let statements = parser.parse();
    assert_eq!(
        statements[0],
        Err(ParseError::ExpectedExpression { line: 1 })
    );
}

#[test]
fn empty_array_literal() {
    assert_eq!(renderings("[];"), vec!["[]".to_string()]);
}

#[test]
fn boolean_operators_bind_loosest() {
    assert_eq!(
        renderings("1 + 2 and 3 < 4;"),
        vec!["(and (+ 1.0 2.0) (< 3.0 4.0))".to_string()]
    );
    assert_eq!(
        renderings("1 < 2 or 3 < 4;"),
        vec!["(or (< 1.0 2.0) (< 3.0 4.0))".to_string()]
    );
}

#[test]
fn equal_precedence_groups_left() {
    assert_eq!(
        renderings("1 - 2 + 3;"),
        vec!["(+ (- 1.0 2.0) 3.0)".to_string()]
    );
    assert_eq!(
        renderings("8 / 4 * 2;"),
        vec!["(* (/ 8.0 4.0) 2.0)".to_string()]
    );
}

#[test]
fn string_literals_render_unquoted() {
    assert_eq!(renderings("print \"a b\";"), vec!["a b".to_string()]);
}

#[test]
fn let_without_initializer_defaults_to_nil() {
    let mut parser = Parser::new("let x;".to_string());
    let statements = parser.parse();
    assert_eq!(
        statements[0],
        Ok(AST::Let {
            ident: "x".to_string(),
            value: Box::new(AST::Type(Type::Nil)),
        })
    );
}

#[test]
fn builtin_first_last_rest() {
    assert_eq!(renderings("first(a);"), vec!["(First a)".to_string()]);
    assert_eq!(renderings("last(a);"), vec!["(Last a)".to_string()]);
    assert_eq!(renderings("rest(a);"), vec!["(Rest a)".to_string()]);
}
