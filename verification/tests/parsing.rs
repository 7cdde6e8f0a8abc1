use script_parser::ast::{Op, Type, AST};
use script_parser::numeral::Numeral;
use script_parser::parser::Parser;

/// An integral number literal.
fn num(s: &str) -> Numeral {
    Numeral::new(s.to_string(), String::new())
}

#[test]
fn expressions_statement() {
    let test_cases = vec![
        // Input, Expected Output
        ("(-2 - 1) * 3", "(* (group (- (- 2.0) 1.0)) 3.0)"),
        ("3 - (-2)", "(- 3.0 (group (- 2.0)))"),
        (
            "23 + (5 - 3 * 5) / 10;",
            "(+ 23.0 (/ (group (- 5.0 (* 3.0 5.0))) 10.0))",
        ),
        (
            "(10 - 0) * 10 > 4 / 3;",
            "(> (* (group (- 10.0 0.0)) 10.0) (/ 4.0 3.0))",
        ),
        ("!true", "(! true)"),
        ("!!false != true", "(!= (! (! false)) true)"),
        (
            "dos + 3 - mutilple(3) / 100;",
            "(- (+ dos 3.0) (/ (call (mutilple 3.0)) 100.0))",
        ),
    ];

    for (input, expected) in test_cases {
        let asts = Parser::new(input.to_owned()).parse();
        for result in asts {
            assert_eq!(false, matches!(result, Err(_)));
            assert_eq!(expected, result.unwrap().render().as_str());
        }
    }
}

#[test]
fn let_stmt() {
    let input = "let num = 1;
        let num2 = 2;
        let num3 = 3;
        "
    .to_string();

    let expected = vec![
        AST::Let {
            ident: "num".to_string(),
            value: Box::new(AST::Expr(
                Op::Assing,
                vec![AST::Type(Type::Number(num("1")))],
            )),
        },
        AST::Let {
            ident: "num2".to_string(),
            value: Box::new(AST::Expr(
                Op::Assing,
                vec![AST::Type(Type::Number(num("2")))],
            )),
        },
        AST::Let {
            ident: "num3".to_string(),
            value: Box::new(AST::Expr(
                Op::Assing,
                vec![AST::Type(Type::Number(num("3")))],
            )),
        },
    ];

    let mut parser = Parser::new(input);
    let statements = parser.parse();
    assert_eq!(statements.len(), expected.len());

    for (result, expected_ast) in statements.into_iter().zip(expected.iter()) {
        match result {
            Ok(ast) => assert_eq!(&ast, expected_ast),
            Err(err) => panic!("Parsing failed: {:?}", err),
        }
    }
}

#[test]
fn print_stmt() {
    let input = "print 42;";
    let expected = AST::Print(Box::new(AST::Type(Type::Number(num("42")))));

    let mut parser = Parser::new(input.to_string());
    let statements = parser.parse();
    assert_eq!(statements.len(), 1);

    match &statements[0] {
        Ok(ast) => assert_eq!(ast, &expected),
        Err(err) => panic!("Parsing failed: {:?}", err),
    }
}

#[test]
fn len_expr() {
    let input = "len(\"hello\");";
    let expected = AST::Expr(
        Op::Len,
        vec![AST::Type(Type::String("hello".to_string()))],
    );

    let mut parser = Parser::new(input.to_string());
    let statements = parser.parse();
    assert_eq!(statements.len(), 1);

    match &statements[0] {
        Ok(ast) => assert_eq!(ast, &expected),
        Err(err) => panic!("Parsing failed: {:?}", err),
    }
}

#[test]
fn fn_stmt() {
    let input = "fn add(a, b) { return a + b; }";
    let expected = AST::Fn {
        name: Some("add".to_string()),
        params: vec!["a".to_string(), "b".to_string()],
        body: vec![AST::Return {
            value: Box::new(AST::Expr(
                Op::Plus,
                vec![
                    AST::Type(Type::Ident("a".to_string())),
                    AST::Type(Type::Ident("b".to_string())),
                ],
            )),
        }],
    };

    let mut parser = Parser::new(input.to_string());
    let statements = parser.parse();
    assert_eq!(statements.len(), 1);

    match &statements[0] {
        Ok(ast) => assert_eq!(ast, &expected),
        Err(err) => panic!("Parsing failed: {:?}", err),
    }
}

#[test]
fn call_expr() {
    let input = "add(1, 2);";
    let expected = AST::Expr(
        Op::Fn,
        vec![AST::Call {
            calle: Box::new(AST::Type(Type::Ident("add".to_string()))),
            args: vec![
                AST::Type(Type::Number(num("1"))),
                AST::Type(Type::Number(num("2"))),
            ],
        }],
    );

    let mut parser = Parser::new(input.to_string());
    let statements = parser.parse();
    assert_eq!(statements.len(), 1);

    match &statements[0] {
        Ok(ast) => assert_eq!(ast, &expected),
        Err(err) => panic!("Parsing failed: {:?}", err),
    }
}

#[test]
fn return_stmt() {
    let input = "return 42;";
    let expected = AST::Return {
        value: Box::new(AST::Type(Type::Number(num("42")))),
    };

    let mut parser = Parser::new(input.to_string());
    let statements = parser.parse();
    assert_eq!(statements.len(), 1);

    match &statements[0] {
        Ok(ast) => assert_eq!(ast, &expected),
        Err(err) => panic!("Parsing failed: {:?}", err),
    }
}

#[test]
fn if_stmt() {
    let input = "if x > 0 { print x; } else { print 0; }";
    let expected = AST::If {
        condition: Box::new(AST::Expr(
            Op::Greater,
            vec![
                AST::Type(Type::Ident("x".to_string())),
                AST::Type(Type::Number(num("0"))),
            ],
        )),
        yes: vec![AST::Print(Box::new(AST::Type(Type::Ident("x".to_string()))))],
        no: Some(vec![AST::Print(Box::new(AST::Type(Type::Number(num("0")))))]),
    };

    let mut parser = Parser::new(input.to_string());
    let statements = parser.parse();
    assert_eq!(statements.len(), 1);

    match &statements[0] {
        Ok(ast) => assert_eq!(ast, &expected),
        Err(err) => panic!("Parsing failed: {:?}", err),
    }
}
