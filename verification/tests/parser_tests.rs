use monkey::ast::{Expression, Infix, InfixOperation, Literal, Prefix, PrefixOperation, Statement};
use monkey::lexer::Lexer;
use monkey::parser::{ParseError, Parser};
use monkey::token::Identifier;

fn parser_for(text: &str) -> Parser {
    let mut lexer = Lexer::new(text);
    Parser::new(lexer.tokens())
}

#[test]
fn let_expression() {
    let program = r#"
        let five = 5;
        let ten = 10 + 2;
        "#;

    let mut parser = parser_for(program);

    let expected_vec = vec![
        Identifier::new("five".to_string()),
        Identifier::new("ten".to_string()),
    ];

    let mut expected = expected_vec.iter();

    while let Ok(Some(statement)) = parser.parse_next_statement() {
        match statement {
            Statement::Let {
                identifier,
                expression: _,
            } => {
                assert_eq!(&identifier, expected.next().unwrap());
            }
            _ => {}
        }
    }
}

#[test]
fn return_expression() {
    let program = r#"
        return 10;
        "#;

    let mut parser = parser_for(program);

    while let Ok(Some(statement)) = parser.parse_next_statement() {
        assert!(matches!(
            statement,
            Statement::Return(Expression::Literal(Literal::Int(10)))
        ));
    }
}

#[test]
fn ident_expression() {
    let program = r#"
        foobar;
        baafoo;
        lasagna;
        5;
        6;
        !5;
        -8;
        potato;
        5 + 5;
        3 - 9;
        3 * 9;
        foo * bar;
        88 + 2 * 3;
        "#;

    let mut parser = parser_for(program);

    let expected_vec = vec![
        Expression::Identifier(Identifier("foobar".to_string())),
        Expression::Identifier(Identifier("baafoo".to_string())),
        Expression::Identifier(Identifier("lasagna".to_string())),
        Expression::Literal(Literal::Int(5)),
        Expression::Literal(Literal::Int(6)),
        Expression::Prefix(Prefix {
            operation: PrefixOperation::Bang,
            expression: Box::new(Expression::Literal(Literal::Int(5))),
        }),
        Expression::Prefix(Prefix {
            operation: PrefixOperation::Minus,
            expression: Box::new(Expression::Literal(Literal::Int(8))),
        }),
        Expression::Identifier(Identifier("potato".to_string())),
        Expression::Infix(Infix {
            left_expression: Box::new(Expression::Literal(Literal::Int(5))),
            right_expression: Box::new(Expression::Literal(Literal::Int(5))),
            operation: InfixOperation::Add,
        }),
        Expression::Infix(Infix {
            left_expression: Box::new(Expression::Literal(Literal::Int(3))),
            right_expression: Box::new(Expression::Literal(Literal::Int(9))),
            operation: InfixOperation::Sub,
        }),
        Expression::Infix(Infix {
            left_expression: Box::new(Expression::Literal(Literal::Int(3))),
            right_expression: Box::new(Expression::Literal(Literal::Int(9))),
            operation: InfixOperation::Mul,
        }),
        Expression::Infix(Infix {
            left_expression: Expression::Identifier(Identifier::new_str("foo")).boxed(),
            right_expression: Expression::Identifier(Identifier::new_str("bar")).boxed(),
            operation: InfixOperation::Mul,
        }),
        Expression::Infix(Infix {
            left_expression: Expression::Literal(Literal::Int(88)).boxed(),
            right_expression: Expression::Infix(Infix {
                left_expression: Expression::Literal(Literal::Int(2)).boxed(),
                right_expression: Expression::Literal(Literal::Int(3)).boxed(),
                operation: InfixOperation::Mul,
            })
            .boxed(),
            operation: InfixOperation::Add,
        }),
    ];

    let mut expected = expected_vec.iter();

    while let Ok(Some(statement)) = parser.parse_next_statement() {
        match statement {
            Statement::Expression(expression) => {
                assert_eq!(&expression, expected.next().unwrap());
            }
            _ => {
                println!("here");
                panic!("here");
            }
        }
    }
}

#[test]
fn test_as_str() {
    let program = r#"
        foobar;
        baafoo;
        lasagna;
        5;
        6;
        !5;
        -8;
        potato;
        5 + 5;
        3 - 9;
        3 * 9;
        foo * bar;
        88 + 2 * 3;
        1 + 2 + 3;
        false == false;
        false <= true;
        1 + (2 + 3) + 4;
        !(true == true);
        -(5 + 5);
        2 / (5 + 5);
        (5 + 5) * 2;
        if (5 + 10) {10 + 3};
        if (!true) {!5} else {99 + 2};
        fn(x, y) { x + y; };
        fn() {};
        fn(x) {};
        fn(x, y, z) {};
        a + add(b * c) + d;
        let x = fn(x) {5 + 3};
        return x(5+3);
        "#;

    let mut parser = parser_for(program);

    let expected_vec = vec![
        String::from("foobar"),
        String::from("baafoo"),
        String::from("lasagna"),
        String::from("5"),
        String::from("6"),
        String::from("(!5)"),
        String::from("(-8)"),
        String::from("potato"),
        String::from("(5+5)"),
        String::from("(3-9)"),
        String::from("(3*9)"),
        String::from("(foo*bar)"),
        String::from("(88+(2*3))"),
        String::from("((1+2)+3)"),
        String::from("(false==false)"),
        String::from("(false<=true)"),
        String::from("((1+(2+3))+4)"),
        String::from("(!(true==true))"),
        String::from("(-(5+5))"),
        String::from("(2/(5+5))"),
        String::from("((5+5)*2)"),
        String::from("if (5+10) (10+3)"),
        String::from("if (!true) (!5) else (99+2)"),
        String::from("fn (x, y) (x+y)"),
        String::from("fn ()"),
        String::from("fn (x)"),
        String::from("fn (x, y, z)"),
        String::from("((a+add ((b*c)))+d)"),
        String::from("let x = fn (x) (5+3)"),
        String::from("return x ((5+3))"),
    ];

    let mut expected = expected_vec.iter();
    while let Ok(Some(statement)) = parser.parse_next_statement() {
        let formatted = statement.render();
        println!("{formatted}");
        assert_eq!(&formatted, expected.next().unwrap());
    }
}

#[test]
fn precedence_and_associativity_shapes() {
    let mut parser = parser_for("a + b * c; -a * b; a - b - c;");
    let first = parser.parse_next_statement().unwrap().unwrap();
    assert_eq!(first.render(), "(a+(b*c))");
    let second = parser.parse_next_statement().unwrap().unwrap();
    assert_eq!(second.render(), "((-a)*b)");
    let third = parser.parse_next_statement().unwrap().unwrap();
    assert_eq!(third.render(), "((a-b)-c)");
    assert!(matches!(parser.parse_next_statement(), Ok(None)));
}

#[test]
fn missing_identifier_in_let_is_an_error() {
    let mut parser = parser_for("let 5 = 3;");
    assert!(matches!(
        parser.parse_next_statement(),
        Err(ParseError::ExpectedIdentifier { .. })
    ));
}

#[test]
fn missing_close_paren_is_an_error() {
    let mut parser = parser_for("(5 + 5");
    assert!(matches!(
        parser.parse_next_statement(),
        Err(ParseError::ExpectedClose { .. })
    ));
}

#[test]
fn missing_close_brace_is_an_error() {
    let mut parser = parser_for("if (true) { 5");
    assert!(matches!(
        parser.parse_next_statement(),
        Err(ParseError::ExpectedClose { .. })
    ));
}

#[test]
fn stray_token_is_an_error() {
    let mut parser = parser_for("}");
    assert!(matches!(
        parser.parse_next_statement(),
        Err(ParseError::UnexpectedToken { .. })
    ));
}

#[test]
fn non_identifier_parameter_is_an_error() {
    let mut parser = parser_for("fn(5) { 1 }");
    assert!(matches!(
        parser.parse_next_statement(),
        Err(ParseError::ExpectedIdentifier { .. })
    ));
}
