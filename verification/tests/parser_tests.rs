use monkey_core::ast::{Expression, Statement};
use monkey_core::lexer::Lexer;
use monkey_core::parser::Parser;

fn test_ident_expression(expression: &Expression, value: &str) -> bool {
    let Expression::Identifier(ident) = expression else {
        println!("expression is not Identifier(_). Got: {:?}", expression);
        return false;
    };

    if ident.0 != value {
        println!("identifier value is not {value}. Got {:?}", ident);
        return false;
    }

    true
}

fn test_integer_expression(expression: &Expression, value: i64) -> bool {
    let Expression::Integer(int) = expression else {
        println!("expression is not Integer(_). Got {:?}", expression);
        return false;
    };

    if int != &value {
        println!("integer value is not {value}. Got {:?}", int);
        return false;
    }
    true
}

fn test_infix_expression(infix: &Expression, left: i64, operator: &str, right: i64) -> bool {
    let Expression::Infix(left_expression, op, right_expression) = infix else {
        println!("expression is not Infix(_,_,_). Got: {:?}", infix);
        return false;
    };

    if !test_integer_expression(left_expression, left) {
        return false;
    }

    if op.literal() != operator {
        println!("expected operator '{operator}'. Got: {:?}", op);
        return false;
    }

    if !test_integer_expression(right_expression, right) {
        return false;
    }

    true
}

fn is_let_statement(statement: Statement, name: &str) -> bool {
    let Statement::LetStatement(identifier, _) = statement else {
        println!("statement is not let, got: {:?}", statement);
        return false;
    };

    if identifier.0 != name {
        println!("TokenKind wasn't identifier, got: {}", identifier.0);
        return false;
    };
    true
}

#[test]
fn test_let_statements() {
    let input = r#"let x = 5;
        let y = 10;
        let foobar = 838383;"#;

    let lexer = Lexer::new(input);
    let mut parser = Parser::new(lexer);
    let program = parser.parse_program();

    assert!(parser.errors().is_empty(), "{:?}", parser.errors());

    if program.statements.len() != 3 {
        panic!(
            "The program does not contain 3 statements. Got {}",
            program.statements.len()
        )
    }

    let tests = vec!["x", "y", "foobar"];
    for (expected, statement) in tests.into_iter().zip(program.statements) {
        assert!(is_let_statement(statement, expected));
    }
}

#[test]
fn test_return_statements() {
    let input = r#"
        return 5;
        return 10;
        return 993322;
        "#;
    let mut parser = Parser::new(Lexer::new(input));
    let program = parser.parse_program();

    assert!(parser.errors().is_empty(), "{:?}", parser.errors());

    if program.statements.len() != 3 {
        panic!(
            "The program does not contain 3 statements. Got {}",
            program.statements.len()
        )
    }

    for statement in program.statements {
        let Statement::ReturnStatement(_) = statement else {
            println!("statement is not let, got: {:?}", statement);
            continue;
        };
    }
}

#[test]
fn test_identifier_expressions() {
    let input = "foobar;";
    let mut parser = Parser::new(Lexer::new(input));
    let program = parser.parse_program();

    assert!(parser.errors().is_empty(), "{:?}", parser.errors());

    if program.statements.len() != 1 {
        panic!("expected 1 statement. Got {}", program.statements.len());
    }

    let Statement::ExpressionStatement(ident) = &program.statements[0] else {
        panic!(
            "expected an ExpressionStatement. Got {:?}",
            program.statements[0]
        );
    };

    assert!(test_ident_expression(ident, "foobar"))
}

#[test]
fn test_integer_expressions() {
    let input = "5;";
    let mut parser = Parser::new(Lexer::new(input));
    let program = parser.parse_program();

    assert!(parser.errors().is_empty(), "{:?}", parser.errors());

    if program.statements.len() != 1 {
        panic!("expected 1 statement. Got {}", program.statements.len());
    }

    let Statement::ExpressionStatement(ident) = &program.statements[0] else {
        panic!(
            "expected an ExpressionStatement. Got {:?}",
            program.statements[0]
        );
    };

    assert!(test_integer_expression(ident, 5))
}

#[test]
fn test_parsing_prefix_expressions() {
    let inputs: Vec<(&str, &str, i64)> = vec![("!5;", "!", 5), ("-15", "-", 15)];

    for input in inputs {
        let mut parser = Parser::new(Lexer::new(input.0));
        let program = parser.parse_program();

        assert!(parser.errors().is_empty(), "{:?}", parser.errors());

        if program.statements.len() != 1 {
            panic!("expected 1 statement. Got {}", program.statements.len());
        }

        let Statement::ExpressionStatement(expression) = &program.statements[0] else {
            panic!(
                "expected an ExpressionStatement. Got {:?}",
                program.statements[0]
            );
        };

        let Expression::Prefix(token_kind, expression) = expression else {
            panic!("expected a PrefixExpression. Got: {:?}", expression);
        };
        assert_eq!(token_kind.literal(), input.1);

        assert!(test_integer_expression(expression, input.2))
    }
}

#[test]
fn test_parsing_infix_expressions() {
    let inputs: Vec<(&str, i64, &str, i64)> = vec![
        ("5 + 5;", 5, "+", 5),
        ("5 - 5;", 5, "-", 5),
        ("5 * 5;", 5, "*", 5),
        ("5 / 5;", 5, "/", 5),
        ("5 < 5;", 5, "<", 5),
        ("5 > 5;", 5, ">", 5),
        ("5 == 5;", 5, "==", 5),
        ("5 != 5;", 5, "!=", 5),
    ];

    for input in inputs {
        let mut parser = Parser::new(Lexer::new(input.0));
        let program = parser.parse_program();

        assert!(parser.errors().is_empty(), "{:?}", parser.errors());

        if program.statements.len() != 1 {
            panic!("expected 1 statement. Got {}", program.statements.len());
        }

        let Statement::ExpressionStatement(expression) = &program.statements[0] else {
            panic!(
                "expected an ExpressionStatement. Got {:?}",
                program.statements[0]
            );
        };

        assert!(test_infix_expression(expression, input.1, input.2, input.3))
    }
}

#[test]
fn test_parsing_operator_precedence() {
    let inputs: Vec<(&str, &str)> = vec![
        ("-a * b", "((-a) * b)"),
        ("!-a", "(!(-a))"),
        ("a + b + c", "((a + b) + c)"),
        ("a + b - c", "((a + b) - c)"),
        ("a * b * c", "((a * b) * c)"),
        ("a * b / c", "((a * b) / c)"),
        ("a + b / c", "(a + (b / c))"),
        ("a + b * c + d / e - f", "(((a + (b * c)) + (d / e)) - f)"),
        ("3 + 4; -5 * 5", "(3 + 4)((-5) * 5)"),
        ("5 > 4 == 3 < 4", "((5 > 4) == (3 < 4))"),
        ("5 < 4 != 3 > 4", "((5 < 4) != (3 > 4))"),
        (
            "3 + 4 * 5 == 3 * 1 + 4 * 5",
            "((3 + (4 * 5)) == ((3 * 1) + (4 * 5)))",
        ),
    ];

    for input in inputs {
        let mut parser = Parser::new(Lexer::new(input.0));
        let program = parser.parse_program();

        assert!(parser.errors().is_empty());

        assert_eq!(program.render(), input.1);
    }
}
