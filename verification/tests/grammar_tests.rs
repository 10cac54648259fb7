use monkey_core::ast::{Expression, Statement};
use monkey_core::lexer::Lexer;
use monkey_core::parser::Parser;

fn parse(input: &str) -> (monkey_core::ast::Program, Vec<String>) {
    let mut parser = Parser::new(Lexer::new(input));
    let program = parser.parse_program();
    (program, parser.errors().clone())
}

#[test]
fn test_precedence_examples() {
    let cases: Vec<(&str, &str)> = vec![
        ("a + b + c", "((a + b) + c)"),
        ("a + b * c", "(a + (b * c))"),
        ("-a * b", "((-a) * b)"),
        ("!-a", "(!(-a))"),
    ];
    for (input, expected) in cases {
        let (program, errors) = parse(input);
        assert!(errors.is_empty(), "{:?}", errors);
        assert_eq!(program.render(), expected);
    }
}

#[test]
fn test_multi_statement_precedence_independence() {
    let (program, errors) = parse("3 + 4; -5 * 5");
    assert!(errors.is_empty(), "{:?}", errors);
    assert_eq!(program.statements.len(), 2);
    assert_eq!(program.statements[0].render(), "(3 + 4)");
    assert_eq!(program.statements[1].render(), "((-5) * 5)");
    assert_eq!(program.render(), "(3 + 4)((-5) * 5)");
}

#[test]
fn test_let_statements_bind_in_order_without_errors() {
    let (program, errors) = parse("let x = 5; let y = 10; let foobar = 838383;");
    assert_eq!(errors.len(), 0);
    assert_eq!(program.statements.len(), 3);
    let expected = ["x", "y", "foobar"];
    for (statement, name) in program.statements.iter().zip(expected.iter()) {
        let Statement::LetStatement(identifier, _) = statement else {
            panic!("statement is not let, got: {:?}", statement);
        };
        assert_eq!(&identifier.0, name);
    }
}

#[test]
fn test_malformed_let_recovers_with_one_error() {
    let (program, errors) = parse("let = 5; let y = 10;");
    assert_eq!(errors.len(), 1, "{:?}", errors);
    assert_eq!(errors[0], "expected an identifier, got =");
    assert_eq!(program.statements.len(), 1);
    let Statement::LetStatement(identifier, _) = &program.statements[0] else {
        panic!("statement is not let, got: {:?}", program.statements[0]);
    };
    assert_eq!(identifier.0, "y");
}

#[test]
fn test_missing_assign_error_message() {
    let (_program, errors) = parse("let x 5;");
    assert_eq!(errors.len(), 1, "{:?}", errors);
    assert_eq!(errors[0], "expected next token to be =, got 5");
}

#[test]
fn test_no_prefix_error_message() {
    let (program, errors) = parse("*5;");
    assert_eq!(errors.len(), 1, "{:?}", errors);
    assert_eq!(errors[0], "no prefix parse function for *");
    assert_eq!(program.statements.len(), 1);
}

#[test]
fn test_unmatched_group_error_names_expected_kind() {
    let (_program, errors) = parse("(1 + 2;");
    assert_eq!(errors.len(), 2, "{:?}", errors);
    assert_eq!(errors[0], "expected next token to be ), got ;");
    assert_eq!(errors[1], "no prefix parse function for ;");
}

#[test]
fn test_boolean_expressions() {
    let (program, errors) = parse("true; false; 3 > 5 == false");
    assert!(errors.is_empty(), "{:?}", errors);
    assert_eq!(program.statements.len(), 3);
    assert_eq!(program.statements[0].render(), "true");
    assert_eq!(program.statements[1].render(), "false");
    assert_eq!(program.statements[2].render(), "((3 > 5) == false)");
}

#[test]
fn test_string_literal_expression() {
    let (program, errors) = parse("\"hello world\";");
    assert!(errors.is_empty(), "{:?}", errors);
    let Statement::ExpressionStatement(Expression::StringLiteral(s)) = &program.statements[0]
    else {
        panic!("expected a string literal. Got {:?}", program.statements[0]);
    };
    assert_eq!(s, "hello world");
}

#[test]
fn test_grouped_expressions() {
    let cases: Vec<(&str, &str)> = vec![
        ("(5 + 5) * 2", "((5 + 5) * 2)"),
        ("2 / (5 + 5)", "(2 / (5 + 5))"),
        ("-(5 + 5)", "(-(5 + 5))"),
        ("!(true == true)", "(!(true == true))"),
    ];
    for (input, expected) in cases {
        let (program, errors) = parse(input);
        assert!(errors.is_empty(), "{:?}", errors);
        assert_eq!(program.render(), expected);
    }
}

#[test]
fn test_if_expression() {
    let (program, errors) = parse("if (x < y) { x }");
    assert!(errors.is_empty(), "{:?}", errors);
    assert_eq!(program.statements.len(), 1);
    let Statement::ExpressionStatement(Expression::If(_, consequence, alternative)) =
        &program.statements[0]
    else {
        panic!("expected an if expression. Got {:?}", program.statements[0]);
    };
    assert_eq!(consequence.statements.len(), 1);
    assert!(alternative.is_none());
    assert_eq!(program.render(), "if(x < y) x");
}

#[test]
fn test_if_else_expression() {
    let (program, errors) = parse("if (x < y) { x } else { y }");
    assert!(errors.is_empty(), "{:?}", errors);
    assert_eq!(program.render(), "if(x < y) x else y");
}

#[test]
fn test_function_literal() {
    let (program, errors) = parse("fn(x, y) { x + y; }");
    assert!(errors.is_empty(), "{:?}", errors);
    let Statement::ExpressionStatement(Expression::FunctionLiteral(parameters, body)) =
        &program.statements[0]
    else {
        panic!("expected a function literal. Got {:?}", program.statements[0]);
    };
    assert_eq!(parameters.len(), 2);
    assert_eq!(parameters[0].0, "x");
    assert_eq!(parameters[1].0, "y");
    assert_eq!(body.statements.len(), 1);
    assert_eq!(program.render(), "fn(x, y) (x + y)");
}

#[test]
fn test_function_parameter_lists() {
    let cases: Vec<(&str, Vec<&str>)> = vec![
        ("fn() {};", vec![]),
        ("fn(x) {};", vec!["x"]),
        ("fn(x, y, z) {};", vec!["x", "y", "z"]),
    ];
    for (input, expected) in cases {
        let (program, errors) = parse(input);
        assert!(errors.is_empty(), "{:?}", errors);
        let Statement::ExpressionStatement(Expression::FunctionLiteral(parameters, _)) =
            &program.statements[0]
        else {
            panic!("expected a function literal. Got {:?}", program.statements[0]);
        };
        let names: Vec<&str> = parameters.iter().map(|p| p.0.as_str()).collect();
        assert_eq!(names, expected);
    }
}

#[test]
fn test_call_expression() {
    let (program, errors) = parse("add(1, 2 * 3, 4 + 5);");
    assert!(errors.is_empty(), "{:?}", errors);
    let Statement::ExpressionStatement(Expression::Call(callee, arguments)) =
        &program.statements[0]
    else {
        panic!("expected a call expression. Got {:?}", program.statements[0]);
    };
    assert!(matches!(&**callee, Expression::Identifier(_)));
    assert_eq!(arguments.len(), 3);
    assert_eq!(program.render(), "add(1, (2 * 3), (4 + 5))");
}

#[test]
fn test_call_precedence() {
    let cases: Vec<(&str, &str)> = vec![
        ("a + add(b * c) + d", "((a + add((b * c))) + d)"),
        (
            "add(a, b, 1, 2 * 3, 4 + 5, add(6, 7 * 8))",
            "add(a, b, 1, (2 * 3), (4 + 5), add(6, (7 * 8)))",
        ),
        ("add(a + b + c * d / f + g)", "add((((a + b) + ((c * d) / f)) + g))"),
    ];
    for (input, expected) in cases {
        let (program, errors) = parse(input);
        assert!(errors.is_empty(), "{:?}", errors);
        assert_eq!(program.render(), expected);
    }
}

#[test]
fn test_let_with_expression_value_renders() {
    let (program, errors) = parse("let x = 1 + 2 * 3;");
    assert!(errors.is_empty(), "{:?}", errors);
    assert_eq!(program.render(), "let x = (1 + (2 * 3));");
}

#[test]
fn test_return_with_expression_value_renders() {
    let (program, errors) = parse("return 2 * x;");
    assert!(errors.is_empty(), "{:?}", errors);
    assert_eq!(program.render(), "return (2 * x);");
}

#[test]
fn test_program_token_literal() {
    let (program, errors) = parse("let x = 5;");
    assert!(errors.is_empty(), "{:?}", errors);
    assert_eq!(program.token_literal(), "let");

    let (program, _) = parse("");
    assert_eq!(program.token_literal(), "");

    let (program, errors) = parse("-a;");
    assert!(errors.is_empty(), "{:?}", errors);
    assert_eq!(program.token_literal(), "-");
}

#[test]
fn test_errors_do_not_abort_the_parse() {
    let (program, errors) = parse("let = 1; return 5; @; let ok = 2;");
    assert!(errors.len() >= 2, "{:?}", errors);
    let let_count = program
        .statements
        .iter()
        .filter(|s| matches!(s, Statement::LetStatement(_, _)))
        .count();
    assert_eq!(let_count, 1);
    let return_count = program
        .statements
        .iter()
        .filter(|s| matches!(s, Statement::ReturnStatement(_)))
        .count();
    assert_eq!(return_count, 1);
}

#[test]
fn test_largest_integer_literal_parses() {
    let (program, errors) = parse("let x = 9223372036854775807;");
    assert!(errors.is_empty(), "{:?}", errors);
    let Statement::LetStatement(_, Expression::Integer(v)) = &program.statements[0] else {
        panic!("expected a let of an integer. Got {:?}", program.statements[0]);
    };
    assert_eq!(*v, i64::MAX);
}
