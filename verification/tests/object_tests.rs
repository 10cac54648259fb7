use monkey_core::ast::{BlockStatement, Expression, Identifier, Statement};
use monkey_core::object::{Environment, Object};

#[test]
fn test_truthiness() {
    assert_eq!(Object::Integer(0).is_truthy(), true);
    assert_eq!(Object::Boolean(false).is_truthy(), false);
    assert_eq!(Object::Null.is_truthy(), false);
    assert_eq!(Object::Boolean(true).is_truthy(), true);
    assert_eq!(Object::Integer(1).is_truthy(), true);
    assert_eq!(Object::Error(String::from("boom")).is_truthy(), true);
}

#[test]
fn test_is_error() {
    assert!(Object::Error(String::from("boom")).is_error());
    assert!(!Object::Null.is_error());
    assert!(!Object::Integer(3).is_error());
    assert!(!Object::Boolean(false).is_error());
}

#[test]
fn test_kind_names() {
    assert_eq!(Object::Null.kind_name(), "NULL");
    assert_eq!(Object::Error(String::from("x")).kind_name(), "ERROR");
    assert_eq!(Object::Boolean(true).kind_name(), "BOOLEAN");
    assert_eq!(Object::Integer(9).kind_name(), "INTEGER");
    assert_eq!(
        Object::ReturnValue(Box::new(Object::Null)).kind_name(),
        "RETURN_VALUE"
    );
}

#[test]
fn test_object_from_bool() {
    assert!(matches!(Object::from(true), Object::Boolean(true)));
    assert!(matches!(Object::from(false), Object::Boolean(false)));
}

#[test]
fn test_inspect() {
    assert_eq!(Object::Null.inspect(), "null");
    assert_eq!(Object::Boolean(true).inspect(), "true");
    assert_eq!(Object::Boolean(false).inspect(), "false");
    assert_eq!(Object::Integer(42).inspect(), "42");
    assert_eq!(Object::Integer(-3).inspect(), "-3");
    assert_eq!(Object::Integer(0).inspect(), "0");
    assert_eq!(
        Object::Error(String::from("unknown operator")).inspect(),
        "ERROR: unknown operator"
    );
    assert_eq!(
        Object::ReturnValue(Box::new(Object::Integer(7))).inspect(),
        "7"
    );
}

#[test]
fn test_inspect_function() {
    let body = BlockStatement {
        statements: vec![Statement::ExpressionStatement(Expression::Identifier(
            Identifier(String::from("x")),
        ))],
    };
    let f = Object::Function(
        vec![Identifier(String::from("x")), Identifier(String::from("y"))],
        body,
        Environment::new(),
    );
    assert_eq!(f.inspect(), "fn(x, y) {\nx\n}");
}

#[test]
fn test_environment_get_and_set() {
    let mut env = Environment::new();
    let x = Identifier(String::from("x"));
    assert!(env.get(&x).is_none());
    env.set(Identifier(String::from("x")), Object::Integer(5));
    assert!(matches!(env.get(&x), Some(Object::Integer(5))));
    env.set(Identifier(String::from("x")), Object::Integer(6));
    assert!(matches!(env.get(&x), Some(Object::Integer(6))));
}

#[test]
fn test_enclosing_binding_visible_from_child() {
    let mut parent = Environment::new();
    parent.set(Identifier(String::from("x")), Object::Integer(5));
    let child = Environment::new_enclosed(parent);
    let x = Identifier(String::from("x"));
    assert!(matches!(child.get(&x), Some(Object::Integer(5))));
}

#[test]
fn test_shadowing_does_not_alter_the_parent() {
    let mut parent = Environment::new();
    parent.set(Identifier(String::from("x")), Object::Integer(5));
    let mut child = Environment::new_enclosed(parent);
    child.set(Identifier(String::from("x")), Object::Integer(9));
    let x = Identifier(String::from("x"));
    assert!(matches!(child.get(&x), Some(Object::Integer(9))));
    let parent_again = child.outer().expect("the child has an enclosing scope");
    assert!(matches!(parent_again.get(&x), Some(Object::Integer(5))));
}

#[test]
fn test_child_binding_invisible_in_parent() {
    let parent = Environment::new();
    let mut child = Environment::new_enclosed(parent);
    child.set(Identifier(String::from("y")), Object::Integer(1));
    let y = Identifier(String::from("y"));
    assert!(matches!(child.get(&y), Some(Object::Integer(1))));
    let parent_again = child.outer().expect("the child has an enclosing scope");
    assert!(parent_again.get(&y).is_none());
}

#[test]
fn test_closure_captures_defining_scope() {
    // Bind x where the function literal is created, capture that scope in
    // the function value, and observe the binding from a later call frame.
    let mut defining = Environment::new();
    defining.set(Identifier(String::from("x")), Object::Integer(5));
    let body = BlockStatement {
        statements: vec![Statement::ExpressionStatement(Expression::Identifier(
            Identifier(String::from("x")),
        ))],
    };
    let f = Object::Function(vec![Identifier(String::from("y"))], body, defining);

    // The defining frame is gone; only the captured environment remains.
    let Object::Function(parameters, _, captured) = f else {
        panic!("expected a function object");
    };
    let mut call_env = Environment::new_enclosed(captured);
    call_env.set(parameters[0].clone(), Object::Integer(10));

    let x = Identifier(String::from("x"));
    let y = Identifier(String::from("y"));
    assert!(matches!(call_env.get(&x), Some(Object::Integer(5))));
    assert!(matches!(call_env.get(&y), Some(Object::Integer(10))));
}

#[test]
fn test_inspect_extreme_integers() {
    assert_eq!(Object::Integer(i64::MAX).inspect(), "9223372036854775807");
    assert_eq!(Object::Integer(i64::MIN).inspect(), "-9223372036854775808");
}
