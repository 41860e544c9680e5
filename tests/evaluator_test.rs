use monkey_interpreter::environment::Environment;
use monkey_interpreter::evaluator::{eval, is_truthy};
use monkey_interpreter::object::{Object, ObjectType};
use monkey_interpreter::parser::Parser;

fn test_eval_text(input: &str) -> String {
    let mut parser = Parser::from_str(input);
    let program = parser.parse_program();
    assert!(parser.get_errors().is_empty(), "parse errors in `{}`: {:?}", input, parser.get_errors());
    let evaluated = eval(&program);
    evaluated.to_string()
}

fn test_error(input: &str, expected_msg: &str) {
    let mut parser = Parser::from_str(input);
    let program = parser.parse_program();
    let evaluated = eval(&program);
    match evaluated {
        Object::Error(msg) => assert_eq!(msg, expected_msg, "input `{}`", input),
        other => panic!("Expected Error object for `{}`, got=`{}`", input, other.to_string()),
    }
}

fn test_integer(input: &str, expected: i64) {
    let mut parser = Parser::from_str(input);
    let program = parser.parse_program();
    let evaluated = eval(&program);
    match evaluated {
        Object::Integer(val) => assert_eq!(val, expected, "input `{}`", input),
        other => panic!("Expected Integer for `{}`, got=`{}`", input, other.to_string()),
    }
}

fn test_boolean(input: &str, expected: bool) {
    let mut parser = Parser::from_str(input);
    let program = parser.parse_program();
    let evaluated = eval(&program);
    match evaluated {
        Object::Boolean(val) => assert_eq!(val, expected, "input `{}`", input),
        other => panic!("Expected Boolean for `{}`, got=`{}`", input, other.to_string()),
    }
}

fn test_null(input: &str) {
    let mut parser = Parser::from_str(input);
    let program = parser.parse_program();
    let evaluated = eval(&program);
    match evaluated {
        Object::Null => (),
        other => panic!("Expected Null for `{}`, got=`{}`", input, other.to_string()),
    }
}

#[test]
fn should_be_able_to_handle_errors() {
    let test_cases = vec![
        ("5 + true;", "type mismatch: INTEGER + BOOLEAN"),
        ("5 + true; 5;", "type mismatch: INTEGER + BOOLEAN"),
        ("-true", "unknown operator: -BOOLEAN"),
        ("true + false;", "unknown operator: BOOLEAN + BOOLEAN"),
        ("5; true + false; 5", "unknown operator: BOOLEAN + BOOLEAN"),
        ("if (10 > 1) { true + false; }", "unknown operator: BOOLEAN + BOOLEAN"),
        (
            "
                if (10 > 1) {
                    if (10 > 1) {
                        return true + false;
                    }
                    return 1;
                }
            ",
            "unknown operator: BOOLEAN + BOOLEAN",
        ),
        (
            "
                if (10 > 1) {
                    if (10 > 1) {
                        true + false;
                    }
                    return 1;
                }
            ",
            "unknown operator: BOOLEAN + BOOLEAN",
        ),
    ];

    for (input, msg) in test_cases {
        test_error(input, msg);
    }
}

#[test]
fn should_evaluate_return_statement() {
    let test_cases = vec![
        ("return 10;", 10),
        ("return 10; 9;", 10),
        ("return 2 * 5; 9;", 10),
        ("9; return 2 * 5; 9;", 10),
        (
            "
                if (10 > 1) {
                    if (10 > 1) {
                        return 10;
                    }
                    return 1;
                }",
            10,
        ),
    ];

    for (input, expected) in test_cases {
        test_integer(input, expected);
    }
}

#[test]
fn should_evaluate_if_expression() {
    let test_cases = vec![
        ("if (true) { 10 }", Some(10)),
        ("if (false) { 10 }", None),
        ("if (1) { 10 }", Some(10)),
        ("if (1 < 2) { 10 }", Some(10)),
        ("if (1 > 2) { 10 }", None),
        ("if (1 > 2) { 10 } else { 20 }", Some(20)),
        ("if (1 < 2) { 10 } else { 20 }", Some(10)),
    ];

    for (input, expected) in test_cases {
        match expected {
            None => test_null(input),
            Some(val) => test_integer(input, val),
        }
    }
}

#[test]
fn should_evaluate_integer_expression() {
    let test_cases = vec![
        ("5", 5),
        ("10", 10),
        ("-5", -5),
        ("-10", -10),
        ("0", 0),
        ("-0", 0),
        ("5 + 5 + 5 + 5 - 10", 10),
        ("2 * 2 * 2 * 2 * 2", 32),
        ("-50 + 100 + -50", 0),
        ("5 * 2 + 10", 20),
        ("5 + 2 * 10", 25),
        ("20 + 2 * -10", 0),
        ("50 / 2 * 2 + 10", 60),
        ("2 * (5 + 10)", 30),
        ("3 * 3 * 3 + 10", 37),
        ("3 * (3 * 3) + 10", 37),
        ("(5 + 10 * 2 + 15 / 3) * 2 + -10", 50),
        ("2 + 3 * (4 - 1)", 11),
        ("(2 + 3) * (4 - 1)", 15),
        ("(10 - 2) * 3 / 2 + (8 / 4)", 14),
        ("(2 * 3) + (-4 / 2) + 5", 9),
        ("1 + 2 * 3 - 4 / 2", 5),
        ("((5 + 3) * 2) / ((4 - 2) * 3)", 2),
    ];

    for (input, expected) in test_cases {
        test_integer(input, expected);
    }
}

#[test]
fn should_evalute_boolean_expression() {
    let test_cases = vec![
        ("true", true),
        ("false", false),
        ("1 < 2", true),
        ("1 > 2", false),
        ("1 < 1", false),
        ("1 > 1", false),
        ("1 == 1", true),
        ("1 != 1", false),
        ("1 == 2", false),
        ("1 != 2", true),
        ("true == true", true),
        ("false == false", true),
        ("true == false", false),
        ("true != false", true),
        ("false != true", true),
        ("(1 < 2) == true", true),
        ("(1 < 2) == false", false),
        ("(1 > 2) == true", false),
        ("(1 > 2) == false", true),
    ];

    for (input, expected) in test_cases {
        test_boolean(input, expected);
    }
}

#[test]
fn should_evaluate_bang_operator() {
    let test_cases = vec![
        ("!true", false),
        ("!false", true),
        ("!5", false),
        ("!!true", true),
        ("!!false", false),
        ("!!5", true),
    ];

    for (input, expected) in test_cases {
        test_boolean(input, expected);
    }
}

#[test]
fn closures_capture_their_defining_scope() {
    test_integer(
        "let newAdder = fn(x) { fn(y) { x + y } }; let addTwo = newAdder(2); addTwo(3);",
        5,
    );
}

#[test]
fn let_bindings_and_calls() {
    test_integer("let a = 5; let b = a * 2; b + a;", 15);
    test_integer("let identity = fn(x) { x; }; identity(5);", 5);
    test_integer("let double = fn(x) { return x * 2; }; double(4);", 8);
    test_integer("fn(x) { x; }(5)", 5);
    test_integer("let x = 1; let f = fn(x) { x }; f(7) + x", 8);
    test_integer(
        "let fact = fn(n) { if (n < 2) { 1 } else { n * fact(n - 1) } }; fact(10);",
        3628800,
    );
    test_null("let a = 1;");
    test_null("");
}

#[test]
fn evaluation_errors() {
    test_error("foobar", "identifier not found: foobar");
    test_error("1 / 0", "division by zero");
    test_error("9223372036854775807 + 1", "integer overflow");
    test_error("-9223372036854775807 - 2", "integer overflow");
    test_error("5(1)", "not a function: INTEGER");
    test_error("let f = fn(x, y) { x }; f(1)", "wrong number of arguments: expected 2, got 1");
    test_error("1.5", "floating-point values are not supported");
    test_error("let f = fn() { f() }; f()", "maximum evaluation depth exceeded");
    test_error("fn(x) { x } == 1", "type mismatch: FUNCTION == INTEGER");
    test_error("true > false", "unknown operator: BOOLEAN > BOOLEAN");
}

#[test]
fn values_render_as_text() {
    assert_eq!(test_eval_text("-42"), "-42");
    assert_eq!(test_eval_text("1 < 2"), "true");
    assert_eq!(test_eval_text("if (false) { 1 }"), "null");
    assert_eq!(test_eval_text("5 + true"), "type mismatch: INTEGER + BOOLEAN");
    assert_eq!(Object::ReturnValue(Box::new(Object::Integer(7))).to_string(), "7");
    assert_eq!(Object::Integer(3).get_type(), ObjectType::Integer);
    assert_eq!(ObjectType::ReturnValue.name(), "RETURN_VALUE");
}

#[test]
fn truthiness() {
    assert!(!is_truthy(&Object::Null));
    assert!(!is_truthy(&Object::Boolean(false)));
    assert!(is_truthy(&Object::Integer(0)));
    assert!(is_truthy(&Object::Boolean(true)));
}

#[test]
fn environment_scopes() {
    let mut env = Environment::new();
    assert!(env.get("x").is_none());
    assert!(env.set("x", Object::Integer(1)).is_none());
    assert_eq!(env.set("x", Object::Integer(2)), Some(Object::Integer(1)));
    let global = env.current();
    let inner = env.new_enclosed(global);
    assert_eq!(env.current(), inner);
    assert_eq!(env.get("x"), Some(Object::Integer(2)));
    env.set("x", Object::Integer(3));
    assert_eq!(env.get("x"), Some(Object::Integer(3)));
    env.set_current(global);
    assert_eq!(env.get("x"), Some(Object::Integer(2)));
}

#[test]
fn program_eval_keeps_bindings_in_the_environment() {
    let mut parser = Parser::from_str("let a = 40; a + 2");
    let program = parser.parse_program();
    let mut env = Environment::new();
    let result = program.eval(&mut env);
    assert_eq!(result, Object::Integer(42));
    assert_eq!(env.get("a"), Some(Object::Integer(40)));
}
