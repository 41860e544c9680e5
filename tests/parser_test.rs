use monkey_interpreter::ast::{
    CallExpression, Expression, FunctionLiteral, Identifier, IfExpression, InfixExpression,
    LetStatement, PrefixExpression, Program, Statement,
};
use monkey_interpreter::parser::Parser;
use monkey_interpreter::token::{Token, TokenType};
use monkey_interpreter::utils::get_stringified_parser_output;

enum Lit {
    Int(i64),
    Float(f64),
    Bool(bool),
    Ident(&'static str),
}

fn check_parse_errors(parser: &Parser) {
    let errors = parser.get_errors();
    assert_eq!(errors.len(), 0, "encountered errors during parsing: {:?}", errors);
}

fn validate_program_length(program: &Program, len: usize) {
    assert_eq!(program.statements.len(), len);
}

fn get_and_assert_expression(stmt: &Statement) -> &Expression {
    match stmt {
        Statement::Expression(e) => &e.expression,
        _ => panic!("expected statement to be ExpressionStatement"),
    }
}

fn get_and_assert_infix_expression(expr: &Expression) -> &InfixExpression {
    match expr {
        Expression::Infix(e) => e,
        _ => panic!("expected expression to be InfixExpression"),
    }
}

fn get_and_assert_prefix_expression(expr: &Expression) -> &PrefixExpression {
    match expr {
        Expression::Prefix(e) => e,
        _ => panic!("expected expression to be PrefixExpression"),
    }
}

fn get_and_assert_if_expression(expr: &Expression) -> &IfExpression {
    match expr {
        Expression::If(e) => e,
        _ => panic!("expected expression to be IfExpression"),
    }
}

fn get_and_assert_function_literal(expr: &Expression) -> &FunctionLiteral {
    match expr {
        Expression::Function(e) => e,
        _ => panic!("expected expression to be FunctionLiteral"),
    }
}

fn get_and_assert_call_expression(expr: &Expression) -> &CallExpression {
    match expr {
        Expression::Call(e) => e,
        _ => panic!("expected expression to be CallExpression"),
    }
}

fn validate_integer_literal(expr: &Expression, value: i64) {
    match expr {
        Expression::Integer(i) => {
            assert_eq!(i.value, value);
            assert_eq!(i.token_literal(), value.to_string());
        }
        _ => panic!("expected expression to be IntegerLiteral"),
    }
}

fn validate_float_literal(expr: &Expression, value: f64) {
    match expr {
        Expression::Float(f) => {
            assert_eq!(f.token_literal().parse::<f64>().unwrap(), value);
            assert_eq!(f.token_literal(), value.to_string());
        }
        _ => panic!("expected expression to be FloatLiteral"),
    }
}

fn validate_boolean_literal(expr: &Expression, value: bool) {
    match expr {
        Expression::Boolean(b) => {
            assert_eq!(b.value, value);
            assert_eq!(b.token_literal(), value.to_string());
        }
        _ => panic!("expected expression to be Boolean"),
    }
}

fn validate_identifier(ident: &Identifier, value: &str) {
    assert_eq!(ident.value, value);
    assert_eq!(ident.token_literal(), value);
}

fn validate_identifier_expression(expr: &Expression, value: &str) {
    match expr {
        Expression::Identifier(i) => validate_identifier(i, value),
        _ => panic!("expected expression to be Identifier"),
    }
}

fn validate_literal_expression(expr: &Expression, expected: &Lit) {
    match expected {
        Lit::Int(v) => validate_integer_literal(expr, *v),
        Lit::Float(v) => validate_float_literal(expr, *v),
        Lit::Bool(v) => validate_boolean_literal(expr, *v),
        Lit::Ident(v) => validate_identifier_expression(expr, v),
    }
}

fn validate_infix_expression(expr: &Expression, left: &Lit, operator: &str, right: &Lit) {
    let expr = get_and_assert_infix_expression(expr);
    validate_literal_expression(&expr.left, left);
    assert_eq!(expr.operator, operator);
    validate_literal_expression(&expr.right, right);
}

fn validate_function_parameters(parameters: &Vec<Identifier>, expected: &[&str]) {
    assert_eq!(parameters.len(), expected.len());
    for (param, name) in parameters.iter().zip(expected.iter()) {
        validate_identifier(param, name);
    }
}

fn rendered(input: &str) -> String {
    let mut parser = Parser::from_str(input);
    let program = parser.parse_program();
    check_parse_errors(&parser);
    program.to_string()
}

#[test]
fn test_operator_precedence_parsing() {
    let test_cases = [
        ("-a * b", "((-a) * b)"),
        ("!-a", "(!(-a))"),
        ("a + b + c", "((a + b) + c)"),
        ("a + b - c", "((a + b) - c)"),
        ("a * b * c", "((a * b) * c)"),
        ("a * b / c", "((a * b) / c)"),
        ("a + b / c", "(a + (b / c))"),
        ("a + b * c + d / e - f", "(((a + (b * c)) + (d / e)) - f)"),
        ("3 + 4; -5 * 5", "(3 + 4); ((-5) * 5)"),
        ("5 > 4 == 3 < 4", "((5 > 4) == (3 < 4))"),
        ("5 < 4 != 3 > 4", "((5 < 4) != (3 > 4))"),
        ("3 + 4 * 5 == 3 * 1 + 4 * 5", "((3 + (4 * 5)) == ((3 * 1) + (4 * 5)))"),
        ("true", "true"),
        ("false", "false"),
        ("3 > 5 == false", "((3 > 5) == false)"),
        ("3 < 5 == true", "((3 < 5) == true)"),
        ("1 + (2 + 3) + 4", "((1 + (2 + 3)) + 4)"),
        ("(5 + 5) * 2", "((5 + 5) * 2)"),
        ("2 / (5 + 5)", "(2 / (5 + 5))"),
        ("-(5 + 5)", "(-(5 + 5))"),
        ("!(true == true)", "(!(true == true))"),
        ("a + add(b * c) + d", "((a + add((b * c))) + d)"),
        (
            "add(a, b, 1, 2 * 3, 4 + 5, add(6, 7 * 8))",
            "add(a, b, 1, (2 * 3), (4 + 5), add(6, (7 * 8)))",
        ),
        ("add(a + b + c * d / f + g)", "add((((a + b) + ((c * d) / f)) + g))"),
    ];

    for (input, expected) in test_cases {
        let program = rendered(input);
        assert_eq!(program.trim_end_matches(";"), expected, "input `{}`", input);
    }
}

#[test]
fn test_parsing_prefix_expression() {
    let test_cases = [
        ("!5", "!", Lit::Int(5)),
        ("-5", "-", Lit::Int(5)),
        ("-123.51", "-", Lit::Float(123.51)),
        ("!my_var", "!", Lit::Ident("my_var")),
    ];

    for (input, operator, right) in test_cases {
        let mut parser = Parser::from_str(input);
        let program = parser.parse_program();
        validate_program_length(&program, 1);

        let expr = get_and_assert_expression(&program.statements[0]);
        let prefix = get_and_assert_prefix_expression(expr);
        assert_eq!(prefix.operator, operator);
        validate_literal_expression(&prefix.right, &right);

        assert_eq!(program.to_string().trim_end_matches(";"), format!("({})", input));
    }
}

#[test]
fn test_parsing_infix_expressions() {
    let test_cases = [
        ("5 + 5", Lit::Int(5), "+", Lit::Int(5)),
        ("5.12 - 25", Lit::Float(5.12), "-", Lit::Int(25)),
        ("a * 12", Lit::Ident("a"), "*", Lit::Int(12)),
        ("a / my_var", Lit::Ident("a"), "/", Lit::Ident("my_var")),
        ("a > 0.1", Lit::Ident("a"), ">", Lit::Float(0.1)),
        ("true < false", Lit::Bool(true), "<", Lit::Bool(false)),
        ("5.55 == false", Lit::Float(5.55), "==", Lit::Bool(false)),
        ("AnotherVar != my_var", Lit::Ident("AnotherVar"), "!=", Lit::Ident("my_var")),
    ];

    for (input, left, operator, right) in test_cases {
        let mut parser = Parser::from_str(input);
        let program = parser.parse_program();
        check_parse_errors(&parser);
        validate_program_length(&program, 1);

        let expr = get_and_assert_expression(&program.statements[0]);
        validate_infix_expression(expr, &left, operator, &right);

        assert_eq!(program.to_string().trim_end_matches(";"), format!("({})", input));
    }
}

#[test]
fn should_parse_if_expression() {
    let input = "if (x < y) { x + 1 };";
    let mut parser = Parser::from_str(input);
    let program = parser.parse_program();
    check_parse_errors(&parser);
    validate_program_length(&program, 1);

    let expr = get_and_assert_expression(&program.statements[0]);
    let if_expr = get_and_assert_if_expression(expr);
    validate_infix_expression(&if_expr.condition, &Lit::Ident("x"), "<", &Lit::Ident("y"));

    assert_eq!(if_expr.consequence.statements.len(), 1);
    let expr = get_and_assert_expression(&if_expr.consequence.statements[0]);
    validate_infix_expression(expr, &Lit::Ident("x"), "+", &Lit::Int(1));

    assert!(if_expr.alternative.is_none());
}

#[test]
fn should_parse_if_else_expression() {
    let input = "if (x < y) { x + 1 } else { 1 };";
    let mut parser = Parser::from_str(input);
    let program = parser.parse_program();
    check_parse_errors(&parser);
    validate_program_length(&program, 1);

    let expr = get_and_assert_expression(&program.statements[0]);
    let if_expr = get_and_assert_if_expression(expr);
    validate_infix_expression(&if_expr.condition, &Lit::Ident("x"), "<", &Lit::Ident("y"));

    assert_eq!(if_expr.consequence.statements.len(), 1);
    let expr = get_and_assert_expression(&if_expr.consequence.statements[0]);
    validate_infix_expression(expr, &Lit::Ident("x"), "+", &Lit::Int(1));

    assert!(if_expr.alternative.is_some());
    let alternative = if_expr.alternative.as_ref().unwrap();
    assert_eq!(alternative.statements.len(), 1);
    let expr = get_and_assert_expression(&alternative.statements[0]);
    validate_integer_literal(expr, 1);
}

#[test]
fn should_parse_function_literal() {
    let input = "fn(x, y) { x + y; }";
    let mut parser = Parser::from_str(input);
    let program = parser.parse_program();
    check_parse_errors(&parser);
    validate_program_length(&program, 1);

    let expr = get_and_assert_expression(&program.statements[0]);
    let function = get_and_assert_function_literal(expr);
    validate_function_parameters(&function.parameters, &["x", "y"]);

    assert_eq!(function.body.statements.len(), 1);
    let expr = get_and_assert_expression(&function.body.statements[0]);
    validate_infix_expression(expr, &Lit::Ident("x"), "+", &Lit::Ident("y"));
}

#[test]
fn should_parse_function_parameters() {
    let test_cases: [(&str, &[&str]); 5] = [
        ("fn() { x };", &[]),
        ("fn(x) { x };", &["x"]),
        ("fn(x, y, z) { x };", &["x", "y", "z"]),
        ("fn(my_var, another_var) {};", &["my_var", "another_var"]),
        ("fn(MyVar, AnotherVar) {};", &["MyVar", "AnotherVar"]),
    ];

    for (input, expected) in test_cases {
        let mut parser = Parser::from_str(input);
        let program = parser.parse_program();
        check_parse_errors(&parser);

        let expr = get_and_assert_expression(&program.statements[0]);
        let function = get_and_assert_function_literal(expr);
        validate_function_parameters(&function.parameters, expected);
    }
}

#[test]
fn should_parse_call_expression_starting_with_literal() {
    let input = "add(1, 2 * 3, 4 + 5)";
    let mut parser = Parser::from_str(input);
    let program = parser.parse_program();
    check_parse_errors(&parser);
    validate_program_length(&program, 1);

    let expr = get_and_assert_expression(&program.statements[0]);
    let call_expr = get_and_assert_call_expression(expr);
    validate_identifier_expression(&call_expr.function, "add");
    assert_eq!(call_expr.arguments.len(), 3);
    validate_literal_expression(&call_expr.arguments[0], &Lit::Int(1));
    validate_infix_expression(&call_expr.arguments[1], &Lit::Int(2), "*", &Lit::Int(3));
    validate_infix_expression(&call_expr.arguments[2], &Lit::Int(4), "+", &Lit::Int(5));
}

#[test]
fn should_parse_call_expression_strting_with_function_literal() {
    let input = "fn(a, b) { a + b }(1, 2)";
    let mut parser = Parser::from_str(input);
    let program = parser.parse_program();
    check_parse_errors(&parser);
    validate_program_length(&program, 1);

    let expr = get_and_assert_expression(&program.statements[0]);
    let call_expr = get_and_assert_call_expression(expr);
    let function = get_and_assert_function_literal(&call_expr.function);
    validate_function_parameters(&function.parameters, &["a", "b"]);
    assert_eq!(call_expr.arguments.len(), 2);
    validate_literal_expression(&call_expr.arguments[0], &Lit::Int(1));
    validate_literal_expression(&call_expr.arguments[1], &Lit::Int(2));
}

#[test]
fn should_parse_call_expression_with_empty_argument_list() {
    let input = "print()";
    let mut parser = Parser::from_str(input);
    let program = parser.parse_program();
    check_parse_errors(&parser);
    validate_program_length(&program, 1);

    let expr = get_and_assert_expression(&program.statements[0]);
    let call_expr = get_and_assert_call_expression(expr);
    validate_identifier_expression(&call_expr.function, "print");
    assert_eq!(call_expr.arguments.len(), 0);
}

#[test]
fn should_parser_call_expression_with_arguments_that_themselves_are_call_expressions() {
    let input = "add(subtract(1, 99.11), fn(x, y) {x + y}(1, 2))";
    let mut parser = Parser::from_str(input);
    let program = parser.parse_program();
    check_parse_errors(&parser);
    validate_program_length(&program, 1);

    let expr = get_and_assert_expression(&program.statements[0]);
    let call_expr = get_and_assert_call_expression(expr);
    validate_identifier_expression(&call_expr.function, "add");
    assert_eq!(call_expr.arguments.len(), 2);

    let call_expr_arg_1 = get_and_assert_call_expression(&call_expr.arguments[0]);
    validate_identifier_expression(&call_expr_arg_1.function, "subtract");
    assert_eq!(call_expr_arg_1.arguments.len(), 2);
    validate_integer_literal(&call_expr_arg_1.arguments[0], 1);
    validate_float_literal(&call_expr_arg_1.arguments[1], 99.11);

    let call_expr_arg_2 = get_and_assert_call_expression(&call_expr.arguments[1]);
    assert_eq!(call_expr_arg_2.arguments.len(), 2);
    let function = get_and_assert_function_literal(&call_expr_arg_2.function);
    validate_function_parameters(&function.parameters, &["x", "y"]);
    let body_expr = get_and_assert_expression(&function.body.statements[0]);
    validate_infix_expression(body_expr, &Lit::Ident("x"), "+", &Lit::Ident("y"));
    validate_integer_literal(&call_expr_arg_2.arguments[0], 1);
    validate_integer_literal(&call_expr_arg_2.arguments[1], 2);
}

#[test]
fn should_parse_let_statements() {
    let input = "
        let x = 5;
        let y = 10;
        let foobar = 12345;
        ";

    let mut parser = Parser::from_str(input);
    let program = parser.parse_program();
    check_parse_errors(&parser);
    validate_program_length(&program, 3);

    for (i, name) in ["x", "y", "foobar"].iter().enumerate() {
        let stmt = &program.statements[i];
        assert_eq!(stmt.token_literal(), "let");
        match stmt {
            Statement::Let(l) => validate_identifier(&l.name, name),
            _ => panic!("expected LetStatement"),
        }
    }
}

#[test]
fn should_parse_return_statements() {
    let input = "
        return 1;
        return 10;
        return 10000;
        ";

    let mut parser = Parser::from_str(input);
    let program = parser.parse_program();
    validate_program_length(&program, 3);
    check_parse_errors(&parser);

    for stmt in &program.statements {
        assert!(matches!(stmt, Statement::Return(_)));
        assert_eq!(stmt.token_literal(), "return");
    }
}

#[test]
fn should_parse_boolean_literals() {
    let input = "
        true;
        false;
        ";

    let mut parser = Parser::from_str(input);
    let program = parser.parse_program();
    validate_program_length(&program, 2);
    check_parse_errors(&parser);

    for (stmt, expected) in program.statements.iter().zip([true, false].iter()) {
        let expr = get_and_assert_expression(stmt);
        validate_boolean_literal(expr, *expected);
    }
}

#[test]
fn should_parse_identifier_expression() {
    let input = "foobar;";
    let mut parser = Parser::from_str(input);
    let program = parser.parse_program();
    check_parse_errors(&parser);
    validate_program_length(&program, 1);

    let expr = get_and_assert_expression(&program.statements[0]);
    validate_identifier_expression(expr, "foobar");
    assert_eq!(program.to_string().trim_end_matches(";"), "foobar");
}

#[test]
fn should_parse_integer_literal_expression() {
    let input = "5;";
    let mut parser = Parser::from_str(input);
    let program = parser.parse_program();
    check_parse_errors(&parser);
    validate_program_length(&program, 1);

    let expr = get_and_assert_expression(&program.statements[0]);
    validate_integer_literal(expr, 5);
    assert_eq!(program.to_string().trim_end_matches(";"), "5");
}

#[test]
fn should_record_parsing_errors() {
    let input = "
        let x 5;
        let = 10;
        let 12345;
        ";

    let mut parser = Parser::from_str(input);
    parser.parse_program();
    assert!(
        parser.get_errors().len() >= 3,
        "expected at least 3 errors, got={}",
        parser.get_errors().len()
    );
}

#[test]
fn test_to_string_method_manual_let_statement() {
    let identifier = Identifier {
        token: Token::from_str(TokenType::IDENT, "my_var"),
        value: "my_var".to_string(),
    };

    let expression = Expression::Identifier(Identifier {
        token: Token::from_str(TokenType::IDENT, "another_var"),
        value: "another_var".to_string(),
    });

    let let_statement =
        LetStatement::new(Token::from_str(TokenType::LET, "let"), identifier, expression);

    let program = Program::from_statements(vec![Statement::Let(let_statement)]);
    assert_eq!(program.to_string(), "let my_var = another_var;");
}

#[test]
fn expected_token_error_message() {
    let mut parser = Parser::from_str("let x 5;");
    parser.parse_program();
    assert_eq!(parser.get_errors()[0], "expected next token to be ASSIGN, got=INT");
}

#[test]
fn no_prefix_error_message() {
    let mut parser = Parser::from_str("*");
    let program = parser.parse_program();
    assert_eq!(program.statements.len(), 0);
    assert_eq!(parser.get_errors()[0], "no prefix parse function found for `ASTERISK`");
}

#[test]
fn integer_that_does_not_fit_is_an_error() {
    let mut parser = Parser::from_str("9223372036854775808");
    let program = parser.parse_program();
    assert_eq!(program.statements.len(), 0);
    assert_eq!(parser.get_errors()[0], "could not parse `9223372036854775808` into integer");

    let mut parser = Parser::from_str("9223372036854775807");
    let program = parser.parse_program();
    check_parse_errors(&parser);
    validate_integer_literal(get_and_assert_expression(&program.statements[0]), i64::MAX);
}

#[test]
fn unclosed_block_is_an_error_not_a_hang() {
    let mut parser = Parser::from_str("if (x) { x");
    let program = parser.parse_program();
    assert_eq!(program.statements.len(), 0);
    assert!(!parser.get_errors().is_empty());

    let mut parser = Parser::from_str("(a * ) + 1");
    parser.parse_program();
    assert!(!parser.get_errors().is_empty());
}

#[test]
fn rendering_a_parse_is_a_fixpoint() {
    let inputs = [
        "a + b * c",
        "-a * b; !-a",
        "let x = 1 + 2 * 3;",
        "return add(1, fn(x, y) { x * y; }(2, 3));",
        "if ((a < b)) { a } else { b };",
        "fn(x) { if ((x > 1)) { return x; }; x }",
        "if (x) { y }",
        "if (true) { 1 } else { f(2, 3) }",
    ];
    for input in inputs {
        let once = rendered(input);
        let twice = rendered(&once);
        assert_eq!(once, twice, "input `{}`", input);
    }
    assert_eq!(get_stringified_parser_output("1 + 2"), "(1 + 2);");
}

#[test]
fn initialize_precedences_lists_every_infix_operator() {
    let table = Parser::initialize_precedences();
    assert_eq!(table.len(), 9);
    assert!(table.contains(&(TokenType::ASTERISK, 5)));
    assert!(table.contains(&(TokenType::LPAREN, 7)));
    assert!(table.contains(&(TokenType::EQ, 2)));
}

#[test]
fn parse_collects_every_error_and_keeps_going() {
    let (program, errors) = monkey_interpreter::parser::parse("let x = 5; let = 1;");
    assert_eq!(program.to_string(), "let x = 5; 1;");
    assert_eq!(
        errors,
        vec![
            "expected next token to be IDENT, got=ASSIGN".to_string(),
            "no prefix parse function found for `ASSIGN`".to_string(),
        ]
    );
}

#[test]
fn call_and_parameter_list_errors() {
    let (_, errors) = monkey_interpreter::parser::parse("add(1 2)");
    assert_eq!(
        errors[0],
        "Error while parsing call expression arguments. Expected `,` or `)`, got=`2`"
    );
    let (_, errors) = monkey_interpreter::parser::parse("fn(1) { x }");
    assert_eq!(
        errors[0],
        "Error while parsing function parameters. Expected next token to be `Identifier`, got=`1`"
    );
    let (_, errors) = monkey_interpreter::parser::parse("if (x) { x");
    assert_eq!(errors[0], "Error while parsing `BlockStatement`. Expected `}`, got=`\0`");
}

#[test]
fn skipping_to_the_semicolon() {
    let mut parser = Parser::from_str("a b c; d");
    parser.skip_until_semicolon();
    let program = parser.parse_program();
    assert_eq!(program.to_string(), "d;");
    assert_eq!(parser.get_errors().len(), 1);
    assert_eq!(parser.get_errors()[0], "no prefix parse function found for `SEMICOLON`");
}

#[test]
fn if_renders_its_condition_in_parentheses() {
    assert_eq!(rendered("if (x) { y }"), "if (x) { y; };");
}

#[test]
fn if_expression_error_messages() {
    let (_, errors) = monkey_interpreter::parser::parse("if x { y }");
    assert_eq!(errors[0], "expected next token to be LPAREN, got=IDENT");
    assert_eq!(errors[1], "missing `(` after `if`");
    let (_, errors) = monkey_interpreter::parser::parse("if (x { y }");
    assert_eq!(errors[0], "expected next token to be RPAREN, got=LBRACE");
    assert_eq!(errors[1], "missing closing `)` in `if`'s condition");
}
