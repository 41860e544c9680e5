use monkey_interpreter::ast::{Boolean, Expression, Statement};
use monkey_interpreter::lexer::Lexer;
use monkey_interpreter::parser::Parser;
use monkey_interpreter::token::{Token, TokenType};

fn first_expression(input: &str) -> Expression {
    let lex = Lexer::new(&input.to_string());
    let mut parser = Parser::new(lex);
    let mut program = parser.parse_program();
    match program.statements.remove(0) {
        Statement::Expression(e) => e.expression,
        _ => panic!("Statement is not Expression Statement"),
    }
}

fn check_boolean(expr: &Expression, value: bool) {
    match expr {
        Expression::Boolean(b) => {
            assert_eq!(b.value, value);
            assert_eq!(b.token_literal(), value.to_string());
        }
        _ => panic!("expected expression to be Boolean"),
    }
}

#[test]
fn test_validate_infix_expression_helper() {
    let expr = first_expression("1 + 2");
    match &expr {
        Expression::Infix(i) => {
            assert!(matches!(&*i.left, Expression::Integer(l) if l.value == 1));
            assert_eq!(i.operator, "+");
            assert!(matches!(&*i.right, Expression::Integer(r) if r.value == 2));
        }
        _ => panic!("expected expression {} to be InfixExpression", expr.to_string()),
    }

    let expr = first_expression("true + false");
    match &expr {
        Expression::Infix(i) => {
            check_boolean(&i.left, true);
            assert_eq!(i.operator, "+");
            check_boolean(&i.right, false);
        }
        _ => panic!("expected expression {} to be InfixExpression", expr.to_string()),
    }
}

#[test]
fn test_validate_identifier_helper() {
    let lex = Lexer::new(&"x;".to_string());
    let mut parser = Parser::new(lex);
    let program = parser.parse_program();
    assert_eq!(program.statements.len(), 1);
    match &program.statements[0] {
        Statement::Expression(e) => match &e.expression {
            Expression::Identifier(i) => {
                assert_eq!(i.value, "x");
                assert_eq!(i.token_literal(), "x");
            }
            _ => panic!("expected Identifier"),
        },
        _ => panic!("Statement is not Expression Statement"),
    }
}

#[test]
fn test_validate_boolean_helper() {
    let expr = Expression::Boolean(Boolean::new(Token::from_str(TokenType::TRUE, "true"), true));
    check_boolean(&expr, true);

    let expr = Expression::Boolean(Boolean::new(Token::from_str(TokenType::FALSE, "false"), false));
    check_boolean(&expr, false);

    let expr = first_expression("true");
    check_boolean(&expr, true);
}
