use lunala::errors::ErrorTypes;
use lunala::expressions::{ExpType, Literal};
use lunala::interpreter::{Interpreter, Object};
use lunala::tokens::{Token, TokenType};
use lunala::parser::Parser;
use lunala::scanner::Scanner;
use lunala::statement::StatementTrait;

fn eval_source(source: &str) -> Result<Object, lunala::errors::LunalaErrors> {
    let mut scanner = Scanner::new(source);
    let tokens = scanner.scan_tokens()?;
    let mut parser = Parser::new(tokens);
    let statements = parser.parse()?;
    assert_eq!(statements.len(), 1);
    let expression = statements[0].expression();
    Interpreter::visit_expression(&expression)
}

fn eval_number(source: &str) -> f64 {
    match eval_source(source).unwrap() {
        Object::Number(bits) => f64::from_bits(bits),
        other => panic!("expected a number, got {:?}", other),
    }
}

#[test]
fn subtraction_is_left_associative() {
    assert_eq!(eval_number("1 - 2 - 3;"), -4.0);
}

#[test]
fn multiplication_binds_tighter_than_addition() {
    assert_eq!(eval_number("2 + 3 * 4;"), 14.0);
}

#[test]
fn grouping_evaluates_first() {
    assert_eq!(eval_number("(2 + 3) * 4;"), 20.0);
}

#[test]
fn unary_minus_on_a_literal_number() {
    assert_eq!(eval_number("-5 + 15;"), 10.0);
}

#[test]
fn bang_on_true_is_false() {
    match eval_source("!true;").unwrap() {
        Object::Bool(b) => assert!(!b),
        other => panic!("expected a boolean, got {:?}", other),
    }
}

#[test]
fn bang_on_false_is_true() {
    match eval_source("!false;").unwrap() {
        Object::Bool(b) => assert!(b),
        other => panic!("expected a boolean, got {:?}", other),
    }
}

#[test]
fn bang_on_a_string_is_not_a_boolean_value() {
    let err = eval_source("!\"x\";").unwrap_err();
    assert!(matches!(err.e_type, ErrorTypes::NotABooleanValue(_)));
}

#[test]
fn negating_a_grouping_is_an_invalid_unary_expression() {
    let err = eval_source("-(5);").unwrap_err();
    assert!(matches!(
        err.e_type,
        ErrorTypes::InvalidUnaryExpression(_, _)
    ));
}

#[test]
fn negating_a_boolean_literal_is_not_a_number() {
    let err = eval_source("-true;").unwrap_err();
    assert!(matches!(err.e_type, ErrorTypes::ErrorNotANumber(_, _)));
}

#[test]
fn adding_a_string_is_not_a_number() {
    let err = eval_source("\"a\" + 1;").unwrap_err();
    match err.e_type {
        ErrorTypes::ErrorNotANumber(text, reason) => {
            assert_eq!(text, "a");
            assert!(reason.is_none());
        }
        other => panic!("expected ErrorNotANumber, got {:?}", other),
    }
}

#[test]
fn equality_across_kinds_is_false_without_error() {
    match eval_source("1 == \"1\";").unwrap() {
        Object::Bool(b) => assert!(!b),
        other => panic!("expected a boolean, got {:?}", other),
    }
}

#[test]
fn inequality_across_kinds_is_true_without_error() {
    match eval_source("true != 1;").unwrap() {
        Object::Bool(b) => assert!(b),
        other => panic!("expected a boolean, got {:?}", other),
    }
}

#[test]
fn same_kind_equality_compares_by_value() {
    assert!(matches!(
        eval_source("\"ab\" == \"ab\";").unwrap(),
        Object::Bool(true)
    ));
    assert!(matches!(
        eval_source("\"ab\" == \"ac\";").unwrap(),
        Object::Bool(false)
    ));
    assert!(matches!(
        eval_source("true == true;").unwrap(),
        Object::Bool(true)
    ));
    assert!(matches!(
        eval_source("2 == 2;").unwrap(),
        Object::Bool(true)
    ));
}

#[test]
fn division_yields_float_quotients() {
    assert_eq!(eval_number("7 / 2;"), 3.5);
}

#[test]
fn division_by_zero_is_infinity_not_an_error() {
    assert_eq!(eval_number("1 / 0;"), f64::INFINITY);
}

#[test]
fn fraction_arithmetic_matches_binary64() {
    // 0.1 + 0.2 in binary64 is not exactly 0.3
    assert_eq!(eval_number("0.1 + 0.2;"), 0.1f64 + 0.2f64);
    assert!(matches!(
        eval_source("0.1 + 0.2 == 0.3;").unwrap(),
        Object::Bool(false)
    ));
}

#[test]
fn comparisons_require_numbers() {
    assert!(matches!(
        eval_source("2 < 3;").unwrap(),
        Object::Bool(true)
    ));
    assert!(matches!(
        eval_source("2 >= 3;").unwrap(),
        Object::Bool(false)
    ));
    assert!(matches!(
        eval_source("3 <= 3;").unwrap(),
        Object::Bool(true)
    ));
    assert!(matches!(
        eval_source("4 > 3;").unwrap(),
        Object::Bool(true)
    ));
    let err = eval_source("\"a\" < 1;").unwrap_err();
    assert!(matches!(err.e_type, ErrorTypes::ErrorNotANumber(_, _)));
}

#[test]
fn left_operand_fails_before_right() {
    // both sides are bad; the left one decides the error text
    let err = eval_source("\"l\" + \"r\";").unwrap_err();
    match err.e_type {
        ErrorTypes::ErrorNotANumber(text, _) => assert_eq!(text, "l"),
        other => panic!("expected ErrorNotANumber, got {:?}", other),
    }
}

#[test]
fn interpret_reduces_an_expression_wrapper() {
    let mut scanner = Scanner::new("2 * 21;");
    let tokens = scanner.scan_tokens().unwrap();
    let mut parser = Parser::new(tokens);
    let statements = parser.parse().unwrap();
    let expression = lunala::expressions::Expression::new(statements[0].expression());
    match Interpreter::interpret(expression).unwrap() {
        Object::Number(bits) => assert_eq!(f64::from_bits(bits), 42.0),
        other => panic!("expected a number, got {:?}", other),
    }
}

#[test]
fn object_equality_on_nan_is_false() {
    let nan = Object::Number(f64::NAN.to_bits());
    let same = Object::Number(f64::NAN.to_bits());
    assert!(!Interpreter::equal(&nan, &same));
}

#[test]
fn object_equality_on_signed_zeroes_is_true() {
    let pos = Object::Number(0.0f64.to_bits());
    let neg = Object::Number((-0.0f64).to_bits());
    assert!(Interpreter::equal(&pos, &neg));
}

#[test]
fn a_non_operator_token_is_not_a_binary_operator() {
    let bad = ExpType::Binary {
        operator: Token::new(TokenType::Dot, None, 1),
        left: Box::new(ExpType::Literal(Literal::Bool(true))),
        right: Box::new(ExpType::Literal(Literal::Bool(true))),
    };
    let err = Interpreter::visit_expression(&bad).unwrap_err();
    match err.e_type {
        ErrorTypes::Error(message) => assert_eq!(message, "Not a binary operator"),
        other => panic!("expected the catch-all error, got {:?}", other),
    }
}

#[test]
fn a_malformed_number_token_reports_its_reason() {
    let token = Token::new(TokenType::Number, Some(String::from("abc")), 1);
    let err = Literal::new_number(&token).unwrap_err();
    match err.e_type {
        ErrorTypes::ErrorNotANumber(text, reason) => {
            assert_eq!(text, "abc");
            assert!(reason.is_some());
        }
        other => panic!("expected ErrorNotANumber, got {:?}", other),
    }
}
