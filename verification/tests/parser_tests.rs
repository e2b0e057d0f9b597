use lunala::errors::ErrorTypes;
use lunala::expressions::{ExpType, Literal};
use lunala::parser::Parser;
use lunala::scanner::Scanner;
use lunala::statement::{Statement, StatementTrait};
use lunala::tokens::TokenType;

fn parse_source(source: &str) -> Result<Vec<Statement>, lunala::errors::LunalaErrors> {
    let mut scanner = Scanner::new(source);
    let tokens = scanner.scan_tokens()?;
    let mut parser = Parser::new(tokens);
    parser.parse()
}

fn only_expression(source: &str) -> ExpType {
    let statements = parse_source(source).unwrap();
    assert_eq!(statements.len(), 1);
    statements[0].expression()
}

#[test]
fn term_folds_to_the_left() {
    let e = only_expression("1 - 2 - 3;");
    match e {
        ExpType::Binary {
            operator,
            left,
            right,
        } => {
            assert!(matches!(operator.token_type(), TokenType::Minus));
            assert!(matches!(
                *right,
                ExpType::Literal(Literal::Number { .. })
            ));
            match *left {
                ExpType::Binary { operator, .. } => {
                    assert!(matches!(operator.token_type(), TokenType::Minus));
                }
                other => panic!("left side should be the earlier subtraction, got {:?}", other),
            }
        }
        other => panic!("expected a binary expression, got {:?}", other),
    }
}

#[test]
fn factor_binds_tighter_than_term() {
    let e = only_expression("2 + 3 * 4;");
    match e {
        ExpType::Binary {
            operator,
            left,
            right,
        } => {
            assert!(matches!(operator.token_type(), TokenType::Plus));
            assert!(matches!(*left, ExpType::Literal(Literal::Number { .. })));
            match *right {
                ExpType::Binary { operator, .. } => {
                    assert!(matches!(operator.token_type(), TokenType::Star));
                }
                other => panic!("right side should be the product, got {:?}", other),
            }
        }
        other => panic!("expected a binary expression, got {:?}", other),
    }
}

#[test]
fn grouping_parses_as_a_grouping_node() {
    let e = only_expression("(2 + 3) * 4;");
    match e {
        ExpType::Binary {
            operator, left, ..
        } => {
            assert!(matches!(operator.token_type(), TokenType::Star));
            assert!(matches!(*left, ExpType::Grouping { .. }));
        }
        other => panic!("expected a binary expression, got {:?}", other),
    }
}

#[test]
fn unary_recurses() {
    let e = only_expression("--5;");
    match e {
        ExpType::Unary {
            operator,
            expression,
        } => {
            assert!(matches!(operator.token_type(), TokenType::Minus));
            assert!(matches!(*expression, ExpType::Unary { .. }));
        }
        other => panic!("expected a unary expression, got {:?}", other),
    }
}

#[test]
fn equality_applies_once_and_rejects_chaining() {
    // `1 == 2` parses; a third operand leaves the `== 3` unconsumed, so the
    // statement's semicolon is not found.
    assert!(parse_source("1 == 2;").is_ok());
    let err = parse_source("1 == 2 == 3;").unwrap_err();
    assert!(matches!(err.e_type, ErrorTypes::Error(_)));
}

#[test]
fn comparison_applies_once_and_rejects_chaining() {
    assert!(parse_source("1 < 2;").is_ok());
    let err = parse_source("1 < 2 < 3;").unwrap_err();
    assert!(matches!(err.e_type, ErrorTypes::Error(_)));
}

#[test]
fn missing_operand_is_expression_expected() {
    let err = parse_source("1 + ;").unwrap_err();
    match err.e_type {
        ErrorTypes::ExpressionExpected(text) => assert_eq!(text, "Semicolon"),
        other => panic!("expected ExpressionExpected, got {:?}", other),
    }
}

#[test]
fn missing_closing_bracket_is_consume_error() {
    let err = parse_source("(1 + 2;").unwrap_err();
    match err.e_type {
        ErrorTypes::Error(message) => {
            assert!(message.contains("RightBracket"));
            assert!(message.contains("Expected a `)` after expression."));
        }
        other => panic!("expected a consume error, got {:?}", other),
    }
}

#[test]
fn missing_semicolon_is_consume_error() {
    let err = parse_source("1 + 2").unwrap_err();
    match err.e_type {
        ErrorTypes::Error(message) => {
            assert!(message.contains("Semicolon"));
            assert!(message.contains("Expected a `;` after value."));
        }
        other => panic!("expected a consume error, got {:?}", other),
    }
}

#[test]
fn comment_token_is_not_an_expression() {
    let err = parse_source("// just a note").unwrap_err();
    assert!(matches!(err.e_type, ErrorTypes::ExpressionExpected(_)));
}

#[test]
fn print_statement_and_expression_statement_are_distinguished() {
    let statements = parse_source("print 1; 2;").unwrap();
    assert_eq!(statements.len(), 2);
    assert!(matches!(statements[0], Statement::Print(_)));
    assert!(matches!(statements[1], Statement::Expression(_)));
}

#[test]
fn string_literal_parses_to_string_literal_node() {
    let e = only_expression("\"hi\";");
    match e {
        ExpType::Literal(Literal::String(s)) => assert_eq!(s, "hi"),
        other => panic!("expected a string literal, got {:?}", other),
    }
}

#[test]
fn number_literal_parses_to_its_value_and_keeps_its_text() {
    let e = only_expression("12.5;");
    match e {
        ExpType::Literal(Literal::Number { value, text }) => {
            assert_eq!(f64::from_bits(value), 12.5f64);
            assert_eq!(text, "12.5");
        }
        other => panic!("expected a number literal, got {:?}", other),
    }
}
