use lunala::expressions::{ExpType, Literal};
use lunala::interpreter::interpret;
use lunala::parser::Parser;
use lunala::scanner::Scanner;
use lunala::statement::{Statement, StatementTrait};

fn parse_expression(source: &str) -> ExpType {
    let mut scanner = Scanner::new(source);
    let tokens = scanner.scan_tokens().unwrap();
    let mut parser = Parser::new(tokens);
    let statements = parser.parse().unwrap();
    assert_eq!(statements.len(), 1);
    statements[0].expression()
}

/// Structural equivalence of expression trees, ignoring token lines.
fn exp_eq(a: &ExpType, b: &ExpType) -> bool {
    match (a, b) {
        (ExpType::Literal(la), ExpType::Literal(lb)) => match (la, lb) {
            (
                Literal::Number { value: va, text: ta },
                Literal::Number { value: vb, text: tb },
            ) => va == vb && ta == tb,
            (Literal::Bool(x), Literal::Bool(y)) => x == y,
            (Literal::String(x), Literal::String(y)) => x == y,
            _ => false,
        },
        (
            ExpType::Unary {
                operator: oa,
                expression: ea,
            },
            ExpType::Unary {
                operator: ob,
                expression: eb,
            },
        ) => oa.token_type() == ob.token_type() && exp_eq(ea, eb),
        (
            ExpType::Binary {
                operator: oa,
                left: la,
                right: ra,
            },
            ExpType::Binary {
                operator: ob,
                left: lb,
                right: rb,
            },
        ) => oa.token_type() == ob.token_type() && exp_eq(la, lb) && exp_eq(ra, rb),
        (
            ExpType::Grouping { expression: ea },
            ExpType::Grouping { expression: eb },
        ) => exp_eq(ea, eb),
        _ => false,
    }
}

fn round_trips(source: &str) {
    let e = parse_expression(source);
    let rendered = e.get_string();
    let mut with_semicolon = rendered.clone();
    with_semicolon.push(';');
    let reparsed = parse_expression(&with_semicolon);
    assert!(
        exp_eq(&e, &reparsed),
        "{:?} did not survive the round trip through {:?}",
        source,
        rendered
    );
    assert_eq!(rendered, reparsed.get_string());
}

#[test]
fn statements_are_separated_and_only_print_writes() {
    let outputs = interpret("print 1+1; 2+2;").unwrap();
    assert_eq!(outputs, vec![String::from("2")]);
}

#[test]
fn statement_kinds_of_a_two_statement_program() {
    let mut scanner = Scanner::new("print 1+1; 2+2;");
    let tokens = scanner.scan_tokens().unwrap();
    let mut parser = Parser::new(tokens);
    let statements = parser.parse().unwrap();
    assert_eq!(statements.len(), 2);
    assert!(matches!(statements[0], Statement::Print(_)));
    assert!(matches!(statements[1], Statement::Expression(_)));
}

#[test]
fn print_outputs_come_in_order() {
    let outputs = interpret("print 3; print \"two\"; print true;").unwrap();
    assert_eq!(
        outputs,
        vec![
            String::from("3"),
            String::from("two"),
            String::from("true")
        ]
    );
}

#[test]
fn string_output_has_no_quotes() {
    let outputs = interpret("print \"abc\";").unwrap();
    assert_eq!(outputs, vec![String::from("abc")]);
}

#[test]
fn fractional_output_renders_decimally() {
    let outputs = interpret("print 7 / 2;").unwrap();
    assert_eq!(outputs, vec![String::from("3.5")]);
}

#[test]
fn first_error_aborts_the_run() {
    let err = interpret("print 1; print !1; print 2;").unwrap_err();
    assert!(matches!(
        err.e_type,
        lunala::errors::ErrorTypes::NotABooleanValue(_)
    ));
}

#[test]
fn whole_pipeline_reports_lexical_errors() {
    let err = interpret("print 1 @ 2;").unwrap_err();
    match err.e_type {
        lunala::errors::ErrorTypes::InvalidToken(text) => assert_eq!(text, "@"),
        other => panic!("expected InvalidToken, got {:?}", other),
    }
}

#[test]
fn render_then_reparse_keeps_structure() {
    round_trips("1 - 2 - 3;");
    round_trips("2 + 3 * 4;");
    round_trips("(2 + 3) * 4;");
    round_trips("-5;");
    round_trips("!true;");
    round_trips("--12.5;");
    round_trips("\"abc\";");
    round_trips("1 == 2;");
    round_trips("(1 < 2) == true;");
    round_trips("((1));");
}

#[test]
fn rendering_uses_source_spelling() {
    let e = parse_expression("1 - 2 - 3;");
    assert_eq!(e.get_string(), "1 - 2 - 3");
    let g = parse_expression("(2 + 3) * 4;");
    assert_eq!(g.get_string(), "(2 + 3) * 4");
    let s = parse_expression("\"abc\";");
    assert_eq!(s.get_string(), "\"abc\"");
}

#[test]
fn statement_description_names_its_kind() {
    let mut scanner = Scanner::new("print 1; 2;");
    let tokens = scanner.scan_tokens().unwrap();
    let mut parser = Parser::new(tokens);
    let statements = parser.parse().unwrap();
    assert_eq!(statements[0].get_string(), "Print(1)");
    assert_eq!(statements[1].get_string(), "Expression(2)");
}

#[test]
fn error_messages_carry_kind_and_line() {
    let err = interpret("1 +\n@;").unwrap_err();
    assert_eq!(err.message(), "Invalid token: `@` at line 2");
    let err = interpret("\"open").unwrap_err();
    assert_eq!(err.message(), "Unterminated string at line 1");
    let err = interpret("\"a\" + 1;").unwrap_err();
    assert_eq!(
        err.message(),
        "Cannot convert `a` to a number at line 1"
    );
    let err = interpret("1 + ;").unwrap_err();
    assert_eq!(
        err.message(),
        "Expected an expression, got: Semicolon at line 1"
    );
}

#[test]
fn invalid_unary_message_renders_the_operand() {
    let err = interpret("-(5);").unwrap_err();
    assert_eq!(
        err.message(),
        "Invalid unary expression: [Minus, (5)] at line 1"
    );
}

#[test]
fn evaluator_errors_carry_the_operator_line() {
    let err = interpret("print 1;\n\"a\" + 1;").unwrap_err();
    assert_eq!(err.line, 2);
    assert!(matches!(
        err.e_type,
        lunala::errors::ErrorTypes::ErrorNotANumber(..)
    ));
    let err = interpret("print 1;\nprint 2;\n!3;").unwrap_err();
    assert_eq!(err.line, 3);
    assert!(matches!(
        err.e_type,
        lunala::errors::ErrorTypes::NotABooleanValue(_)
    ));
}
