use rlox::error_reporter::ErrorReporter;
use rlox::grammar::{BinaryExpr, BinaryOp, Expr, GroupingExpr, Literal, LiteralExpr, UnaryExpr, UnaryOp};
use rlox::interpreter::Interpreter;
use rlox::pipeline::run;

/// 32-bit floating-point arithmetic and ordering on numbers written in
/// decimal.
fn f32_numeric(op: BinaryOp, a: String, b: String) -> Literal {
    let x: f32 = a.parse().unwrap();
    let y: f32 = b.parse().unwrap();
    match op {
        BinaryOp::Plus => Literal::Number((x + y).to_string()),
        BinaryOp::Minus => Literal::Number((x - y).to_string()),
        BinaryOp::Multiply => Literal::Number((x * y).to_string()),
        BinaryOp::Divide => Literal::Number((x / y).to_string()),
        BinaryOp::Equal => Literal::Boolean(x == y),
        BinaryOp::NotEqual => Literal::Boolean(x != y),
        BinaryOp::LessThan => Literal::Boolean(x < y),
        BinaryOp::LessThanOrEqual => Literal::Boolean(x <= y),
        BinaryOp::GreaterThan => Literal::Boolean(x > y),
        BinaryOp::GreaterThanOrEqual => Literal::Boolean(x >= y),
    }
}

fn eval_source(source: &str) -> (Option<Literal>, ErrorReporter) {
    let mut reporter = ErrorReporter::new();
    let value = run(source.to_string(), &mut reporter, &f32_numeric);
    (value, reporter)
}

fn value_of(source: &str) -> Literal {
    let (value, reporter) = eval_source(source);
    assert!(reporter.diagnostics.is_empty(), "{:?}", reporter.diagnostics);
    value.unwrap()
}

fn failure_of(source: &str) -> Vec<String> {
    let (value, reporter) = eval_source(source);
    assert_eq!(value, None);
    assert!(reporter.had_error);
    assert_eq!(reporter.exit_code, Some(65));
    reporter.diagnostics
}

fn number(text: &str) -> Literal {
    Literal::Number(text.to_string())
}

#[test]
fn evaluate_expected_values() {
    assert_eq!(value_of("1 + 2 * 3"), number("7"));
    assert_eq!(value_of("!true"), Literal::Boolean(false));
    assert_eq!(value_of("\"a\" + \"b\""), Literal::String("ab".to_string()));
}

#[test]
fn evaluate_subtraction_associates_left() {
    assert_eq!(value_of("8 - 4 - 2"), number("2"));
    assert_eq!(value_of("8 / 4 / 2"), number("1"));
}

#[test]
fn evaluate_unary_minus_binds_tighter() {
    assert_eq!(value_of("-1 - 2"), number("-3"));
}

#[test]
fn evaluate_type_error_on_plus() {
    assert_eq!(
        failure_of("true + 1"),
        vec!["[line 1] Error: Cannot perform 'Plus' on operands 'true' and '1'".to_string()]
    );
}

#[test]
fn evaluate_no_cross_type_equality() {
    assert_eq!(
        failure_of("\"a\" == 1"),
        vec!["[line 1] Error: Cannot perform 'Equal' on operands 'a' and '1'".to_string()]
    );
    assert_eq!(
        failure_of("nil != false"),
        vec!["[line 1] Error: Cannot perform 'NotEqual' on operands 'nil' and 'false'".to_string()]
    );
}

#[test]
fn evaluate_grouping_is_transparent() {
    assert_eq!(value_of("(1 + 2)"), value_of("1 + 2"));
    assert_eq!(value_of("(1 + 2)"), number("3"));
    assert_eq!(value_of("(2 + 3) * 4"), number("20"));
}

#[test]
fn evaluate_grouping_tree_directly() {
    let inner = || {
        Expr::BinaryExpr(BinaryExpr {
            left: Box::new(Expr::LiteralExpr(LiteralExpr(number("1")))),
            op: BinaryOp::Plus,
            line: 1,
            right: Box::new(Expr::LiteralExpr(LiteralExpr(number("2")))),
        })
    };
    let grouped = Expr::GroupingExpr(GroupingExpr(Box::new(inner())));
    let interpreter = Interpreter;
    let a = interpreter.evaluate(&grouped, &f32_numeric).ok().unwrap();
    let b = interpreter.evaluate(&inner(), &f32_numeric).ok().unwrap();
    assert_eq!(a, b);
    assert_eq!(a, number("3"));
}

#[test]
fn evaluate_negation() {
    assert_eq!(value_of("-5"), number("-5"));
    assert_eq!(value_of("--5"), number("5"));
    assert_eq!(value_of("-(2 - 7)"), number("5"));
    assert_eq!(value_of("!!false"), Literal::Boolean(false));
}

#[test]
fn evaluate_unary_type_errors() {
    assert_eq!(
        failure_of("!1"),
        vec!["[line 1] Error: Cannot perform 'Not' on operand '1'".to_string()]
    );
    assert_eq!(
        failure_of("-\"x\""),
        vec!["[line 1] Error: Cannot perform 'Negate' on operand 'x'".to_string()]
    );
}

#[test]
fn evaluate_comparisons_and_equalities() {
    assert_eq!(value_of("1 < 2"), Literal::Boolean(true));
    assert_eq!(value_of("2 <= 2"), Literal::Boolean(true));
    assert_eq!(value_of("1 > 2"), Literal::Boolean(false));
    assert_eq!(value_of("3 >= 4"), Literal::Boolean(false));
    assert_eq!(value_of("1.0 == 1"), Literal::Boolean(true));
    assert_eq!(value_of("1 != 2"), Literal::Boolean(true));
    assert_eq!(value_of("\"ab\" == \"ab\""), Literal::Boolean(true));
    assert_eq!(value_of("\"ab\" != \"ab\""), Literal::Boolean(false));
    assert_eq!(value_of("true == false"), Literal::Boolean(false));
    assert_eq!(value_of("true != false"), Literal::Boolean(true));
    assert_eq!(value_of("1 < 2 == true"), Literal::Boolean(true));
}

#[test]
fn evaluate_string_ordering_is_a_type_error() {
    assert_eq!(
        failure_of("\"a\" < \"b\""),
        vec!["[line 1] Error: Cannot perform 'LessThan' on operands 'a' and 'b'".to_string()]
    );
}

#[test]
fn evaluate_division_by_zero_follows_floating_point() {
    assert_eq!(value_of("1 / 0"), number("inf"));
    assert_eq!(value_of("-1 / 0"), number("-inf"));
}

#[test]
fn evaluate_fractions_are_single_precision() {
    assert_eq!(value_of("0.1 + 0.2"), number("0.3"));
    assert_eq!(value_of("2.5 * 2"), number("5"));
}

#[test]
fn evaluate_error_line_is_the_operator_line() {
    assert_eq!(
        failure_of("1 +\n\n true"),
        vec!["[line 1] Error: Cannot perform 'Plus' on operands '1' and 'true'".to_string()]
    );
    assert_eq!(
        failure_of("1\n\n\n\n\n\n\n\n\n\n* nil"),
        vec!["[line 11] Error: Cannot perform 'Multiply' on operands '1' and 'nil'".to_string()]
    );
}

#[test]
fn run_stops_after_scan_errors() {
    assert_eq!(failure_of("\"abc"), vec!["[line 1] Error: Unterminated string.".to_string()]);
    assert_eq!(
        failure_of("1 + @"),
        vec!["[line 1] Error: Unrecognized character: @".to_string()]
    );
}

#[test]
fn run_stops_after_parse_errors() {
    assert_eq!(failure_of("(1 + 2"), vec!["[line 1] Error at end: Expected ')'.".to_string()]);
    assert_eq!(
        failure_of(""),
        vec!["[line 1] Error at end: Expected a literal or '('.".to_string()]
    );
    assert_eq!(
        failure_of("1 +"),
        vec!["[line 1] Error at end: Expected a literal or '('.".to_string()]
    );
    assert_eq!(
        failure_of("1 + )"),
        vec!["[line 1] Error at ')': Expected a literal or '('.".to_string()]
    );
}

#[test]
fn render_values() {
    assert_eq!(number("1.5").render(), "1.5".to_string());
    assert_eq!(Literal::String("hi".to_string()).render(), "hi".to_string());
    assert_eq!(Literal::Boolean(true).render(), "true".to_string());
    assert_eq!(Literal::Boolean(false).render(), "false".to_string());
    assert_eq!(Literal::Nil.render(), "nil".to_string());
}

#[test]
fn operator_names() {
    assert_eq!(UnaryOp::Negate.name(), "Negate");
    assert_eq!(BinaryOp::GreaterThanOrEqual.name(), "GreaterThanOrEqual");
    let expr = Expr::UnaryExpr(UnaryExpr {
        op: UnaryOp::Not,
        line: 4,
        expr: Box::new(Expr::LiteralExpr(LiteralExpr(Literal::Nil))),
    });
    let err = Interpreter.evaluate(&expr, &f32_numeric).err().unwrap();
    assert_eq!(err.line, 4);
    assert_eq!(err.message, "Cannot perform 'Not' on operand 'nil'".to_string());
    assert_eq!(err.exit_code, 65);
}
