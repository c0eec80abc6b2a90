use rlox::error_reporter::ErrorReporter;
use rlox::grammar::{BinaryExpr, BinaryOp, Expr, GroupingExpr, Literal, LiteralExpr, UnaryExpr, UnaryOp};
use rlox::parser::Parser;
use rlox::token::{Token, TokenType};
use rlox::token::TokenType::{LeftParen, RightParen, Minus, Plus, SemiColon, Star, Bang, BangEqual, EqualEqual, Number, Nil, True, Var, EOF};

fn get_expr(tokens: Vec<Token>) -> Option<Expr> {
    let mut error_reporter = ErrorReporter::default();
    let mut parser = Parser::new(tokens);
    parser.parse(&mut error_reporter)
}

fn parse_reporting(tokens: Vec<Token>) -> (Option<Expr>, ErrorReporter) {
    let mut error_reporter = ErrorReporter::new();
    let mut parser = Parser::new(tokens);
    let expr = parser.parse(&mut error_reporter);
    (expr, error_reporter)
}

fn token(typ: TokenType, lexeme: &str) -> Token {
    Token { typ, lexeme: lexeme.to_string(), line: 1 }
}

fn number(text: &str) -> Expr {
    Expr::LiteralExpr(LiteralExpr(Literal::Number(text.to_string())))
}

#[test]
fn parse_empty() {
    let expr = get_expr(vec![Token { lexeme: "".to_string(), line: 1, typ: EOF }]);

    assert_eq!(expr, None);
}

#[test]
fn parse_missing_rparen() {
    let expr = get_expr(vec![
        Token { lexeme: "(".to_string(), line: 1, typ: LeftParen },
        Token { lexeme: "1".to_string(), line: 1, typ: Number("1".to_string()) },
        Token { lexeme: "+".to_string(), line: 1, typ: Plus },
        Token { lexeme: "2".to_string(), line: 1, typ: Number("2".to_string()) },
        Token { lexeme: "".to_string(), line: 1, typ: EOF },
    ]);

    assert_eq!(expr, None);
}

#[test]
fn parse_missing_rparen_reports_expected_paren() {
    let (expr, reporter) = parse_reporting(vec![
        token(LeftParen, "("),
        token(Number("1".to_string()), "1"),
        token(Plus, "+"),
        token(Number("2".to_string()), "2"),
        token(EOF, ""),
    ]);
    assert_eq!(expr, None);
    assert_eq!(reporter.diagnostics, vec!["[line 1] Error at end: Expected ')'.".to_string()]);
    assert_eq!(reporter.exit_code, Some(65));
}

#[test]
fn parse_empty_reports_at_end() {
    let (expr, reporter) = parse_reporting(vec![token(EOF, "")]);
    assert_eq!(expr, None);
    assert_eq!(
        reporter.diagnostics,
        vec!["[line 1] Error at end: Expected a literal or '('.".to_string()]
    );
}

#[test]
fn parse_trailing_operator_reports_at_end() {
    let (expr, reporter) = parse_reporting(vec![
        token(Number("1".to_string()), "1"),
        token(Plus, "+"),
        token(EOF, ""),
    ]);
    assert_eq!(expr, None);
    assert_eq!(
        reporter.diagnostics,
        vec!["[line 1] Error at end: Expected a literal or '('.".to_string()]
    );
}

#[test]
fn parse_unexpected_token_reports_its_lexeme() {
    let (expr, reporter) = parse_reporting(vec![
        token(Number("1".to_string()), "1"),
        token(Star, "*"),
        token(SemiColon, ";"),
        token(EOF, ""),
    ]);
    assert_eq!(expr, None);
    assert_eq!(
        reporter.diagnostics,
        vec!["[line 1] Error at ';': Expected a literal or '('.".to_string()]
    );
}

#[test]
fn parse_unary_binds_tighter_than_binary() {
    let expr = get_expr(vec![
        token(Minus, "-"),
        token(Number("1".to_string()), "1"),
        token(Minus, "-"),
        token(Number("2".to_string()), "2"),
        token(EOF, ""),
    ]);
    let expected = Expr::BinaryExpr(BinaryExpr {
        left: Box::new(Expr::UnaryExpr(UnaryExpr {
            op: UnaryOp::Negate,
            line: 1,
            expr: Box::new(number("1")),
        })),
        op: BinaryOp::Minus,
        line: 1,
        right: Box::new(number("2")),
    });
    assert_eq!(expr, Some(expected));
}

#[test]
fn parse_binary_operators_associate_left() {
    let expr = get_expr(vec![
        token(Number("8".to_string()), "8"),
        token(Minus, "-"),
        token(Number("4".to_string()), "4"),
        token(Minus, "-"),
        token(Number("2".to_string()), "2"),
        token(EOF, ""),
    ]);
    let expected = Expr::BinaryExpr(BinaryExpr {
        left: Box::new(Expr::BinaryExpr(BinaryExpr {
            left: Box::new(number("8")),
            op: BinaryOp::Minus,
            line: 1,
            right: Box::new(number("4")),
        })),
        op: BinaryOp::Minus,
        line: 1,
        right: Box::new(number("2")),
    });
    assert_eq!(expr, Some(expected));
}

#[test]
fn parse_factor_binds_tighter_than_term_and_grouping_is_kept() {
    let expr = get_expr(vec![
        token(LeftParen, "("),
        token(Number("1".to_string()), "1"),
        token(Plus, "+"),
        token(Number("2".to_string()), "2"),
        token(Star, "*"),
        token(Number("3".to_string()), "3"),
        token(RightParen, ")"),
        token(EOF, ""),
    ]);
    let expected = Expr::GroupingExpr(GroupingExpr(Box::new(Expr::BinaryExpr(BinaryExpr {
        left: Box::new(number("1")),
        op: BinaryOp::Plus,
        line: 1,
        right: Box::new(Expr::BinaryExpr(BinaryExpr {
            left: Box::new(number("2")),
            op: BinaryOp::Multiply,
            line: 1,
            right: Box::new(number("3")),
        })),
    }))));
    assert_eq!(expr, Some(expected));
}

#[test]
fn parse_nested_unary_and_literals() {
    let expr = get_expr(vec![
        token(Bang, "!"),
        token(Bang, "!"),
        token(True, "true"),
        token(EqualEqual, "=="),
        token(Nil, "nil"),
        token(BangEqual, "!="),
        token(TokenType::String("s".to_string()), "\"s\""),
        token(EOF, ""),
    ]);
    let not = |e: Expr| {
        Expr::UnaryExpr(UnaryExpr { op: UnaryOp::Not, line: 1, expr: Box::new(e) })
    };
    let expected = Expr::BinaryExpr(BinaryExpr {
        left: Box::new(Expr::BinaryExpr(BinaryExpr {
            left: Box::new(not(not(Expr::LiteralExpr(LiteralExpr(Literal::Boolean(true)))))),
            op: BinaryOp::Equal,
            line: 1,
            right: Box::new(Expr::LiteralExpr(LiteralExpr(Literal::Nil))),
        })),
        op: BinaryOp::NotEqual,
        line: 1,
        right: Box::new(Expr::LiteralExpr(LiteralExpr(Literal::String("s".to_string())))),
    });
    assert_eq!(expr, Some(expected));
}

#[test]
fn parse_stops_after_one_expression() {
    let mut reporter = ErrorReporter::new();
    let mut parser = Parser::new(vec![
        token(Number("1".to_string()), "1"),
        token(Number("2".to_string()), "2"),
        token(EOF, ""),
    ]);
    assert_eq!(parser.parse(&mut reporter), Some(number("1")));
    assert_eq!(parser.parse(&mut reporter), Some(number("2")));
    assert!(!reporter.had_error);
}

#[test]
fn synchronize_skips_to_a_statement_boundary() {
    let mut reporter = ErrorReporter::new();
    let mut parser = Parser::new(vec![
        token(Star, "*"),
        token(Number("1".to_string()), "1"),
        token(SemiColon, ";"),
        token(Number("2".to_string()), "2"),
        token(Var, "var"),
        token(EOF, ""),
    ]);
    parser.synchronize();
    assert_eq!(parser.parse(&mut reporter), Some(number("2")));
    parser.synchronize();
    assert_eq!(parser.parse(&mut reporter), None);
    assert_eq!(
        reporter.diagnostics,
        vec!["[line 1] Error at end: Expected a literal or '('.".to_string()]
    );
}
