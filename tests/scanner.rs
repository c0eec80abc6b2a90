use rlox::error_reporter::ErrorReporter;
use rlox::scanner::Scanner;
use rlox::token::{Token, TokenType};
use rlox::token::TokenType::{LeftParen, RightParen, LeftBrace, RightBrace, Comma, Dot, Minus, Plus, SemiColon, Slash, Star, Bang, BangEqual, Equal, EqualEqual, Greater, GreaterEqual, Less, LessEqual, Identifier, Number, And, Class, Else, False, Fun, For, If, Nil, Or, Print, Return, Super, This, True, Var, While, EOF};

fn scan(source: &str) -> (Vec<Token>, ErrorReporter) {
    let mut error_reporter = ErrorReporter::new();
    let mut scanner = Scanner::new(source.to_string());
    let tokens = scanner.scan_tokens(&mut error_reporter);
    (tokens, error_reporter)
}

fn token(typ: TokenType, lexeme: &str, line: usize) -> Token {
    Token { typ, lexeme: lexeme.to_string(), line }
}

#[test]
fn scan_hello() {
    let source = "print \"Hello, world!\";".to_string();
    let mut error_reporter = ErrorReporter::new();

    let mut scanner = Scanner::new(source);
    let tokens = scanner.scan_tokens(&mut error_reporter);
    let correct = vec![
        Token { typ: Print, lexeme: "print".to_string(), line: 1 },
        Token {
            typ: TokenType::String("Hello, world!".to_string()),
            lexeme: "\"Hello, world!\"".to_string(),
            line: 1,
        },
        Token { typ: SemiColon, lexeme: ";".to_string(), line: 1 },
        Token { typ: EOF, lexeme: "".to_string(), line: 1 },
    ];

    assert_eq!(tokens, correct);
}

#[test]
fn scan_fib() {
    let source = "fun fib(n) {
            if (n == 1 or n == 0) {
                return n;
            }
        
            return fib(n-1) + fib(n-2);
        }"
    .to_string();
    let mut error_reporter = ErrorReporter::new();

    let mut scanner = Scanner::new(source);
    let tokens = scanner.scan_tokens(&mut error_reporter);
    let id = |s: &str| Identifier(s.to_string());
    let num = |s: &str| Number(s.to_string());
    let correct = vec![
        token(Fun, "fun", 1),
        token(id("fib"), "fib", 1),
        token(LeftParen, "(", 1),
        token(id("n"), "n", 1),
        token(RightParen, ")", 1),
        token(LeftBrace, "{", 1),
        token(If, "if", 2),
        token(LeftParen, "(", 2),
        token(id("n"), "n", 2),
        token(EqualEqual, "==", 2),
        token(num("1"), "1", 2),
        token(Or, "or", 2),
        token(id("n"), "n", 2),
        token(EqualEqual, "==", 2),
        token(num("0"), "0", 2),
        token(RightParen, ")", 2),
        token(LeftBrace, "{", 2),
        token(Return, "return", 3),
        token(id("n"), "n", 3),
        token(SemiColon, ";", 3),
        token(RightBrace, "}", 4),
        token(Return, "return", 6),
        token(id("fib"), "fib", 6),
        token(LeftParen, "(", 6),
        token(id("n"), "n", 6),
        token(Minus, "-", 6),
        token(num("1"), "1", 6),
        token(RightParen, ")", 6),
        token(Plus, "+", 6),
        token(id("fib"), "fib", 6),
        token(LeftParen, "(", 6),
        token(id("n"), "n", 6),
        token(Minus, "-", 6),
        token(num("2"), "2", 6),
        token(RightParen, ")", 6),
        token(SemiColon, ";", 6),
        token(RightBrace, "}", 7),
        token(EOF, "", 7),
    ];

    assert_eq!(tokens, correct);
    assert!(!error_reporter.had_error);
}

#[test]
fn scan_empty_source_is_only_the_end_marker() {
    let (tokens, reporter) = scan("");
    assert_eq!(tokens, vec![token(EOF, "", 1)]);
    assert!(!reporter.had_error);
    assert!(reporter.diagnostics.is_empty());
}

#[test]
fn scan_ends_with_one_end_marker_and_lines_never_decrease() {
    let (tokens, _) = scan("a\n\"x\ny\" /* c\n\n */ 1.5 // note\n!= @ \"open");
    assert_eq!(tokens.last().unwrap().typ, EOF);
    assert_eq!(tokens.iter().filter(|t| t.typ == EOF).count(), 1);
    for pair in tokens.windows(2) {
        assert!(pair[0].line <= pair[1].line);
    }
}

#[test]
fn scan_two_character_operators() {
    let (tokens, _) = scan("! != = == < <= > >=");
    let types: Vec<TokenType> = tokens.into_iter().map(|t| t.typ).collect();
    assert_eq!(
        types,
        vec![Bang, BangEqual, Equal, EqualEqual, Less, LessEqual, Greater, GreaterEqual, EOF]
    );
}

#[test]
fn scan_single_character_tokens() {
    let (tokens, _) = scan("(){},.-+;*/");
    let types: Vec<TokenType> = tokens.into_iter().map(|t| t.typ).collect();
    assert_eq!(
        types,
        vec![
            LeftParen, RightParen, LeftBrace, RightBrace, Comma, Dot, Minus, Plus, SemiColon, Star,
            Slash, EOF
        ]
    );
}

#[test]
fn scan_numbers() {
    let (tokens, _) = scan("12.50 7 1.");
    assert_eq!(
        tokens,
        vec![
            token(Number("12.50".to_string()), "12.50", 1),
            token(Number("7".to_string()), "7", 1),
            token(Number("1".to_string()), "1", 1),
            token(Dot, ".", 1),
            token(EOF, "", 1),
        ]
    );
}

#[test]
fn scan_keywords_and_identifiers() {
    let (tokens, _) = scan("and class else false for fun if nil or print return super this true var while orchid _x9");
    let types: Vec<TokenType> = tokens.into_iter().map(|t| t.typ).collect();
    assert_eq!(
        types,
        vec![
            And,
            Class,
            Else,
            False,
            For,
            Fun,
            If,
            Nil,
            Or,
            Print,
            Return,
            Super,
            This,
            True,
            Var,
            While,
            Identifier("orchid".to_string()),
            Identifier("_x9".to_string()),
            EOF
        ]
    );
}

#[test]
fn scan_comments_are_skipped_and_count_lines() {
    let (tokens, reporter) = scan("1 // one\n/* two\nthree */ 2");
    assert_eq!(
        tokens,
        vec![
            token(Number("1".to_string()), "1", 1),
            token(Number("2".to_string()), "2", 3),
            token(EOF, "", 3),
        ]
    );
    assert!(!reporter.had_error);
}

#[test]
fn scan_unterminated_string() {
    let (tokens, reporter) = scan("\"abc");
    assert_eq!(tokens, vec![token(EOF, "", 1)]);
    assert!(reporter.had_error);
    assert_eq!(reporter.exit_code, Some(65));
    assert_eq!(reporter.diagnostics, vec!["[line 1] Error: Unterminated string.".to_string()]);
}

#[test]
fn scan_unterminated_string_cites_its_first_line() {
    let (tokens, reporter) = scan("1\n\"ab\ncd");
    assert_eq!(
        tokens,
        vec![token(Number("1".to_string()), "1", 1), token(EOF, "", 3)]
    );
    assert_eq!(reporter.diagnostics, vec!["[line 2] Error: Unterminated string.".to_string()]);
}

#[test]
fn scan_multiline_string() {
    let (tokens, _) = scan("\"a\nb\" x");
    assert_eq!(
        tokens,
        vec![
            token(TokenType::String("a\nb".to_string()), "\"a\nb\"", 2),
            token(Identifier("x".to_string()), "x", 2),
            token(EOF, "", 2),
        ]
    );
}

#[test]
fn scan_unterminated_block_comment() {
    let (tokens, reporter) = scan("/* a\nb");
    assert_eq!(tokens, vec![token(EOF, "", 2)]);
    assert_eq!(
        reporter.diagnostics,
        vec!["[line 2] Error: Unterminated block comment.".to_string()]
    );
}

#[test]
fn scan_unrecognized_characters_are_reported_and_skipped() {
    let (tokens, reporter) = scan("1 @ 2 #");
    assert_eq!(
        tokens,
        vec![
            token(Number("1".to_string()), "1", 1),
            token(Number("2".to_string()), "2", 1),
            token(EOF, "", 1),
        ]
    );
    assert_eq!(
        reporter.diagnostics,
        vec![
            "[line 1] Error: Unrecognized character: @".to_string(),
            "[line 1] Error: Unrecognized character: #".to_string(),
        ]
    );
    assert_eq!(reporter.exit_code, Some(65));
}
