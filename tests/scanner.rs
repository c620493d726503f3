use rlox::error::LoxError;
use rlox::scanner::{is_alpha, is_alphanumeric, Scanner};
use rlox::token::LoxType;
use rlox::token_type::TokenType;

fn token_scanned(value: &str, ttype: TokenType) -> bool {
    let mut scanner = Scanner::new();
    let tokens = scanner.scan_tokens(String::from(value));
    tokens[0].ttype == ttype
}

fn kinds(source: &str) -> Vec<TokenType> {
    let mut scanner = Scanner::new();
    scanner.scan_tokens(String::from(source)).iter().map(|t| t.ttype).collect()
}

#[test]
fn test_scan_tokens_all_single_character_tokens() {
    assert!(token_scanned("(", TokenType::LEFT_PAREN));
    assert!(token_scanned(")", TokenType::RIGHT_PAREN));
    assert!(token_scanned("{", TokenType::LEFT_BRACE));
    assert!(token_scanned("}", TokenType::RIGHT_BRACE));
    assert!(token_scanned(",", TokenType::COMMA));
    assert!(token_scanned(".", TokenType::DOT));
    assert!(token_scanned("-", TokenType::MINUS));
    assert!(token_scanned("+", TokenType::PLUS));
    assert!(token_scanned(";", TokenType::SEMICOLON));
    assert!(token_scanned("*", TokenType::STAR));
    assert!(token_scanned("/", TokenType::SLASH));
}

#[test]
fn test_scan_tokens_two_character_tokens() {
    assert!(token_scanned("!=", TokenType::BANG_EQUAL));
    assert!(token_scanned("==", TokenType::EQUAL_EQUAL));
    assert!(token_scanned("<=", TokenType::LESS_EQUAL));
    assert!(token_scanned(">=", TokenType::GREATER_EQUAL));
}

#[test]
fn test_scan_tokens_slash_with_following_chars() {
    assert!(token_scanned("/foo", TokenType::SLASH));
}

#[test]
fn test_scan_tokens_slash_with_following_slash_is_a_comment() {
    let mut scanner = Scanner::new();
    let tokens = scanner.scan_tokens(String::from("// Comments are ignored"));
    assert_eq!(1, tokens.len());
}

#[test]
fn test_scan_tokens_seperated_by_whitespace() {
    let mut scanner = Scanner::new();
    let tokens = scanner.scan_tokens(String::from("! \t*"));
    assert_eq!(3, tokens.len());
    assert_eq!(TokenType::BANG, tokens[0].ttype);
    assert_eq!(TokenType::STAR, tokens[1].ttype);
}

#[test]
fn test_scan_tokens_seperated_by_newlines_increments_line() {
    let mut scanner = Scanner::new();
    let tokens = scanner.scan_tokens(String::from("!\n*"));
    assert_eq!(3, tokens.len());
    assert_eq!(2, scanner.line())
}

#[test]
fn test_scan_tokens_strings() {
    let mut scanner = Scanner::new();
    let tokens = scanner.scan_tokens(String::from("\"Lox Strings are double quoted\""));
    assert_eq!(2, tokens.len());
    assert_eq!(TokenType::STRING, tokens[0].ttype);

    match &tokens[0].literal {
        LoxType::Text(s) => assert_eq!("Lox Strings are double quoted", s),
        _ => panic!("unexpected variant in LoxType"),
    }
}

#[test]
fn test_scan_tokens_strings_with_newlines() {
    let mut scanner = Scanner::new();
    let tokens = scanner.scan_tokens(String::from("\"Lox Strings are\n double quoted\""));
    assert_eq!(2, tokens.len());
    assert_eq!(TokenType::STRING, tokens[0].ttype);

    match &tokens[0].literal {
        LoxType::Text(s) => assert_eq!("Lox Strings are\n double quoted", s),
        _ => panic!("unexpected variant in LoxType"),
    }
    assert_eq!(2, scanner.line());
}

#[test]
fn test_scan_tokens_strings_with_valid_tokens_within() {
    let mut scanner = Scanner::new();
    let tokens = scanner.scan_tokens(String::from("\"Lox *Strings* are\n -double- quoted\""));
    assert_eq!(2, tokens.len());
    assert_eq!(TokenType::STRING, tokens[0].ttype);

    match &tokens[0].literal {
        LoxType::Text(s) => assert_eq!("Lox *Strings* are\n -double- quoted", s),
        _ => panic!("unexpected variant in LoxType"),
    }
    assert_eq!(2, scanner.line());
}

#[test]
fn test_scan_tokens_numbers() {
    let mut scanner = Scanner::new();
    let tokens = scanner.scan_tokens(String::from("123"));
    assert_eq!(2, tokens.len());
    assert_eq!(TokenType::NUMBER, tokens[0].ttype);

    match &tokens[0].literal {
        LoxType::Number(s) => assert_eq!(123_f64, s.parse::<f64>().unwrap()),
        _ => panic!("unexpected variant in LoxType"),
    }
}

#[test]
fn test_scan_tokens_floating_point_numbers() {
    let mut scanner = Scanner::new();
    let tokens = scanner.scan_tokens(String::from("123.456"));
    assert_eq!(2, tokens.len());
    assert_eq!(TokenType::NUMBER, tokens[0].ttype);

    match &tokens[0].literal {
        LoxType::Number(s) => assert_eq!(123.456, s.parse::<f64>().unwrap()),
        _ => panic!("unexpected variant in LoxType"),
    }
}

#[test]
fn test_scan_tokens_identifiers_and_keywords() {
    let mut scanner = Scanner::new();
    let tokens = scanner.scan_tokens(String::from("fun function_name"));
    assert_eq!(3, tokens.len());
    assert_eq!(TokenType::FUN, tokens[0].ttype);
    assert_eq!(TokenType::IDENTIFIER, tokens[1].ttype);

    match &tokens[0].literal {
        LoxType::Nil => assert!(true),
        _ => panic!("unexpected variant in LoxType"),
    }

    match &tokens[1].literal {
        LoxType::Nil => assert!(true),
        _ => panic!("unexpected variant in LoxType"),
    }
}

#[test]
fn test_scan_token_invalid_token_returns_err() {
    let bad_tokens = Scanner::new().scan_token("?");
    assert!(bad_tokens.is_err());
    assert_eq!(bad_tokens.unwrap_err().message.unwrap(), "Invalid Character");
}

#[test]
fn empty_source_yields_only_end_of_input() {
    let mut scanner = Scanner::new();
    let tokens = scanner.scan_tokens(String::new());
    assert_eq!(1, tokens.len());
    assert_eq!(TokenType::EOF, tokens[0].ttype);
    assert_eq!("", tokens[0].lexeme);
    assert_eq!(1, tokens[0].line);
    assert!(matches!(tokens[0].literal, LoxType::Nil));
    assert!(scanner.errors().is_empty());
}

#[test]
fn full_line_comment_yields_only_end_of_input() {
    let mut scanner = Scanner::new();
    let tokens = scanner.scan_tokens(String::from("// anything\n"));
    assert_eq!(vec![TokenType::EOF], tokens.iter().map(|t| t.ttype).collect::<Vec<_>>());
    assert_eq!(2, tokens[0].line);
    assert_eq!(2, scanner.line());
}

#[test]
fn comment_ends_at_newline() {
    assert_eq!(
        vec![TokenType::PLUS, TokenType::MINUS, TokenType::EOF],
        kinds("+ // - ignored\n-")
    );
}

#[test]
fn spaces_and_tabs_leave_line_unchanged() {
    let mut scanner = Scanner::new();
    let tokens = scanner.scan_tokens(String::from("! \t*"));
    assert_eq!(
        vec![TokenType::BANG, TokenType::STAR, TokenType::EOF],
        tokens.iter().map(|t| t.ttype).collect::<Vec<_>>()
    );
    assert!(tokens.iter().all(|t| t.line == 1));
    assert_eq!(1, scanner.line());
}

#[test]
fn newline_between_tokens_counts_once() {
    let mut scanner = Scanner::new();
    let tokens = scanner.scan_tokens(String::from("!\n*"));
    assert_eq!(3, tokens.len());
    assert_eq!(1, tokens[0].line);
    assert_eq!(2, tokens[1].line);
    assert_eq!(2, tokens[2].line);
    assert_eq!(2, scanner.line());
}

#[test]
fn carriage_return_is_whitespace() {
    let mut scanner = Scanner::new();
    let tokens = scanner.scan_tokens(String::from("(\r\n)"));
    assert_eq!(3, tokens.len());
    assert_eq!(2, scanner.line());
    assert!(scanner.errors().is_empty());
}

#[test]
fn string_round_trip() {
    let mut scanner = Scanner::new();
    let tokens = scanner.scan_tokens(String::from("\"abc\""));
    assert_eq!(2, tokens.len());
    assert_eq!(TokenType::STRING, tokens[0].ttype);
    assert_eq!("\"abc\"", tokens[0].lexeme);
    match &tokens[0].literal {
        LoxType::Text(s) => assert_eq!("abc", s),
        _ => panic!("expected a text literal"),
    }
    assert_eq!(TokenType::EOF, tokens[1].ttype);
}

#[test]
fn multi_line_string_keeps_its_newline() {
    let mut scanner = Scanner::new();
    let tokens = scanner.scan_tokens(String::from("\"a\nb\""));
    assert_eq!(2, tokens.len());
    match &tokens[0].literal {
        LoxType::Text(s) => assert_eq!("a\nb", s),
        _ => panic!("expected a text literal"),
    }
    assert_eq!(1, tokens[0].line);
    assert_eq!(2, tokens[1].line);
    assert_eq!(2, scanner.line());
}

#[test]
fn unterminated_string_reports_its_line() {
    let mut scanner = Scanner::new();
    let tokens = scanner.scan_tokens(String::from("\"abc"));
    assert_eq!(1, tokens.len());
    assert_eq!(TokenType::EOF, tokens[0].ttype);
    let errors = scanner.errors();
    assert_eq!(1, errors.len());
    assert_eq!(1, errors[0].line);
    assert_eq!(None, errors[0].place);
    assert_eq!(Some(String::from("Unterminated String")), errors[0].message);
}

#[test]
fn unterminated_multi_line_string_names_the_opening_line() {
    let mut scanner = Scanner::new();
    let tokens = scanner.scan_tokens(String::from("+\n\"a\nb\nc"));
    assert_eq!(vec![TokenType::PLUS, TokenType::EOF], tokens.iter().map(|t| t.ttype).collect::<Vec<_>>());
    assert_eq!(4, scanner.line());
    assert_eq!(1, scanner.errors().len());
    assert_eq!(2, scanner.errors()[0].line);
}

#[test]
fn numbers_carry_their_numeral() {
    let mut scanner = Scanner::new();
    let tokens = scanner.scan_tokens(String::from("123 123.456"));
    assert_eq!(3, tokens.len());
    match (&tokens[0].literal, &tokens[1].literal) {
        (LoxType::Number(a), LoxType::Number(b)) => {
            assert_eq!("123", a);
            assert_eq!("123.456", b);
            assert_eq!(123.0, a.parse::<f64>().unwrap());
            assert_eq!(123.456, b.parse::<f64>().unwrap());
        }
        _ => panic!("expected two numbers"),
    }
    assert_eq!("123.456", tokens[1].lexeme);
}

#[test]
fn bare_dot_after_number_is_not_consumed() {
    let mut scanner = Scanner::new();
    let tokens = scanner.scan_tokens(String::from("12.a"));
    assert_eq!(
        vec![TokenType::NUMBER, TokenType::DOT, TokenType::IDENTIFIER, TokenType::EOF],
        tokens.iter().map(|t| t.ttype).collect::<Vec<_>>()
    );
    assert_eq!("12", tokens[0].lexeme);
    match &tokens[0].literal {
        LoxType::Number(s) => assert_eq!("12", s),
        _ => panic!("expected a number"),
    }
    assert_eq!(vec![TokenType::NUMBER, TokenType::DOT, TokenType::EOF], kinds("7."));
}

#[test]
fn keyword_and_identifier_have_no_literal() {
    let mut scanner = Scanner::new();
    let tokens = scanner.scan_tokens(String::from("fun function_name"));
    assert_eq!(3, tokens.len());
    assert_eq!(TokenType::FUN, tokens[0].ttype);
    assert_eq!("fun", tokens[0].lexeme);
    assert_eq!(TokenType::IDENTIFIER, tokens[1].ttype);
    assert_eq!("function_name", tokens[1].lexeme);
    assert!(matches!(tokens[0].literal, LoxType::Nil));
    assert!(matches!(tokens[1].literal, LoxType::Nil));
    assert_eq!(TokenType::EOF, tokens[2].ttype);
}

#[test]
fn every_keyword_is_recognised() {
    let source = "and class else false for fun if nil or print return super this true var while";
    assert_eq!(
        vec![
            TokenType::AND,
            TokenType::CLASS,
            TokenType::ELSE,
            TokenType::FALSE,
            TokenType::FOR,
            TokenType::FUN,
            TokenType::IF,
            TokenType::NIL,
            TokenType::OR,
            TokenType::PRINT,
            TokenType::RETURN,
            TokenType::SUPER,
            TokenType::THIS,
            TokenType::TRUE,
            TokenType::VAR,
            TokenType::WHILE,
            TokenType::EOF,
        ],
        kinds(source)
    );
}

#[test]
fn keywords_match_exactly() {
    assert_eq!(
        vec![TokenType::IDENTIFIER, TokenType::IDENTIFIER, TokenType::IDENTIFIER, TokenType::EOF],
        kinds("forge And _if")
    );
}

#[test]
fn identifiers_take_unicode_letters_and_numbers() {
    let mut scanner = Scanner::new();
    let tokens = scanner.scan_tokens(String::from("café x½ 9lives"));
    assert_eq!("café", tokens[0].lexeme);
    assert_eq!(TokenType::IDENTIFIER, tokens[0].ttype);
    assert_eq!("x½", tokens[1].lexeme);
    assert_eq!(TokenType::NUMBER, tokens[2].ttype);
    assert_eq!("9", tokens[2].lexeme);
    assert_eq!("lives", tokens[3].lexeme);
    assert!(scanner.errors().is_empty());
}

#[test]
fn character_classes() {
    assert!(is_alpha(&'a'));
    assert!(is_alpha(&'_'));
    assert!(is_alpha(&'é'));
    assert!(!is_alpha(&'1'));
    assert!(!is_alpha(&'?'));
    assert!(is_alphanumeric(&'1'));
    assert!(is_alphanumeric(&'½'));
    assert!(!is_alphanumeric(&' '));
    assert!(!is_alphanumeric(&'\n'));
}

#[test]
fn lexemes_are_source_slices() {
    let mut scanner = Scanner::new();
    let tokens = scanner.scan_tokens(String::from("héllo >= \"wörld\""));
    assert_eq!("héllo", tokens[0].lexeme);
    assert_eq!(">=", tokens[1].lexeme);
    assert_eq!("\"wörld\"", tokens[2].lexeme);
    match &tokens[2].literal {
        LoxType::Text(s) => assert_eq!("wörld", s),
        _ => panic!("expected a text literal"),
    }
}

#[test]
fn maximal_munch_on_operators() {
    assert_eq!(
        vec![
            TokenType::BANG_EQUAL,
            TokenType::EQUAL,
            TokenType::LESS,
            TokenType::GREATER_EQUAL,
            TokenType::EQUAL_EQUAL,
            TokenType::EOF,
        ],
        kinds("!== <>===")
    );
}

#[test]
fn invalid_character_is_reported_and_skipped() {
    let mut scanner = Scanner::new();
    let tokens = scanner.scan_tokens(String::from("?"));
    assert_eq!(1, tokens.len());
    assert_eq!(TokenType::EOF, tokens[0].ttype);
    let errors = scanner.errors();
    assert_eq!(1, errors.len());
    assert_eq!(1, errors[0].line);
    assert_eq!(Some(String::from("Invalid Character")), errors[0].message);
}

#[test]
fn scanning_resumes_after_each_error() {
    let mut scanner = Scanner::new();
    let tokens = scanner.scan_tokens(String::from("@+\n#-"));
    assert_eq!(
        vec![TokenType::PLUS, TokenType::MINUS, TokenType::EOF],
        tokens.iter().map(|t| t.ttype).collect::<Vec<_>>()
    );
    let lines: Vec<i32> = scanner.errors().iter().map(|e| e.line).collect();
    assert_eq!(vec![1, 2], lines);
}

#[test]
fn two_fresh_scanners_agree() {
    let source = "var x = \"a\nb\" + 1.5; ? // done";
    let mut first = Scanner::new();
    let mut second = Scanner::default();
    first.scan_tokens(String::from(source));
    second.scan_tokens(String::from(source));
    assert_eq!(format!("{:?}", first), format!("{:?}", second));
    assert_eq!(first.errors().len(), 1);
}

#[test]
fn scan_token_steps_once() {
    let mut scanner = Scanner::new();
    assert!(scanner.scan_token("<= 1").is_ok());
    assert_eq!(1, scanner.tokens().len());
    assert_eq!(TokenType::LESS_EQUAL, scanner.tokens()[0].ttype);
    assert!(scanner.scan_token("<= 1").is_ok());
    assert_eq!(1, scanner.tokens().len());
    assert!(scanner.scan_token("<= 1").is_ok());
    assert_eq!(TokenType::NUMBER, scanner.tokens()[1].ttype);
    assert!(scanner.scan_token("<= 1").is_ok());
    assert_eq!(2, scanner.tokens().len());
}

#[test]
fn error_reports_read_as_diagnostics() {
    let e = LoxError::new(3, "Invalid Character");
    assert_eq!("[3] Error ?: Invalid Character", e.report());
    let usage = LoxError { line: -1, place: Some(String::from("args")), message: None };
    assert_eq!("[-1] Error args: No message", usage.report());
    let far = LoxError { line: 1234567890, place: None, message: Some(String::from("m")) };
    assert_eq!("[1234567890] Error ?: m", far.report());
    let min = LoxError { line: i32::MIN, place: None, message: None };
    assert_eq!("[-2147483648] Error ?: No message", min.report());
}
