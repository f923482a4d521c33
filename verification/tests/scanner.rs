use huckleberry::number::Number;
use huckleberry::scanner::{scan, TokenType};
use huckleberry::error::HError;

fn number(num: i64, den: i64) -> TokenType {
    TokenType::Number(Number::ratio(num, den).unwrap())
}

#[test]
fn test_tokenizes_fn_call() {
    let result = scan("(+ 1 2)").unwrap();

    assert_eq!(result[0].token_type, TokenType::LeftParen);
    assert_eq!(result[1].token_type, TokenType::Symbol("+".to_string()));
    assert_eq!(result[2].token_type, number(1, 1));
    assert_eq!(result[3].token_type, number(2, 1));
    assert_eq!(result[4].token_type, TokenType::RightParen);
}

#[test]
fn test_tokenizes_values_without_whitespace() {
    let result = scan("(+ abc\":hello\":hello)").unwrap();

    assert_eq!(result[0].token_type, TokenType::LeftParen);
    assert_eq!(result[1].token_type, TokenType::Symbol("+".to_string()));
    assert_eq!(result[2].token_type, TokenType::Symbol("abc".to_string()));
    assert_eq!(result[3].token_type, TokenType::String(":hello".to_string()));
    assert_eq!(result[4].token_type, TokenType::Keyword(":hello".to_string()));
    assert_eq!(result[5].token_type, TokenType::RightParen);
}

#[test]
fn test_tokenizes_parens() {
    let result = scan("()").unwrap();

    assert_eq!(result[0].token_type, TokenType::LeftParen);
    assert_eq!(result[1].token_type, TokenType::RightParen);
    assert_eq!(result[2].token_type, TokenType::EndOfFile);
}

#[test]
fn test_tokenizes_curly_braces() {
    let result = scan("{}").unwrap();

    assert_eq!(result[0].token_type, TokenType::LeftCurly);
    assert_eq!(result[1].token_type, TokenType::RightCurly);
    assert_eq!(result[2].token_type, TokenType::EndOfFile);
}

#[test]
fn test_tokenizes_square_braces() {
    let result = scan("[]").unwrap();

    assert_eq!(result[0].token_type, TokenType::LeftSquare);
    assert_eq!(result[1].token_type, TokenType::RightSquare);
    assert_eq!(result[2].token_type, TokenType::EndOfFile);
}

#[test]
fn test_tokenizes_booleans() {
    let result = scan("true false").unwrap();

    assert_eq!(result[0].token_type, TokenType::Boolean(true));
    assert_eq!(result[1].token_type, TokenType::Boolean(false));
    assert_eq!(result[2].token_type, TokenType::EndOfFile);
}

#[test]
fn test_tokenizes_keywords() {
    let result = scan(":hello :world").unwrap();

    assert_eq!(result[0].token_type, TokenType::Keyword(":hello".to_string()));
    assert_eq!(result[1].token_type, TokenType::Keyword(":world".to_string()));
}

#[test]
fn test_tokenizes_nil() {
    let result = scan("nil").unwrap();

    assert_eq!(result[0].token_type, TokenType::Nil);
}

#[test]
fn test_tokenizes_ampersand() {
    let result = scan("&").unwrap();

    assert_eq!(result[0].token_type, TokenType::Ampersand);
}

#[test]
fn test_tokenizes_angle_brackets() {
    let result = scan("<>").unwrap();

    assert_eq!(result[0].token_type, TokenType::LeftAngle);
    assert_eq!(result[1].token_type, TokenType::RightAngle);
}

#[test]
fn scanner_test_tokenizes_strings() {
    let result = scan("\"Test string 1\" \"Test\nstring 2\"").unwrap();

    assert_eq!(result[0].token_type, TokenType::String("Test string 1".to_string()));
    assert_eq!(result[1].token_type, TokenType::String("Test\nstring 2".to_string()));
}

#[test]
fn test_tokenizes_numbers() {
    let result = scan("1 2.34 56.78").unwrap();

    assert_eq!(result[0].token_type, number(1, 1));
    assert_eq!(result[1].token_type, number(234, 100));
    assert_eq!(result[2].token_type, number(5678, 100));
}

#[test]
fn test_tokenizes_symbols() {
    let input = "+ - / * = ? ! is_symbol? set! hello";
    let tokens = scan(input).unwrap();
    let names = input.split(' ').collect::<Vec<&str>>();

    for i in 0..tokens.len() - 1 {
        assert_eq!(tokens[i].token_type, TokenType::Symbol(names[i].to_string()))
    }
}

#[test]
fn test_tokenizes_method_args() {
    let input = "hello:";
    let tokens = scan(input).unwrap();

    assert_eq!(tokens[0].token_type, TokenType::Symbol("hello".to_string()));
}

#[test]
fn scanner_test_ignores_whitespace() {
    let result = scan("( \r \t \n )").unwrap();

    assert_eq!(result[0].token_type, TokenType::LeftParen);
    assert_eq!(result[1].token_type, TokenType::RightParen);
    assert_eq!(result[2].token_type, TokenType::EndOfFile);
}

#[test]
fn scanner_test_tracks_line() {
    let result = scan("(\n \"\n\")").unwrap();

    assert_eq!(result[0].line, 1);
    assert_eq!(result[2].line, 3);
}

#[test]
fn scan_rejects_unterminated_string() {
    assert_eq!(scan("\"abc").err(), Some(HError::ScannerError("Unterminated string".to_string())));
}

#[test]
fn scan_rejects_unexpected_character() {
    assert_eq!(scan("(+ 1 #)").err(), Some(HError::ScannerError("Unexpected character Some('#')".to_string())));
}

#[test]
fn scan_rejects_number_too_large() {
    assert_eq!(
        scan("123456789012345678901234567890").err(),
        Some(HError::ScannerError("Invalid number".to_string()))
    );
}

#[test]
fn scan_point_without_digits_is_not_part_of_number() {
    let result = scan("1.");
    assert_eq!(result.err(), Some(HError::ScannerError("Unexpected character Some('.')".to_string())));
}

#[test]
fn scan_reserved_words_and_colon_symbols() {
    let result = scan("nil: true: to: do:x").unwrap();
    assert_eq!(result[0].token_type, TokenType::Symbol("nil".to_string()));
    assert_eq!(result[1].token_type, TokenType::Symbol("true".to_string()));
    assert_eq!(result[2].token_type, TokenType::Symbol("to".to_string()));
    assert_eq!(result[3].token_type, TokenType::Symbol("do".to_string()));
    assert_eq!(result[4].token_type, TokenType::Symbol("x".to_string()));
    assert_eq!(result[5].token_type, TokenType::EndOfFile);
}

#[test]
fn scan_empty_input_is_end_of_file() {
    let result = scan("").unwrap();
    assert_eq!(result.len(), 1);
    assert_eq!(result[0].token_type, TokenType::EndOfFile);
    assert_eq!(result[0].line, 1);
}
