use huckleberry::error::HError;
use huckleberry::expr::{to_debug_string, Expr};
use huckleberry::parser::{parse, Parser};
use huckleberry::scanner::scan;

#[test]
fn parser_test_parses_expression() {
    let result = parse("(+ 1 1)").unwrap();

    assert_eq!(result[0], Expr::list(&[Expr::symbol("+"), Expr::number(1), Expr::number(1)]));
}

#[test]
fn parser_test_parses_nested_expression() {
    let result = parse("(+ 1.25 <1 * 2>)").unwrap();

    assert_eq!(
        result[0],
        Expr::list(&[
            Expr::symbol("+"),
            Expr::ratio(125, 100),
            Expr::method_list(&[Expr::number(1), Expr::symbol("*"), Expr::number(2)])
        ])
    );

    let result = parse("(+ 1.25 (/ 3 4))").unwrap();

    assert_eq!(
        result[0],
        Expr::list(&[
            Expr::symbol("+"),
            Expr::ratio(5, 4),
            Expr::list(&[Expr::symbol("/"), Expr::number(3), Expr::number(4)])
        ])
    );
}

#[test]
fn test_parses_method_list() {
    let result = parse("<1 + 2>").unwrap();

    assert_eq!(result[0], Expr::method_list(&[Expr::number(1), Expr::symbol("+"), Expr::number(2)]));
}

#[test]
fn parser_test_parses_vector() {
    let result = parse("[1 true & nil]").unwrap();

    assert_eq!(
        result[0],
        Expr::vector(&[Expr::number(1), Expr::boolean(true), Expr::Ampersand, Expr::nil()])
    );

    let result = parse("[1 true nil]").unwrap();

    assert_eq!(result[0], Expr::vector(&[Expr::number(1), Expr::boolean(true), Expr::nil()]));
}

#[test]
fn parser_test_parses_map() {
    let result = parse("{:key \"value\" [true] false}").unwrap();

    assert_eq!(
        result[0],
        Expr::map(&[
            (Expr::keyword(":key"), Expr::string("value")),
            (Expr::vector(&[Expr::boolean(true)]), Expr::boolean(false)),
        ])
    );
}

#[test]
fn parse_rejects_odd_map() {
    assert_eq!(
        parse("\n{:a 1 :b}"),
        Err(HError::ParseError("A map must have an even number of elements! Map opened at line 2.".to_string()))
    );
}

#[test]
fn parse_rejects_unclosed_list() {
    assert_eq!(parse("(+ 1 2"), Err(HError::ParseError("Unexpected token EndOfFile".to_string())));
}

#[test]
fn parse_rejects_stray_closer() {
    assert_eq!(parse("1 )"), Err(HError::ParseError("Unexpected token RightParen".to_string())));
}

#[test]
fn parse_reports_scanner_errors() {
    assert_eq!(parse("(\"abc"), Err(HError::ScannerError("Unterminated string".to_string())));
}

#[test]
fn parse_map_keeps_last_value_of_equal_keys() {
    let result = parse("{:a 1 :a 2}").unwrap();
    assert_eq!(result[0], Expr::map(&[(Expr::keyword(":a"), Expr::number(2))]));
}

#[test]
fn parse_several_expressions() {
    let result = parse("1 :a \"s\" sym").unwrap();
    assert_eq!(result.len(), 4);
    assert_eq!(result[3], Expr::symbol("sym"));
}

#[test]
fn parser_new_parses_tokens() {
    let tokens = scan("(a) [b]").unwrap();
    let mut parser = Parser::new(tokens);
    let result = parser.parse().unwrap();
    assert_eq!(result, vec![Expr::list(&[Expr::symbol("a")]), Expr::vector(&[Expr::symbol("b")])]);
}

#[test]
fn ampersand_constructor() {
    assert_eq!(parse("&").unwrap(), vec![Expr::ampersand()]);
    assert_eq!(Expr::ampersand().id(), "Ampersand".to_string());
    assert_eq!(Expr::symbol("x").id(), "x".to_string());
}

#[test]
fn debug_text_of_values() {
    assert_eq!(to_debug_string(&Expr::number(1)), "Number(OrderedFloat(1.0))".to_string());
    assert_eq!(to_debug_string(&Expr::ratio(5, 4)), "Number(OrderedFloat(1.25))".to_string());
    assert_eq!(
        to_debug_string(&Expr::map(&[(Expr::keyword(":a"), Expr::number(2))])),
        "Map({Keyword(\":a\"): Number(OrderedFloat(2.0))})".to_string()
    );
}

#[test]
fn parse_of_programs_joined_by_a_space() {
    let first = parse("(+ 1 2) {:a \"x\"}").unwrap();
    let second = parse("[3 <4 to: 5>]\nname").unwrap();
    let joined = parse("(+ 1 2) {:a \"x\"} [3 <4 to: 5>]\nname").unwrap();
    let mut expected = first;
    expected.extend(second);
    assert_eq!(joined, expected);
    assert_eq!(joined.len(), 4);
    assert_eq!(parse("").unwrap(), Vec::<Expr>::new());
}
