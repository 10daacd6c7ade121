use expr_parser::parse::{Expr, Number, Op, ParseError};
use expr_parser::scan::{extract_digits, extract_operator, extract_whitespace};

#[test]
fn numbers_parse_correctly() {
    assert_eq!(Number::new("123"), Ok(("", Number(123))));
}

#[test]
fn operators_parse_correctly() {
    assert_eq!(Op::new("+"), Ok(("", Op::Add)));
    assert_eq!(Op::new("-"), Ok(("", Op::Sub)));
    assert_eq!(Op::new("*"), Ok(("", Op::Mul)));
    assert_eq!(Op::new("/"), Ok(("", Op::Div)));
}

#[test]
fn one_plus_two_equals_three() {
    assert_eq!(
        Expr::new("1+2"),
        Ok(("", Expr { lhs: Number(1), rhs: Number(2), operator: Op::Add }))
    );
}

#[test]
fn extract_number_from_expr() {
    assert_eq!(extract_digits("1+2"), ("+2", "1"));
    assert_eq!(extract_digits("10+2"), ("+2", "10"));
}

#[test]
fn do_not_extract_from_empty_input() {
    assert_eq!(extract_digits(""), ("", ""));
}

#[test]
fn extract_digits_without_remainder() {
    assert_eq!(extract_digits("100"), ("", "100"));
}

#[test]
fn extract_spaces() {
    assert_eq!(extract_whitespace("   1 1 11"), ("1 1 11", "   "));
}

#[test]
fn spaces_around_operator_are_discarded() {
    assert_eq!(
        Expr::new("10 + 20"),
        Ok(("", Expr { lhs: Number(10), rhs: Number(20), operator: Op::Add }))
    );
}

#[test]
fn trailing_spaces_are_discarded_and_leftovers_returned() {
    assert_eq!(
        Expr::new("1 * 2  rest"),
        Ok(("rest", Expr { lhs: Number(1), rhs: Number(2), operator: Op::Mul }))
    );
}

#[test]
fn leading_spaces_are_not_stripped() {
    assert_eq!(Expr::new(" 1+2"), Err(ParseError::ParseFailure));
}

#[test]
fn re_extraction_from_remainder_extracts_nothing() {
    let (rest, digits) = extract_digits("12ab");
    assert_eq!((rest, digits), ("ab", "12"));
    assert_eq!(extract_digits(rest), ("ab", ""));
}

#[test]
fn missing_operator_fails_with_empty_input() {
    assert_eq!(Expr::new("12"), Err(ParseError::EmptyInput));
}

#[test]
fn unrecognized_operator_fails_recoverably() {
    assert_eq!(Expr::new("1?2"), Err(ParseError::UnrecognizedSymbol));
    assert_eq!(Op::new("?"), Err(ParseError::UnrecognizedSymbol));
}

#[test]
fn operator_from_empty_input_fails() {
    assert_eq!(Op::new(""), Err(ParseError::EmptyInput));
    assert_eq!(extract_operator(""), None);
}

#[test]
fn extract_operator_takes_any_first_character() {
    assert_eq!(extract_operator("?rest"), Some(("rest", '?')));
    assert_eq!(extract_operator("+1"), Some(("1", '+')));
}

#[test]
fn number_without_digits_fails() {
    assert_eq!(Number::new(""), Err(ParseError::ParseFailure));
    assert_eq!(Number::new("abc"), Err(ParseError::ParseFailure));
    assert_eq!(Number::new("+2"), Err(ParseError::ParseFailure));
}

#[test]
fn number_at_the_representable_limit_parses() {
    assert_eq!(Number::new("2147483647"), Ok(("", Number(2147483647))));
    assert_eq!(extract_digits("2147483647"), ("", "2147483647"));
}

#[test]
fn number_beyond_the_representable_limit_fails() {
    assert_eq!(Number::new("2147483648"), Err(ParseError::ParseFailure));
    assert_eq!(Number::new("99999999999999999999"), Err(ParseError::ParseFailure));
    assert_eq!(Expr::new("1+2147483648"), Err(ParseError::ParseFailure));
}

#[test]
fn leading_zeros_are_ordinary_digits() {
    assert_eq!(Number::new("007"), Ok(("", Number(7))));
}

#[test]
fn only_the_space_character_is_whitespace() {
    assert_eq!(extract_whitespace("\t 1"), ("\t 1", ""));
    assert_eq!(extract_whitespace(""), ("", ""));
}

#[test]
fn non_ascii_input_is_passed_through_as_remainder() {
    assert_eq!(extract_digits("é1"), ("é1", ""));
    assert_eq!(extract_whitespace("é"), ("é", ""));
}

#[test]
fn division_and_subtraction_parse() {
    assert_eq!(
        Expr::new("8/4"),
        Ok(("", Expr { lhs: Number(8), rhs: Number(4), operator: Op::Div }))
    );
    assert_eq!(
        Expr::new("8 - 4"),
        Ok(("", Expr { lhs: Number(8), rhs: Number(4), operator: Op::Sub }))
    );
}
