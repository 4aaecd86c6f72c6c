use lambda_parser::lexer::CharClass;
use nom::character::complete::{alpha1, digit1, multispace1};
use nom::error::Error;
use lambda_parser::{
    from_int, int_primary, is_int_digit, parse_my_expr, parse_my_fn, parse_my_int, parse_my_var,
    Expr, ParseError,
};

fn var(name: &str) -> Expr {
    Expr::MyVar(name.to_string())
}

fn fun(param: &str, body: Expr) -> Expr {
    Expr::MyFunction(param.to_string(), Box::new(body))
}

#[test]
fn integer_bounds() {
    assert_eq!(parse_my_int("0"), Ok(("", Expr::MyInt(0))));
    assert_eq!(parse_my_int("255"), Ok(("", Expr::MyInt(255))));
    assert_eq!(parse_my_int("007"), Ok(("", Expr::MyInt(7))));
    assert_eq!(parse_my_int("000000000255 x"), Ok((" x", Expr::MyInt(255))));
}

#[test]
fn integer_takes_at_most_twelve_digits() {
    assert_eq!(parse_my_int("0000000000012"), Ok(("2", Expr::MyInt(1))));
    assert_eq!(parse_my_int("9999999999999"), Err(ParseError::OutOfRange));
}

#[test]
fn integer_out_of_range() {
    assert_eq!(parse_my_int("256"), Err(ParseError::OutOfRange));
    assert_eq!(parse_my_int("  1000dog"), Err(ParseError::OutOfRange));
    assert_eq!(parse_my_int("999999999999"), Err(ParseError::OutOfRange));
}

#[test]
fn integer_needs_a_digit() {
    assert_eq!(parse_my_int(""), Err(ParseError::NoMatch));
    assert_eq!(parse_my_int("   "), Err(ParseError::NoMatch));
    assert_eq!(parse_my_int("dog"), Err(ParseError::NoMatch));
    assert_eq!(parse_my_int("-1"), Err(ParseError::NoMatch));
    assert_eq!(parse_my_int("+1"), Err(ParseError::NoMatch));
}

#[test]
fn integer_skips_leading_whitespace_only() {
    assert_eq!(parse_my_int(" \t\r\n42 "), Ok((" ", Expr::MyInt(42))));
}

#[test]
fn int_primary_reads_digits_in_place() {
    assert_eq!(int_primary("42x"), Ok(("x", 42)));
    assert_eq!(int_primary(" 42"), Err(ParseError::NoMatch));
    assert_eq!(int_primary("300"), Err(ParseError::OutOfRange));
}

#[test]
fn from_int_converts_digit_runs() {
    assert_eq!(from_int("0"), Ok(0));
    assert_eq!(from_int("7"), Ok(7));
    assert_eq!(from_int("255"), Ok(255));
    assert!(from_int("256").is_err());
    assert!(from_int("000000000300").is_err());
}

#[test]
fn digit_predicate() {
    assert!(is_int_digit('0'));
    assert!(is_int_digit('9'));
    assert!(!is_int_digit('a'));
    assert!(!is_int_digit('/'));
    assert!(!is_int_digit(':'));
    assert!(!is_int_digit('\u{0663}'));
}

#[test]
fn variable_takes_the_letter_run() {
    assert_eq!(parse_my_var("AbC1"), Ok(("1", var("AbC"))));
    assert_eq!(parse_my_var("  x->"), Ok(("->", var("x"))));
    assert_eq!(parse_my_var("snake_case"), Ok(("_case", var("snake"))));
}

#[test]
fn variable_needs_a_letter() {
    assert_eq!(parse_my_var(""), Err(ParseError::NoMatch));
    assert_eq!(parse_my_var("1a"), Err(ParseError::NoMatch));
    assert_eq!(parse_my_var("\u{e9}t\u{e9}"), Err(ParseError::NoMatch));
}

#[test]
fn function_through_the_dispatcher() {
    assert_eq!(parse_my_expr("\\a -> 1"), Ok(("", fun("a", Expr::MyInt(1)))));
    assert_eq!(
        parse_my_expr("\\a -> \\b -> a"),
        Ok(("", fun("a", fun("b", var("a")))))
    );
}

#[test]
fn function_whitespace() {
    let tight = parse_my_expr("\\a->1");
    assert_eq!(tight, Ok(("", fun("a", Expr::MyInt(1)))));
    assert_eq!(parse_my_expr(" \\a  ->  1 "), Ok((" ", fun("a", Expr::MyInt(1)))));
    assert_eq!(
        parse_my_expr("\n\\x\t->\\y -> \r\n x  rest"),
        Ok(("  rest", fun("x", fun("y", var("x")))))
    );
}

#[test]
fn function_name_follows_the_backslash() {
    assert_eq!(parse_my_fn("\\ a -> 1"), Err(ParseError::NoMatch));
    assert_eq!(parse_my_expr("\\ a -> 1"), Err(ParseError::NoMatch));
}

#[test]
fn function_missing_parts() {
    assert_eq!(parse_my_fn("a -> 1"), Err(ParseError::NoMatch));
    assert_eq!(parse_my_fn("\\ -> 1"), Err(ParseError::NoMatch));
    assert_eq!(parse_my_fn("\\a 1"), Err(ParseError::NoMatch));
    assert_eq!(parse_my_fn("\\a - > 1"), Err(ParseError::NoMatch));
    assert_eq!(parse_my_fn("\\a ->"), Err(ParseError::NoMatch));
    assert_eq!(parse_my_fn("\\a -> 300"), Err(ParseError::NoMatch));
}

#[test]
fn dispatcher_prefers_integers() {
    assert_eq!(parse_my_expr("12abc"), Ok(("abc", Expr::MyInt(12))));
    assert_eq!(parse_my_expr(" 3 -> 4"), Ok((" -> 4", Expr::MyInt(3))));
}

#[test]
fn dispatcher_letters_give_variables() {
    assert_eq!(parse_my_expr("abc -> 1"), Ok((" -> 1", var("abc"))));
    assert_eq!(parse_my_expr("a1"), Ok(("1", var("a"))));
}

#[test]
fn dispatcher_failures() {
    assert_eq!(parse_my_expr(""), Err(ParseError::NoMatch));
    assert_eq!(parse_my_expr("  "), Err(ParseError::NoMatch));
    assert_eq!(parse_my_expr("256"), Err(ParseError::NoMatch));
    assert_eq!(parse_my_expr("->"), Err(ParseError::NoMatch));
}

#[test]
fn reparsing_the_leftover() {
    let (left, first) = parse_my_expr("1 x \\f -> 2").unwrap();
    assert_eq!(first, Expr::MyInt(1));
    assert_eq!(left, " x \\f -> 2");
    let again = parse_my_expr(left);
    assert_eq!(again, parse_my_expr(left));
    let (left, second) = again.unwrap();
    assert_eq!(second, var("x"));
    let (left, third) = parse_my_expr(left).unwrap();
    assert_eq!(third, fun("f", Expr::MyInt(2)));
    assert_eq!(left, "");
}

#[test]
fn leftover_keeps_non_ascii_text() {
    assert_eq!(parse_my_expr("x\u{3bb}y"), Ok(("\u{3bb}y", var("x"))));
    assert_eq!(parse_my_expr("\u{3bb}"), Err(ParseError::NoMatch));
}

#[test]
fn char_classes() {
    assert!(CharClass::Space.contains('\t'));
    assert!(!CharClass::Space.contains('\u{0b}'));
    assert!(CharClass::Alpha.contains('Z'));
    assert!(!CharClass::Alpha.contains('['));
    assert!(CharClass::Digit.contains('5'));
}

#[test]
fn char_classes_match_nom() {
    let mut chars: Vec<char> = (0u32..0x180).filter_map(char::from_u32).collect();
    chars.extend(['\u{3bb}', '\u{0663}', '\u{a0}', '\u{2003}']);
    for c in chars {
        let s = c.to_string();
        let t: &str = &s;
        assert_eq!(CharClass::Alpha.contains(c), alpha1::<&str, Error<&str>>(t).is_ok());
        assert_eq!(CharClass::Digit.contains(c), digit1::<&str, Error<&str>>(t).is_ok());
        assert_eq!(CharClass::Space.contains(c), multispace1::<&str, Error<&str>>(t).is_ok());
    }
}
