use digit_pipeline::samples::double_first::{
    double_first1, double_first2, double_first3, double_first4, double_first5, double_first6,
    double_first7, AnyError, DoubleError4, DoubleError7, EmptyVec5, EmptyVec6,
};
use digit_pipeline::samples::parse::{parse_i32, ParseError};
use digit_pipeline::samples::double_first;
use digit_pipeline::samples::results::{
    self, multiply1, multiply2, multiply3, multiply4, multiply5, multiply6, scale,
};
use std::num::IntErrorKind;

fn std_parse(s: &str) -> Result<i32, ParseError> {
    s.parse::<i32>().map_err(|e| match e.kind() {
        IntErrorKind::Empty => ParseError::Empty,
        IntErrorKind::InvalidDigit => ParseError::InvalidDigit,
        IntErrorKind::PosOverflow => ParseError::PosOverflow,
        IntErrorKind::NegOverflow => ParseError::NegOverflow,
        _ => unreachable!(),
    })
}

#[test]
fn parse_reads_decimal_numbers() {
    assert_eq!(parse_i32("10"), Ok(10));
    assert_eq!(parse_i32("+10"), Ok(10));
    assert_eq!(parse_i32("-10"), Ok(-10));
    assert_eq!(parse_i32("0"), Ok(0));
    assert_eq!(parse_i32("-0"), Ok(0));
    assert_eq!(parse_i32("007"), Ok(7));
    assert_eq!(parse_i32("2147483647"), Ok(i32::MAX));
    assert_eq!(parse_i32("-2147483648"), Ok(i32::MIN));
    assert_eq!(parse_i32("00000000000000000000000042"), Ok(42));
}

#[test]
fn parse_tells_why_not() {
    assert_eq!(parse_i32(""), Err(ParseError::Empty));
    assert_eq!(parse_i32("+"), Err(ParseError::InvalidDigit));
    assert_eq!(parse_i32("-"), Err(ParseError::InvalidDigit));
    assert_eq!(parse_i32("t"), Err(ParseError::InvalidDigit));
    assert_eq!(parse_i32(" 1"), Err(ParseError::InvalidDigit));
    assert_eq!(parse_i32("1 "), Err(ParseError::InvalidDigit));
    assert_eq!(parse_i32("1_000"), Err(ParseError::InvalidDigit));
    assert_eq!(parse_i32("--1"), Err(ParseError::InvalidDigit));
    assert_eq!(parse_i32("2147483648"), Err(ParseError::PosOverflow));
    assert_eq!(parse_i32("-2147483649"), Err(ParseError::NegOverflow));
    assert_eq!(parse_i32("99999999999x"), Err(ParseError::PosOverflow));
    assert_eq!(parse_i32("999x9999999999"), Err(ParseError::InvalidDigit));
}

#[test]
fn parse_agrees_with_std() {
    let inputs = [
        "", "+", "-", "0", "-0", "+0", "1", "-1", "10", "tofu", "42", "93", "18", "t", "2",
        "2147483647", "2147483648", "-2147483648", "-2147483649", "21474836470", "000", "0x10",
        "1e3", "12a", "a12", "+-1", "-+1", "1-", "\u{661}", "99999999999x", "-99999999999x",
        "999x9999999999", "00000000002147483647", "-00000000002147483648", "4294967296",
        "١٢٣", " 5", "5\n",
    ];
    for input in inputs {
        assert_eq!(parse_i32(input), std_parse(input), "{:?}", input);
    }
    for n in [-100000i32, -12345, -10, -9, 9, 10, 99, 100, 65535, 1 << 30] {
        assert_eq!(parse_i32(&n.to_string()), Ok(n));
    }
}

#[test]
fn multiply_two_numbers() {
    assert_eq!(multiply1("10", "2"), 20);
    assert_eq!(multiply1("-3", "+7"), -21);
    assert_eq!(multiply2("10", "2"), Ok(20));
    assert_eq!(multiply3("10", "2"), Ok(20));
    assert_eq!(multiply4("10", "2"), Ok(20));
    assert_eq!(multiply5("10", "2"), Ok(20));
    assert_eq!(multiply6("10", "2"), Ok(20));
    assert_eq!(multiply6("46341", "-46340"), Ok(-2147441940));
}

#[test]
fn multiply_hands_the_first_failure_on() {
    for multiply in [multiply2, multiply3, multiply4, multiply5, multiply6] {
        assert_eq!(multiply("t", "2"), Err(ParseError::InvalidDigit));
        assert_eq!(multiply("10", ""), Err(ParseError::Empty));
        assert_eq!(multiply("", "t"), Err(ParseError::Empty));
        assert_eq!(multiply("99999999999", "t"), Err(ParseError::PosOverflow));
        assert_eq!(multiply("1", "-99999999999"), Err(ParseError::NegOverflow));
    }
}

#[test]
fn multiply_checks_its_bounds() {
    assert!(results::fits("10", "2"));
    assert!(results::fits("t", "2"));
    assert!(results::fits("65536", "32767"));
    assert!(!results::fits("65536", "32768"));
    assert!(results::fits("65536", "-32768"));
    assert!(!results::fits("-2147483648", "-1"));
    assert!(results::fits("2147483648", "2"));
}

#[test]
fn scale_by_a_number() {
    assert_eq!(scale(3, "4"), Ok(12));
    assert_eq!(scale(3, "four"), Err(ParseError::InvalidDigit));
}

#[test]
fn double_first_of_numbers() {
    let numbers = || vec!["42", "93", "18"];
    assert_eq!(double_first1(numbers()), 84);
    assert_eq!(double_first2(numbers()), Some(Ok(84)));
    assert_eq!(double_first3(numbers()), Ok(Some(84)));
    assert_eq!(double_first4(numbers()), Ok(84));
    assert_eq!(double_first5(numbers()), Ok(84));
    assert_eq!(double_first6(numbers()), Ok(84));
    assert_eq!(double_first7(numbers()), Ok(84));
}

#[test]
fn double_first_of_nothing() {
    let empty = || -> Vec<&str> { vec![] };
    assert_eq!(double_first2(empty()), None);
    assert_eq!(double_first3(empty()), Ok(None));
    assert_eq!(double_first4(empty()), Err(DoubleError4));
    assert_eq!(double_first5(empty()), Err(AnyError::Empty5(EmptyVec5)));
    assert_eq!(double_first6(empty()), Err(AnyError::Empty6(EmptyVec6)));
    assert_eq!(double_first7(empty()), Err(DoubleError7::EmptyVec));
}

#[test]
fn double_first_of_tofu() {
    let strings = || vec!["tofu", "93", "18"];
    assert_eq!(double_first2(strings()), Some(Err(ParseError::InvalidDigit)));
    assert_eq!(double_first3(strings()), Err(ParseError::InvalidDigit));
    assert_eq!(double_first4(strings()), Err(DoubleError4));
    assert_eq!(double_first5(strings()), Err(AnyError::Parse(ParseError::InvalidDigit)));
    assert_eq!(double_first6(strings()), Err(AnyError::Parse(ParseError::InvalidDigit)));
    assert_eq!(double_first7(strings()), Err(DoubleError7::Parse(ParseError::InvalidDigit)));
}

#[test]
fn double_first_checks_its_bounds() {
    assert!(double_first::fits(&vec![]));
    assert!(double_first::fits(&vec!["tofu"]));
    assert!(double_first::fits(&vec!["1073741823", "x"]));
    assert!(!double_first::fits(&vec!["1073741824"]));
    assert!(double_first::fits(&vec!["-1073741824"]));
    assert!(!double_first::fits(&vec!["-1073741825"]));
    assert_eq!(double_first7(vec!["-1073741824"]), Ok(i32::MIN));
}

#[test]
fn double_errors_in_words() {
    assert_eq!(DoubleError4.message(), "invalid first item to double");
    assert_eq!(EmptyVec5.message(), "invalid first item to double");
    assert_eq!(EmptyVec6.message(), "invalid first item to double");
    assert_eq!(
        DoubleError7::EmptyVec.message(),
        "please use a vector with at least one element"
    );
    assert_eq!(
        DoubleError7::Parse(ParseError::Empty).message(),
        "the provided string could not be parsed as int"
    );
    assert_eq!(DoubleError7::EmptyVec.source(), None);
    assert_eq!(
        DoubleError7::Parse(ParseError::PosOverflow).source(),
        Some(ParseError::PosOverflow)
    );
    assert_eq!(
        DoubleError7::from(ParseError::InvalidDigit),
        DoubleError7::Parse(ParseError::InvalidDigit)
    );
}

#[test]
fn parse_errors_in_words() {
    let inputs = ["", "t", "+", "2147483648", "-2147483649", "99999999999x"];
    for input in inputs {
        let ours = parse_i32(input).unwrap_err();
        let theirs = input.parse::<i32>().unwrap_err();
        assert_eq!(ours.message(), theirs.to_string(), "{:?}", input);
    }
    assert_eq!(ParseError::Empty.message(), "cannot parse integer from empty string");
    assert_eq!(ParseError::InvalidDigit.message(), "invalid digit found in string");
    assert_eq!(ParseError::PosOverflow.message(), "number too large to fit in target type");
    assert_eq!(ParseError::NegOverflow.message(), "number too small to fit in target type");
}
