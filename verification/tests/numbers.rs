use panda::numbers::{decimal_text, parse_count, ParseCountError};
use std::num::IntErrorKind;

fn std_count(text: &str) -> Result<usize, ParseCountError> {
    match text.parse::<usize>() {
        Ok(v) => Ok(v),
        Err(e) => match e.kind() {
            IntErrorKind::Empty => Err(ParseCountError::Empty),
            IntErrorKind::InvalidDigit => Err(ParseCountError::InvalidDigit),
            IntErrorKind::PosOverflow => Err(ParseCountError::Overflow),
            other => panic!("unexpected error kind {:?}", other),
        },
    }
}

#[test]
fn parse_count_reads_plain_counts() {
    assert_eq!(parse_count("0"), Ok(0));
    assert_eq!(parse_count("12345"), Ok(12345));
    assert_eq!(parse_count("+7"), Ok(7));
    assert_eq!(parse_count("007"), Ok(7));
}

#[test]
fn parse_count_rejects_what_is_no_count() {
    assert_eq!(parse_count(""), Err(ParseCountError::Empty));
    assert_eq!(parse_count("+"), Err(ParseCountError::InvalidDigit));
    assert_eq!(parse_count("-"), Err(ParseCountError::InvalidDigit));
    assert_eq!(parse_count("-3"), Err(ParseCountError::InvalidDigit));
    assert_eq!(parse_count(" 3"), Err(ParseCountError::InvalidDigit));
    assert_eq!(parse_count("3 "), Err(ParseCountError::InvalidDigit));
    assert_eq!(parse_count("1.5k"), Err(ParseCountError::InvalidDigit));
    assert_eq!(parse_count("٣"), Err(ParseCountError::InvalidDigit));
    assert_eq!(
        parse_count("99999999999999999999999999"),
        Err(ParseCountError::Overflow)
    );
    assert_eq!(
        parse_count("99999999999999999999999999x"),
        Err(ParseCountError::Overflow)
    );
}

#[test]
fn parse_count_agrees_with_std() {
    let max = usize::MAX.to_string();
    let mut above = max.clone();
    above.push('0');
    let samples = [
        "", "+", "-", "0", "00", "+0", "-0", "42", "+42", "++4", "4+", "1_000", "abc", "12a", "a12",
        " 1", "1 ", "\u{0661}", "18446744073709551615", "18446744073709551616", "4294967295",
        "4294967296", "999999999999999999999", "99999999999999999999a", "9999999999999999999a",
    ];
    for s in samples.iter() {
        assert_eq!(parse_count(s), std_count(s), "input {:?}", s);
    }
    assert_eq!(parse_count(&max), std_count(&max));
    assert_eq!(parse_count(&above), std_count(&above));
}

#[test]
fn decimal_text_writes_counts() {
    assert_eq!(decimal_text(0), "0");
    assert_eq!(decimal_text(7), "7");
    assert_eq!(decimal_text(10), "10");
    assert_eq!(decimal_text(1234567), "1234567");
    assert_eq!(decimal_text(usize::MAX), usize::MAX.to_string());
}

#[test]
fn decimal_text_reads_back() {
    for n in [0usize, 1, 9, 10, 99, 100, 65535, 123456789, usize::MAX] {
        assert_eq!(parse_count(&decimal_text(n)), Ok(n));
    }
}
