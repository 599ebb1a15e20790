use fractions::decimal::{format_i32, parse_i32};
use fractions::{Fraction, FractionParseError, IntParseError};

#[test]
fn format_i32_writes_decimal_digits() {
    assert_eq!("0", format_i32(0));
    assert_eq!("7", format_i32(7));
    assert_eq!("10", format_i32(10));
    assert_eq!("-1", format_i32(-1));
    assert_eq!("1234567890", format_i32(1234567890));
    assert_eq!("2147483647", format_i32(i32::MAX));
    assert_eq!("-2147483648", format_i32(i32::MIN));
}

#[test]
fn parse_i32_reads_decimal_digits() {
    assert_eq!(Ok(0), parse_i32("0"));
    assert_eq!(Ok(17), parse_i32("17"));
    assert_eq!(Ok(17), parse_i32("+17"));
    assert_eq!(Ok(-17), parse_i32("-17"));
    assert_eq!(Ok(17), parse_i32("0017"));
    assert_eq!(Ok(0), parse_i32("-0"));
    assert_eq!(Ok(i32::MAX), parse_i32("2147483647"));
    assert_eq!(Ok(i32::MIN), parse_i32("-2147483648"));
}

#[test]
fn parse_i32_of_nothing_is_empty() {
    assert_eq!(Err(IntParseError::Empty), parse_i32(""));
}

#[test]
fn parse_i32_rejects_what_is_not_a_digit() {
    assert_eq!(Err(IntParseError::InvalidDigit), parse_i32("eight"));
    assert_eq!(Err(IntParseError::InvalidDigit), parse_i32("-"));
    assert_eq!(Err(IntParseError::InvalidDigit), parse_i32("+"));
    assert_eq!(Err(IntParseError::InvalidDigit), parse_i32("1 "));
    assert_eq!(Err(IntParseError::InvalidDigit), parse_i32(" 1"));
    assert_eq!(Err(IntParseError::InvalidDigit), parse_i32("1_000"));
    assert_eq!(Err(IntParseError::InvalidDigit), parse_i32("--1"));
    assert_eq!(Err(IntParseError::InvalidDigit), parse_i32("1-"));
    assert_eq!(Err(IntParseError::InvalidDigit), parse_i32("\u{0661}"));
    assert_eq!(Err(IntParseError::InvalidDigit), parse_i32("99999999999x"));
}

#[test]
fn parse_i32_reports_overflow() {
    assert_eq!(Err(IntParseError::PosOverflow), parse_i32("2147483648"));
    assert_eq!(Err(IntParseError::PosOverflow), parse_i32("+99999999999999999999999"));
    assert_eq!(Err(IntParseError::NegOverflow), parse_i32("-2147483649"));
    assert_eq!(Err(IntParseError::NegOverflow), parse_i32("-99999999999999999999999"));
}

#[test]
fn parse_i32_agrees_with_the_standard_library() {
    let texts = [
        "0", "-0", "+0", "5", "+5", "-5", "007", "2147483647", "2147483648", "-2147483648",
        "-2147483649", "", "-", "+", "a", "1a", "a1", " 1", "1 ", "+-1", "1.0", "1/2",
    ];
    for t in texts {
        assert_eq!(t.parse::<i32>().ok(), parse_i32(t).ok(), "{}", t);
    }
}

#[test]
fn format_i32_agrees_with_the_standard_library() {
    let values = [0, 1, -1, 9, 10, 99, 100, -100, 123456789, i32::MAX, i32::MIN, i32::MIN + 1];
    for v in values {
        assert_eq!(format!("{}", v), format_i32(v));
    }
}

#[test]
fn to_string_writes_numerator_slash_denominator() {
    assert_eq!("-9/256", Fraction::new(18, -512).to_string());
    assert_eq!("0/1", Fraction::new(0, 9).to_string());
    assert_eq!("5/1", Fraction::from(5).to_string());
    assert_eq!("-2147483648/1", Fraction::from(i32::MIN).to_string());
    assert_eq!("1/2147483647", Fraction::new(1, i32::MAX).to_string());
}

#[test]
fn parse_reduces_and_moves_the_sign() {
    assert_eq!(Ok(Fraction::new(9, 256)), Fraction::parse("18/512"));
    assert_eq!((9, 256), Fraction::parse("18/512").unwrap().get_as_tuple());
    assert_eq!((-1, 5), Fraction::parse("1/-5").unwrap().get_as_tuple());
    assert_eq!((1, 5), Fraction::parse("-1/-5").unwrap().get_as_tuple());
    assert_eq!((1, 5), Fraction::parse("+1/+5").unwrap().get_as_tuple());
    assert_eq!((0, 1), Fraction::parse("0/7").unwrap().get_as_tuple());
}

#[test]
fn parse_reads_a_bare_integer() {
    assert_eq!((5, 1), Fraction::parse("5").unwrap().get_as_tuple());
    assert_eq!((-5, 1), Fraction::parse("-5").unwrap().get_as_tuple());
    assert_eq!((0, 1), Fraction::parse("0").unwrap().get_as_tuple());
    assert_eq!(Ok(Fraction::from(i32::MIN)), "-2147483648".parse::<Fraction>());
}

#[test]
fn parse_rejects_an_empty_side() {
    assert_eq!(Err(FractionParseError::IncorrectForm), Fraction::parse("/5"));
    assert_eq!(Err(FractionParseError::IncorrectForm), Fraction::parse("5/"));
    assert_eq!(Err(FractionParseError::IncorrectForm), Fraction::parse("/"));
}

#[test]
fn parse_rejects_a_second_slash() {
    assert_eq!(Err(FractionParseError::IncorrectForm), Fraction::parse("1/2/3"));
    assert_eq!(Err(FractionParseError::IncorrectForm), Fraction::parse("1//2"));
    assert_eq!(Err(FractionParseError::IncorrectForm), Fraction::parse("1/2/"));
    assert_eq!(Err(FractionParseError::IncorrectForm), Fraction::parse("//"));
}

#[test]
fn parse_rejects_what_is_no_integer_without_a_slash() {
    assert_eq!(Err(FractionParseError::IncorrectForm), Fraction::parse(""));
    assert_eq!(Err(FractionParseError::IncorrectForm), Fraction::parse("five"));
    assert_eq!(Err(FractionParseError::IncorrectForm), Fraction::parse("5 17"));
    assert_eq!(Err(FractionParseError::IncorrectForm), Fraction::parse("-"));
    assert_eq!(Err(FractionParseError::IncorrectForm), Fraction::parse("5\\17"));
}

#[test]
fn parse_reports_the_number_that_failed() {
    assert_eq!(
        Err(FractionParseError::NumParseError(IntParseError::InvalidDigit)),
        Fraction::parse("1/eight")
    );
    assert_eq!(
        Err(FractionParseError::NumParseError(IntParseError::InvalidDigit)),
        Fraction::parse("one/8")
    );
    assert_eq!(
        Err(FractionParseError::NumParseError(IntParseError::InvalidDigit)),
        Fraction::parse("1 / 8")
    );
    assert_eq!(
        Err(FractionParseError::NumParseError(IntParseError::InvalidDigit)),
        Fraction::parse("-/8")
    );
    assert_eq!(
        Err(FractionParseError::NumParseError(IntParseError::PosOverflow)),
        Fraction::parse("2147483648/3")
    );
    assert_eq!(
        Err(FractionParseError::NumParseError(IntParseError::NegOverflow)),
        Fraction::parse("1/-2147483649")
    );
    assert_eq!(
        Err(FractionParseError::NumParseError(IntParseError::PosOverflow)),
        Fraction::parse("2147483648")
    );
    assert_eq!(
        Err(FractionParseError::NumParseError(IntParseError::NegOverflow)),
        Fraction::parse("-2147483649")
    );
}

#[test]
fn parse_reads_the_numerator_first() {
    assert_eq!(
        Err(FractionParseError::NumParseError(IntParseError::InvalidDigit)),
        Fraction::parse("x/0")
    );
    assert_eq!(
        Err(FractionParseError::NumParseError(IntParseError::PosOverflow)),
        Fraction::parse("99999999999/y")
    );
}

#[test]
fn parse_reports_a_zero_denominator() {
    assert_eq!(Err(FractionParseError::ZeroDenominator), Fraction::parse("0/0"));
    assert_eq!(Err(FractionParseError::ZeroDenominator), Fraction::parse("1/000"));
    assert_eq!(Err(FractionParseError::ZeroDenominator), Fraction::parse("1/-0"));
}

#[test]
fn parse_reports_a_sign_that_cannot_move() {
    assert_eq!(
        Err(FractionParseError::NumParseError(IntParseError::PosOverflow)),
        Fraction::parse("1/-2147483648")
    );
    assert_eq!(
        Err(FractionParseError::NumParseError(IntParseError::PosOverflow)),
        Fraction::parse("-2147483648/-1")
    );
    assert_eq!((i32::MIN, 1), Fraction::parse("-2147483648/1").unwrap().get_as_tuple());
}

#[test]
fn from_str_is_parse() {
    let texts = ["5/17", "5:17", "1/0", "1/eight", "7", "", "-3/-9"];
    for t in texts {
        assert_eq!(Fraction::parse(t), t.parse::<Fraction>());
    }
}

#[test]
fn parsing_the_text_of_a_fraction_gives_it_back() {
    let values = [-512, -35, -18, -7, -1, 0, 1, 2, 9, 14, 35, 256, 512, i32::MAX, i32::MIN];
    for n in values {
        for d in values {
            if d <= 0 {
                continue;
            }
            let f = Fraction::new(n, d);
            assert_eq!(Ok(f), Fraction::parse(&f.to_string()));
        }
    }
}
