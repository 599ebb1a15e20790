use fractions::{Fraction, FractionParseError};

#[test]
fn fraction_reduces_correctly() {
    let f = Fraction::new(18, 512);

    let expected_equivalent = Fraction::new(9, 256);
    assert_eq!(expected_equivalent, f);
}

#[test]
fn fraction_can_be_obtained_as_tuple() {
    let f = Fraction::new(7, 23);

    let expected_tuple = (7, 23);
    assert_eq!(expected_tuple, f.get_as_tuple());
}

#[test]
fn fraction_can_be_checked_for_properness() {
    let improper = Fraction::new(10, 9);
    let proper = Fraction::new(3, 4);

    assert!(!improper.is_proper());
    assert!(proper.is_proper());
}

#[test]
fn fraction_is_inversed_correctly() {
    let f = Fraction::new(3, 5);

    let expected_result = Fraction::new(5, 3);
    assert_eq!(expected_result, f.reciprocal());

    let f = Fraction::new(-3, 5);

    let expected_result = Fraction::new(-5, 3);
    assert_eq!(expected_result, f.reciprocal());
}

#[test]
fn fraction_is_displayed_correctly() {
    let f = Fraction::new(3, 13);

    let expected_result = "3/13";
    assert_eq!(expected_result, f.to_string());
}

#[test]
fn fraction_is_parsed_correctly() {
    let result = "5/17".parse::<Fraction>();

    let expected_result = Some(Fraction::new(5, 17));
    assert_eq!(expected_result, result.ok());
}

#[test]
fn fraction_parse_err_when_incorrect_form() {
    let result = "5:17".parse::<Fraction>();

    let expected_result = Some(FractionParseError::IncorrectForm);
    assert_eq!(expected_result, result.err());
}

#[test]
fn fraction_parse_err_when_zero_denominator() {
    let result = "1/0".parse::<Fraction>();

    let expected_result = Some(FractionParseError::ZeroDenominator);
    assert_eq!(expected_result, result.err());
}

#[test]
fn fraction_parse_err_when_number_cannot_be_parsed() {
    let result = "1/eight".parse::<Fraction>();

    assert!(
        matches!(result.unwrap_err(), FractionParseError::NumParseError(_)),
        "Failed numeric parse did not yield a parse err"
    );
}

#[test]
fn sign_is_transferred_to_numerator() {
    let f = Fraction::new(1, -5);

    let expected_equivalent = Fraction::new(-1, 5);
    assert_eq!(expected_equivalent, f);
}

#[test]
fn fractions_can_be_compared() {
    let f = Fraction::new(3, 4);
    let g = Fraction::new(5, 6);

    assert_eq!(true, g > f);
    assert_eq!(false, f > g);
}

#[test]
fn fractions_are_added_correctly() {
    let f = Fraction::new(1, 14);
    let g = Fraction::new(3, 35);

    let expected_result = Fraction::new(11, 70);
    assert_eq!(expected_result, f + g);
}

#[test]
fn fractions_are_subtracted_correctly() {
    let f = Fraction::new(1, 7);
    let g = Fraction::new(3, 35);

    let expected_result = Fraction::new(2, 35);
    assert_eq!(expected_result, f - g);
}

#[test]
fn fractions_are_negated_correctly() {
    let f = Fraction::new(5, 19);

    let expected_result = Fraction::new(-5, 19);
    assert_eq!(expected_result, -f);
}

#[test]
fn fractions_are_multiplied_correctly() {
    let f = Fraction::new(3, 13);
    let g = Fraction::new(4, 11);

    let expected_result = Fraction::new(12, 143);
    assert_eq!(expected_result, f * g);
}

#[test]
fn fractions_are_divided_correctly() {
    let f = Fraction::new(1, 19);
    let g = Fraction::new(5, 8);

    let expected_result = Fraction::new(8, 95);
    assert_eq!(expected_result, f / g);
}
