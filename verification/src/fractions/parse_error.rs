//! The ways in which reading a fraction from text can fail.

use crate::decimal::IntParseError;
use vstd::prelude::*;
use vstd::string::StringExecFns;

verus! {

/// Why a text is not a fraction. `E` is the error of reading one of its two
/// numbers.
#[derive(Debug, PartialEq)]
pub enum FractionParseError<E> {
    /// The text is neither `<numerator>/<denominator>` nor a bare integer.
    IncorrectForm,
    /// The denominator is written as zero.
    ZeroDenominator,
    /// The numerator or the denominator could not be read as a number.
    NumParseError(E),
}

impl<E> FractionParseError<E> {
    /// The error of reading a number, if that is what went wrong. Other
    /// errors are dropped.
    pub fn num_parse_error(self) -> (r: Option<E>)
        ensures
            r == match self {
                FractionParseError::NumParseError(e) => Some(e),
                _ => None,
            },
    {
        match self {
            FractionParseError::NumParseError(err) => Some(err),
            _ => None,
        }
    }

    /// A reference to the error of reading a number, if that is what went
    /// wrong. The error itself stays in place.
    pub fn as_num_parse_error(&self) -> (r: Option<&E>)
        ensures
            r == match *self {
                FractionParseError::NumParseError(e) => Some(&e),
                _ => None,
            },
    {
        match self {
            FractionParseError::NumParseError(err) => Some(err),
            _ => None,
        }
    }

    /// Whether a number could not be read.
    pub fn is_num_parse_error(&self) -> (r: bool)
        ensures
            r == (*self is NumParseError),
    {
        match self {
            FractionParseError::NumParseError(_) => true,
            _ => false,
        }
    }

    /// Whether the text had the wrong form.
    pub fn is_incorrect_form(&self) -> (r: bool)
        ensures
            r == (*self is IncorrectForm),
    {
        match self {
            FractionParseError::IncorrectForm => true,
            _ => false,
        }
    }

    /// Whether the denominator was zero.
    pub fn is_zero_denominator(&self) -> (r: bool)
        ensures
            r == (*self is ZeroDenominator),
    {
        match self {
            FractionParseError::ZeroDenominator => true,
            _ => false,
        }
    }
}

impl FractionParseError<IntParseError> {
    /// The message for each error, as text.
    pub open spec fn message_spec(self) -> Seq<char> {
        match self {
            FractionParseError::IncorrectForm => "Incorrectly formed fraction (format should be <D>/<N>)"@,
            FractionParseError::ZeroDenominator => "Fraction denominator cannot be zero"@,
            FractionParseError::NumParseError(e) => "Error when parsing fraction: "@
                + e.message_spec(),
        }
    }

    /// A message that says what was wrong with the text.
    pub fn to_string(&self) -> (s: String)
        ensures
            s@ == self.message_spec(),
    {
        match self {
            FractionParseError::IncorrectForm => "Incorrectly formed fraction (format should be <D>/<N>)".to_owned(),
            FractionParseError::ZeroDenominator => "Fraction denominator cannot be zero".to_owned(),
            FractionParseError::NumParseError(err) => {
                let mut s = "Error when parsing fraction: ".to_owned();
                let detail = err.to_string();
                s.append(detail.as_str());
                s
            },
        }
    }
}

} // verus!
