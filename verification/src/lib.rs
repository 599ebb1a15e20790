//! Exact rational numbers kept in lowest terms, with the sign in the
//! numerator.
//!
//! A [`Fraction`] holds an `i32` numerator over a positive `i32`
//! denominator that share no divisor but one; zero is `0/1`. Every way of
//! making a fraction goes through sign normalization and reduction, so two
//! fractions are equal exactly when they stand for the same number.
//!
//! All arithmetic is done in `i32`. An operation states as its precondition
//! that none of its steps overflows; within that, its result is exact.
//!
//! - [`auxiliary`] holds the numeric helpers: sign normalization, greatest
//!   common divisor, least common multiple, reduction.
//! - [`number_theory`] holds what is proved of divisibility and the
//!   greatest common divisor.
//! - [`fractions`] holds the fraction type, its arithmetic, its order and
//!   its text form.
//! - [`decimal`] reads and writes `i32` in decimal digits.

pub mod auxiliary;
pub mod decimal;
pub mod fractions;
pub mod number_theory;

pub use crate::decimal::IntParseError;
pub use crate::fractions::parse_error::FractionParseError;
pub use crate::fractions::Fraction;
