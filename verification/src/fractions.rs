//! The fraction type: construction, accessors and the reciprocal.

pub mod arithmetic;
pub mod order;
pub mod parse_error;
pub mod text;

use crate::auxiliary::{
    canonical_spec, is_lowest_terms, lemma_canonical_lowest_terms, normalize_sign,
    normalize_sign_spec, reduce,
};
use crate::number_theory::{
    gcd, lemma_divisor_is_not_larger, lemma_gcd_is_greatest, lemma_gcd_symmetric,
};
use vstd::math::abs;
use vstd::prelude::*;

verus! {

/// A common fraction: an integer numerator over a positive integer
/// denominator, always in lowest terms. A negative fraction keeps its sign
/// in the numerator, and zero is `0/1`.
#[derive(Debug, Copy, Clone, PartialEq, Eq, Structural)]
pub struct Fraction {
    numerator: i32,
    denominator: i32,
}

impl View for Fraction {
    type V = (int, int);

    /// The numerator and the denominator as mathematical integers.
    closed spec fn view(&self) -> (int, int) {
        (self.numerator as int, self.denominator as int)
    }
}

impl Fraction {
    /// The invariant of every fraction: a positive denominator that shares
    /// no divisor but one with the numerator, both within `i32`.
    #[verifier::type_invariant]
    pub open spec fn wf(&self) -> bool {
        &&& is_lowest_terms(self@.0, self@.1)
        &&& i32::MIN <= self@.0 <= i32::MAX
        &&& self@.1 <= i32::MAX
    }

    /// The fraction that has the pair `p` as its view, for a pair within
    /// `i32`.
    pub closed spec fn of(p: (int, int)) -> Fraction {
        Fraction { numerator: p.0 as i32, denominator: p.1 as i32 }
    }

    /// `of` gives the fraction with the view asked for.
    pub proof fn lemma_of(p: (int, int))
        requires
            i32::MIN <= p.0 <= i32::MAX,
            i32::MIN <= p.1 <= i32::MAX,
        ensures
            Fraction::of(p)@ == p,
    {
    }

    /// Two fractions with the same view are the same fraction.
    pub proof fn lemma_view_determines(a: Fraction, b: Fraction)
        ensures
            a@ == b@ <==> a == b,
    {
    }

    /// Creates the fraction `numerator / denominator` in lowest terms, with
    /// the sign in the numerator. The denominator must not be zero, and a
    /// negative denominator must leave both numbers negatable.
    pub fn new(numerator: i32, denominator: i32) -> (r: Fraction)
        requires
            denominator != 0,
            denominator < 0 ==> numerator != i32::MIN && denominator != i32::MIN,
        ensures
            r.wf(),
            r@ == canonical_spec(numerator as int, denominator as int),
            r@.0 * denominator == numerator * r@.1,
            numerator == 0 ==> r@ == (0int, 1int),
    {
        let (n, d) = normalize_sign(numerator, denominator);
        let (numerator_reduced, denominator_reduced) = reduce(n, d);
        proof {
            lemma_canonical_lowest_terms(numerator as int, denominator as int);
        }
        Fraction { numerator: numerator_reduced, denominator: denominator_reduced }
    }

    /// The numerator, which carries the sign.
    pub fn numerator(&self) -> (n: i32)
        ensures
            n == self@.0,
    {
        self.numerator
    }

    /// The denominator, which is positive.
    pub fn denominator(&self) -> (d: i32)
        ensures
            d == self@.1,
            d > 0,
    {
        proof {
            use_type_invariant(self);
        }
        self.denominator
    }

    /// The pair `(numerator, denominator)`.
    pub fn get_as_tuple(&self) -> (t: (i32, i32))
        ensures
            (t.0 as int, t.1 as int) == self@,
    {
        (self.numerator, self.denominator)
    }

    /// Whether the fraction is proper: the absolute value of the numerator
    /// is below the denominator.
    pub fn is_proper(&self) -> (proper: bool)
        ensures
            proper == (abs(self@.0) < self@.1),
    {
        proof {
            use_type_invariant(self);
        }
        -self.denominator < self.numerator && self.numerator < self.denominator
    }

    /// The inverse `1 / self`, with the sign moved back to the numerator.
    /// Zero has no inverse, and the numerator must be negatable.
    pub fn reciprocal(&self) -> (r: Fraction)
        requires
            self@.0 != 0,
            self@.0 != i32::MIN,
        ensures
            r.wf(),
            r@ == normalize_sign_spec(self@.1, self@.0),
    {
        proof {
            use_type_invariant(self);
            lemma_gcd_symmetric(self@.0, self@.1);
            lemma_gcd_symmetric(self@.1, self@.0);
            lemma_gcd_symmetric(-self@.1, -self@.0);
        }
        let (numerator, denominator) = normalize_sign(self.denominator, self.numerator);
        Fraction { numerator, denominator }
    }
}

impl vstd::std_specs::convert::FromSpecImpl<i32> for Fraction {
    open spec fn obeys_from_spec() -> bool {
        true
    }

    open spec fn from_spec(n: i32) -> Fraction {
        Fraction::of((n as int, 1))
    }
}

impl From<i32> for Fraction {
    /// The whole number `n` as the fraction `n/1`.
    fn from(n: i32) -> (r: Fraction)
        ensures
            r.wf(),
            r@ == (n as int, 1int),
    {
        proof {
            lemma_gcd_is_greatest(n as int, 1);
            lemma_divisor_is_not_larger(gcd(n as int, 1), 1);
        }
        Fraction { numerator: n, denominator: 1 }
    }
}

} // verus!
