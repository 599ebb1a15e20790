//! The order of fractions by value.

use crate::auxiliary::widening_product;
use crate::fractions::Fraction;
use crate::number_theory::lemma_lowest_terms_unique;
use std::cmp::Ordering;
use vstd::prelude::*;

verus! {

/// How two fractions compare: by their cross products, which with positive
/// denominators is by their values. The result is never `None`.
pub open spec fn value_order(a: (int, int), b: (int, int)) -> Option<Ordering> {
    let left = a.0 * b.1;
    let right = b.0 * a.1;
    if left < right {
        Some(Ordering::Less)
    } else if left == right {
        Some(Ordering::Equal)
    } else {
        Some(Ordering::Greater)
    }
}

impl vstd::std_specs::cmp::PartialOrdSpecImpl for Fraction {
    open spec fn obeys_partial_cmp_spec() -> bool {
        true
    }

    open spec fn partial_cmp_spec(&self, other: &Fraction) -> Option<Ordering> {
        value_order(self@, other@)
    }
}

impl PartialOrd for Fraction {
    /// Compares two fractions by value. The cross products are taken in
    /// `i64`, where they cannot overflow.
    fn partial_cmp(&self, other: &Fraction) -> (r: Option<Ordering>)
        ensures
            r == value_order(self@, other@),
    {
        let left: i64 = widening_product(self.numerator, other.denominator);
        let right: i64 = widening_product(other.numerator, self.denominator);
        if left < right {
            Some(Ordering::Less)
        } else if left == right {
            Some(Ordering::Equal)
        } else {
            Some(Ordering::Greater)
        }
    }
}

/// The order agrees with equality: two fractions compare as equal exactly
/// when they are the same fraction.
pub proof fn lemma_order_agrees_with_equality(a: Fraction, b: Fraction)
    requires
        a.wf(),
        b.wf(),
    ensures
        value_order(a@, b@) == Some(Ordering::Equal) <==> a == b,
{
    Fraction::lemma_view_determines(a, b);
    if a@.0 * b@.1 == b@.0 * a@.1 {
        lemma_lowest_terms_unique(a@.0, a@.1, b@.0, b@.1);
    }
}

/// One fraction is less than another exactly when the other is greater
/// than the one.
pub proof fn lemma_order_converse(a: Fraction, b: Fraction)
    ensures
        value_order(a@, b@) == Some(Ordering::Less) <==> value_order(b@, a@) == Some(
            Ordering::Greater,
        ),
{
}

/// The order is transitive.
pub proof fn lemma_order_transitive(a: Fraction, b: Fraction, c: Fraction)
    requires
        a.wf(),
        b.wf(),
        c.wf(),
        value_order(a@, b@) == Some(Ordering::Less),
        value_order(b@, c@) == Some(Ordering::Less),
    ensures
        value_order(a@, c@) == Some(Ordering::Less),
{
    let (n1, d1) = a@;
    let (n2, d2) = b@;
    let (n3, d3) = c@;
    assert(n1 * d3 < n3 * d1) by (nonlinear_arith)
        requires
            n1 * d2 < n2 * d1,
            n2 * d3 < n3 * d2,
            d1 > 0,
            d2 > 0,
            d3 > 0,
    ;
}

} // verus!
