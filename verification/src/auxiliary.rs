//! Numeric helpers behind every fraction: sign normalization, greatest common
//! divisor, least common multiple and reduction to lowest terms.

use crate::number_theory::{
    is_common_divisor, is_greatest_common_divisor, lemma_divides_combination,
    lemma_divisible_is_multiple, lemma_divisor_is_not_larger, lemma_exact_quotient_of_negation,
    lemma_gcd_is_greatest, lemma_gcd_of_quotients, lemma_gcd_symmetric,
    lemma_greatest_common_divisor_is_gcd, lemma_lowest_terms_unique, lemma_multiple_is_divisible,
};
use vstd::math::abs;
use vstd::prelude::*;

verus! {

/// The pair `(n, d)` with any sign of the denominator moved to the numerator.
pub open spec fn normalize_sign_spec(n: int, d: int) -> (int, int) {
    if d < 0 {
        (-n, -d)
    } else {
        (n, d)
    }
}

/// The divisor that reduction uses: 1 when either number is zero, else the
/// greatest common divisor. It is always positive.
pub open spec fn gcd_spec(a: int, b: int) -> int {
    if a == 0 || b == 0 {
        1
    } else {
        crate::number_theory::gcd(a, b)
    }
}

/// The product of two numbers divided by their `gcd_spec`.
pub open spec fn lcm_spec(a: int, b: int) -> int {
    (a * b) / gcd_spec(a, b)
}

/// The pair `(a, b)` in lowest terms; a zero numerator gives `(0, 1)`.
pub open spec fn reduce_spec(a: int, b: int) -> (int, int) {
    if a == 0 {
        (0, 1)
    } else {
        let g = gcd_spec(abs(a) as int, b);
        (a / g, b / g)
    }
}

/// The pair that a fraction is built from: sign normalized, then reduced.
///
/// On given numbers, `lemma_canonical_unique` tells what it is.
pub open spec fn canonical_spec(n: int, d: int) -> (int, int) {
    let s = normalize_sign_spec(n, d);
    reduce_spec(s.0, s.1)
}

/// The pair has a positive second number and no common divisor but one.
pub open spec fn is_lowest_terms(n: int, d: int) -> bool {
    d > 0 && crate::number_theory::gcd(n, d) == 1
}

/// Moves a negative sign from the denominator to the numerator. The pair is
/// not reduced.
pub fn normalize_sign(n: i32, d: i32) -> (r: (i32, i32))
    requires
        d < 0 ==> n != i32::MIN && d != i32::MIN,
    ensures
        (r.0 as int, r.1 as int) == normalize_sign_spec(n as int, d as int),
{
    if d < 0 {
        (-n, -d)
    } else {
        (n, d)
    }
}

/// The product of two `i32` values, taken in `i64`, where it always fits.
pub fn widening_product(a: i32, b: i32) -> (p: i64)
    ensures
        p == a * b,
{
    assert(-0x4000_0000_0000_0000 <= a * b <= 0x4000_0000_0000_0000) by (nonlinear_arith)
        requires
            -0x8000_0000 <= a <= 0x7fff_ffff,
            -0x8000_0000 <= b <= 0x7fff_ffff,
    ;
    (a as i64) * (b as i64)
}

/// Calls `num::integer::gcd` on two `i32` values. Unless both are zero, the
/// result is taken to be their greatest common divisor: positive, dividing
/// both, and no smaller than any other common divisor. For two zeros it is
/// zero. The inputs whose greatest common divisor is 2^31 are left out,
/// since the result would not fit.
#[verifier::external_body]
fn num_gcd(a: i32, b: i32) -> (g: i32)
    requires
        a == i32::MIN ==> b != 0 && b != i32::MIN,
        b == i32::MIN ==> a != 0 && a != i32::MIN,
    ensures
        a != 0 || b != 0 ==> is_greatest_common_divisor(g as int, a as int, b as int),
        a == 0 && b == 0 ==> g == 0,
{
    num::integer::gcd(a, b)
}

/// `gcd_spec` is positive and divides both of its arguments, whatever the
/// sign of the first.
pub proof fn lemma_gcd_spec_divides(a: int, b: int)
    ensures
        gcd_spec(a, b) > 0,
        a % gcd_spec(a, b) == 0,
        b % gcd_spec(a, b) == 0,
        gcd_spec(abs(a) as int, b) == gcd_spec(a, b),
{
    if a == 0 || b == 0 {
        lemma_multiple_is_divisible(1, a);
        lemma_multiple_is_divisible(1, b);
        assert(1 * a == a && 1 * b == b);
    } else {
        lemma_gcd_is_greatest(a, b);
        lemma_gcd_symmetric(a, b);
        lemma_gcd_symmetric(abs(a) as int, b);
    }
}

/// The greatest common divisor of two numbers, or 1 when either is zero.
pub fn gcd(a: i32, b: i32) -> (g: i32)
    requires
        !(a == i32::MIN && b == i32::MIN),
    ensures
        g == gcd_spec(a as int, b as int),
        g > 0,
{
    if a == 0 || b == 0 {
        1
    } else {
        let g: i32 = num_gcd(a, b);
        proof {
            lemma_greatest_common_divisor_is_gcd(g as int, a as int, b as int);
        }
        g
    }
}

/// The least common multiple as `(a * b) / gcd(a, b)`. The product has to
/// fit in an `i32`.
pub fn lcm(a: i32, b: i32) -> (l: i32)
    requires
        i32::MIN <= a * b <= i32::MAX,
    ensures
        l == lcm_spec(a as int, b as int),
{
    assert(!(a == i32::MIN && b == i32::MIN)) by (nonlinear_arith)
        requires
            i32::MIN <= a * b <= i32::MAX,
    ;
    let product: i32 = a * b;
    let g: i32 = gcd(a, b);
    proof {
        lemma_gcd_spec_divides(a as int, b as int);
        lemma_divides_combination(g as int, a as int, b as int, b as int, 0);
        assert(a * b + b * 0 == a * b) by (nonlinear_arith);
        lemma_exact_quotient_of_negation(product as int, g as int);
    }
    product / g
}

/// Reduces a pair to lowest terms: `(0, 1)` for a zero numerator, else both
/// numbers divided by their greatest common divisor. The sign of `b` is not
/// looked at.
pub fn reduce(a: i32, b: i32) -> (r: (i32, i32))
    requires
        !(a == i32::MIN && b == i32::MIN),
    ensures
        (r.0 as int, r.1 as int) == reduce_spec(a as int, b as int),
{
    if a == 0 {
        return (0, 1);
    }
    let g: i32 = gcd(a, b);
    proof {
        lemma_gcd_spec_divides(a as int, b as int);
        lemma_exact_quotient_of_negation(a as int, g as int);
        lemma_exact_quotient_of_negation(b as int, g as int);
    }
    (a / g, b / g)
}

/// A pair with a positive second number is, after reduction, in lowest
/// terms with a positive second number, and stands for the same ratio.
pub proof fn lemma_reduce_lowest_terms(a: int, b: int)
    requires
        b > 0,
    ensures
        is_lowest_terms(reduce_spec(a, b).0, reduce_spec(a, b).1),
        reduce_spec(a, b).0 * b == a * reduce_spec(a, b).1,
{
    if a == 0 {
        lemma_gcd_symmetric(0, 1);
        lemma_gcd_is_greatest(0, 1);
        lemma_divisor_is_not_larger(crate::number_theory::gcd(0, 1), 1);
        assert(0 * b == a * 1) by (nonlinear_arith)
            requires
                a == 0,
        ;
    } else {
        let g = gcd_spec(a, b);
        lemma_gcd_spec_divides(a, b);
        lemma_gcd_of_quotients(a, b);
        lemma_divisible_is_multiple(a, g);
        lemma_divisible_is_multiple(b, g);
        let p = a / g;
        let q = b / g;
        assert(q > 0 && p * b == a * q) by (nonlinear_arith)
            requires
                a == g * p,
                b == g * q,
                g > 0,
                b > 0,
        ;
    }
}

/// Reduction returns a pair that is already in lowest terms unchanged.
pub proof fn lemma_reduce_keeps_lowest_terms(a: int, b: int)
    requires
        is_lowest_terms(a, b),
    ensures
        reduce_spec(a, b) == (a, b),
{
    lemma_gcd_symmetric(a, b);
    lemma_gcd_spec_divides(a, b);
    if a == 0 {
        lemma_gcd_is_greatest(a, b);
        lemma_multiple_is_divisible(b, 0);
        lemma_multiple_is_divisible(b, 1);
        assert(is_common_divisor(b, a, b));
    }
}

/// Reduction is idempotent: reducing a reduced pair changes nothing,
/// whatever the pair was.
pub proof fn lemma_reduce_idempotent(a: int, b: int)
    ensures
        reduce_spec(reduce_spec(a, b).0, reduce_spec(a, b).1) == reduce_spec(a, b),
{
    if a != 0 {
        let g = gcd_spec(a, b);
        lemma_gcd_spec_divides(a, b);
        let p = a / g;
        let q = b / g;
        lemma_divisible_is_multiple(a, g);
        lemma_divisible_is_multiple(b, g);
        assert(p != 0 && (b != 0 ==> q != 0)) by (nonlinear_arith)
            requires
                a == g * p,
                b == g * q,
                a != 0,
        ;
        lemma_gcd_spec_divides(p, q);
        if b != 0 {
            lemma_gcd_of_quotients(a, b);
        }
    }
}

/// Building from a pair with a nonzero second number gives a pair in lowest
/// terms that stands for the same ratio.
pub proof fn lemma_canonical_lowest_terms(n: int, d: int)
    requires
        d != 0,
    ensures
        is_lowest_terms(canonical_spec(n, d).0, canonical_spec(n, d).1),
        canonical_spec(n, d).0 * d == n * canonical_spec(n, d).1,
{
    let s = normalize_sign_spec(n, d);
    let c = canonical_spec(n, d);
    lemma_reduce_lowest_terms(s.0, s.1);
    assert(c.0 * d == n * c.1) by (nonlinear_arith)
        requires
            c.0 * s.1 == s.0 * c.1,
            (s.0 == n && s.1 == d) || (s.0 == -n && s.1 == -d),
    ;
}

/// The pair in lowest terms that stands for the ratio `n / d` is the one
/// that building from `(n, d)` gives, and no other. With `euclid` unfolded
/// far enough (`reveal_with_fuel`), this settles `canonical_spec` on given
/// numbers: `lemma_canonical_unique(6, -8, -3, 4)`.
pub proof fn lemma_canonical_unique(n: int, d: int, p: int, q: int)
    requires
        d != 0,
        is_lowest_terms(p, q),
        p * d == n * q,
    ensures
        canonical_spec(n, d) == (p, q),
{
    let c = canonical_spec(n, d);
    lemma_canonical_lowest_terms(n, d);
    assert(c.0 * q == p * c.1) by (nonlinear_arith)
        requires
            c.0 * d == n * c.1,
            p * d == n * q,
            d != 0,
    {
        assert((c.0 * q) * d == (c.0 * d) * q);
        assert((p * c.1) * d == (p * d) * c.1);
        assert((n * c.1) * q == (n * q) * c.1);
    }
    lemma_lowest_terms_unique(c.0, c.1, p, q);
}

} // verus!
