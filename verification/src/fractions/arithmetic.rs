//! Arithmetic on fractions: the four operations, negation, and the
//! compound assignments. Every result is again in lowest terms.

use crate::auxiliary::{
    canonical_spec, is_lowest_terms, lcm, lcm_spec, lemma_canonical_lowest_terms,
    lemma_canonical_unique, lemma_gcd_spec_divides, lemma_reduce_lowest_terms, normalize_sign,
    reduce, reduce_spec,
};
use crate::fractions::Fraction;
use crate::number_theory::{lemma_divisible_is_multiple, lemma_gcd_symmetric};
use std::ops::{Add, AddAssign, Div, DivAssign, Mul, MulAssign, Neg, Sub, SubAssign};
use vstd::arithmetic::div_mod::lemma_fundamental_div_mod_converse;
use vstd::prelude::*;
use vstd::std_specs::ops::{AddSpecImpl, DivSpecImpl, MulSpecImpl, NegSpecImpl, SubSpecImpl};

verus! {

/// The number can be held in an `i32`.
pub open spec fn fits_i32(x: int) -> bool {
    i32::MIN <= x <= i32::MAX
}

/// The sum of two fractions: both numerators are scaled to the least common
/// multiple of the denominators and added, and the result is reduced.
pub open spec fn sum_spec(a: (int, int), b: (int, int)) -> (int, int) {
    let l = lcm_spec(a.1, b.1);
    reduce_spec(a.0 * (l / a.1) + b.0 * (l / b.1), l)
}

/// No step of the addition leaves `i32`.
pub open spec fn sum_fits(a: (int, int), b: (int, int)) -> bool {
    let l = lcm_spec(a.1, b.1);
    &&& fits_i32(a.1 * b.1)
    &&& fits_i32(a.0 * (l / a.1))
    &&& fits_i32(b.0 * (l / b.1))
    &&& fits_i32(a.0 * (l / a.1) + b.0 * (l / b.1))
}

/// The difference of two fractions, computed as the sum is.
pub open spec fn difference_spec(a: (int, int), b: (int, int)) -> (int, int) {
    let l = lcm_spec(a.1, b.1);
    reduce_spec(a.0 * (l / a.1) - b.0 * (l / b.1), l)
}

/// No step of the subtraction leaves `i32`.
pub open spec fn difference_fits(a: (int, int), b: (int, int)) -> bool {
    let l = lcm_spec(a.1, b.1);
    &&& fits_i32(a.1 * b.1)
    &&& fits_i32(a.0 * (l / a.1))
    &&& fits_i32(b.0 * (l / b.1))
    &&& fits_i32(a.0 * (l / a.1) - b.0 * (l / b.1))
}

/// The product of two fractions: numerator times numerator over denominator
/// times denominator, reduced.
pub open spec fn product_spec(a: (int, int), b: (int, int)) -> (int, int) {
    reduce_spec(a.0 * b.0, a.1 * b.1)
}

/// No step of the multiplication leaves `i32`.
pub open spec fn product_fits(a: (int, int), b: (int, int)) -> bool {
    fits_i32(a.0 * b.0) && fits_i32(a.1 * b.1)
}

/// The quotient of two fractions: the cross products, sign normalized and
/// reduced.
pub open spec fn quotient_spec(a: (int, int), b: (int, int)) -> (int, int) {
    canonical_spec(a.0 * b.1, a.1 * b.0)
}

/// The divisor is not zero and no step of the division leaves `i32`.
pub open spec fn quotient_fits(a: (int, int), b: (int, int)) -> bool {
    &&& b.0 != 0
    &&& fits_i32(a.0 * b.1)
    &&& fits_i32(a.1 * b.0)
    &&& a.1 * b.0 < 0 ==> a.0 * b.1 != i32::MIN && a.1 * b.0 != i32::MIN
}

/// The least common multiple of two positive numbers is positive, and each
/// of the two divides it.
pub proof fn lemma_lcm_of_positive(a: int, b: int)
    requires
        a > 0,
        b > 0,
    ensures
        lcm_spec(a, b) > 0,
        lcm_spec(a, b) == a * (lcm_spec(a, b) / a),
        lcm_spec(a, b) == b * (lcm_spec(a, b) / b),
{
    let g = crate::auxiliary::gcd_spec(a, b);
    lemma_gcd_spec_divides(a, b);
    lemma_divisible_is_multiple(a, g);
    lemma_divisible_is_multiple(b, g);
    let p = a / g;
    let q = b / g;
    let l = p * b;
    assert(a * b == l * g + 0 && l == a * q && l == b * p && l > 0 && l == q * a + 0 && l == p * b
        + 0) by (nonlinear_arith)
        requires
            a == g * p,
            b == g * q,
            l == p * b,
            a > 0,
            b > 0,
            g > 0,
    ;
    lemma_fundamental_div_mod_converse(a * b, g, l, 0);
    lemma_fundamental_div_mod_converse(l, a, q, 0);
    lemma_fundamental_div_mod_converse(l, b, p, 0);
}

/// Fractions whose numerators and denominators are all within 32767 in
/// magnitude can be added, subtracted, multiplied and, by a divisor other
/// than zero, divided: no step leaves `i32`.
pub proof fn lemma_small_operands_fit(a: (int, int), b: (int, int))
    requires
        -32767 <= a.0 <= 32767,
        0 < a.1 <= 32767,
        -32767 <= b.0 <= 32767,
        0 < b.1 <= 32767,
    ensures
        sum_fits(a, b),
        difference_fits(a, b),
        product_fits(a, b),
        b.0 != 0 ==> quotient_fits(a, b),
{
    let l = lcm_spec(a.1, b.1);
    let x = l / a.1;
    let y = l / b.1;
    lemma_lcm_of_positive(a.1, b.1);
    lemma_gcd_spec_divides(a.1, b.1);
    let g = crate::auxiliary::gcd_spec(a.1, b.1);
    vstd::arithmetic::div_mod::lemma_fundamental_div_mod(a.1 * b.1, g);
    assert(0 < x <= b.1 && 0 < y <= a.1) by (nonlinear_arith)
        requires
            l > 0,
            l == a.1 * x,
            l == b.1 * y,
            a.1 * b.1 == g * l + (a.1 * b.1) % g,
            0 <= (a.1 * b.1) % g < g,
            g > 0,
            a.1 > 0,
            b.1 > 0,
    ;
    lemma_product_within(a.0, x);
    lemma_product_within(b.0, y);
    lemma_product_within(a.1, b.1);
    lemma_product_within(a.0, b.0);
    lemma_product_within(a.0, b.1);
    lemma_product_within(a.1, b.0);
}

/// The product of two numbers within 32767 in magnitude is within 32767
/// squared in magnitude, which is below 2^30.
proof fn lemma_product_within(x: int, y: int)
    requires
        -32767 <= x <= 32767,
        -32767 <= y <= 32767,
    ensures
        -1073676289 <= x * y <= 1073676289,
{
    assert(-1073676289 <= x * y <= 1073676289) by (nonlinear_arith)
        requires
            -32767 <= x <= 32767,
            -32767 <= y <= 32767,
    ;
}

/// The sum of two fractions stands for the sum of their values, and is in
/// lowest terms: it is what building from the cross-multiplied sum gives.
pub proof fn lemma_sum_value(a: (int, int), b: (int, int))
    requires
        a.1 > 0,
        b.1 > 0,
    ensures
        is_lowest_terms(sum_spec(a, b).0, sum_spec(a, b).1),
        sum_spec(a, b).0 * (a.1 * b.1) == (a.0 * b.1 + b.0 * a.1) * sum_spec(a, b).1,
        sum_spec(a, b) == canonical_spec(a.0 * b.1 + b.0 * a.1, a.1 * b.1),
{
    let l = lcm_spec(a.1, b.1);
    lemma_lcm_of_positive(a.1, b.1);
    lemma_scaled_to_common_denominator(a, b, l, 1);
    let r = sum_spec(a, b);
    lemma_canonical_unique(a.0 * b.1 + b.0 * a.1, a.1 * b.1, r.0, r.1);
}

/// The difference of two fractions stands for the difference of their
/// values, and is in lowest terms.
pub proof fn lemma_difference_value(a: (int, int), b: (int, int))
    requires
        a.1 > 0,
        b.1 > 0,
    ensures
        is_lowest_terms(difference_spec(a, b).0, difference_spec(a, b).1),
        difference_spec(a, b).0 * (a.1 * b.1) == (a.0 * b.1 - b.0 * a.1) * difference_spec(a, b).1,
        difference_spec(a, b) == canonical_spec(a.0 * b.1 - b.0 * a.1, a.1 * b.1),
{
    let l = lcm_spec(a.1, b.1);
    lemma_lcm_of_positive(a.1, b.1);
    lemma_scaled_to_common_denominator(a, b, l, -1);
    let r = difference_spec(a, b);
    lemma_canonical_unique(a.0 * b.1 - b.0 * a.1, a.1 * b.1, r.0, r.1);
}

/// Where `l` is a positive common multiple of the two denominators, the
/// numerators scaled to `l` and combined, then reduced over `l`, stand for
/// the cross-multiplied combination over the product of the denominators.
/// `sign` is 1 for a sum and -1 for a difference.
proof fn lemma_scaled_to_common_denominator(a: (int, int), b: (int, int), l: int, sign: int)
    requires
        a.1 > 0,
        b.1 > 0,
        l > 0,
        l == a.1 * (l / a.1),
        l == b.1 * (l / b.1),
    ensures
        ({
            let r = reduce_spec(a.0 * (l / a.1) + sign * (b.0 * (l / b.1)), l);
            &&& is_lowest_terms(r.0, r.1)
            &&& r.0 * (a.1 * b.1) == (a.0 * b.1 + sign * (b.0 * a.1)) * r.1
            &&& a.1 * b.1 > 0
        }),
{
    let x = l / a.1;
    let y = l / b.1;
    let scaled = a.0 * x + sign * (b.0 * y);
    let cross = a.0 * b.1 + sign * (b.0 * a.1);
    let product = a.1 * b.1;
    let r = reduce_spec(scaled, l);
    lemma_reduce_lowest_terms(scaled, l);
    assert(product > 0) by (nonlinear_arith)
        requires
            product == a.1 * b.1,
            a.1 > 0,
            b.1 > 0,
    ;
    let left = a.0 * x;
    let right = b.0 * y;
    assert(left * product == l * (a.0 * b.1)) by {
        assert((a.0 * x) * (a.1 * b.1) == (a.1 * x) * (a.0 * b.1)) by (nonlinear_arith);
    }
    assert(right * product == l * (b.0 * a.1)) by {
        assert((b.0 * y) * (a.1 * b.1) == (b.1 * y) * (b.0 * a.1)) by (nonlinear_arith);
    }
    assert(scaled * product == left * product + sign * (right * product)) by (nonlinear_arith)
        requires
            scaled == left + sign * right,
    ;
    assert(l * cross == l * (a.0 * b.1) + sign * (l * (b.0 * a.1))) by (nonlinear_arith)
        requires
            cross == a.0 * b.1 + sign * (b.0 * a.1),
    ;
    assert(r.0 * product == cross * r.1) by (nonlinear_arith)
        requires
            r.0 * l == scaled * r.1,
            scaled * product == l * cross,
            l > 0,
    {
        assert((r.0 * product) * l == (r.0 * l) * product);
        assert((scaled * r.1) * product == (scaled * product) * r.1);
        assert((l * cross) * r.1 == (cross * r.1) * l);
    }
}

/// The product of two fractions stands for the product of their values, and
/// is in lowest terms.
pub proof fn lemma_product_value(a: (int, int), b: (int, int))
    requires
        a.1 > 0,
        b.1 > 0,
    ensures
        is_lowest_terms(product_spec(a, b).0, product_spec(a, b).1),
        product_spec(a, b).0 * (a.1 * b.1) == (a.0 * b.0) * product_spec(a, b).1,
        product_spec(a, b) == canonical_spec(a.0 * b.0, a.1 * b.1),
{
    assert(a.1 * b.1 > 0) by (nonlinear_arith)
        requires
            a.1 > 0,
            b.1 > 0,
    ;
    lemma_reduce_lowest_terms(a.0 * b.0, a.1 * b.1);
}

/// The quotient of two fractions stands for the quotient of their values,
/// and is in lowest terms with a positive denominator, whatever the sign of
/// the divisor.
pub proof fn lemma_quotient_value(a: (int, int), b: (int, int))
    requires
        a.1 > 0,
        b.0 != 0,
    ensures
        is_lowest_terms(quotient_spec(a, b).0, quotient_spec(a, b).1),
        quotient_spec(a, b).0 * (a.1 * b.0) == (a.0 * b.1) * quotient_spec(a, b).1,
{
    assert(a.1 * b.0 != 0) by (nonlinear_arith)
        requires
            a.1 > 0,
            b.0 != 0,
    ;
    lemma_canonical_lowest_terms(a.0 * b.1, a.1 * b.0);
}

impl Fraction {
    /// The numerator and the denominator of the sum.
    fn add_impl(&self, other: &Fraction) -> (r: (i32, i32))
        requires
            sum_fits(self@, other@),
        ensures
            (r.0 as int, r.1 as int) == sum_spec(self@, other@),
            is_lowest_terms(r.0 as int, r.1 as int),
    {
        proof {
            use_type_invariant(self);
            use_type_invariant(other);
            lemma_lcm_of_positive(self@.1, other@.1);
        }
        let denom: i32 = lcm(self.denominator, other.denominator);
        let num: i32 = self.numerator * (denom / self.denominator) + other.numerator * (denom
            / other.denominator);
        proof {
            lemma_reduce_lowest_terms(num as int, denom as int);
        }
        reduce(num, denom)
    }

    /// The numerator and the denominator of the difference.
    fn sub_impl(&self, other: &Fraction) -> (r: (i32, i32))
        requires
            difference_fits(self@, other@),
        ensures
            (r.0 as int, r.1 as int) == difference_spec(self@, other@),
            is_lowest_terms(r.0 as int, r.1 as int),
    {
        proof {
            use_type_invariant(self);
            use_type_invariant(other);
            lemma_lcm_of_positive(self@.1, other@.1);
        }
        let denom: i32 = lcm(self.denominator, other.denominator);
        let num: i32 = self.numerator * (denom / self.denominator) - other.numerator * (denom
            / other.denominator);
        proof {
            lemma_reduce_lowest_terms(num as int, denom as int);
        }
        reduce(num, denom)
    }

    /// The numerator and the denominator of the product.
    fn mul_impl(&self, other: &Fraction) -> (r: (i32, i32))
        requires
            product_fits(self@, other@),
        ensures
            (r.0 as int, r.1 as int) == product_spec(self@, other@),
            is_lowest_terms(r.0 as int, r.1 as int),
    {
        proof {
            use_type_invariant(self);
            use_type_invariant(other);
            assert(self@.1 * other@.1 > 0) by (nonlinear_arith)
                requires
                    self@.1 > 0,
                    other@.1 > 0,
            ;
            lemma_reduce_lowest_terms(self@.0 * other@.0, self@.1 * other@.1);
        }
        reduce(self.numerator * other.numerator, self.denominator * other.denominator)
    }

    /// The numerator and the denominator of the quotient. The cross
    /// products are sign normalized before they are reduced, since a
    /// negative divisor makes the second one negative.
    fn div_impl(&self, other: &Fraction) -> (r: (i32, i32))
        requires
            quotient_fits(self@, other@),
        ensures
            (r.0 as int, r.1 as int) == quotient_spec(self@, other@),
            is_lowest_terms(r.0 as int, r.1 as int),
    {
        proof {
            use_type_invariant(self);
            use_type_invariant(other);
            assert(self@.1 * other@.0 != 0) by (nonlinear_arith)
                requires
                    self@.1 > 0,
                    other@.0 != 0,
            ;
        }
        let (n, d) = normalize_sign(
            self.numerator * other.denominator,
            self.denominator * other.numerator,
        );
        proof {
            lemma_reduce_lowest_terms(n as int, d as int);
        }
        reduce(n, d)
    }
}

impl AddSpecImpl for Fraction {
    open spec fn obeys_add_spec() -> bool {
        true
    }

    open spec fn add_req(self, rhs: Fraction) -> bool {
        sum_fits(self@, rhs@)
    }

    open spec fn add_spec(self, rhs: Fraction) -> Fraction {
        Fraction::of(sum_spec(self@, rhs@))
    }
}

impl Add for Fraction {
    type Output = Fraction;

    /// The sum of two fractions, in lowest terms.
    fn add(self, other: Fraction) -> (r: Fraction)
        ensures
            r.wf(),
            r@ == sum_spec(self@, other@),
    {
        let (numerator, denominator) = self.add_impl(&other);
        Fraction { numerator, denominator }
    }
}

impl AddAssign for Fraction {
    /// Replaces the fraction with its sum with `other`.
    fn add_assign(&mut self, other: Fraction)
        requires
            sum_fits(old(self)@, other@),
        ensures
            final(self).wf(),
            final(self)@ == sum_spec(old(self)@, other@),
    {
        let (numerator, denominator) = self.add_impl(&other);
        *self = Fraction { numerator, denominator };
    }
}

impl SubSpecImpl for Fraction {
    open spec fn obeys_sub_spec() -> bool {
        true
    }

    open spec fn sub_req(self, rhs: Fraction) -> bool {
        difference_fits(self@, rhs@)
    }

    open spec fn sub_spec(self, rhs: Fraction) -> Fraction {
        Fraction::of(difference_spec(self@, rhs@))
    }
}

impl Sub for Fraction {
    type Output = Fraction;

    /// The difference of two fractions, in lowest terms.
    fn sub(self, other: Fraction) -> (r: Fraction)
        ensures
            r.wf(),
            r@ == difference_spec(self@, other@),
    {
        let (numerator, denominator) = self.sub_impl(&other);
        Fraction { numerator, denominator }
    }
}

impl SubAssign for Fraction {
    /// Replaces the fraction with its difference from `other`.
    fn sub_assign(&mut self, other: Fraction)
        requires
            difference_fits(old(self)@, other@),
        ensures
            final(self).wf(),
            final(self)@ == difference_spec(old(self)@, other@),
    {
        let (numerator, denominator) = self.sub_impl(&other);
        *self = Fraction { numerator, denominator };
    }
}

impl NegSpecImpl for Fraction {
    open spec fn obeys_neg_spec() -> bool {
        true
    }

    open spec fn neg_req(self) -> bool {
        self@.0 != i32::MIN
    }

    open spec fn neg_spec(self) -> Fraction {
        Fraction::of((-self@.0, self@.1))
    }
}

impl Neg for Fraction {
    type Output = Fraction;

    /// The fraction with the opposite sign. The denominator stays as it is.
    fn neg(self) -> (r: Fraction)
        ensures
            r.wf(),
            r@ == (-self@.0, self@.1),
    {
        proof {
            use_type_invariant(self);
            lemma_gcd_symmetric(self@.0, self@.1);
            lemma_gcd_symmetric(-self@.0, self@.1);
        }
        Fraction { numerator: -self.numerator, denominator: self.denominator }
    }
}

impl MulSpecImpl for Fraction {
    open spec fn obeys_mul_spec() -> bool {
        true
    }

    open spec fn mul_req(self, rhs: Fraction) -> bool {
        product_fits(self@, rhs@)
    }

    open spec fn mul_spec(self, rhs: Fraction) -> Fraction {
        Fraction::of(product_spec(self@, rhs@))
    }
}

impl Mul for Fraction {
    type Output = Fraction;

    /// The product of two fractions, in lowest terms.
    fn mul(self, rhs: Fraction) -> (r: Fraction)
        ensures
            r.wf(),
            r@ == product_spec(self@, rhs@),
    {
        let (numerator, denominator) = self.mul_impl(&rhs);
        Fraction { numerator, denominator }
    }
}

impl MulAssign for Fraction {
    /// Replaces the fraction with its product with `rhs`.
    fn mul_assign(&mut self, rhs: Fraction)
        requires
            product_fits(old(self)@, rhs@),
        ensures
            final(self).wf(),
            final(self)@ == product_spec(old(self)@, rhs@),
    {
        let (numerator, denominator) = self.mul_impl(&rhs);
        *self = Fraction { numerator, denominator };
    }
}

impl DivSpecImpl for Fraction {
    open spec fn obeys_div_spec() -> bool {
        true
    }

    open spec fn div_req(self, rhs: Fraction) -> bool {
        quotient_fits(self@, rhs@)
    }

    open spec fn div_spec(self, rhs: Fraction) -> Fraction {
        Fraction::of(quotient_spec(self@, rhs@))
    }
}

impl Div for Fraction {
    type Output = Fraction;

    /// The quotient of two fractions, in lowest terms and with the sign in
    /// the numerator. The divisor must not be zero.
    fn div(self, rhs: Fraction) -> (r: Fraction)
        ensures
            r.wf(),
            r@ == quotient_spec(self@, rhs@),
    {
        let (numerator, denominator) = self.div_impl(&rhs);
        Fraction { numerator, denominator }
    }
}

impl DivAssign for Fraction {
    /// Replaces the fraction with its quotient by `rhs`, which must not be
    /// zero.
    fn div_assign(&mut self, rhs: Fraction)
        requires
            quotient_fits(old(self)@, rhs@),
        ensures
            final(self).wf(),
            final(self)@ == quotient_spec(old(self)@, rhs@),
    {
        let (numerator, denominator) = self.div_impl(&rhs);
        *self = Fraction { numerator, denominator };
    }
}

} // verus!
