//! Divisibility and the greatest common divisor over the mathematical
//! integers, with the lemmas the rest of the crate builds on.

use vstd::arithmetic::div_mod::{
    lemma_fundamental_div_mod, lemma_fundamental_div_mod_converse, lemma_mod_multiples_basic,
    lemma_small_mod,
};
use vstd::math::abs;
use vstd::prelude::*;

verus! {

/// `d` is positive and divides both `a` and `b`.
pub open spec fn is_common_divisor(d: int, a: int, b: int) -> bool {
    d > 0 && a % d == 0 && b % d == 0
}

/// `g` is a common divisor of `a` and `b`, and no common divisor is larger.
/// No such `g` exists when `a` and `b` are both zero.
pub open spec fn is_greatest_common_divisor(g: int, a: int, b: int) -> bool {
    &&& is_common_divisor(g, a, b)
    &&& forall|d: int| #[trigger] is_common_divisor(d, a, b) ==> d <= g
}

/// Euclid's recursion on natural numbers: `euclid(0, b) == b`.
pub open spec fn euclid(a: nat, b: nat) -> nat
    decreases a,
{
    if a == 0 {
        b
    } else {
        euclid(b % a, a)
    }
}

/// The greatest common divisor of two integers, which is never negative and
/// is zero only for `gcd(0, 0)`. `lemma_gcd_is_greatest` shows that it is
/// what its name says.
///
/// To learn its value on given numbers, unfold `euclid` with
/// `reveal_with_fuel` and assert the value; a quotient by it is settled
/// only after that.
pub open spec fn gcd(a: int, b: int) -> int {
    euclid(abs(a), abs(b)) as int
}

/// A multiple of a positive `d` leaves no remainder.
pub proof fn lemma_multiple_is_divisible(d: int, k: int)
    requires
        d > 0,
    ensures
        (d * k) % d == 0,
{
    lemma_mod_multiples_basic(k, d);
    assert(d * k == k * d) by (nonlinear_arith);
}

/// A number that `d` divides is `d` times its quotient.
pub proof fn lemma_divisible_is_multiple(a: int, d: int)
    requires
        d > 0,
        a % d == 0,
    ensures
        a == d * (a / d),
{
    lemma_fundamental_div_mod(a, d);
}

/// Where `d` divides `a`, the quotient of `-a` is the negated quotient of `a`.
pub proof fn lemma_exact_quotient_of_negation(a: int, d: int)
    requires
        d > 0,
        a % d == 0,
    ensures
        (-a) % d == 0,
        (-a) / d == -(a / d),
{
    lemma_divisible_is_multiple(a, d);
    let k = a / d;
    assert(-a == (-k) * d + 0) by (nonlinear_arith)
        requires
            a == d * k,
    ;
    lemma_fundamental_div_mod_converse(-a, d, -k, 0);
}

/// A common divisor of `a` and `b` divides every combination `a * x + b * y`.
pub proof fn lemma_divides_combination(d: int, a: int, b: int, x: int, y: int)
    requires
        is_common_divisor(d, a, b),
    ensures
        (a * x + b * y) % d == 0,
{
    let p = a / d;
    let q = b / d;
    lemma_divisible_is_multiple(a, d);
    lemma_divisible_is_multiple(b, d);
    assert(a * x + b * y == d * (p * x + q * y)) by (nonlinear_arith)
        requires
            a == d * p,
            b == d * q,
    ;
    lemma_multiple_is_divisible(d, p * x + q * y);
}

/// Divisibility does not depend on the sign of the number divided.
pub proof fn lemma_divides_abs(d: int, a: int)
    requires
        d > 0,
    ensures
        a % d == 0 <==> (abs(a) as int) % d == 0,
{
    if a < 0 {
        if a % d == 0 {
            lemma_divides_combination(d, a, a, -1, 0);
            assert(a * (-1) + a * 0 == -a) by (nonlinear_arith);
        }
        if (-a) % d == 0 {
            lemma_divides_combination(d, -a, -a, -1, 0);
            assert((-a) * (-1) + (-a) * 0 == a) by (nonlinear_arith);
        }
    }
}

/// The common divisors of a pair stay the same when signs are dropped.
pub proof fn lemma_common_divisor_abs(d: int, a: int, b: int)
    ensures
        is_common_divisor(d, a, b) <==> is_common_divisor(d, abs(a) as int, abs(b) as int),
{
    if d > 0 {
        lemma_divides_abs(d, a);
        lemma_divides_abs(d, b);
    }
}

/// Euclid's recursion ends in a common divisor of its arguments.
pub proof fn lemma_euclid_is_common_divisor(a: nat, b: nat)
    requires
        a > 0 || b > 0,
    ensures
        is_common_divisor(euclid(a, b) as int, a as int, b as int),
    decreases a,
{
    if a == 0 {
        lemma_multiple_is_divisible(b as int, 0);
        lemma_multiple_is_divisible(b as int, 1);
    } else {
        let r = b % a;
        let g = euclid(r, a) as int;
        lemma_euclid_is_common_divisor(r, a);
        lemma_fundamental_div_mod(b as int, a as int);
        lemma_divides_combination(g, a as int, r as int, (b / a) as int, 1);
        assert(a * (b / a) + r * 1 == b) by (nonlinear_arith)
            requires
                b == a * (b / a) + r,
        ;
    }
}

/// Bezout's identity: the result of Euclid's recursion is an integer
/// combination of its arguments. The coefficients are returned.
pub proof fn lemma_euclid_bezout(a: nat, b: nat) -> (c: (int, int))
    ensures
        a * c.0 + b * c.1 == euclid(a, b),
    decreases a,
{
    if a == 0 {
        (0, 1)
    } else {
        let r = b % a;
        let q = (b / a) as int;
        let (x, y) = lemma_euclid_bezout(r, a);
        lemma_fundamental_div_mod(b as int, a as int);
        assert(a * (y - q * x) + b * x == r * x + a * y) by (nonlinear_arith)
            requires
                b == a * q + r,
        ;
        (y - q * x, x)
    }
}

/// Bezout's identity for integers of either sign.
pub proof fn lemma_bezout(a: int, b: int) -> (c: (int, int))
    ensures
        a * c.0 + b * c.1 == gcd(a, b),
{
    let (x, y) = lemma_euclid_bezout(abs(a), abs(b));
    let sx = if a < 0 { -x } else { x };
    let sy = if b < 0 { -y } else { y };
    assert(a * sx == abs(a) * x) by (nonlinear_arith)
        requires
            (a < 0 && sx == -x && abs(a) == -a) || (a >= 0 && sx == x && abs(a) == a),
    ;
    assert(b * sy == abs(b) * y) by (nonlinear_arith)
        requires
            (b < 0 && sy == -y && abs(b) == -b) || (b >= 0 && sy == y && abs(b) == b),
    ;
    (sx, sy)
}

/// Every common divisor of `a` and `b` divides `gcd(a, b)`.
pub proof fn lemma_common_divisor_divides_gcd(d: int, a: int, b: int)
    requires
        is_common_divisor(d, a, b),
    ensures
        gcd(a, b) % d == 0,
{
    let (x, y) = lemma_bezout(a, b);
    lemma_divides_combination(d, a, b, x, y);
}

/// A positive number is at least as large as each of its positive divisors.
pub proof fn lemma_divisor_is_not_larger(d: int, n: int)
    requires
        d > 0,
        n > 0,
        n % d == 0,
    ensures
        d <= n,
{
    if n < d {
        lemma_small_mod(n as nat, d as nat);
    }
}

/// Unless both numbers are zero, `gcd(a, b)` is the greatest of their common
/// divisors.
pub proof fn lemma_gcd_is_greatest(a: int, b: int)
    requires
        a != 0 || b != 0,
    ensures
        is_greatest_common_divisor(gcd(a, b), a, b),
{
    let g = gcd(a, b);
    lemma_euclid_is_common_divisor(abs(a), abs(b));
    lemma_common_divisor_abs(g, a, b);
    assert forall|d: int| #[trigger] is_common_divisor(d, a, b) implies d <= g by {
        lemma_common_divisor_divides_gcd(d, a, b);
        lemma_divisor_is_not_larger(d, g);
    }
}

/// The greatest common divisor is unique: whatever is a greatest common
/// divisor of `a` and `b` equals `gcd(a, b)`.
pub proof fn lemma_greatest_common_divisor_is_gcd(g: int, a: int, b: int)
    requires
        is_greatest_common_divisor(g, a, b),
    ensures
        a != 0 || b != 0,
        g == gcd(a, b),
{
    if a == 0 && b == 0 {
        lemma_multiple_is_divisible(g + 1, 0);
        assert(is_common_divisor(g + 1, a, b));
    }
    lemma_gcd_is_greatest(a, b);
    assert(is_common_divisor(gcd(a, b), a, b));
    assert(is_common_divisor(g, a, b));
}

/// The greatest common divisor does not depend on the order or the signs of
/// its arguments.
pub proof fn lemma_gcd_symmetric(a: int, b: int)
    ensures
        gcd(a, b) == gcd(b, a),
        gcd(a, b) == gcd(abs(a) as int, abs(b) as int),
        gcd(a, b) >= 0,
        gcd(a, b) == 0 <==> a == 0 && b == 0,
{
    if a != 0 || b != 0 {
        lemma_gcd_is_greatest(a, b);
        assert forall|d: int| #[trigger] is_common_divisor(d, b, a) implies d <= gcd(a, b) by {
            assert(is_common_divisor(d, a, b));
        }
        lemma_greatest_common_divisor_is_gcd(gcd(a, b), b, a);
    } else {
        assert(euclid(0, 0) == 0);
    }
}

/// Dividing two numbers by their greatest common divisor leaves quotients
/// that have no common divisor but one.
pub proof fn lemma_gcd_of_quotients(a: int, b: int)
    requires
        a != 0 || b != 0,
    ensures
        gcd(a, b) > 0,
        a % gcd(a, b) == 0,
        b % gcd(a, b) == 0,
        gcd(a / gcd(a, b), b / gcd(a, b)) == 1,
{
    let g = gcd(a, b);
    lemma_gcd_is_greatest(a, b);
    lemma_divisible_is_multiple(a, g);
    lemma_divisible_is_multiple(b, g);
    let p = a / g;
    let q = b / g;
    let (x, y) = lemma_bezout(a, b);
    assert(p * x + q * y == 1) by (nonlinear_arith)
        requires
            a == g * p,
            b == g * q,
            a * x + b * y == g,
            g > 0,
    ;
    assert(p != 0 || q != 0) by (nonlinear_arith)
        requires
            a == g * p,
            b == g * q,
            a != 0 || b != 0,
    ;
    let h = gcd(p, q);
    lemma_gcd_is_greatest(p, q);
    lemma_divides_combination(h, p, q, x, y);
    lemma_divisor_is_not_larger(h, 1);
}

/// Euclid's lemma: a positive number that divides a product and has no
/// divisor in common with one factor divides the other factor.
pub proof fn lemma_coprime_divides_product(d: int, a: int, b: int)
    requires
        d > 0,
        gcd(d, a) == 1,
        (a * b) % d == 0,
    ensures
        b % d == 0,
{
    let (x, y) = lemma_bezout(d, a);
    lemma_multiple_is_divisible(d, 1);
    lemma_divides_combination(d, d * 1, a * b, b * x, y);
    assert((d * 1) * (b * x) + (a * b) * y == b) by (nonlinear_arith)
        requires
            d * x + a * y == 1,
    ;
}

/// A rational number has one representation in lowest terms with a positive
/// denominator: two such pairs with equal cross products are the same pair.
pub proof fn lemma_lowest_terms_unique(n1: int, d1: int, n2: int, d2: int)
    requires
        d1 > 0,
        d2 > 0,
        gcd(n1, d1) == 1,
        gcd(n2, d2) == 1,
        n1 * d2 == n2 * d1,
    ensures
        n1 == n2,
        d1 == d2,
{
    lemma_gcd_symmetric(n1, d1);
    lemma_gcd_symmetric(n2, d2);
    lemma_multiple_is_divisible(d1, n2);
    assert(d1 * n2 == n1 * d2) by (nonlinear_arith)
        requires
            n1 * d2 == n2 * d1,
    ;
    lemma_coprime_divides_product(d1, n1, d2);
    lemma_multiple_is_divisible(d2, n1);
    assert(d2 * n1 == n2 * d1) by (nonlinear_arith)
        requires
            n1 * d2 == n2 * d1,
    ;
    lemma_coprime_divides_product(d2, n2, d1);
    lemma_divisor_is_not_larger(d1, d2);
    lemma_divisor_is_not_larger(d2, d1);
    assert(n1 == n2) by (nonlinear_arith)
        requires
            n1 * d2 == n2 * d1,
            d1 == d2,
            d1 > 0,
    ;
}

} // verus!
