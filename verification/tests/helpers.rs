use fractions::auxiliary::{gcd, lcm, normalize_sign, reduce, widening_product};

#[test]
fn gcd_of_two_numbers_is_their_greatest_common_divisor() {
    assert_eq!(6, gcd(12, 18));
    assert_eq!(2, gcd(18, 512));
    assert_eq!(1, gcd(7, 23));
    assert_eq!(7, gcd(14, 35));
    assert_eq!(5, gcd(5, 5));
}

#[test]
fn gcd_ignores_signs() {
    assert_eq!(6, gcd(-12, 18));
    assert_eq!(6, gcd(12, -18));
    assert_eq!(6, gcd(-12, -18));
}

#[test]
fn gcd_with_a_zero_is_one() {
    assert_eq!(1, gcd(0, 5));
    assert_eq!(1, gcd(5, 0));
    assert_eq!(1, gcd(0, 0));
    assert_eq!(1, gcd(0, i32::MIN));
}

#[test]
fn gcd_takes_the_smallest_number() {
    assert_eq!(1024, gcd(i32::MIN, 1024));
    assert_eq!(1, gcd(i32::MIN, i32::MAX));
    assert_eq!(1 << 30, gcd(1 << 30, i32::MIN));
}

#[test]
fn lcm_is_the_product_over_the_gcd() {
    assert_eq!(70, lcm(14, 35));
    assert_eq!(21, lcm(7, 3));
    assert_eq!(4, lcm(2, 4));
    assert_eq!(0, lcm(0, 0));
    assert_eq!(0, lcm(0, 9));
    assert_eq!(-12, lcm(-4, 6));
}

#[test]
fn normalize_sign_moves_the_sign_to_the_numerator() {
    assert_eq!((-1, 5), normalize_sign(1, -5));
    assert_eq!((1, 5), normalize_sign(-1, -5));
    assert_eq!((1, 5), normalize_sign(1, 5));
    assert_eq!((-1, 5), normalize_sign(-1, 5));
    assert_eq!((3, 0), normalize_sign(3, 0));
}

#[test]
fn normalize_sign_does_not_reduce() {
    assert_eq!((-4, 8), normalize_sign(4, -8));
}

#[test]
fn reduce_divides_by_the_gcd() {
    assert_eq!((9, 256), reduce(18, 512));
    assert_eq!((-3, 4), reduce(-6, 8));
    assert_eq!((11, 70), reduce(11, 70));
}

#[test]
fn reduce_of_zero_is_zero_over_one() {
    assert_eq!((0, 1), reduce(0, 5));
    assert_eq!((0, 1), reduce(0, -5));
    assert_eq!((0, 1), reduce(0, 0));
}

#[test]
fn reduce_does_not_look_at_the_sign_of_the_denominator() {
    assert_eq!((3, -4), reduce(6, -8));
    assert_eq!((-3, -4), reduce(-6, -8));
}

#[test]
fn reduce_over_zero_divides_by_one() {
    assert_eq!((6, 0), reduce(6, 0));
}

#[test]
fn reduce_is_idempotent() {
    let pairs = [(18, 512), (-6, 8), (6, -8), (0, 7), (7, 23), (6, 0), (i32::MIN, 6)];
    for (a, b) in pairs {
        let once = reduce(a, b);
        assert_eq!(once, reduce(once.0, once.1));
    }
}

#[test]
fn reduce_leaves_a_reduced_pair_unchanged() {
    assert_eq!((7, 23), reduce(7, 23));
    assert_eq!((-5, 19), reduce(-5, 19));
    assert_eq!((0, 1), reduce(0, 1));
    assert_eq!((i32::MIN, 1), reduce(i32::MIN, 1));
}

#[test]
fn widening_product_does_not_overflow() {
    assert_eq!(4611686018427387904, widening_product(i32::MIN, i32::MIN));
    assert_eq!(-4611686016279904256, widening_product(i32::MIN, i32::MAX));
    assert_eq!(-15, widening_product(3, -5));
}
