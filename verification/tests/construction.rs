use fractions::Fraction;

fn plain_gcd(a: i64, b: i64) -> i64 {
    let (mut a, mut b) = (a.abs(), b.abs());
    while b != 0 {
        let r = a % b;
        a = b;
        b = r;
    }
    a
}

#[test]
fn new_gives_a_positive_denominator_and_lowest_terms() {
    let values = [-512, -35, -18, -7, -1, 0, 1, 2, 9, 14, 35, 256, 512, i32::MAX];
    for n in values {
        for d in values {
            if d == 0 {
                continue;
            }
            let f = Fraction::new(n, d);
            assert!(f.denominator() > 0);
            assert_eq!(1, plain_gcd(f.numerator() as i64, f.denominator() as i64));
            assert_eq!(
                f.numerator() as i64 * d as i64,
                n as i64 * f.denominator() as i64
            );
        }
    }
}

#[test]
fn new_of_zero_is_zero_over_one() {
    assert_eq!((0, 1), Fraction::new(0, 5).get_as_tuple());
    assert_eq!((0, 1), Fraction::new(0, -5).get_as_tuple());
    assert_eq!((0, 1), Fraction::new(0, i32::MAX).get_as_tuple());
}

#[test]
fn new_keeps_the_smallest_numerator() {
    assert_eq!((i32::MIN, 1), Fraction::new(i32::MIN, 1).get_as_tuple());
    assert_eq!((i32::MIN / 2, 1), Fraction::new(i32::MIN, 2).get_as_tuple());
    assert_eq!((i32::MIN, 3), Fraction::new(i32::MIN, 3).get_as_tuple());
}

#[test]
fn new_with_both_negative_is_positive() {
    assert_eq!((3, 4), Fraction::new(-6, -8).get_as_tuple());
}

#[test]
fn accessors_give_the_reduced_pair() {
    let f = Fraction::new(18, -512);
    assert_eq!(-9, f.numerator());
    assert_eq!(256, f.denominator());
    assert_eq!((-9, 256), f.get_as_tuple());
}

#[test]
fn from_integer_has_denominator_one() {
    assert_eq!((5, 1), Fraction::from(5).get_as_tuple());
    assert_eq!((0, 1), Fraction::from(0).get_as_tuple());
    assert_eq!((i32::MIN, 1), Fraction::from(i32::MIN).get_as_tuple());
    assert_eq!(Fraction::new(-7, 1), Fraction::from(-7));
}

#[test]
fn is_proper_compares_magnitudes() {
    assert!(Fraction::new(-3, 4).is_proper());
    assert!(!Fraction::new(-10, 9).is_proper());
    assert!(!Fraction::new(1, 1).is_proper());
    assert!(!Fraction::new(-1, 1).is_proper());
    assert!(Fraction::new(0, 1).is_proper());
    assert!(!Fraction::new(i32::MIN, 1).is_proper());
    assert!(Fraction::new(1, i32::MAX).is_proper());
}

#[test]
fn reciprocal_of_a_whole_number() {
    assert_eq!((1, 7), Fraction::from(7).reciprocal().get_as_tuple());
    assert_eq!((-1, 7), Fraction::from(-7).reciprocal().get_as_tuple());
    assert_eq!((-i32::MAX, 1), Fraction::new(-1, i32::MAX).reciprocal().get_as_tuple());
}

#[test]
fn reciprocal_twice_is_the_fraction() {
    let f = Fraction::new(-3, 5);
    assert_eq!(f, f.reciprocal().reciprocal());
}

#[test]
fn equal_values_are_equal_fractions() {
    assert_eq!(Fraction::new(1, 2), Fraction::new(2, 4));
    assert_eq!(Fraction::new(1, 2), Fraction::new(-3, -6));
    assert_ne!(Fraction::new(1, 2), Fraction::new(1, 3));
    assert_ne!(Fraction::new(1, 2), Fraction::new(-1, 2));
}

#[test]
fn fractions_are_ordered_by_value() {
    let third = Fraction::new(1, 3);
    let half = Fraction::new(1, 2);
    let minus_half = Fraction::new(-1, 2);
    assert!(third < half);
    assert!(half > third);
    assert!(minus_half < third);
    assert!(minus_half < half);
    assert!(half <= Fraction::new(2, 4));
    assert!(half >= Fraction::new(2, 4));
    assert!(!(half < Fraction::new(2, 4)));
    assert_eq!(
        Some(std::cmp::Ordering::Equal),
        half.partial_cmp(&Fraction::new(3, 6))
    );
    assert_eq!(Some(std::cmp::Ordering::Less), third.partial_cmp(&half));
    assert_eq!(Some(std::cmp::Ordering::Greater), half.partial_cmp(&third));
}

#[test]
fn order_does_not_overflow_on_large_fractions() {
    let big = Fraction::new(i32::MAX, 1);
    let small = Fraction::new(i32::MIN, 1);
    let tiny = Fraction::new(1, i32::MAX);
    assert!(small < big);
    assert!(tiny < big);
    assert!(small < tiny);
    assert!(Fraction::new(i32::MAX, i32::MAX - 1) > Fraction::new(i32::MAX - 1, i32::MAX));
}
