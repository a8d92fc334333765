use meal_planning::ratio::{from_magnitude, from_signed, gcd_u128, Ratio, LIMIT};

fn ratio(n: i64, d: i64) -> Ratio {
    Ratio::new(n, d).unwrap()
}

#[test]
fn gcd_of_small_numbers() {
    assert_eq!(gcd_u128(12, 18), 6);
    assert_eq!(gcd_u128(18, 12), 6);
    assert_eq!(gcd_u128(7, 13), 1);
    assert_eq!(gcd_u128(0, 5), 5);
    assert_eq!(gcd_u128(5, 0), 5);
    assert_eq!(gcd_u128(0, 0), 0);
}

#[test]
fn new_reduces_to_lowest_terms() {
    let r = ratio(6, 4);
    assert_eq!(r.numer(), 3);
    assert_eq!(r.denom(), 2);
    assert_eq!(ratio(0, 7), Ratio::zero());
    assert_eq!(ratio(5, 5), Ratio::one());
}

#[test]
fn new_moves_the_sign_to_the_numerator() {
    let r = ratio(3, -6);
    assert_eq!(r.numer(), -1);
    assert_eq!(r.denom(), 2);
    let s = ratio(-3, -6);
    assert_eq!(s.numer(), 1);
    assert_eq!(s.denom(), 2);
}

#[test]
fn new_rejects_a_zero_denominator() {
    assert_eq!(Ratio::new(1, 0), None);
    assert_eq!(Ratio::new(0, 0), None);
}

#[test]
fn new_rejects_what_does_not_fit() {
    assert_eq!(Ratio::new(i64::MIN, 1), None);
    assert_eq!(Ratio::new(1, i64::MIN), None);
    assert_eq!(Ratio::new(i64::MIN, i64::MIN), Some(Ratio::one()));
    assert_eq!(Ratio::new(LIMIT, 1).map(|r| r.numer()), Some(LIMIT));
}

#[test]
fn from_int_has_denominator_one() {
    let r = Ratio::from_int(-7);
    assert_eq!(r.numer(), -7);
    assert_eq!(r.denom(), 1);
}

#[test]
fn from_magnitude_and_from_signed_agree() {
    assert_eq!(from_magnitude(true, 10, 4), Some(ratio(-5, 2)));
    assert_eq!(from_magnitude(false, 10, 4), Some(ratio(5, 2)));
    assert_eq!(from_signed(-10, 4), Some(ratio(-5, 2)));
    assert_eq!(from_magnitude(false, u128::MAX, 1), None);
    assert_eq!(from_magnitude(false, u128::MAX, u128::MAX), Some(Ratio::one()));
}

#[test]
fn checked_add_is_exact() {
    assert_eq!(ratio(1, 3).checked_add(&ratio(2, 3)), Some(Ratio::one()));
    assert_eq!(ratio(1, 2).checked_add(&ratio(1, 3)), Some(ratio(5, 6)));
    assert_eq!(ratio(1, 2).checked_add(&ratio(-1, 2)), Some(Ratio::zero()));
    assert_eq!(ratio(1, 10).checked_add(&ratio(2, 10)), Some(ratio(3, 10)));
}

#[test]
fn checked_add_reports_overflow() {
    let big = ratio(LIMIT, 1);
    assert_eq!(big.checked_add(&Ratio::one()), None);
    assert_eq!(ratio(1, LIMIT).checked_add(&ratio(1, LIMIT - 1)), None);
}

#[test]
fn checked_mul_is_exact() {
    assert_eq!(ratio(2, 3).checked_mul(&ratio(3, 4)), Some(ratio(1, 2)));
    assert_eq!(ratio(-2, 3).checked_mul(&ratio(3, 4)), Some(ratio(-1, 2)));
    assert_eq!(ratio(LIMIT, 1).checked_mul(&ratio(2, 1)), None);
    assert_eq!(ratio(LIMIT, 1).checked_mul(&ratio(1, LIMIT)), Some(Ratio::one()));
}

#[test]
fn checked_div_is_exact() {
    assert_eq!(ratio(1, 2).checked_div(&ratio(1, 4)), Some(ratio(2, 1)));
    assert_eq!(ratio(1, 2).checked_div(&ratio(-1, 4)), Some(ratio(-2, 1)));
    assert_eq!(ratio(2, 1).checked_div(&ratio(6, 1)), Some(ratio(1, 3)));
    assert_eq!(ratio(1, 2).checked_div(&Ratio::zero()), None);
    assert_eq!(ratio(LIMIT, 1).checked_div(&ratio(1, 2)), None);
}

#[test]
fn comparisons_go_by_value() {
    assert!(ratio(1, 3).lt(&ratio(1, 2)));
    assert!(!ratio(1, 2).lt(&ratio(1, 2)));
    assert!(ratio(-1, 2).lt(&Ratio::zero()));
    let unreduced = Ratio { num: 2, den: 4 };
    assert!(unreduced.eq_value(&ratio(1, 2)));
    assert!(!unreduced.eq_value(&ratio(1, 3)));
    assert!(ratio(1, 2).is_positive());
    assert!(ratio(-1, 2).is_negative());
    assert!(Ratio::zero().is_zero());
    assert!(!Ratio::zero().is_positive());
}
