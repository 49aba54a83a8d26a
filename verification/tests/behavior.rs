use dyadic::pid::Regulator;
use dyadic::{DyadicFraction, DF};

#[test]
fn test_canonicalize_80_eighths() {
    let a = DyadicFraction::new(80, 3);
    let c = a.canonical();
    assert_eq!(c.numerator(), 10);
    assert_eq!(c.denominator_power(), 0);
    assert_eq!(a, DF::new(10, 0));
    assert_eq!(a.floor(), 10);
}

#[test]
fn test_canonical_idempotent() {
    let c = DF::new(12, 5).canonical();
    assert_eq!(c.numerator(), 3);
    assert_eq!(c.denominator_power(), 3);
    let c2 = c.canonical();
    assert_eq!(c2.numerator(), 3);
    assert_eq!(c2.denominator_power(), 3);
}

#[test]
fn test_canonical_keeps_nonpositive_power() {
    let c = DF::new(12, 0).canonical();
    assert_eq!(c.numerator(), 12);
    assert_eq!(c.denominator_power(), 0);
    let d = DF::new(4, -1).canonical();
    assert_eq!(d.numerator(), 4);
    assert_eq!(d.denominator_power(), -1);
}

#[test]
fn test_add_sub_round_trip() {
    let a = DF::new(3, 2);
    let b = DF::new(5, 1);
    assert_eq!((a + b) - b, a);
    assert_eq!((b + a) - a, b);
}

#[test]
fn test_add_neg_is_zero() {
    let a = DF::new(5, 3);
    assert_eq!(a + (-a), DF::zero());
    let b = DF::from(-17);
    assert_eq!(b + (-b), DF::zero());
    let z = DF::zero();
    assert_eq!(z + (-z), DF::zero());
}

#[test]
fn test_add_saturates() {
    let big = DF::from(i32::MAX);
    assert_eq!(big + DF::from(1), big);
    let small = DF::from(i32::MIN);
    assert_eq!(small - DF::from(1), small);
}

#[test]
fn test_mul_power_saturates() {
    assert_eq!(DF::new(1, 100) * DF::new(1, 100), DF::new(1, 127));
    assert_eq!(DF::new(1, -100) * DF::new(1, -100), DF::new(1, -128));
}

#[test]
fn test_pow_zero_is_signum() {
    assert_eq!(DF::from(-5).pow(0), DF::from(-1));
    assert_eq!(DF::from(9).pow(0), DF::from(1));
    assert_eq!(DF::zero().pow(0), DF::zero());
    assert_eq!(DF::new(3, 1).pow(1), DF::new(3, 1));
}

#[test]
fn test_floor_semantics() {
    assert_eq!(DF::new(7, 2).floor(), 1);
    assert_eq!(DF::new(-7, 2).floor(), -2);
    assert_eq!(DF::new(3, -2).floor(), 12);
    assert_eq!(DF::new(3, 50).floor(), 0);
    assert_eq!(DF::new(-75, 1).floor(), -38);
}

#[test]
fn test_signum_and_sign_tests() {
    assert_eq!(DF::new(-6, 1).signum(), DF::from(-1));
    assert_eq!(DF::new(6, 1).signum(), DF::from(1));
    assert_eq!(DF::zero().signum(), DF::zero());
    assert!(DF::new(6, 1).is_positive());
    assert!(!DF::new(6, 1).is_negative());
    assert!(DF::new(-6, 1).is_negative());
    assert!(!DF::zero().is_positive());
    assert!(!DF::zero().is_negative());
}

#[test]
fn test_copysign_zero() {
    assert_eq!(DF::zero().copysign(5), DF::zero());
    assert_eq!(DF::zero().copysign(0), DF::zero());
}

#[test]
fn test_min_max_ties_by_argument_order() {
    // 4/1 and 1/2^-2 denote the same number through different
    // representations: max keeps the first argument, min the second.
    let a = DF::new(4, 0);
    let b = DF::new(1, -2);
    assert_eq!(DF::max(a, b).numerator(), 4);
    assert_eq!(DF::min(a, b).numerator(), 1);
}

#[test]
fn test_div_by_two_of_zero() {
    let d = DF::zero().div_by_two();
    assert_eq!(d.denominator_power(), 1);
    assert_eq!(d, DF::zero());
}

#[test]
fn test_div_by_two_power_saturates() {
    assert_eq!(DF::new(1, 127).div_by_two(), DF::new(1, 127));
}

#[test]
fn test_display_forms() {
    assert_eq!(DF::new(3, 2).display(), "3/4");
    assert_eq!(DF::new(80, 3).display(), "10");
    assert_eq!(DF::new(-3, 1).display(), "-3/2");
    assert_eq!(DF::from(-7).display(), "-7");
    assert_eq!(DF::zero().display(), "0");
    assert_eq!(DF::new(3, -2).display(), "12");
    assert_eq!(DF::new(1, 50).display(), "1/2147483647");
}

#[test]
fn test_regulator_steps_with_clamping() {
    let mut reg = Regulator::new(
        DF::from(1),
        DF::from(1),
        DF::from(1),
        DF::from(-2),
        DF::from(2),
    );
    // error 5, delta 5, sum clamps at 2: output 5 + 2 + 5.
    assert_eq!(reg.update(DF::from(5), DF::from(0)), DF::from(12));
    // error 1, delta -4, sum stays clamped at 2: output 1 + 2 - 4.
    assert_eq!(reg.update(DF::from(5), DF::from(4)), DF::from(-1));
    // error -5, delta -6, sum clamps at -2: output -5 - 2 - 6.
    assert_eq!(reg.update(DF::from(0), DF::from(5)), DF::from(-13));
}

#[test]
fn test_regulator_fractional_gain() {
    let mut reg = Regulator::new(
        DF::new(1, 1),
        DF::zero(),
        DF::zero(),
        DF::from(-100),
        DF::from(100),
    );
    let out = reg.update(DF::from(7), DF::from(0));
    assert_eq!(out, DF::new(7, 1));
    assert_eq!(out.floor(), 3);
}

#[test]
fn test_default_is_zero() {
    assert_eq!(DF::default(), DF::zero());
}

#[test]
fn test_round_to_integer() {
    assert_eq!(DF::new(7, 1).round(0), DF::from(3));
    assert_eq!(DF::new(7, 1).round(-5), DF::from(3));
    assert_eq!(DF::new(12, 0).round(-2), DF::new(12, 0));
}
