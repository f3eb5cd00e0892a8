//! Exact-value checks of the saturating fixed-point arithmetic.

use rustfx_core::fixed::{abs_u64, clamp, exp_neg, fx_div, fx_mul, sat_add, sat_neg, sat_sub, SCALE};

#[test]
fn fixed_scale_is_one_million() {
    assert_eq!(SCALE, 1_000_000);
}

#[test]
fn saturating_addition_and_subtraction() {
    assert_eq!(sat_add(2_000_000, 3_000_000), 5_000_000);
    assert_eq!(sat_add(i64::MAX, 1), i64::MAX);
    assert_eq!(sat_add(i64::MIN, -1), i64::MIN);
    assert_eq!(sat_sub(2_000_000, 3_000_000), -1_000_000);
    assert_eq!(sat_sub(i64::MIN, 1), i64::MIN);
    assert_eq!(sat_neg(i64::MIN), i64::MAX);
    assert_eq!(sat_neg(7), -7);
    assert_eq!(abs_u64(i64::MIN), 9_223_372_036_854_775_808u64);
    assert_eq!(abs_u64(-25), 25);
}

#[test]
fn fixed_multiplication_truncates_toward_zero() {
    // 1.5 * 2.0 == 3.0
    assert_eq!(fx_mul(1_500_000, 2_000_000), 3_000_000);
    assert_eq!(fx_mul(-1_500_000, 2_000_000), -3_000_000);
    // 0.000001 * 0.5 truncates to zero
    assert_eq!(fx_mul(1, 500_000), 0);
    assert_eq!(fx_mul(-1, 500_000), 0);
    // saturation at the representation limits
    assert_eq!(fx_mul(i64::MAX, 2_000_000), i64::MAX);
    assert_eq!(fx_mul(i64::MAX, -2_000_000), i64::MIN);
}

#[test]
fn fixed_division_truncates_toward_zero() {
    // 1.0 / 3.0
    assert_eq!(fx_div(1_000_000, 3_000_000), 333_333);
    assert_eq!(fx_div(-1_000_000, 3_000_000), -333_333);
    // 1.0 / 20.0 == 0.05 exactly
    assert_eq!(fx_div(1_000_000, 20_000_000), 50_000);
}

#[test]
fn clamp_respects_bounds() {
    assert_eq!(clamp(5, -3, 3), 3);
    assert_eq!(clamp(-5, -3, 3), -3);
    assert_eq!(clamp(2, -3, 3), 2);
}

#[test]
fn exponential_decay_exact_values() {
    // exp(0) == 1
    assert_eq!(exp_neg(0), 1_000_000);
    // exp(-0.05) ~ 0.951229; the series gives 0.951230
    assert_eq!(exp_neg(50_000), 951_230);
    // exp(-1) is the stored constant
    assert_eq!(exp_neg(1_000_000), 367_879);
    // exp(-2) through one repeated multiplication
    assert_eq!(exp_neg(2_000_000), 135_334);
    // far in the past the decay underflows to zero and stays there
    assert_eq!(exp_neg(100_000_000), 0);
    assert_eq!(exp_neg(i64::MAX), 0);
}

#[test]
fn exponential_decay_is_within_unit_range() {
    let mut x: i64 = 0;
    while x < 5_000_000 {
        let e = exp_neg(x);
        assert!(0 <= e && e <= 1_000_000);
        x += 123_456;
    }
}
