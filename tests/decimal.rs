use flash_compute::decimal::{checked_decimal_div, checked_decimal_mul, pow10_u128, DecimalValue};
use flash_compute::ComputeError;

#[test]
fn asset_valuation_fifty_dollar_asset() {
    let price = DecimalValue::new(5_000_000, -2);
    assert_eq!(price.get_asset_amount_usd(1_000_000, 6), Ok(50_000_000_000));
}

#[test]
fn asset_valuation_of_zero_amount_is_zero() {
    let price = DecimalValue::new(5_000_000, -2);
    assert_eq!(price.get_asset_amount_usd(0, 6), Ok(0));
}

#[test]
fn asset_valuation_overflow_is_an_error() {
    let price = DecimalValue::new(u64::MAX, 0);
    assert_eq!(price.get_asset_amount_usd(u64::MAX, 0), Err(ComputeError::ArithmeticOverflow));
}

#[test]
fn asset_valuation_never_decreases_with_price() {
    let low = DecimalValue::new(4_999_999, -2);
    let high = DecimalValue::new(5_000_000, -2);
    let a = low.get_asset_amount_usd(123_456_789, 9).unwrap();
    let b = high.get_asset_amount_usd(123_456_789, 9).unwrap();
    assert!(a <= b);
    assert_eq!(a, 6_172_838_215);
    assert_eq!(b, 6_172_839_450);
    let higher = DecimalValue::new(6_000_000, -2);
    assert_eq!(higher.get_asset_amount_usd(123_456_789, 9), Ok(7_407_407_340));
}

#[test]
fn rescale_round_trip_restores_mantissa() {
    let v = DecimalValue::new(123_456, -2);
    let finer = v.scale_to_exponent(-9).unwrap();
    assert_eq!(finer, DecimalValue::new(1_234_560_000_000, -9));
    assert_eq!(finer.scale_to_exponent(-2), Ok(v));
}

#[test]
fn rescale_to_coarser_truncates() {
    let v = DecimalValue::new(18_999_999_999, -9);
    assert_eq!(v.scale_to_exponent(-6), Ok(DecimalValue::new(18_999_999, -6)));
}

#[test]
fn rescale_beyond_range_fails() {
    let v = DecimalValue::new(2_000_000_000_000_000_000, 0);
    assert_eq!(v.scale_to_exponent(-1), Err(ComputeError::ArithmeticOverflow));
    assert_eq!(v.scale_to_exponent(-30), Err(ComputeError::ArithmeticOverflow));
    assert_eq!(v.scale_to_exponent(20), Err(ComputeError::ArithmeticOverflow));
    assert_eq!(v.scale_to_exponent(19), Ok(DecimalValue::new(0, 19)));
}

#[test]
fn same_exponent_add_and_sub() {
    let a = DecimalValue::new(700, -3);
    let b = DecimalValue::new(250, -3);
    assert_eq!(a.checked_add(&b), Ok(DecimalValue::new(950, -3)));
    assert_eq!(a.checked_sub(&b), Ok(DecimalValue::new(450, -3)));
    assert_eq!(b.checked_sub(&a), Err(ComputeError::ArithmeticOverflow));
    let big = DecimalValue::new(u64::MAX, -3);
    assert_eq!(big.checked_add(&b), Err(ComputeError::ArithmeticOverflow));
}

#[test]
fn mixed_exponents_are_refused() {
    let a = DecimalValue::new(700, -3);
    let b = DecimalValue::new(250, -2);
    assert_eq!(a.checked_add(&b), Err(ComputeError::ExponentMismatch));
    assert_eq!(a.checked_sub(&b), Err(ComputeError::ExponentMismatch));
    assert_eq!(a.checked_mul(&b), Err(ComputeError::ExponentMismatch));
    assert_eq!(a.checked_div(&b), Err(ComputeError::ExponentMismatch));
}

#[test]
fn same_exponent_mul_and_div() {
    let a = DecimalValue::new(1_500, -3);
    let b = DecimalValue::new(2_500, -3);
    assert_eq!(a.checked_mul(&b), Ok(DecimalValue::new(3_750, -3)));
    assert_eq!(a.checked_div(&b), Ok(DecimalValue::new(600, -3)));
    let zero = DecimalValue::new(0, -3);
    assert_eq!(a.checked_div(&zero), Err(ComputeError::DivisionByZero));
}

#[test]
fn fused_multiplication_exact_values() {
    assert_eq!(checked_decimal_mul(2_000_000, -6, 800_000, -6, -6), Ok(1_600_000));
    assert_eq!(checked_decimal_mul(3, 0, 7, 0, -2), Ok(2_100));
    assert_eq!(checked_decimal_mul(999, -3, 1, 0, 0), Ok(0));
    assert_eq!(checked_decimal_mul(u64::MAX, 0, 2, 0, 0), Err(ComputeError::ArithmeticOverflow));
    assert_eq!(checked_decimal_mul(1, 0, 1, 0, -25), Err(ComputeError::ArithmeticOverflow));
    assert_eq!(checked_decimal_mul(u64::MAX, -30, u64::MAX, -30, 0), Ok(0));
}

#[test]
fn fused_division_exact_values() {
    assert_eq!(checked_decimal_div(1_000_000, -6, 500_000, -6, -6), Ok(2_000_000));
    assert_eq!(checked_decimal_div(400_000, -6, 500_000, -6, -6), Ok(800_000));
    assert_eq!(checked_decimal_div(10, 0, 3, 0, -2), Ok(333));
    assert_eq!(checked_decimal_div(5, -30, 1, 0, 0), Ok(0));
    assert_eq!(checked_decimal_div(1, 0, 0, 0, 0), Err(ComputeError::DivisionByZero));
    assert_eq!(checked_decimal_div(0, 0, 0, 0, 0), Err(ComputeError::DivisionByZero));
    assert_eq!(checked_decimal_div(u64::MAX, 0, 1, 0, -1), Err(ComputeError::ArithmeticOverflow));
    assert_eq!(checked_decimal_div(1, 0, u64::MAX, 0, -40), Err(ComputeError::ArithmeticOverflow));
}

#[test]
fn powers_of_ten() {
    assert_eq!(pow10_u128(0), 1);
    assert_eq!(pow10_u128(6), 1_000_000);
    assert_eq!(pow10_u128(38), 100_000_000_000_000_000_000_000_000_000_000_000_000);
}
