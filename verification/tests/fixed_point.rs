use wagr::errors::OutcomeError;
use wagr::fixed::{fee_multiplier, fixed_div, fixed_mul, BPS_FACTOR, PRICE_ONE};

#[test]
fn fixed_mul_scales_back() {
    assert_eq!(fixed_mul(2_500_000, 1_500_000).unwrap(), 3_750_000);
    assert_eq!(fixed_mul(123_456, PRICE_ONE).unwrap(), 123_456);
    assert_eq!(fixed_mul(1, 1).unwrap(), 0);
}

#[test]
fn fixed_mul_overflow_is_an_error() {
    assert_eq!(fixed_mul(u128::MAX, 2).unwrap_err(), OutcomeError::FixedPointOverflow);
}

#[test]
fn fixed_div_scales_up_and_treats_zero_as_one() {
    assert_eq!(fixed_div(3_000_000, 2_000_000).unwrap(), 1_500_000);
    assert_eq!(fixed_div(7, PRICE_ONE).unwrap(), 7);
    assert_eq!(fixed_div(5, 0).unwrap(), 5 * BPS_FACTOR);
    assert_eq!(fixed_div(u128::MAX, 3).unwrap_err(), OutcomeError::FixedPointOverflow);
}

#[test]
fn fee_multiplier_is_one_minus_fee() {
    assert_eq!(fee_multiplier(0), 1_000_000);
    assert_eq!(fee_multiplier(100), 990_000);
    assert_eq!(fee_multiplier(10_000), 0);
    assert_eq!(fee_multiplier(u16::MAX), 0);
}
