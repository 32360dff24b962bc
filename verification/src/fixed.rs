//! Six-decimal fixed-point helpers shared by the outcome, pricing and oracle code.
//!
//! Prices and shares are `u128` values scaled by [`BPS_FACTOR`]; every
//! operation is checked and reports [`OutcomeError::FixedPointOverflow`]
//! instead of wrapping.
use crate::errors::OutcomeError;
use vstd::prelude::*;

verus! {

/// Six-decimal fixed-point factor.
pub const BPS_FACTOR: u128 = 1_000_000;

/// The fixed-point representation of a price of exactly 1.0.
pub const PRICE_ONE: u128 = BPS_FACTOR;

/// `a * b / BPS_FACTOR`, when the product fits in a `u128`.
pub open spec fn spec_fixed_mul(a: u128, b: u128) -> Result<u128, OutcomeError> {
    if a * b <= u128::MAX {
        Ok(((a * b) / (BPS_FACTOR as int)) as u128)
    } else {
        Err(OutcomeError::FixedPointOverflow)
    }
}

/// `a * BPS_FACTOR / max(b, 1)`, when the scaled numerator fits in a `u128`.
pub open spec fn spec_fixed_div(a: u128, b: u128) -> Result<u128, OutcomeError> {
    let d: int = if b == 0 { 1 } else { b as int };
    if a * BPS_FACTOR <= u128::MAX {
        Ok(((a * BPS_FACTOR) / d) as u128)
    } else {
        Err(OutcomeError::FixedPointOverflow)
    }
}

/// Basis-point fee turned into a fixed-point multiplier: `1.0 - fee`, saturating at zero.
pub open spec fn spec_fee_multiplier(fee_bps: u16) -> u128 {
    if fee_bps * 100 >= BPS_FACTOR {
        0
    } else {
        (BPS_FACTOR - fee_bps * 100) as u128
    }
}

/// Multiply two fixed-point numbers, dividing back by `BPS_FACTOR`.
pub fn fixed_mul(a: u128, b: u128) -> (r: Result<u128, OutcomeError>)
    ensures
        r == spec_fixed_mul(a, b),
{
    match a.checked_mul(b) {
        Some(p) => Ok(p / BPS_FACTOR),
        None => Err(OutcomeError::FixedPointOverflow),
    }
}

/// Divide `a` by `b` (a zero divisor counts as 1), keeping the result in fixed point.
pub fn fixed_div(a: u128, b: u128) -> (r: Result<u128, OutcomeError>)
    ensures
        r == spec_fixed_div(a, b),
{
    let d: u128 = if b == 0 { 1 } else { b };
    match a.checked_mul(BPS_FACTOR) {
        Some(p) => Ok(p / d),
        None => Err(OutcomeError::FixedPointOverflow),
    }
}

/// Convert a basis-point fee (out of 10_000) into a fixed-point multiplier.
pub fn fee_multiplier(fee_bps: u16) -> (mult: u128)
    ensures
        mult == spec_fee_multiplier(fee_bps),
        mult <= BPS_FACTOR,
{
    let fee: u128 = (fee_bps as u128) * 100;
    BPS_FACTOR.saturating_sub(fee)
}

/// `PRICE_ONE` is the identity of fixed-point multiplication and division:
/// multiplying or dividing by 1.0 gives the value back whenever the scaled
/// intermediate fits in a `u128`.
pub proof fn lemma_price_one_is_identity(a: u128)
    requires
        a * PRICE_ONE <= u128::MAX,
    ensures
        spec_fixed_mul(a, PRICE_ONE) == Ok::<u128, OutcomeError>(a),
        spec_fixed_div(a, PRICE_ONE) == Ok::<u128, OutcomeError>(a),
{
    assert((a * 1_000_000) / 1_000_000 == a) by (nonlinear_arith);
}

/// A larger fee never yields a larger multiplier.
pub proof fn lemma_fee_multiplier_antitone(f1: u16, f2: u16)
    requires
        f1 <= f2,
    ensures
        spec_fee_multiplier(f2) <= spec_fee_multiplier(f1),
{
}

/// One basis point of fee is 100 millionths of the collateral: for fees up to
/// 100% the multiplier is exactly `1_000_000 - 100 * fee_bps`, and beyond it
/// the multiplier is zero.
pub proof fn lemma_fee_multiplier_is_one_minus_fee(fee_bps: u16)
    ensures
        fee_bps <= 10_000 ==> spec_fee_multiplier(fee_bps) == 1_000_000 - 100 * fee_bps,
        fee_bps >= 10_000 ==> spec_fee_multiplier(fee_bps) == 0,
{
}

/// Fixed-point multiplication is the product scaled back by one million and
/// rounded down, and it is refused exactly when the raw product leaves `u128`.
pub proof fn lemma_fixed_mul_rounds_down(a: u128, b: u128)
    ensures
        spec_fixed_mul(a, b) is Ok <==> a * b <= u128::MAX,
        spec_fixed_mul(a, b) matches Ok(r) ==> r * 1_000_000 <= a * b < (r + 1) * 1_000_000,
        spec_fixed_mul(a, b) is Err ==> spec_fixed_mul(a, b) == Err::<u128, OutcomeError>(
            OutcomeError::FixedPointOverflow,
        ),
{
    if a * b <= u128::MAX {
        let x: int = a * b;
        assert((x / 1_000_000) * 1_000_000 <= x < (x / 1_000_000 + 1) * 1_000_000) by (nonlinear_arith)
            requires
                x >= 0,
        ;
    }
}

/// Fixed-point division scales the dividend by one million and divides,
/// rounding down, by the divisor (a zero divisor counting as one); it is
/// refused exactly when the scaled dividend leaves `u128`.
pub proof fn lemma_fixed_div_rounds_down(a: u128, b: u128)
    ensures
        spec_fixed_div(a, b) is Ok <==> a * 1_000_000 <= u128::MAX,
        b > 0 ==> (spec_fixed_div(a, b) matches Ok(r) ==> r * b <= a * 1_000_000 < (r + 1) * b),
        b == 0 ==> (spec_fixed_div(a, b) matches Ok(r) ==> r == a * 1_000_000),
{
    if a * 1_000_000 <= u128::MAX && b > 0 {
        let x: int = a * 1_000_000;
        let d: int = b as int;
        assert((x / d) * d <= x < (x / d + 1) * d) by (nonlinear_arith)
            requires
                x >= 0,
                d > 0,
        ;
    }
}

} // verus!
