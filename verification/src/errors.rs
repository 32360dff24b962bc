//! Errors raised by outcome-token accounting, the CTF and the market lifecycle.
use vstd::prelude::*;

verus! {

/// Every way an outcome-engine operation can be refused.
#[derive(Clone, Copy, Debug, PartialEq, Eq, Structural)]
pub enum OutcomeError {
    /// The market is closed and accepts no new positions.
    MarketClosed,
    /// The market has not been resolved yet.
    MarketNotResolved,
    /// The market resolved invalid: only merge / refund are allowed.
    MarketResolvedInvalid,
    /// An outcome index at or past the holder's outcome count.
    OutcomeOutOfRange { index: u8, count: u8 },
    /// The outcome count lies outside `2..=max`.
    InvalidOutcomeCount { max: u8 },
    /// Subtracting more shares than the outcome holds.
    BalanceUnderflow { outcome: u8 },
    /// Adding shares past `u64::MAX`.
    BalanceOverflow { outcome: u8 },
    /// An amount of zero where a positive one is needed.
    ZeroAmount,
    /// The resolution deadline has not been reached yet.
    DeadlinePassed,
    /// Collateral amounts that should agree do not.
    CollateralMismatch { expected: u64, got: u64 },
    /// The caller is not allowed to act.
    Unauthorized,
    /// A fixed-point computation left the representable range.
    FixedPointOverflow,
}

} // verus!
