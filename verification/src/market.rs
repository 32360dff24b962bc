//! Market lifecycle state machine.
//!
//! The same enum drives both off-chain simulation and on-chain enforcement.
use crate::errors::OutcomeError;
use vstd::prelude::*;

verus! {

/// Where a market stands in its lifecycle.
#[derive(Clone, Copy, Debug, PartialEq, Eq, Structural)]
pub enum MarketState {
    /// Liquidity bootstrapped, accepting trades.
    Open,
    /// Trading window closed, awaiting oracle.
    Closed,
    /// Oracle decided no valid outcome exists -- collateral refunded.
    ResolvedInvalid,
    /// Oracle decided. `winning_outcome` is canonical.
    Resolved { winning_outcome: u8 },
    /// A challenge has been raised; resolution paused.
    Disputed,
}

/// How a market gets resolved.
#[derive(Clone, Copy, Debug, PartialEq, Eq)]
#[allow(inconsistent_fields)]
pub enum ResolutionSource {
    /// Optimistic resolution -- bonded proposal + challenge window.
    UmaOptimistic { bond: u64, challenge_window: i64 },
    /// Pull a price feed and threshold it.
    PythAggregator { feed: [u8; 32], threshold: i64 },
    /// Authority signs off (test markets, off-chain games).
    Manual { authority: [u8; 32] },
    /// M-of-N multi-source consensus.
    MultiSourceConsensus { sources: u8, threshold: u8 },
}

/// Off-chain projection of a market account.
#[derive(Clone, Debug)]
pub struct OutcomeMarket {
    pub market_id: u64,
    pub authority: [u8; 32],
    pub question: String,
    pub outcome_count: u8,
    pub resolution_source: ResolutionSource,
    pub resolution_deadline: i64,
    pub state: MarketState,
    pub collateral_mint: [u8; 32],
    pub collateral_vault: [u8; 32],
    pub outcome_mints: [[u8; 32]; 16],
    pub lmsr_b: u128,
    pub total_volume: u64,
    pub fee_bps: u16,
    pub created_at: i64,
}

/// What `ensure_open` answers for a market in state `s`.
pub open spec fn spec_ensure_open(s: MarketState) -> Result<(), OutcomeError> {
    match s {
        MarketState::Open => Ok(()),
        MarketState::ResolvedInvalid => Err(OutcomeError::MarketResolvedInvalid),
        _ => Err(OutcomeError::MarketClosed),
    }
}

/// What `ensure_resolved` answers for a market in state `s`.
pub open spec fn spec_ensure_resolved(s: MarketState) -> Result<u8, OutcomeError> {
    match s {
        MarketState::Resolved { winning_outcome } => Ok(winning_outcome),
        MarketState::ResolvedInvalid => Err(OutcomeError::MarketResolvedInvalid),
        _ => Err(OutcomeError::MarketNotResolved),
    }
}

/// `total_volume` after recording `amount` more volume (saturating).
pub open spec fn volume_after(total: u64, amount: u64) -> u64 {
    if total + amount > u64::MAX { u64::MAX } else { (total + amount) as u64 }
}

impl MarketState {
    /// The winning outcome of a market resolved to one.
    pub fn winning_outcome(&self) -> (r: Option<u8>)
        ensures
            r == (match *self {
                MarketState::Resolved { winning_outcome } => Some(winning_outcome),
                _ => None,
            }),
    {
        match self {
            MarketState::Resolved { winning_outcome } => Some(*winning_outcome),
            _ => None,
        }
    }
}

impl OutcomeMarket {
    /// Every field but `state` and `total_volume` agrees.
    pub open spec fn same_terms(self, other: OutcomeMarket) -> bool {
        &&& self.market_id == other.market_id
        &&& self.authority == other.authority
        &&& self.question@ == other.question@
        &&& self.outcome_count == other.outcome_count
        &&& self.resolution_source == other.resolution_source
        &&& self.resolution_deadline == other.resolution_deadline
        &&& self.collateral_mint == other.collateral_mint
        &&& self.collateral_vault == other.collateral_vault
        &&& self.outcome_mints == other.outcome_mints
        &&& self.lmsr_b == other.lmsr_b
        &&& self.fee_bps == other.fee_bps
        &&& self.created_at == other.created_at
    }

    /// Succeeds exactly when the market accepts new positions.
    pub fn ensure_open(&self) -> (r: Result<(), OutcomeError>)
        ensures
            r == spec_ensure_open(self.state),
    {
        match self.state {
            MarketState::Open => Ok(()),
            MarketState::Closed | MarketState::Disputed => Err(OutcomeError::MarketClosed),
            MarketState::Resolved { .. } => Err(OutcomeError::MarketClosed),
            MarketState::ResolvedInvalid => Err(OutcomeError::MarketResolvedInvalid),
        }
    }

    /// The winning outcome, once the market has resolved to one.
    pub fn ensure_resolved(&self) -> (r: Result<u8, OutcomeError>)
        ensures
            r == spec_ensure_resolved(self.state),
    {
        match self.state {
            MarketState::Resolved { winning_outcome } => Ok(winning_outcome),
            MarketState::ResolvedInvalid => Err(OutcomeError::MarketResolvedInvalid),
            _ => Err(OutcomeError::MarketNotResolved),
        }
    }

    /// Move from Open to Closed once the resolution deadline is reached.
    pub fn close(&mut self, now: i64) -> (r: Result<(), OutcomeError>)
        ensures
            final(self).same_terms(*old(self)),
            final(self).total_volume == old(self).total_volume,
            now < old(self).resolution_deadline ==> r == Err::<(), OutcomeError>(
                OutcomeError::DeadlinePassed,
            ),
            now >= old(self).resolution_deadline && old(self).state != MarketState::Open ==> r
                == Err::<(), OutcomeError>(OutcomeError::MarketClosed),
            r is Ok <==> (now >= old(self).resolution_deadline && old(self).state
                == MarketState::Open),
            r is Ok ==> final(self).state == MarketState::Closed,
            r is Err ==> final(self).state == old(self).state,
    {
        if now < self.resolution_deadline {
            return Err(OutcomeError::DeadlinePassed);
        }
        if !matches!(self.state, MarketState::Open) {
            return Err(OutcomeError::MarketClosed);
        }
        self.state = MarketState::Closed;
        Ok(())
    }

    /// Add `amount` to the running volume, saturating at `u64::MAX`.
    pub fn record_volume(&mut self, amount: u64)
        ensures
            final(self).same_terms(*old(self)),
            final(self).state == old(self).state,
            final(self).total_volume == volume_after(old(self).total_volume, amount),
    {
        self.total_volume = self.total_volume.saturating_add(amount);
    }
}

/// A market accepts positions exactly when it is open, and names a winner
/// exactly when it has resolved to one; a market resolved invalid says so in
/// both cases.
pub proof fn lemma_lifecycle_checks(s: MarketState)
    ensures
        spec_ensure_open(s) is Ok <==> s == MarketState::Open,
        spec_ensure_resolved(s) is Ok <==> s is Resolved,
        s matches MarketState::Resolved { winning_outcome } ==> spec_ensure_resolved(s) == Ok::<
            u8,
            OutcomeError,
        >(winning_outcome),
        s == MarketState::ResolvedInvalid ==> spec_ensure_open(s) == Err::<(), OutcomeError>(
            OutcomeError::MarketResolvedInvalid,
        ) && spec_ensure_resolved(s) == Err::<u8, OutcomeError>(OutcomeError::MarketResolvedInvalid),
{
}

/// Recorded volume is the running total, saturating at `u64::MAX`.
pub proof fn lemma_volume_saturates(total: u64, amount: u64)
    ensures
        volume_after(total, amount) == if total + amount <= u64::MAX {
            total + amount
        } else {
            u64::MAX as int
        },
        volume_after(total, amount) >= total,
        volume_after(total, amount) >= amount,
{
}

} // verus!
