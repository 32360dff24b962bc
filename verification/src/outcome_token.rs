//! Outcome Token accounting.
//!
//! Each market mints one token per outcome. [`OutcomeShares`] is the
//! per-holder balance sheet: `shares[i]` is the number of "outcome i" tokens
//! held, and only the first `outcome_count` slots are live.
use crate::errors::OutcomeError;
use vstd::prelude::*;

verus! {

/// Hard cap on the number of outcomes per market.
/// Binary == 2. Election shortlist == up to 16.
pub const MAX_OUTCOMES: u8 = 16;

/// Per-outcome share balance for a single holder.
#[derive(Clone, Copy, Debug, PartialEq, Eq)]
pub struct OutcomeShares {
    pub outcome_count: u8,
    pub shares: [u64; 16],
}

/// Saturating sum of a sequence of balances, folded from the front.
pub open spec fn saturating_sum(s: Seq<u64>) -> u64
    decreases s.len(),
{
    if s.len() == 0 {
        0
    } else {
        let acc = saturating_sum(s.drop_last()) + s.last();
        if acc > u64::MAX { u64::MAX } else { acc as u64 }
    }
}

/// Exact (unbounded) sum of a sequence of balances.
pub open spec fn exact_sum(s: Seq<u64>) -> int
    decreases s.len(),
{
    if s.len() == 0 {
        0
    } else {
        exact_sum(s.drop_last()) + s.last()
    }
}

/// The error that `OutcomeShares::add` / `sub` raise for an index past the count.
pub open spec fn out_of_range(index: u8, count: u8) -> OutcomeError {
    OutcomeError::OutcomeOutOfRange { index, count }
}

impl OutcomeShares {
    /// Number of live slots: `outcome_count`, but never more than the storage holds.
    pub open spec fn live_len(self) -> int {
        if self.outcome_count <= 16 { self.outcome_count as int } else { 16 }
    }

    /// The live balances, outcome by outcome.
    pub open spec fn live(self) -> Seq<u64> {
        self.shares@.take(self.live_len())
    }

    /// `outcome` is a valid index for this holder.
    pub open spec fn in_range(self, outcome: u8) -> bool {
        outcome < self.outcome_count
    }

    /// Reading or writing `outcome` stays inside the storage whenever the
    /// index check lets it through.
    pub open spec fn addressable(self, outcome: u8) -> bool {
        outcome < self.outcome_count ==> outcome < 16
    }

    /// `m` is the smallest live balance.
    pub open spec fn is_live_min(self, m: u64) -> bool {
        &&& exists|i: int| 0 <= i < self.live_len() && #[trigger] self.shares[i] == m
        &&& forall|i: int| 0 <= i < self.live_len() ==> m <= #[trigger] self.shares[i]
    }

    /// A holder built by `new`: between 2 and `MAX_OUTCOMES` outcomes.
    pub open spec fn wf(self) -> bool {
        2 <= self.outcome_count <= MAX_OUTCOMES
    }

    /// Fresh balances with `outcome_count` outcomes, all zero.
    pub fn new(outcome_count: u8) -> (r: Result<Self, OutcomeError>)
        ensures
            (2 <= outcome_count <= MAX_OUTCOMES) <==> r is Ok,
            r matches Ok(s) ==> s.outcome_count == outcome_count && s.wf() && (forall|i: int|
                0 <= i < 16 ==> #[trigger] s.shares[i] == 0),
            r matches Err(e) ==> e == (OutcomeError::InvalidOutcomeCount { max: MAX_OUTCOMES }),
    {
        if outcome_count < 2 || outcome_count > MAX_OUTCOMES {
            return Err(OutcomeError::InvalidOutcomeCount { max: MAX_OUTCOMES });
        }
        Ok(OutcomeShares { outcome_count, shares: [0u64; 16] })
    }

    /// Balance held of `outcome`.
    pub fn balance(&self, outcome: u8) -> (r: Result<u64, OutcomeError>)
        requires
            self.addressable(outcome),
        ensures
            self.in_range(outcome) ==> r == Ok::<u64, OutcomeError>(self.shares[outcome as int]),
            !self.in_range(outcome) ==> r == Err::<u64, OutcomeError>(
                out_of_range(outcome, self.outcome_count),
            ),
    {
        self.check_index(outcome)?;
        Ok(self.shares[outcome as usize])
    }

    /// Credit `amount` shares of `outcome`.
    pub fn add(&mut self, outcome: u8, amount: u64) -> (r: Result<(), OutcomeError>)
        requires
            old(self).addressable(outcome),
        ensures
            r is Ok <==> (old(self).in_range(outcome) && amount != 0 && old(self).shares[outcome as int]
                + amount <= u64::MAX),
            final(self).outcome_count == old(self).outcome_count,
            r is Ok ==> final(self).shares@ == old(self).shares@.update(
                outcome as int,
                (old(self).shares[outcome as int] + amount) as u64,
            ),
            r is Err ==> final(self).shares@ == old(self).shares@,
            !old(self).in_range(outcome) ==> r == Err::<(), OutcomeError>(
                out_of_range(outcome, old(self).outcome_count),
            ),
            old(self).in_range(outcome) && amount == 0 ==> r == Err::<(), OutcomeError>(
                OutcomeError::ZeroAmount,
            ),
            old(self).in_range(outcome) && amount != 0 && old(self).shares[outcome as int] + amount
                > u64::MAX ==> r == Err::<(), OutcomeError>(
                OutcomeError::BalanceOverflow { outcome },
            ),
    {
        self.check_index(outcome)?;
        if amount == 0 {
            return Err(OutcomeError::ZeroAmount);
        }
        let i = outcome as usize;
        match self.shares[i].checked_add(amount) {
            Some(v) => {
                self.shares[i] = v;
                Ok(())
            },
            None => Err(OutcomeError::BalanceOverflow { outcome }),
        }
    }

    /// Debit `amount` shares of `outcome`.
    pub fn sub(&mut self, outcome: u8, amount: u64) -> (r: Result<(), OutcomeError>)
        requires
            old(self).addressable(outcome),
        ensures
            r is Ok <==> (old(self).in_range(outcome) && amount != 0 && amount <= old(
                self,
            ).shares[outcome as int]),
            final(self).outcome_count == old(self).outcome_count,
            r is Ok ==> final(self).shares@ == old(self).shares@.update(
                outcome as int,
                (old(self).shares[outcome as int] - amount) as u64,
            ),
            r is Err ==> final(self).shares@ == old(self).shares@,
            !old(self).in_range(outcome) ==> r == Err::<(), OutcomeError>(
                out_of_range(outcome, old(self).outcome_count),
            ),
            old(self).in_range(outcome) && amount == 0 ==> r == Err::<(), OutcomeError>(
                OutcomeError::ZeroAmount,
            ),
            old(self).in_range(outcome) && amount != 0 && amount > old(self).shares[outcome as int]
                ==> r == Err::<(), OutcomeError>(OutcomeError::BalanceUnderflow { outcome }),
    {
        self.check_index(outcome)?;
        if amount == 0 {
            return Err(OutcomeError::ZeroAmount);
        }
        let i = outcome as usize;
        match self.shares[i].checked_sub(amount) {
            Some(v) => {
                self.shares[i] = v;
                Ok(())
            },
            None => Err(OutcomeError::BalanceUnderflow { outcome }),
        }
    }

    /// Total exposure across every live outcome, saturating at `u64::MAX`.
    pub fn total(&self) -> (t: u64)
        ensures
            t == saturating_sum(self.live()),
    {
        let n: usize = if self.outcome_count <= 16 { self.outcome_count as usize } else { 16 };
        let mut acc: u64 = 0;
        let mut i: usize = 0;
        while i < n
            invariant
                n == self.live_len(),
                0 <= i <= n,
                acc == saturating_sum(self.shares@.take(i as int)),
            decreases n - i,
        {
            assert(self.shares@.take(i + 1).drop_last() =~= self.shares@.take(i as int));
            acc = acc.saturating_add(self.shares[i]);
            i = i + 1;
        }
        acc
    }

    /// Smallest live balance: exactly the collateral a Gnosis-style merge can
    /// reclaim. Zero when no outcome is live.
    pub fn merge_capacity(&self) -> (m: u64)
        ensures
            self.live_len() == 0 ==> m == 0,
            self.live_len() > 0 ==> self.is_live_min(m),
    {
        let n: usize = if self.outcome_count <= 16 { self.outcome_count as usize } else { 16 };
        if n == 0 {
            return 0;
        }
        let mut m: u64 = self.shares[0];
        let mut i: usize = 1;
        while i < n
            invariant
                n == self.live_len(),
                1 <= i <= n,
                exists|j: int| 0 <= j < i && #[trigger] self.shares[j] == m,
                forall|j: int| 0 <= j < i ==> m <= #[trigger] self.shares[j],
            decreases n - i,
        {
            if self.shares[i] < m {
                m = self.shares[i];
            }
            i = i + 1;
        }
        m
    }

    fn check_index(&self, outcome: u8) -> (r: Result<(), OutcomeError>)
        ensures
            r is Ok <==> self.in_range(outcome),
            r is Err ==> r == Err::<(), OutcomeError>(out_of_range(outcome, self.outcome_count)),
    {
        if outcome >= self.outcome_count {
            return Err(OutcomeError::OutcomeOutOfRange { index: outcome, count: self.outcome_count });
        }
        Ok(())
    }
}

/// Aggregate balance information returned to clients.
#[derive(Clone, Copy, Debug, PartialEq, Eq)]
pub struct OutcomeBalance {
    pub outcome: u8,
    pub shares: u64,
}

/// Mint identity for a single outcome, without any chain types.
#[derive(Clone, Copy, Debug, PartialEq, Eq)]
pub struct OutcomeMint {
    pub outcome: u8,
    pub mint: [u8; 32],
    pub supply: u64,
    pub decimals: u8,
}

/// The saturating total is the true total whenever the true total fits in a
/// `u64`, and never more than the true total otherwise.
pub proof fn lemma_total_exact_when_it_fits(s: Seq<u64>)
    ensures
        saturating_sum(s) <= exact_sum(s),
        exact_sum(s) <= u64::MAX ==> saturating_sum(s) == exact_sum(s),
    decreases s.len(),
{
    if s.len() > 0 {
        lemma_total_exact_when_it_fits(s.drop_last());
        lemma_exact_sum_nonneg(s.drop_last());
    }
}

proof fn lemma_exact_sum_nonneg(s: Seq<u64>)
    ensures
        exact_sum(s) >= 0,
    decreases s.len(),
{
    if s.len() > 0 {
        lemma_exact_sum_nonneg(s.drop_last());
    }
}

/// A sub undoes a successful add: once `amount` has been credited to
/// `outcome`, debiting the same amount from the credited balances succeeds and
/// gives back the balances from before the credit.
pub proof fn lemma_sub_undoes_add(before: OutcomeShares, after: OutcomeShares, outcome: u8, amount: u64)
    requires
        before.addressable(outcome),
        before.in_range(outcome),
        amount != 0,
        before.shares[outcome as int] + amount <= u64::MAX,
        after.outcome_count == before.outcome_count,
        after.shares@ == before.shares@.update(
            outcome as int,
            (before.shares[outcome as int] + amount) as u64,
        ),
    ensures
        after.addressable(outcome),
        after.in_range(outcome),
        amount <= after.shares[outcome as int],
        after.shares@.update(outcome as int, (after.shares[outcome as int] - amount) as u64)
            == before.shares@,
{
    assert(after.shares[outcome as int] == after.shares@[outcome as int]);
    assert(before.shares[outcome as int] == before.shares@[outcome as int]);
    assert(after.shares@.update(outcome as int, (after.shares[outcome as int] - amount) as u64)
        =~= before.shares@);
}

} // verus!
