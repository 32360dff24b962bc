//! Conditional Token Framework -- Gnosis-style split / merge / redeem.
//!
//! * **Split**: lock `amount` of collateral, mint the post-fee amount of every outcome.
//! * **Merge**: burn `amount` of every outcome, unlock `amount` of collateral.
//! * **Redeem**: burn the winning outcome after resolution and unlock that much
//!   collateral. Losing outcomes redeem to zero.
use crate::errors::OutcomeError;
use crate::fixed::{fee_multiplier, spec_fee_multiplier, BPS_FACTOR};
use crate::market::{
    spec_ensure_open, spec_ensure_resolved, volume_after, MarketState, OutcomeMarket,
};
use crate::outcome_token::{out_of_range, OutcomeShares};
use vstd::prelude::*;

verus! {

/// Result of a split -- what to debit / credit on chain.
#[derive(Clone, Copy, Debug, PartialEq, Eq, Structural)]
pub struct SplitResult {
    /// Collateral the user owes the vault.
    pub collateral_in: u64,
    /// Outcome shares minted to the user, per outcome index.
    pub shares_out: u64,
    /// Fee deducted from the collateral (kept by the protocol for buyback).
    pub fee_taken: u64,
}

/// Shares minted per outcome for `amount` of collateral at `fee_bps`.
pub open spec fn spec_net(amount: u64, fee_bps: u16) -> u64 {
    ((amount * spec_fee_multiplier(fee_bps)) / (BPS_FACTOR as int)) as u64
}

/// Crediting `n` to outcome `o` of `h` is refused.
pub open spec fn credit_fails(h: OutcomeShares, o: int, n: u64) -> bool {
    o >= h.outcome_count || n == 0 || h.shares[o] + n > u64::MAX
}

/// The error `add` gives when crediting `n` to outcome `o` of `h` is refused.
pub open spec fn credit_error(h: OutcomeShares, o: int, n: u64) -> OutcomeError {
    if o >= h.outcome_count {
        out_of_range(o as u8, h.outcome_count)
    } else if n == 0 {
        OutcomeError::ZeroAmount
    } else {
        OutcomeError::BalanceOverflow { outcome: o as u8 }
    }
}

/// Debiting `n` from outcome `o` of `h` is refused.
pub open spec fn debit_fails(h: OutcomeShares, o: int, n: u64) -> bool {
    o >= h.outcome_count || n == 0 || h.shares[o] < n
}

/// The error `sub` gives when debiting `n` from outcome `o` of `h` is refused.
pub open spec fn debit_error(h: OutcomeShares, o: int, n: u64) -> OutcomeError {
    if o >= h.outcome_count {
        out_of_range(o as u8, h.outcome_count)
    } else if n == 0 {
        OutcomeError::ZeroAmount
    } else {
        OutcomeError::BalanceUnderflow { outcome: o as u8 }
    }
}

/// `s` with `n` added to each of the first `k` slots.
pub open spec fn credit_prefix(s: Seq<u64>, k: int, n: u64) -> Seq<u64> {
    Seq::new(s.len(), |i: int| if i < k { (s[i] + n) as u64 } else { s[i] })
}

/// `s` with `n` taken from each of the first `k` slots.
pub open spec fn debit_prefix(s: Seq<u64>, k: int, n: u64) -> Seq<u64> {
    Seq::new(s.len(), |i: int| if i < k { (s[i] - n) as u64 } else { s[i] })
}

/// Walking outcomes `0..count` never indexes past the storage: either one
/// of the first 16 steps is refused, or the walk stops within the storage.
pub open spec fn walk_in_bounds(h: OutcomeShares, count: u8, fails: spec_fn(int) -> bool) -> bool {
    count <= 16 || h.outcome_count <= 16 || exists|p: int| 0 <= p < 16 && #[trigger] fails(p)
}

/// Lock `amount` of collateral and mint its post-fee value of every outcome.
/// A refused split mints nothing.
pub fn split_position(
    market: &mut OutcomeMarket,
    holder_shares: &mut OutcomeShares,
    amount: u64,
) -> (r: Result<SplitResult, OutcomeError>)
    requires
        walk_in_bounds(
            *old(holder_shares),
            old(market).outcome_count,
            |p: int| credit_fails(*old(holder_shares), p, spec_net(amount, old(market).fee_bps)),
        ),
    ensures
        ({
            let h = *old(holder_shares);
            let m = *old(market);
            let net = spec_net(amount, m.fee_bps);
            &&& final(holder_shares).outcome_count == h.outcome_count
            &&& final(market).same_terms(m)
            &&& final(market).state == m.state
            &&& amount == 0 ==> r == Err::<SplitResult, OutcomeError>(OutcomeError::ZeroAmount)
            &&& amount != 0 && spec_ensure_open(m.state) is Err ==> r == Err::<
                SplitResult,
                OutcomeError,
            >(spec_ensure_open(m.state)->Err_0)
            &&& r is Ok <==> (amount != 0 && m.state == MarketState::Open && forall|o: int|
                0 <= o < m.outcome_count ==> !#[trigger] credit_fails(h, o, net))
            &&& r is Ok ==> {
                &&& r == Ok::<SplitResult, OutcomeError>(
                    SplitResult {
                        collateral_in: amount,
                        shares_out: net,
                        fee_taken: (amount - net) as u64,
                    },
                )
                &&& final(holder_shares).shares@ == credit_prefix(
                    h.shares@,
                    m.outcome_count as int,
                    net,
                )
                &&& final(market).total_volume == volume_after(m.total_volume, amount)
            }
            &&& r is Err ==> final(market).total_volume == m.total_volume
            &&& r is Err ==> *final(holder_shares) == h
            &&& (r is Err && amount != 0 && m.state == MarketState::Open) ==> exists|k: int|
                0 <= k < m.outcome_count && #[trigger] credit_fails(h, k, net) && (forall|o: int|
                    0 <= o < k ==> !#[trigger] credit_fails(h, o, net)) && r == Err::<
                    SplitResult,
                    OutcomeError,
                >(credit_error(h, k, net))
        }),
{
    if amount == 0 {
        return Err(OutcomeError::ZeroAmount);
    }
    market.ensure_open()?;
    let (net, fee) = apply_fee(amount, market.fee_bps)?;
    let ghost h = *holder_shares;
    let mut work: OutcomeShares = *holder_shares;
    let count = market.outcome_count;
    let mut outcome: u8 = 0;
    while outcome < count
        invariant
            h == *old(holder_shares),
            *market == *old(market),
            amount != 0,
            market.state == MarketState::Open,
            count == old(market).outcome_count,
            net == spec_net(amount, old(market).fee_bps),
            walk_in_bounds(h, count, |p: int| credit_fails(h, p, net)),
            0 <= outcome <= count,
            *holder_shares == h,
            work.outcome_count == h.outcome_count,
            work.shares@ == credit_prefix(h.shares@, outcome as int, net),
            forall|o: int| 0 <= o < outcome ==> !#[trigger] credit_fails(h, o, net),
        decreases count - outcome,
    {
        proof {
            if outcome >= 16 && outcome < h.outcome_count {
                let p = choose|p: int| 0 <= p < 16 && #[trigger] credit_fails(h, p, net);
                assert(credit_fails(h, p, net));
            }
            if outcome < 16 {
                assert(work.shares@[outcome as int] == h.shares@[outcome as int]);
            }
        }
        let step = work.add(outcome, net);
        match step {
            Ok(()) => {},
            Err(e) => {
                assert(credit_fails(h, outcome as int, net));
                assert(e == credit_error(h, outcome as int, net));
                assert(work.shares@ == credit_prefix(h.shares@, outcome as int, net));
                return Err(e);
            },
        }
        assert(work.shares@ =~= credit_prefix(h.shares@, outcome + 1, net));
        outcome = outcome + 1;
    }
    *holder_shares = work;
    market.record_volume(amount);
    Ok(SplitResult { collateral_in: amount, shares_out: net, fee_taken: fee })
}

/// Burn `amount` of every outcome and unlock `amount` of collateral. Refused
/// on a zero amount, once the market has resolved to a winner, and when the
/// holder has less than `amount` of some outcome; a refused merge burns nothing.
pub fn merge_positions(
    market: &mut OutcomeMarket,
    holder_shares: &mut OutcomeShares,
    amount: u64,
) -> (r: Result<u64, OutcomeError>)
    requires
        walk_in_bounds(
            *old(holder_shares),
            old(market).outcome_count,
            |p: int| debit_fails(*old(holder_shares), p, amount),
        ),
    ensures
        ({
            let h = *old(holder_shares);
            let m = *old(market);
            &&& final(holder_shares).outcome_count == h.outcome_count
            &&& final(market).same_terms(m)
            &&& final(market).state == m.state
            &&& amount == 0 ==> r == Err::<u64, OutcomeError>(OutcomeError::ZeroAmount)
            &&& amount != 0 && m.state is Resolved ==> r == Err::<u64, OutcomeError>(
                OutcomeError::MarketClosed,
            )
            &&& r is Ok <==> (amount != 0 && !(m.state is Resolved) && forall|o: int|
                0 <= o < m.outcome_count ==> !#[trigger] debit_fails(h, o, amount))
            &&& r is Ok ==> {
                &&& r == Ok::<u64, OutcomeError>(amount)
                &&& final(holder_shares).shares@ == debit_prefix(
                    h.shares@,
                    m.outcome_count as int,
                    amount,
                )
                &&& final(market).total_volume == volume_after(m.total_volume, amount)
            }
            &&& r is Err ==> final(market).total_volume == m.total_volume
            &&& r is Err ==> *final(holder_shares) == h
            &&& (r is Err && amount != 0 && !(m.state is Resolved)) ==> exists|k: int|
                0 <= k < m.outcome_count && #[trigger] debit_fails(h, k, amount) && (forall|o: int|
                    0 <= o < k ==> !#[trigger] debit_fails(h, o, amount)) && r == Err::<
                    u64,
                    OutcomeError,
                >(debit_error(h, k, amount))
        }),
{
    if amount == 0 {
        return Err(OutcomeError::ZeroAmount);
    }
    if matches!(market.state, MarketState::Resolved { .. }) {
        return Err(OutcomeError::MarketClosed);
    }
    let ghost h = *holder_shares;
    let mut work: OutcomeShares = *holder_shares;
    let count = market.outcome_count;
    let mut outcome: u8 = 0;
    while outcome < count
        invariant
            h == *old(holder_shares),
            *market == *old(market),
            amount != 0,
            !(market.state is Resolved),
            count == old(market).outcome_count,
            walk_in_bounds(h, count, |p: int| debit_fails(h, p, amount)),
            0 <= outcome <= count,
            *holder_shares == h,
            work.outcome_count == h.outcome_count,
            work.shares@ == debit_prefix(h.shares@, outcome as int, amount),
            forall|o: int| 0 <= o < outcome ==> !#[trigger] debit_fails(h, o, amount),
        decreases count - outcome,
    {
        proof {
            if outcome >= 16 && outcome < h.outcome_count {
                let p = choose|p: int| 0 <= p < 16 && #[trigger] debit_fails(h, p, amount);
                assert(debit_fails(h, p, amount));
            }
            if outcome < 16 {
                assert(work.shares@[outcome as int] == h.shares@[outcome as int]);
            }
        }
        let step = work.sub(outcome, amount);
        match step {
            Ok(()) => {},
            Err(e) => {
                assert(debit_fails(h, outcome as int, amount));
                assert(e == debit_error(h, outcome as int, amount));
                assert(work.shares@ == debit_prefix(h.shares@, outcome as int, amount));
                return Err(e);
            },
        }
        assert(work.shares@ =~= debit_prefix(h.shares@, outcome + 1, amount));
        outcome = outcome + 1;
    }
    *holder_shares = work;
    market.record_volume(amount);
    Ok(amount)
}

/// After resolution, burn the holder's whole winning position for the same
/// amount of collateral. Losing outcomes are left in place: they are worthless.
pub fn redeem_payout(market: &mut OutcomeMarket, holder_shares: &mut OutcomeShares) -> (r: Result<
    u64,
    OutcomeError,
>)
    requires
        old(market).state matches MarketState::Resolved { winning_outcome }
            ==> old(holder_shares).addressable(winning_outcome),
    ensures
        ({
            let h = *old(holder_shares);
            let m = *old(market);
            &&& final(holder_shares).outcome_count == h.outcome_count
            &&& final(market).same_terms(m)
            &&& final(market).state == m.state
            &&& spec_ensure_resolved(m.state) is Err ==> r == Err::<u64, OutcomeError>(
                spec_ensure_resolved(m.state)->Err_0,
            )
            &&& r is Err ==> final(holder_shares).shares@ == h.shares@
            &&& r is Err ==> final(market).total_volume == m.total_volume
            &&& m.state matches MarketState::Resolved { winning_outcome } ==> {
                &&& winning_outcome >= h.outcome_count ==> r == Err::<u64, OutcomeError>(
                    out_of_range(winning_outcome, h.outcome_count),
                )
                &&& winning_outcome < h.outcome_count ==> {
                    let payout = h.shares[winning_outcome as int];
                    &&& r == Ok::<u64, OutcomeError>(payout)
                    &&& final(holder_shares).shares@ == h.shares@.update(winning_outcome as int, 0)
                    &&& final(market).total_volume == volume_after(m.total_volume, payout)
                }
            }
        }),
{
    let winner = market.ensure_resolved()?;
    let payout = holder_shares.balance(winner)?;
    if payout == 0 {
        assert(holder_shares.shares@ =~= holder_shares.shares@.update(winner as int, 0));
        return Ok(0);
    }
    let step = holder_shares.sub(winner, payout);
    assert(step is Ok);
    market.record_volume(payout);
    Ok(payout)
}

/// `(net, fee)` for `amount` of collateral: the fee comes out of the
/// collateral, so `net + fee == amount`.
fn apply_fee(amount: u64, fee_bps: u16) -> (r: Result<(u64, u64), OutcomeError>)
    ensures
        r == Ok::<(u64, u64), OutcomeError>(
            (spec_net(amount, fee_bps), (amount - spec_net(amount, fee_bps)) as u64),
        ),
{
    let mult = fee_multiplier(fee_bps);
    proof {
        lemma_net_bounded(amount, fee_bps);
    }
    let net = match (amount as u128).checked_mul(mult) {
        Some(p) => p / BPS_FACTOR,
        None => return Err(OutcomeError::FixedPointOverflow),
    };
    if net > u64::MAX as u128 {
        return Err(OutcomeError::FixedPointOverflow);
    }
    let net_u64 = net as u64;
    let fee = amount.saturating_sub(net_u64);
    Ok((net_u64, fee))
}

/// The post-fee amount never exceeds the collateral paid, and the product
/// behind it fits in a `u128`.
pub proof fn lemma_net_bounded(amount: u64, fee_bps: u16)
    ensures
        amount * spec_fee_multiplier(fee_bps) <= u128::MAX,
        (amount * spec_fee_multiplier(fee_bps)) / (BPS_FACTOR as int) <= amount,
        spec_net(amount, fee_bps) <= amount,
{
    let m = spec_fee_multiplier(fee_bps);
    assert(amount * m <= amount * 1_000_000) by (nonlinear_arith)
        requires
            m <= 1_000_000,
    ;
    assert((amount * m) / 1_000_000 <= amount) by (nonlinear_arith)
        requires
            amount * m <= amount * 1_000_000,
    ;
}

/// Splitting never creates value: the shares minted per outcome plus the fee
/// add up to the collateral paid, and without a fee every unit of collateral
/// becomes one share of each outcome.
pub proof fn lemma_split_conserves_collateral(amount: u64, fee_bps: u16)
    ensures
        spec_net(amount, fee_bps) + (amount - spec_net(amount, fee_bps)) == amount,
        spec_net(amount, fee_bps) <= amount,
        spec_net(amount, 0) == amount,
{
    lemma_net_bounded(amount, fee_bps);
    assert((amount * 1_000_000) / 1_000_000 == amount) by (nonlinear_arith);
}

/// Merging `n` undoes splitting `n`: once `n` could be credited to each of the
/// first `count` outcomes, it can be debited from each of them again, and the
/// debit gives back the balances from before the credit.
pub proof fn lemma_merge_undoes_split(before: OutcomeShares, after: OutcomeShares, count: u8, n: u64)
    requires
        count <= 16,
        forall|o: int| 0 <= o < count ==> !#[trigger] credit_fails(before, o, n),
        after.outcome_count == before.outcome_count,
        after.shares@ == credit_prefix(before.shares@, count as int, n),
    ensures
        forall|o: int| 0 <= o < count ==> !#[trigger] debit_fails(after, o, n),
        debit_prefix(after.shares@, count as int, n) == before.shares@,
{
    assert forall|o: int| 0 <= o < count implies !#[trigger] debit_fails(after, o, n) by {
        assert(!credit_fails(before, o, n));
        assert(after.shares[o] == after.shares@[o]);
    }
    assert forall|i: int| 0 <= i < 16 implies #[trigger] debit_prefix(after.shares@, count as int, n)[i]
        == before.shares@[i] by {
        if i < count {
            assert(!credit_fails(before, i, n));
        }
    }
    assert(debit_prefix(after.shares@, count as int, n) =~= before.shares@);
}

/// The merge capacity is exactly what a merge can reclaim: on a well-formed
/// holder, debiting `n` from every live outcome succeeds precisely when `n` is
/// positive and at most the smallest live balance.
pub proof fn lemma_merge_capacity_is_reclaimable(h: OutcomeShares, cap: u64, n: u64)
    requires
        h.wf(),
        h.is_live_min(cap),
    ensures
        (forall|o: int| 0 <= o < h.outcome_count ==> !#[trigger] debit_fails(h, o, n)) <==> (n != 0
            && n <= cap),
{
    if n != 0 && n <= cap {
        assert forall|o: int| 0 <= o < h.outcome_count implies !#[trigger] debit_fails(h, o, n) by {
            assert(cap <= h.shares[o]);
        }
    }
    if forall|o: int| 0 <= o < h.outcome_count ==> !#[trigger] debit_fails(h, o, n) {
        let i = choose|i: int| 0 <= i < h.live_len() && #[trigger] h.shares[i] == cap;
        assert(!debit_fails(h, i, n));
    }
}

/// Merge returns exactly the collateral that a fee-free split locked: after a
/// successful split of `amount` on an open market without fee, the holder has
/// been minted `amount` of every outcome, a merge of `amount` is accepted, and
/// it restores the holder's balances from before the split.
pub proof fn lemma_merge_returns_what_split_locked(
    m: OutcomeMarket,
    before: OutcomeShares,
    after: OutcomeShares,
    amount: u64,
)
    requires
        m.state == MarketState::Open,
        m.fee_bps == 0,
        amount != 0,
        before.outcome_count == m.outcome_count,
        walk_in_bounds(
            before,
            m.outcome_count,
            |p: int| credit_fails(before, p, spec_net(amount, m.fee_bps)),
        ),
        forall|o: int|
            0 <= o < m.outcome_count ==> !#[trigger] credit_fails(
                before,
                o,
                spec_net(amount, m.fee_bps),
            ),
        after.outcome_count == before.outcome_count,
        after.shares@ == credit_prefix(
            before.shares@,
            m.outcome_count as int,
            spec_net(amount, m.fee_bps),
        ),
    ensures
        spec_net(amount, m.fee_bps) == amount,
        !(m.state is Resolved),
        forall|o: int| 0 <= o < m.outcome_count ==> !#[trigger] debit_fails(after, o, amount),
        debit_prefix(after.shares@, m.outcome_count as int, amount) == before.shares@,
{
    lemma_split_conserves_collateral(amount, m.fee_bps);
    if m.outcome_count > 16 {
        let p = choose|p: int|
            0 <= p < 16 && #[trigger] credit_fails(before, p, spec_net(amount, m.fee_bps));
        assert(credit_fails(before, p, spec_net(amount, m.fee_bps)));
    }
    lemma_merge_undoes_split(before, after, m.outcome_count, amount);
}

/// Redeeming twice pays once: after a redeem of the winning outcome `w`, the
/// holder's balance of `w` is zero, so a second redeem pays nothing; the
/// losing balances are untouched throughout.
pub proof fn lemma_second_redeem_pays_nothing(first: OutcomeShares, second: OutcomeShares, w: u8)
    requires
        first.in_range(w),
        first.addressable(w),
        second.outcome_count == first.outcome_count,
        second.shares@ == first.shares@.update(w as int, 0),
    ensures
        second.in_range(w),
        second.addressable(w),
        second.shares[w as int] == 0,
        second.shares@.update(w as int, 0) == second.shares@,
        forall|i: int| 0 <= i < 16 && i != w ==> #[trigger] second.shares[i] == first.shares[i],
{
    assert(second.shares[w as int] == second.shares@[w as int]);
    assert(second.shares@.update(w as int, 0) =~= second.shares@);
    assert forall|i: int| 0 <= i < 16 && i != w implies #[trigger] second.shares[i] == first.shares[i] by {
        assert(second.shares[i] == second.shares@[i]);
        assert(first.shares[i] == first.shares@[i]);
    }
}

/// The fee of a split is charged in full: the shares minted per outcome are
/// `amount * (1_000_000 - 100 * fee_bps) / 1_000_000` rounded down, for every
/// fee up to 100%. So any positive fee on a positive amount takes at least one
/// unit, and the fee taken is at least the exact fee `amount * fee_bps / 10_000`.
pub proof fn lemma_split_charges_the_fee(amount: u64, fee_bps: u16)
    requires
        fee_bps <= 10_000,
    ensures
        spec_net(amount, fee_bps) * 1_000_000 <= amount * (1_000_000 - 100 * fee_bps),
        amount * (1_000_000 - 100 * fee_bps) < (spec_net(amount, fee_bps) + 1) * 1_000_000,
        fee_bps > 0 && amount > 0 ==> spec_net(amount, fee_bps) < amount,
        (amount - spec_net(amount, fee_bps)) * 10_000 >= amount * fee_bps,
{
    let m: int = 1_000_000 - 100 * fee_bps;
    assert(spec_fee_multiplier(fee_bps) == m);
    lemma_net_bounded(amount, fee_bps);
    let x: int = amount * m;
    let q: int = x / 1_000_000;
    assert(q * 1_000_000 <= x < (q + 1) * 1_000_000) by (nonlinear_arith)
        requires
            x >= 0,
            q == x / 1_000_000,
    ;
    assert(spec_net(amount, fee_bps) == q);
    assert(x == amount * 1_000_000 - amount * fee_bps * 100) by (nonlinear_arith)
        requires
            x == amount * m,
            m == 1_000_000 - 100 * fee_bps,
    ;
    if fee_bps > 0 && amount > 0 {
        assert(amount * fee_bps * 100 >= 100) by (nonlinear_arith)
            requires
                fee_bps >= 1,
                amount >= 1,
        ;
    }
}

} // verus!
