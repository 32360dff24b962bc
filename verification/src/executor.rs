//! Decision logic of the on-chain executor program.
//!
//! The program owns account layout, signer checks and token transfers; every
//! rule it enforces lives here, as functions from the market account (and the
//! instruction's arguments) to the updated account, the event to emit, and
//! the collateral to move. The CTF rules are delegated to [`crate::ctf`].
use crate::ctf::{
    credit_fails, debit_fails, debit_prefix, merge_positions, redeem_payout, spec_net, split_position,
};
use crate::market::{
    MarketState, OutcomeMarket as DomainMarket, ResolutionSource as DomainResolutionSource,
};
use crate::outcome_token::OutcomeShares;
use vstd::prelude::*;
use vstd::utf8::encode_utf8;

verus! {

/// Largest number of outcomes a market can have.
pub const MAX_OUTCOMES: usize = 16;

/// Longest question, in UTF-8 bytes.
pub const MAX_QUESTION_LEN: usize = 256;

/// Lifecycle state stored in the market account.
#[derive(Clone, Copy, Debug, PartialEq, Eq, Structural, Default)]
pub enum MarketStateOnChain {
    #[default]
    Open,
    Closed,
    Proposed,
    Disputed,
    Resolved,
    ResolvedInvalid,
}

/// Resolution source stored in the market account; keys are raw 32-byte public keys.
#[derive(Clone, Copy, Debug, PartialEq, Eq)]
#[allow(inconsistent_fields)]
pub enum ResolutionSource {
    UmaOptimistic { bond: u64, challenge_window: i64 },
    PythAggregator { feed: [u8; 32], threshold: i64 },
    Manual { authority: [u8; 32] },
    MultiSourceConsensus { sources: u8, threshold: u8 },
}

impl Default for ResolutionSource {
    fn default() -> (r: Self)
        ensures
            r matches ResolutionSource::Manual { authority } && authority@ == Seq::new(
                32,
                |i: int| 0u8,
            ),
    {
        ResolutionSource::Manual { authority: [0u8; 32] }
    }
}

/// The market account.
#[derive(Clone, Debug)]
pub struct OutcomeMarket {
    pub market_id: u64,
    pub authority: [u8; 32],
    pub question: String,
    pub outcome_count: u8,
    pub resolution_deadline: i64,
    pub state: MarketStateOnChain,
    pub collateral_mint: [u8; 32],
    pub collateral_vault: [u8; 32],
    pub lmsr_b: u128,
    pub fee_bps: u16,
    pub total_volume: u64,
    pub created_at: i64,
    pub resolution_source: ResolutionSource,
    pub proposed_outcome: u8,
    pub proposed_at: i64,
    pub proposer: [u8; 32],
    pub winning_outcome: u8,
    pub shares_q: [u128; 16],
    pub bump: u8,
}

impl OutcomeMarket {
    /// Bytes the market account occupies, discriminator included.
    pub const SPACE: usize = 8 + 8 + 32 + 4 + MAX_QUESTION_LEN + 1 + 8 + 1 + 32 + 32 + 16 + 2 + 8 + 8 + 1
        + 64 + 1 + 8 + 32 + 1 + 16 * MAX_OUTCOMES + 1;
}

/// What a trade instruction did.
#[derive(Clone, Copy, Debug, PartialEq, Eq, Structural)]
pub enum TradeKind {
    Split,
    Merge,
    Buy,
    Sell,
    Redeem,
}

/// Event emitted by split and merge.
#[derive(Clone, Copy, Debug, PartialEq, Eq, Structural)]
pub struct MarketTraded {
    pub market_id: u64,
    pub kind: TradeKind,
    pub amount: u64,
    pub fee: u64,
}

/// Event emitted when an outcome is proposed.
#[derive(Clone, Copy, Debug, PartialEq, Eq)]
pub struct ResolutionProposed {
    pub market_id: u64,
    pub outcome: u8,
    pub proposer: [u8; 32],
}

/// Event emitted when a market resolves.
#[derive(Clone, Copy, Debug, PartialEq, Eq, Structural)]
pub struct MarketResolved {
    pub market_id: u64,
    pub outcome: u8,
}

/// Every way an executor instruction can be refused.
#[derive(Clone, Copy, Debug, PartialEq, Eq, Structural)]
pub enum WagrError {
    /// Outcome count outside `2..=16`.
    InvalidOutcomeCount,
    /// Question longer than 256 bytes.
    QuestionTooLong,
    /// Liquidity parameter `b` of zero.
    InvalidLmsrB,
    /// Amount of zero.
    ZeroAmount,
    /// Outcome index at or past the outcome count.
    OutcomeOutOfRange,
    /// The conditional token framework refused the move.
    CtfRejected,
    /// LMSR pricing failed.
    LmsrFailed,
    /// The market is not in the state this transition needs.
    WrongState,
    /// The challenge window is still open.
    ChallengeWindowOpen,
}

/// The outcome count is one a market may have.
pub open spec fn valid_outcome_count(n: u8) -> bool {
    2 <= n <= MAX_OUTCOMES
}

/// Challenge window of a market: its own for optimistic resolution, one day otherwise.
pub open spec fn challenge_window_of(source: ResolutionSource) -> i64 {
    match source {
        ResolutionSource::UmaOptimistic { challenge_window, .. } => challenge_window,
        _ => 86_400,
    }
}

/// The domain view of an on-chain lifecycle state.
pub open spec fn domain_state(m: OutcomeMarket) -> MarketState {
    match m.state {
        MarketStateOnChain::Open => MarketState::Open,
        MarketStateOnChain::Closed => MarketState::Closed,
        MarketStateOnChain::Proposed => MarketState::Closed,
        MarketStateOnChain::Disputed => MarketState::Disputed,
        MarketStateOnChain::Resolved => MarketState::Resolved { winning_outcome: m.winning_outcome },
        MarketStateOnChain::ResolvedInvalid => MarketState::ResolvedInvalid,
    }
}

/// The domain view of an on-chain resolution source.
pub open spec fn domain_source(s: ResolutionSource) -> DomainResolutionSource {
    match s {
        ResolutionSource::UmaOptimistic { bond, challenge_window } => DomainResolutionSource::UmaOptimistic {
            bond,
            challenge_window,
        },
        ResolutionSource::PythAggregator { feed, threshold } => DomainResolutionSource::PythAggregator {
            feed,
            threshold,
        },
        ResolutionSource::Manual { authority } => DomainResolutionSource::Manual { authority },
        ResolutionSource::MultiSourceConsensus { sources, threshold } => DomainResolutionSource::MultiSourceConsensus {
            sources,
            threshold,
        },
    }
}

/// `m` with `total_volume` raised by `amount`, saturating.
pub open spec fn with_volume(m: OutcomeMarket, amount: u64) -> OutcomeMarket {
    OutcomeMarket {
        total_volume: if m.total_volume + amount > u64::MAX {
            u64::MAX
        } else {
            (m.total_volume + amount) as u64
        },
        ..m
    }
}

/// Project the market account onto the domain market the CTF rules run on.
fn market_to_domain(m: &OutcomeMarket) -> (d: DomainMarket)
    ensures
        d.market_id == m.market_id,
        d.authority == m.authority,
        d.question@ == m.question@,
        d.outcome_count == m.outcome_count,
        d.resolution_source == domain_source(m.resolution_source),
        d.resolution_deadline == m.resolution_deadline,
        d.state == domain_state(*m),
        d.collateral_mint == m.collateral_mint,
        d.collateral_vault == m.collateral_vault,
        d.lmsr_b == m.lmsr_b,
        d.total_volume == m.total_volume,
        d.fee_bps == m.fee_bps,
        d.created_at == m.created_at,
        forall|i: int| 0 <= i < 16 ==> is_zero_key(#[trigger] d.outcome_mints@[i]),
{
    let zero_key: [u8; 32] = [0u8; 32];
    assert(zero_key@ =~= Seq::new(32, |i: int| 0u8));
    let outcome_mints: [[u8; 32]; 16] = [zero_key; 16];
    assert(forall|i: int| 0 <= i < 16 ==> #[trigger] outcome_mints@[i] == zero_key);
    DomainMarket {
        market_id: m.market_id,
        authority: m.authority,
        question: m.question.clone(),
        outcome_count: m.outcome_count,
        resolution_source: match m.resolution_source {
            ResolutionSource::UmaOptimistic { bond, challenge_window } => {
                DomainResolutionSource::UmaOptimistic { bond, challenge_window }
            },
            ResolutionSource::PythAggregator { feed, threshold } => {
                DomainResolutionSource::PythAggregator { feed, threshold }
            },
            ResolutionSource::Manual { authority } => DomainResolutionSource::Manual { authority },
            ResolutionSource::MultiSourceConsensus { sources, threshold } => {
                DomainResolutionSource::MultiSourceConsensus { sources, threshold }
            },
        },
        resolution_deadline: m.resolution_deadline,
        state: match m.state {
            MarketStateOnChain::Open => MarketState::Open,
            MarketStateOnChain::Closed => MarketState::Closed,
            MarketStateOnChain::Proposed => MarketState::Closed,
            MarketStateOnChain::Disputed => MarketState::Disputed,
            MarketStateOnChain::Resolved => MarketState::Resolved {
                winning_outcome: m.winning_outcome,
            },
            MarketStateOnChain::ResolvedInvalid => MarketState::ResolvedInvalid,
        },
        collateral_mint: m.collateral_mint,
        collateral_vault: m.collateral_vault,
        outcome_mints,
        lmsr_b: m.lmsr_b,
        total_volume: m.total_volume,
        fee_bps: m.fee_bps,
        created_at: m.created_at,
    }
}

/// Length in bytes of the UTF-8 encoding of `s`.
pub open spec fn utf8_len(s: Seq<char>) -> nat {
    encode_utf8(s).len()
}

/// All 32 bytes are zero.
pub open spec fn is_zero_key(k: [u8; 32]) -> bool {
    k@ == Seq::new(32, |i: int| 0u8)
}

/// Initialise a new prediction market account from the instruction's
/// arguments, the signer (`authority`), the collateral accounts, the clock
/// (`now`) and the account's bump seed.
pub fn create_market(
    market_id: u64,
    question: String,
    outcome_count: u8,
    resolution_deadline: i64,
    lmsr_b: u128,
    fee_bps: u16,
    resolution_source: ResolutionSource,
    authority: [u8; 32],
    collateral_mint: [u8; 32],
    collateral_vault: [u8; 32],
    now: i64,
    bump: u8,
) -> (r: Result<OutcomeMarket, WagrError>)
    requires
        utf8_len(question@) <= usize::MAX,
    ensures
        !valid_outcome_count(outcome_count) ==> r == Err::<OutcomeMarket, WagrError>(
            WagrError::InvalidOutcomeCount,
        ),
        valid_outcome_count(outcome_count) && utf8_len(question@) > MAX_QUESTION_LEN ==> r
            == Err::<OutcomeMarket, WagrError>(WagrError::QuestionTooLong),
        valid_outcome_count(outcome_count) && utf8_len(question@) <= MAX_QUESTION_LEN
            && lmsr_b == 0 ==> r == Err::<OutcomeMarket, WagrError>(WagrError::InvalidLmsrB),
        r is Ok <==> (valid_outcome_count(outcome_count) && utf8_len(question@)
            <= MAX_QUESTION_LEN && lmsr_b > 0),
        r matches Ok(m) ==> {
            &&& m.market_id == market_id
            &&& m.authority == authority
            &&& m.question@ == question@
            &&& m.outcome_count == outcome_count
            &&& m.resolution_deadline == resolution_deadline
            &&& m.state == MarketStateOnChain::Open
            &&& m.collateral_mint == collateral_mint
            &&& m.collateral_vault == collateral_vault
            &&& m.lmsr_b == lmsr_b
            &&& m.fee_bps == fee_bps
            &&& m.total_volume == 0
            &&& m.created_at == now
            &&& m.resolution_source == resolution_source
            &&& m.proposed_outcome == 0
            &&& m.proposed_at == 0
            &&& is_zero_key(m.proposer)
            &&& m.winning_outcome == 0
            &&& forall|i: int| 0 <= i < 16 ==> #[trigger] m.shares_q@[i] == 0
            &&& m.bump == bump
        },
{
    if outcome_count < 2 || outcome_count > 16 {
        return Err(WagrError::InvalidOutcomeCount);
    }
    let text: &str = question.as_str();
    let byte_len: usize = text.len();
    assert(byte_len == utf8_len(question@));
    if byte_len > MAX_QUESTION_LEN {
        return Err(WagrError::QuestionTooLong);
    }
    if lmsr_b == 0 {
        return Err(WagrError::InvalidLmsrB);
    }
    let proposer: [u8; 32] = [0u8; 32];
    let shares_q: [u128; 16] = [0u128; 16];
    assert(proposer@ =~= Seq::new(32, |i: int| 0u8));
    Ok(OutcomeMarket {
        market_id,
        authority,
        question,
        outcome_count,
        resolution_deadline,
        state: MarketStateOnChain::Open,
        collateral_mint,
        collateral_vault,
        lmsr_b,
        fee_bps,
        total_volume: 0,
        created_at: now,
        resolution_source,
        proposed_outcome: 0,
        proposed_at: 0,
        proposer,
        winning_outcome: 0,
        shares_q,
        bump,
    })
}

/// What a split moves: the event to emit, whose `amount` is the collateral the
/// trader locks in the vault, and the number of tokens of every outcome to
/// mint to the trader.
#[derive(Clone, Copy, Debug, PartialEq, Eq, Structural)]
pub struct SplitPlan {
    pub event: MarketTraded,
    pub mint_per_outcome: u64,
}

/// CTF split: the trader locks `amount` of collateral in the vault and is
/// minted the post-fee amount of every outcome. Records the volume.
pub fn split(market: &mut OutcomeMarket, amount: u64) -> (r: Result<SplitPlan, WagrError>)
    ensures
        ({
            let m = *old(market);
            let net = spec_net(amount, m.fee_bps);
            &&& amount == 0 ==> r == Err::<SplitPlan, WagrError>(WagrError::ZeroAmount)
            &&& amount != 0 && !valid_outcome_count(m.outcome_count) ==> r == Err::<
                SplitPlan,
                WagrError,
            >(WagrError::InvalidOutcomeCount)
            &&& amount != 0 && valid_outcome_count(m.outcome_count) && (m.state
                != MarketStateOnChain::Open || net == 0) ==> r == Err::<SplitPlan, WagrError>(
                WagrError::CtfRejected,
            )
            &&& r is Ok <==> (amount != 0 && valid_outcome_count(m.outcome_count) && m.state
                == MarketStateOnChain::Open && net != 0)
            &&& r is Ok ==> r == Ok::<SplitPlan, WagrError>(
                SplitPlan {
                    event: MarketTraded {
                        market_id: m.market_id,
                        kind: TradeKind::Split,
                        amount,
                        fee: (amount - net) as u64,
                    },
                    mint_per_outcome: net,
                },
            ) && *final(market) == with_volume(m, amount)
            &&& r is Err ==> *final(market) == m
        }),
{
    if amount == 0 {
        return Err(WagrError::ZeroAmount);
    }
    let mut shares = match OutcomeShares::new(market.outcome_count) {
        Ok(s) => s,
        Err(_) => return Err(WagrError::InvalidOutcomeCount),
    };
    let mut domain = market_to_domain(market);
    let ghost h0 = shares;
    proof {
        let net = spec_net(amount, domain.fee_bps);
        if net != 0 {
            assert forall|o: int| 0 <= o < h0.outcome_count implies !#[trigger] credit_fails(
                h0,
                o,
                net,
            ) by {
                assert(h0.shares[o] == 0);
            }
        }
    }
    let split_res = match split_position(&mut domain, &mut shares, amount) {
        Ok(res) => res,
        Err(_) => return Err(WagrError::CtfRejected),
    };
    assert(!credit_fails(h0, 0, spec_net(amount, market.fee_bps)));
    market.total_volume = market.total_volume.saturating_add(amount);
    Ok(SplitPlan {
        event: MarketTraded {
            market_id: market.market_id,
            kind: TradeKind::Split,
            amount: split_res.collateral_in,
            fee: split_res.fee_taken,
        },
        mint_per_outcome: split_res.shares_out,
    })
}

/// CTF merge: burn `amount` of every outcome from the trader's balances
/// `holder` and unlock `amount` of collateral (the event's `amount`). Refused
/// when the trader holds less than `amount` of some outcome. Records the volume.
pub fn merge(market: &mut OutcomeMarket, holder: &mut OutcomeShares, amount: u64) -> (r: Result<
    MarketTraded,
    WagrError,
>)
    requires
        old(holder).outcome_count == old(market).outcome_count,
    ensures
        ({
            let m = *old(market);
            let h = *old(holder);
            let covered = forall|o: int| 0 <= o < m.outcome_count ==> amount <= #[trigger] h.shares[o];
            &&& amount == 0 ==> r == Err::<MarketTraded, WagrError>(WagrError::ZeroAmount)
            &&& amount != 0 && !valid_outcome_count(m.outcome_count) ==> r == Err::<
                MarketTraded,
                WagrError,
            >(WagrError::InvalidOutcomeCount)
            &&& amount != 0 && valid_outcome_count(m.outcome_count) && (m.state
                == MarketStateOnChain::Resolved || !covered) ==> r == Err::<MarketTraded, WagrError>(
                WagrError::CtfRejected,
            )
            &&& r is Ok <==> (amount != 0 && valid_outcome_count(m.outcome_count) && m.state
                != MarketStateOnChain::Resolved && covered)
            &&& r is Ok ==> r == Ok::<MarketTraded, WagrError>(
                MarketTraded { market_id: m.market_id, kind: TradeKind::Merge, amount, fee: 0 },
            ) && *final(market) == with_volume(m, amount)
            &&& r is Ok ==> final(holder).outcome_count == h.outcome_count && final(holder).shares@
                == debit_prefix(h.shares@, m.outcome_count as int, amount)
            &&& r is Err ==> *final(market) == m && *final(holder) == h
        }),
{
    if amount == 0 {
        return Err(WagrError::ZeroAmount);
    }
    if market.outcome_count < 2 || market.outcome_count > 16 {
        return Err(WagrError::InvalidOutcomeCount);
    }
    let mut shares = *holder;
    let ghost h = *holder;
    let mut domain = market_to_domain(market);
    proof {
        if forall|o: int| 0 <= o < h.outcome_count ==> amount <= #[trigger] h.shares[o] {
            assert forall|o: int| 0 <= o < h.outcome_count implies !#[trigger] debit_fails(
                h,
                o,
                amount,
            ) by {
                assert(amount <= h.shares[o]);
            }
        }
    }
    let unlocked = match merge_positions(&mut domain, &mut shares, amount) {
        Ok(u) => u,
        Err(_) => {
            proof {
                if market.state != MarketStateOnChain::Resolved {
                    let k = choose|k: int|
                        0 <= k < h.outcome_count && #[trigger] debit_fails(h, k, amount);
                    assert(debit_fails(h, k, amount));
                    assert(h.shares[k] < amount);
                }
            }
            return Err(WagrError::CtfRejected);
        },
    };
    proof {
        assert forall|o: int| 0 <= o < h.outcome_count implies amount <= #[trigger] h.shares[o] by {
            assert(!debit_fails(h, o, amount));
        }
    }
    *holder = shares;
    market.total_volume = market.total_volume.saturating_add(amount);
    Ok(MarketTraded { market_id: market.market_id, kind: TradeKind::Merge, amount: unlocked, fee: 0 })
}

/// Account and answer after proposing `outcome` for `m` at `now`.
pub open spec fn spec_propose(m: OutcomeMarket, outcome: u8, proposer: [u8; 32], now: i64) -> (
    OutcomeMarket,
    Result<ResolutionProposed, WagrError>,
) {
    if m.state != MarketStateOnChain::Closed {
        (m, Err(WagrError::WrongState))
    } else if outcome >= m.outcome_count {
        (m, Err(WagrError::OutcomeOutOfRange))
    } else {
        (
            OutcomeMarket {
                proposed_outcome: outcome,
                proposed_at: now,
                proposer,
                state: MarketStateOnChain::Proposed,
                ..m
            },
            Ok(ResolutionProposed { market_id: m.market_id, outcome, proposer }),
        )
    }
}

/// Account and answer after confirming `m`'s proposal at `now`.
pub open spec fn spec_confirm_resolution(m: OutcomeMarket, now: i64) -> (
    OutcomeMarket,
    Result<MarketResolved, WagrError>,
) {
    if m.state != MarketStateOnChain::Proposed {
        (m, Err(WagrError::WrongState))
    } else if now < m.proposed_at + challenge_window_of(m.resolution_source) {
        (m, Err(WagrError::ChallengeWindowOpen))
    } else {
        (
            OutcomeMarket {
                state: MarketStateOnChain::Resolved,
                winning_outcome: m.proposed_outcome,
                ..m
            },
            Ok(MarketResolved { market_id: m.market_id, outcome: m.proposed_outcome }),
        )
    }
}

/// Optimistic propose: a closed market records `proposed_outcome`, the
/// `proposer` and the time, and moves to `Proposed`.
pub fn propose_resolution(market: &mut OutcomeMarket, proposed_outcome: u8, proposer: [u8; 32], now: i64) -> (r:
    Result<ResolutionProposed, WagrError>)
    ensures
        (*final(market), r) == spec_propose(*old(market), proposed_outcome, proposer, now),
{
    if market.state != MarketStateOnChain::Closed {
        return Err(WagrError::WrongState);
    }
    if proposed_outcome >= market.outcome_count {
        return Err(WagrError::OutcomeOutOfRange);
    }
    market.proposed_outcome = proposed_outcome;
    market.proposed_at = now;
    market.proposer = proposer;
    market.state = MarketStateOnChain::Proposed;
    Ok(ResolutionProposed { market_id: market.market_id, outcome: proposed_outcome, proposer })
}

/// Confirm an unchallenged proposal once the challenge window has elapsed:
/// the proposed outcome becomes the winning one.
pub fn confirm_resolution(market: &mut OutcomeMarket, now: i64) -> (r: Result<MarketResolved, WagrError>)
    requires
        old(market).state == MarketStateOnChain::Proposed ==> i64::MIN <= old(market).proposed_at
            + challenge_window_of(old(market).resolution_source) <= i64::MAX,
    ensures
        (*final(market), r) == spec_confirm_resolution(*old(market), now),
{
    if market.state != MarketStateOnChain::Proposed {
        return Err(WagrError::WrongState);
    }
    let window: i64 = match market.resolution_source {
        ResolutionSource::UmaOptimistic { challenge_window, .. } => challenge_window,
        _ => 86_400,
    };
    if now < market.proposed_at + window {
        return Err(WagrError::ChallengeWindowOpen);
    }
    market.state = MarketStateOnChain::Resolved;
    market.winning_outcome = market.proposed_outcome;
    Ok(MarketResolved { market_id: market.market_id, outcome: market.winning_outcome })
}

/// Redeem after resolution: burn the trader's whole winning position
/// (`holder`'s balance of the winning outcome) and answer the collateral to
/// pay out for it -- zero when the trader holds none. The account is not changed.
pub fn redeem(market: &OutcomeMarket, holder: &mut OutcomeShares) -> (r: Result<u64, WagrError>)
    requires
        old(holder).outcome_count == market.outcome_count,
    ensures
        ({
            let h = *old(holder);
            let w = market.winning_outcome;
            let redeemable = market.state == MarketStateOnChain::Resolved && w < market.outcome_count;
            &&& !valid_outcome_count(market.outcome_count) ==> r == Err::<u64, WagrError>(
                WagrError::InvalidOutcomeCount,
            )
            &&& valid_outcome_count(market.outcome_count) && !redeemable ==> r == Err::<
                u64,
                WagrError,
            >(WagrError::CtfRejected)
            &&& r is Ok <==> (valid_outcome_count(market.outcome_count) && redeemable)
            &&& r is Ok ==> r == Ok::<u64, WagrError>(h.shares[w as int])
                && final(holder).outcome_count == h.outcome_count && final(holder).shares@
                == h.shares@.update(w as int, 0)
            &&& r is Err ==> *final(holder) == h
        }),
{
    if market.outcome_count < 2 || market.outcome_count > 16 {
        return Err(WagrError::InvalidOutcomeCount);
    }
    let mut shares = *holder;
    let mut domain = market_to_domain(market);
    let payout = match redeem_payout(&mut domain, &mut shares) {
        Ok(p) => p,
        Err(_) => return Err(WagrError::CtfRejected),
    };
    *holder = shares;
    Ok(payout)
}

/// The resolution lifecycle: a proposal made on a closed market at time `t`
/// is confirmed at `now` exactly when the challenge window has elapsed, and
/// then the proposed outcome is the winning one; a second proposal or
/// confirmation is refused.
pub proof fn lemma_proposal_confirms_after_window(
    m: OutcomeMarket,
    outcome: u8,
    proposer: [u8; 32],
    t: i64,
    now: i64,
    other: u8,
)
    requires
        m.state == MarketStateOnChain::Closed,
        outcome < m.outcome_count,
    ensures
        ({
            let p = spec_propose(m, outcome, proposer, t).0;
            let c = spec_confirm_resolution(p, now);
            &&& p.state == MarketStateOnChain::Proposed
            &&& spec_propose(p, other, proposer, now).1 == Err::<ResolutionProposed, WagrError>(
                WagrError::WrongState,
            )
            &&& c.1 is Ok <==> now >= t + challenge_window_of(m.resolution_source)
            &&& c.1 is Ok ==> c.0.state == MarketStateOnChain::Resolved && c.0.winning_outcome
                == outcome && spec_confirm_resolution(c.0, now).1 == Err::<MarketResolved, WagrError>(
                WagrError::WrongState,
            )
        }),
{
}

/// Only a closed market takes a proposal: in every other state -- open,
/// already proposed, disputed, resolved or resolved invalid -- proposing is
/// refused with `WrongState` and the account is left exactly as it was, so a
/// resolved market's winning outcome can never be reopened.
pub proof fn lemma_only_closed_markets_take_proposals(
    m: OutcomeMarket,
    outcome: u8,
    proposer: [u8; 32],
    now: i64,
)
    ensures
        m.state != MarketStateOnChain::Closed ==> spec_propose(m, outcome, proposer, now) == (
            m,
            Err::<ResolutionProposed, WagrError>(WagrError::WrongState),
        ),
        spec_propose(m, outcome, proposer, now).1 is Ok ==> m.state == MarketStateOnChain::Closed
            && outcome < m.outcome_count,
        m.state == MarketStateOnChain::Resolved ==> spec_propose(m, outcome, proposer, now).0.state
            == MarketStateOnChain::Resolved && spec_propose(m, outcome, proposer, now).0.winning_outcome
            == m.winning_outcome,
{
}

/// Only a pending, unchallenged proposal is confirmed: in every state but
/// `Proposed` -- a disputed market in particular -- confirming is refused with
/// `WrongState` and the account is left as it was. From `Proposed`, the
/// confirmation comes exactly once the challenge window, counted from the
/// proposal time, has elapsed.
pub proof fn lemma_only_pending_proposals_confirm(m: OutcomeMarket, now: i64)
    ensures
        m.state != MarketStateOnChain::Proposed ==> spec_confirm_resolution(m, now) == (
            m,
            Err::<MarketResolved, WagrError>(WagrError::WrongState),
        ),
        spec_confirm_resolution(m, now).1 is Ok ==> m.state == MarketStateOnChain::Proposed,
        m.state == MarketStateOnChain::Proposed ==> (spec_confirm_resolution(m, now).1 is Ok <==> now
            >= m.proposed_at + match m.resolution_source {
            ResolutionSource::UmaOptimistic { challenge_window, .. } => challenge_window,
            _ => 86_400,
        }),
        spec_confirm_resolution(m, now).1 is Ok ==> spec_confirm_resolution(m, now).0.state
            == MarketStateOnChain::Resolved && spec_confirm_resolution(m, now).0.winning_outcome
            == m.proposed_outcome,
{
}

} // verus!
