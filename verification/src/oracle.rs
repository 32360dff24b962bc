//! Oracle resolution.
//!
//! 1. **Optimistic oracle** -- propose / challenge / DVM, modelled as a state
//!    machine with bonded proposals and a configurable challenge window.
//! 2. **Multi-source consensus** -- M-of-N aggregation across heterogeneous
//!    feeds, used when a market is backed by a continuous data point.
//! 3. **Dispute escalation** -- a challenged proposal hands a [`Dispute`] to the
//!    reputation module.
use crate::keys::same_key;
use vstd::prelude::*;
use vstd::relations::{sorted_by, total_ordering};
use vstd::seq_lib::{group_to_multiset_ensures, lemma_sorted_unique, to_multiset_insert};

verus! {

/// Every way an oracle operation can be refused.
#[derive(Clone, Copy, Debug, PartialEq, Eq, Structural)]
pub enum OracleError {
    /// The proposal is not in a state that allows this transition.
    InvalidTransition,
    /// The challenge window has not elapsed.
    ChallengeWindowOpen,
    /// A challenge was already raised.
    AlreadyChallenged,
    /// Fewer fresh sources than the threshold asks for.
    NoConsensus { confirms: u8, needed: u8 },
    /// A source signature did not check out.
    BadSignature,
    /// No vote from the source at this index.
    MissingVote(u8),
}

/// State machine of an optimistic proposal.
#[derive(Clone, Copy, Debug, PartialEq, Eq, Structural)]
pub enum ProposalState {
    /// A proposer staked the bond and posted an outcome.
    Proposed,
    /// Someone challenged within the window. Resolution paused.
    Challenged,
    /// Window elapsed with no challenge.
    Confirmed,
    /// DVM voted -- the verdict resolves the dispute.
    Settled,
}

/// A single proposal -- one per (market_id, propose_round).
#[derive(Clone, Copy, Debug, PartialEq, Eq)]
pub struct OptimisticProposal {
    pub market_id: u64,
    pub round: u32,
    pub proposer: [u8; 32],
    pub bond: u64,
    pub proposed_outcome: u8,
    pub proposed_at: i64,
    pub challenge_window: i64,
    pub state: ProposalState,
    pub challenger: Option<[u8; 32]>,
    pub challenger_bond: u64,
}

/// How the bonds move once the DVM has ruled on a challenged proposal.
#[derive(Clone, Copy, Debug, PartialEq, Eq, Structural)]
pub struct DvmSettlement {
    pub winning_outcome: u8,
    pub proposer_bond_returned: bool,
    pub challenger_bond_returned: bool,
    pub transfer_amount: u64,
}

/// Proposal and answer after `challenge(challenger, bond)` on `p`.
pub open spec fn spec_challenge(p: OptimisticProposal, challenger: [u8; 32], bond: u64) -> (
    OptimisticProposal,
    Result<(), OracleError>,
) {
    if p.state != ProposalState::Proposed {
        (p, Err(OracleError::InvalidTransition))
    } else if p.challenger is Some {
        (p, Err(OracleError::AlreadyChallenged))
    } else {
        (
            OptimisticProposal {
                challenger: Some(challenger),
                challenger_bond: bond,
                state: ProposalState::Challenged,
                ..p
            },
            Ok(()),
        )
    }
}

/// Proposal and answer after `confirm(now)` on `p`.
pub open spec fn spec_confirm(p: OptimisticProposal, now: i64) -> (
    OptimisticProposal,
    Result<u8, OracleError>,
) {
    if p.state != ProposalState::Proposed {
        (p, Err(OracleError::InvalidTransition))
    } else if now < p.proposed_at + p.challenge_window {
        (p, Err(OracleError::ChallengeWindowOpen))
    } else {
        (OptimisticProposal { state: ProposalState::Confirmed, ..p }, Ok(p.proposed_outcome))
    }
}

/// The settlement the DVM's ruling for `winning_outcome` gives on `p`: the
/// side that was right gets its bond back, and half of the losing side's bond
/// goes to the winner.
pub open spec fn settlement_for(p: OptimisticProposal, winning_outcome: u8) -> DvmSettlement {
    let proposer_was_right = winning_outcome == p.proposed_outcome;
    let losing_bond = if proposer_was_right { p.challenger_bond } else { p.bond };
    DvmSettlement {
        winning_outcome,
        proposer_bond_returned: proposer_was_right,
        challenger_bond_returned: !proposer_was_right,
        transfer_amount: losing_bond / 2,
    }
}

/// Proposal and answer after `settle_from_dvm(winning_outcome)` on `p`.
pub open spec fn spec_settle(p: OptimisticProposal, winning_outcome: u8) -> (
    OptimisticProposal,
    Result<DvmSettlement, OracleError>,
) {
    if p.state != ProposalState::Challenged {
        (p, Err(OracleError::InvalidTransition))
    } else {
        (
            OptimisticProposal { state: ProposalState::Settled, ..p },
            Ok(settlement_for(p, winning_outcome)),
        )
    }
}

impl OptimisticProposal {
    /// Raise a challenge against a pending proposal, posting `bond`.
    pub fn challenge(&mut self, challenger: [u8; 32], bond: u64) -> (r: Result<(), OracleError>)
        ensures
            (*final(self), r) == spec_challenge(*old(self), challenger, bond),
    {
        if !matches!(self.state, ProposalState::Proposed) {
            return Err(OracleError::InvalidTransition);
        }
        if self.challenger.is_some() {
            return Err(OracleError::AlreadyChallenged);
        }
        self.challenger = Some(challenger);
        self.challenger_bond = bond;
        self.state = ProposalState::Challenged;
        Ok(())
    }

    /// Confirm an unchallenged proposal once its window has elapsed; answers
    /// the proposed outcome.
    pub fn confirm(&mut self, now: i64) -> (r: Result<u8, OracleError>)
        requires
            old(self).state == ProposalState::Proposed ==> i64::MIN <= old(self).proposed_at + old(
                self,
            ).challenge_window <= i64::MAX,
        ensures
            (*final(self), r) == spec_confirm(*old(self), now),
    {
        if !matches!(self.state, ProposalState::Proposed) {
            return Err(OracleError::InvalidTransition);
        }
        if now < self.proposed_at + self.challenge_window {
            return Err(OracleError::ChallengeWindowOpen);
        }
        self.state = ProposalState::Confirmed;
        Ok(self.proposed_outcome)
    }

    /// Apply the DVM's ruling to a challenged proposal. The side that was
    /// right gets its bond back; half of the loser's bond moves to the winner.
    pub fn settle_from_dvm(&mut self, winning_outcome: u8) -> (r: Result<DvmSettlement, OracleError>)
        ensures
            (*final(self), r) == spec_settle(*old(self), winning_outcome),
    {
        if !matches!(self.state, ProposalState::Challenged) {
            return Err(OracleError::InvalidTransition);
        }
        self.state = ProposalState::Settled;
        let proposer_was_right = winning_outcome == self.proposed_outcome;
        let losing_bond = if proposer_was_right { self.challenger_bond } else { self.bond };
        Ok(DvmSettlement {
            winning_outcome,
            proposer_bond_returned: proposer_was_right,
            challenger_bond_returned: !proposer_was_right,
            transfer_amount: losing_bond / 2,
        })
    }
}

/// A confirmed or settled proposal is final: every transition is refused
/// with `InvalidTransition` and leaves the proposal as it was.
pub proof fn lemma_resolved_proposals_are_final(
    p: OptimisticProposal,
    challenger: [u8; 32],
    bond: u64,
    now: i64,
    winning_outcome: u8,
)
    requires
        p.state == ProposalState::Confirmed || p.state == ProposalState::Settled,
    ensures
        spec_challenge(p, challenger, bond) == (p, Err::<(), OracleError>(OracleError::InvalidTransition)),
        spec_confirm(p, now) == (p, Err::<u8, OracleError>(OracleError::InvalidTransition)),
        spec_settle(p, winning_outcome) == (p, Err::<DvmSettlement, OracleError>(
            OracleError::InvalidTransition,
        )),
{
}

/// A challenge blocks confirmation: once challenged, a proposal can no longer
/// be confirmed or challenged again, only settled by the DVM.
pub proof fn lemma_challenge_blocks_confirmation(
    p: OptimisticProposal,
    challenger: [u8; 32],
    bond: u64,
    other: [u8; 32],
    other_bond: u64,
    now: i64,
)
    requires
        spec_challenge(p, challenger, bond).1 is Ok,
    ensures
        ({
            let q = spec_challenge(p, challenger, bond).0;
            &&& q.state == ProposalState::Challenged
            &&& spec_confirm(q, now).1 == Err::<u8, OracleError>(OracleError::InvalidTransition)
            &&& spec_challenge(q, other, other_bond).1 is Err
        }),
{
}

/// A DVM settlement returns exactly one of the two bonds -- the proposer's
/// when the ruling matches the proposed outcome -- and moves half of the
/// other, losing bond to the winner.
pub proof fn lemma_settlement_returns_one_bond(p: OptimisticProposal, winning_outcome: u8)
    ensures
        ({
            let s = settlement_for(p, winning_outcome);
            let losing_bond = if s.proposer_bond_returned { p.challenger_bond } else { p.bond };
            &&& s.proposer_bond_returned != s.challenger_bond_returned
            &&& s.proposer_bond_returned <==> winning_outcome == p.proposed_outcome
            &&& s.transfer_amount == losing_bond / 2
            &&& 2 * s.transfer_amount <= losing_bond
        }),
{
}

/// One price-feed sample from one source.
#[derive(Clone, Copy, Debug, PartialEq, Eq)]
pub struct FeedSample {
    pub source: [u8; 32],
    pub value: i128,
    pub confidence: u64,
    pub timestamp: i64,
}

/// M-of-N consensus aggregator for continuous-data markets (price feeds,
/// weather, sports scores).
#[derive(Clone, Debug)]
pub struct MultiSourceConsensus {
    pub threshold: u8,
    pub max_staleness: i64,
    pub samples: Vec<FeedSample>,
}

/// Hand-off payload sent to the reputation module when the DVM is invoked.
#[derive(Clone, Copy, Debug, PartialEq, Eq)]
pub struct Dispute {
    pub market_id: u64,
    pub round: u32,
    pub proposer: [u8; 32],
    pub challenger: [u8; 32],
    pub proposed_outcome: u8,
    pub challenge_window: i64,
    pub raised_at: i64,
}

/// The ascending order on feed values.
pub open spec fn ascending() -> spec_fn(i128, i128) -> bool {
    |a: i128, b: i128| a <= b
}

/// A sample is fresh at `now` when it is at most `max_staleness` old.
pub open spec fn is_fresh(s: FeedSample, now: i64, max_staleness: i64) -> bool {
    now - s.timestamp <= max_staleness
}

/// Values of the fresh samples, in ingestion order.
pub open spec fn fresh_values(samples: Seq<FeedSample>, now: i64, max_staleness: i64) -> Seq<i128>
    decreases samples.len(),
{
    if samples.len() == 0 {
        Seq::empty()
    } else {
        let rest = fresh_values(samples.drop_last(), now, max_staleness);
        if is_fresh(samples.last(), now, max_staleness) {
            rest.push(samples.last().value)
        } else {
            rest
        }
    }
}

/// `x / 2`, rounded toward zero.
pub open spec fn half_toward_zero(x: int) -> int {
    if x >= 0 { x / 2 } else { -((-x) / 2) }
}

/// Median of an ascending sequence: the middle element, or the mean of the
/// two middle elements rounded toward zero.
pub open spec fn median_of_sorted(s: Seq<i128>) -> int {
    let mid = (s.len() / 2) as int;
    if s.len() % 2 == 0 {
        half_toward_zero(s[mid - 1] + s[mid])
    } else {
        s[mid] as int
    }
}

/// What `aggregate(now)` answers: the median of the fresh values and the
/// number of confirming sources (as a `u8`), or `NoConsensus` when fewer
/// sources than the threshold are fresh.
pub open spec fn spec_aggregate(c: MultiSourceConsensus, now: i64) -> Result<(i128, u8), OracleError> {
    let fresh = fresh_values(c.samples@, now, c.max_staleness);
    let confirms = fresh.len() as u8;
    if fresh.len() < c.threshold {
        Err(OracleError::NoConsensus { confirms, needed: c.threshold })
    } else {
        Ok((median_of_sorted(fresh.sort_by(ascending())) as i128, confirms))
    }
}

/// `aggregate(now)` stays within machine arithmetic: every sample's age fits
/// in an `i64`, a passing threshold leaves at least one fresh value, and the
/// two middle values of an even-sized fresh set add up within an `i128`.
pub open spec fn aggregate_in_range(c: MultiSourceConsensus, now: i64) -> bool {
    let fresh = fresh_values(c.samples@, now, c.max_staleness);
    let sorted = fresh.sort_by(ascending());
    let mid = (fresh.len() / 2) as int;
    &&& forall|i: int|
        0 <= i < c.samples@.len() ==> i64::MIN <= now - (#[trigger] c.samples@[i]).timestamp
            <= i64::MAX
    &&& fresh.len() >= c.threshold ==> fresh.len() > 0
    &&& fresh.len() >= c.threshold && fresh.len() % 2 == 0 ==> i128::MIN <= sorted[mid - 1]
        + sorted[mid] <= i128::MAX
}

/// Samples other than `source`'s, in order.
pub open spec fn without_source(samples: Seq<FeedSample>, source: [u8; 32]) -> Seq<FeedSample>
    decreases samples.len(),
{
    if samples.len() == 0 {
        Seq::empty()
    } else {
        let rest = without_source(samples.drop_last(), source);
        if samples.last().source@ == source@ {
            rest
        } else {
            rest.push(samples.last())
        }
    }
}

/// No source contributes two samples.
pub open spec fn sources_unique(samples: Seq<FeedSample>) -> bool {
    forall|i: int, j: int|
        0 <= i < j < samples.len() ==> (#[trigger] samples[i]).source@ != (#[trigger] samples[j]).source@
}

/// `v` sorted ascending.
fn sort_ascending(v: &Vec<i128>) -> (out: Vec<i128>)
    ensures
        out@ == v@.sort_by(ascending()),
        out@.len() == v@.len(),
{
    let mut out: Vec<i128> = Vec::new();
    let mut i: usize = 0;
    assert(v@.take(0) =~= out@);
    while i < v.len()
        invariant
            0 <= i <= v.len(),
            sorted_by(out@, ascending()),
            out@.to_multiset() == v@.take(i as int).to_multiset(),
        decreases v.len() - i,
    {
        let x = v[i];
        let mut pos: usize = 0;
        while pos < out.len() && out[pos] <= x
            invariant
                0 <= pos <= out.len(),
                forall|j: int| 0 <= j < pos ==> out@[j] <= x,
            decreases out.len() - pos,
        {
            pos = pos + 1;
        }
        proof {
            broadcast use group_to_multiset_ensures;

            let s = out@;
            s.insert_ensures(pos as int, x);
            let t = s.insert(pos as int, x);
            assert forall|a: int, b: int| 0 <= a < b < t.len() implies #[trigger] ascending()(
                t[a],
                t[b],
            ) by {
                if a < pos && b < pos {
                    assert(ascending()(s[a], s[b]));
                } else if a < pos && b == pos {
                } else if a < pos {
                    assert(t[b] == s[b - 1]);
                    assert(ascending()(s[a], s[b - 1]));
                } else if a == pos {
                    assert(t[b] == s[b - 1]);
                    assert(ascending()(s[pos as int], s[b - 1]) || pos as int == b - 1);
                } else {
                    assert(t[a] == s[a - 1]);
                    assert(t[b] == s[b - 1]);
                    assert(ascending()(s[a - 1], s[b - 1]));
                }
            }
            to_multiset_insert(s, pos as int, x);
            assert(v@.take(i + 1) =~= v@.take(i as int).push(x));
        }
        out.insert(pos, x);
        i = i + 1;
    }
    proof {
        broadcast use group_to_multiset_ensures;

        assert(v@.take(v.len() as int) =~= v@);
        assert(out@.to_multiset() == v@.to_multiset());
        assert(out@.to_multiset().len() == out@.len());
        assert(v@.to_multiset().len() == v@.len());
        lemma_ascending_total();
        v@.lemma_sort_by_ensures(ascending());
        lemma_sorted_unique(out@, v@.sort_by(ascending()), ascending());
    }
    out
}

proof fn lemma_ascending_total()
    ensures
        total_ordering(ascending()),
{
}

impl MultiSourceConsensus {
    /// An empty aggregator.
    pub fn new(threshold: u8, max_staleness: i64) -> (c: Self)
        ensures
            c.threshold == threshold,
            c.max_staleness == max_staleness,
            c.samples@ == Seq::<FeedSample>::empty(),
    {
        MultiSourceConsensus { threshold, max_staleness, samples: Vec::new() }
    }

    /// Record `sample`, replacing any earlier sample from the same source.
    pub fn ingest(&mut self, sample: FeedSample)
        ensures
            final(self).threshold == old(self).threshold,
            final(self).max_staleness == old(self).max_staleness,
            final(self).samples@ == without_source(old(self).samples@, sample.source).push(sample),
    {
        let mut kept: Vec<FeedSample> = Vec::new();
        let mut i: usize = 0;
        while i < self.samples.len()
            invariant
                0 <= i <= self.samples.len(),
                kept@ == without_source(self.samples@.take(i as int), sample.source),
            decreases self.samples.len() - i,
        {
            let s = self.samples[i];
            assert(self.samples@.take(i + 1).drop_last() =~= self.samples@.take(i as int));
            if !same_key(&s.source, &sample.source) {
                kept.push(s);
            }
            i = i + 1;
        }
        assert(self.samples@.take(self.samples.len() as int) =~= self.samples@);
        kept.push(sample);
        self.samples = kept;
    }

    /// Median across non-stale samples, with the count of confirming sources.
    /// Fails when fewer than `threshold` sources are fresh.
    pub fn aggregate(&self, now: i64) -> (r: Result<(i128, u8), OracleError>)
        requires
            aggregate_in_range(*self, now),
        ensures
            r == spec_aggregate(*self, now),
    {
        let mut fresh: Vec<i128> = Vec::new();
        let mut i: usize = 0;
        while i < self.samples.len()
            invariant
                0 <= i <= self.samples.len(),
                aggregate_in_range(*self, now),
                fresh@ == fresh_values(self.samples@.take(i as int), now, self.max_staleness),
            decreases self.samples.len() - i,
        {
            let s = self.samples[i];
            assert(self.samples@.take(i + 1).drop_last() =~= self.samples@.take(i as int));
            assert(i64::MIN <= now - self.samples@[i as int].timestamp <= i64::MAX);
            if now - s.timestamp <= self.max_staleness {
                fresh.push(s.value);
            }
            i = i + 1;
        }
        assert(self.samples@.take(self.samples.len() as int) =~= self.samples@);
        let confirms = fresh.len() as u8;
        if fresh.len() < self.threshold as usize {
            return Err(OracleError::NoConsensus { confirms, needed: self.threshold });
        }
        let sorted = sort_ascending(&fresh);
        let mid = sorted.len() / 2;
        let median = if sorted.len() % 2 == 0 {
            let sum = sorted[mid - 1] + sorted[mid];
            match sum.checked_div(2) {
                Some(q) => q,
                None => sum,
            }
        } else {
            sorted[mid]
        };
        Ok((median, confirms))
    }

    /// Resolve a binary YES/NO market: outcome 0 when the aggregated value
    /// reaches `threshold`, outcome 1 otherwise.
    pub fn resolve_binary(&self, now: i64, threshold: i128) -> (r: Result<u8, OracleError>)
        requires
            aggregate_in_range(*self, now),
        ensures
            match spec_aggregate(*self, now) {
                Ok((median, _)) => r == Ok::<u8, OracleError>(if median >= threshold { 0u8 } else { 1u8 }),
                Err(e) => r == Err::<u8, OracleError>(e),
            },
    {
        let (median, _) = self.aggregate(now)?;
        Ok(if median >= threshold { 0 } else { 1 })
    }
}

/// The consensus value is a compromise between the sources: the median of a
/// non-empty set of fresh values lies between two of them, and when all fresh
/// sources agree it is their common value.
pub proof fn lemma_median_within_fresh_values(fresh: Seq<i128>)
    requires
        fresh.len() > 0,
    ensures
        exists|i: int, j: int|
            0 <= i < fresh.len() && 0 <= j < fresh.len() && #[trigger] fresh[i] <= median_of_sorted(
                fresh.sort_by(ascending()),
            ) <= #[trigger] fresh[j],
        (forall|k: int| 0 <= k < fresh.len() ==> #[trigger] fresh[k] == fresh[0]) ==> median_of_sorted(
            fresh.sort_by(ascending()),
        ) == fresh[0],
{
    broadcast use group_to_multiset_ensures;

    lemma_ascending_total();
    fresh.lemma_sort_by_ensures(ascending());
    let s = fresh.sort_by(ascending());
    assert(s.to_multiset().len() == s.len());
    assert(fresh.to_multiset().len() == fresh.len());
    let mid = (s.len() / 2) as int;
    let lo = if s.len() % 2 == 0 { mid - 1 } else { mid };
    assert(s.contains(s[lo]));
    assert(s.contains(s[mid]));
    assert(fresh.contains(s[lo]));
    assert(fresh.contains(s[mid]));
    let i = choose|i: int| 0 <= i < fresh.len() && fresh[i] == s[lo];
    let j = choose|j: int| 0 <= j < fresh.len() && fresh[j] == s[mid];
    if s.len() % 2 == 0 {
        assert(ascending()(s[lo], s[mid]));
    }
    assert(fresh[i] <= median_of_sorted(s) <= fresh[j]);
    if forall|k: int| 0 <= k < fresh.len() ==> #[trigger] fresh[k] == fresh[0] {
        assert(fresh[i] == fresh[0]);
        assert(fresh[j] == fresh[0]);
    }
}

/// `without_source` keeps only samples from other sources, each taken from
/// the input sequence, and keeps distinct sources distinct.
proof fn lemma_without_source(samples: Seq<FeedSample>, source: [u8; 32])
    ensures
        ({
            let w = without_source(samples, source);
            &&& forall|k: int| 0 <= k < w.len() ==> (#[trigger] w[k]).source@ != source@
            &&& forall|k: int|
                0 <= k < w.len() ==> exists|j: int| 0 <= j < samples.len() && #[trigger] samples[j]
                    == #[trigger] w[k]
            &&& sources_unique(samples) ==> sources_unique(w)
        }),
    decreases samples.len(),
{
    if samples.len() > 0 {
        let init = samples.drop_last();
        lemma_without_source(init, source);
        let rest = without_source(init, source);
        let w = without_source(samples, source);
        assert forall|k: int| 0 <= k < w.len() implies exists|j: int|
            0 <= j < samples.len() && #[trigger] samples[j] == #[trigger] w[k] by {
            if k < rest.len() {
                let j = choose|j: int| 0 <= j < init.len() && #[trigger] init[j] == #[trigger] rest[k];
                assert(samples[j] == w[k]);
            } else {
                assert(samples[samples.len() - 1] == w[k]);
            }
        }
        if sources_unique(samples) && samples.last().source@ != source@ {
            assert forall|a: int, b: int| 0 <= a < b < w.len() implies (#[trigger] w[a]).source@
                != (#[trigger] w[b]).source@ by {
                if b == w.len() - 1 {
                    let j = choose|j: int| 0 <= j < init.len() && #[trigger] init[j] == #[trigger] rest[a];
                    assert(samples[j] == w[a]);
                    assert(samples[samples.len() - 1] == w[b]);
                } else {
                    assert(rest[a] == w[a]);
                    assert(rest[b] == w[b]);
                }
            }
        }
    }
}

/// Ingesting keeps one sample per source: if no source had two samples
/// before, none has after, and the ingested sample is the one kept for its
/// source.
pub proof fn lemma_ingest_keeps_sources_unique(samples: Seq<FeedSample>, sample: FeedSample)
    requires
        sources_unique(samples),
    ensures
        sources_unique(without_source(samples, sample.source).push(sample)),
        forall|k: int|
            0 <= k < without_source(samples, sample.source).push(sample).len() && (#[trigger] without_source(
                samples,
                sample.source,
            ).push(sample)[k]).source@ == sample.source@ ==> without_source(
                samples,
                sample.source,
            ).push(sample)[k] == sample,
{
    lemma_without_source(samples, sample.source);
    let w = without_source(samples, sample.source);
    let t = w.push(sample);
    assert forall|a: int, b: int| 0 <= a < b < t.len() implies (#[trigger] t[a]).source@
        != (#[trigger] t[b]).source@ by {
        if b == t.len() - 1 {
            assert(t[a] == w[a]);
        } else {
            assert(t[a] == w[a]);
            assert(t[b] == w[b]);
        }
    }
    assert forall|k: int| 0 <= k < t.len() && (#[trigger] t[k]).source@ == sample.source@ implies t[k]
        == sample by {
        if k < w.len() {
            assert(t[k] == w[k]);
        }
    }
}

/// The challenge window runs from the proposal time: a pending proposal is
/// confirmed at `now` exactly when `now >= proposed_at + challenge_window`,
/// answering the proposed outcome; before that it answers
/// `ChallengeWindowOpen` and stays pending, unchanged.
pub proof fn lemma_confirm_waits_for_the_window(p: OptimisticProposal, now: i64)
    requires
        p.state == ProposalState::Proposed,
    ensures
        spec_confirm(p, now).1 is Ok <==> now >= p.proposed_at + p.challenge_window,
        now < p.proposed_at + p.challenge_window ==> spec_confirm(p, now).0 == p
            && spec_confirm(p, now).1 == Err::<u8, OracleError>(OracleError::ChallengeWindowOpen),
        now >= p.proposed_at + p.challenge_window ==> spec_confirm(p, now).1 == Ok::<u8, OracleError>(
            p.proposed_outcome,
        ) && spec_confirm(p, now).0.state == ProposalState::Confirmed && spec_confirm(p, now).0.proposed_at
            == p.proposed_at && spec_confirm(p, now).0.proposed_outcome == p.proposed_outcome
            && spec_confirm(p, now).0.challenger == p.challenger,
{
}

/// A challenge is accepted only on a pending, unchallenged proposal, and then
/// records the challenger and its bond and pauses resolution; otherwise the
/// proposal is left as it was.
pub proof fn lemma_challenge_records_the_challenger(
    p: OptimisticProposal,
    challenger: [u8; 32],
    bond: u64,
)
    ensures
        spec_challenge(p, challenger, bond).1 is Ok <==> (p.state == ProposalState::Proposed
            && p.challenger is None),
        spec_challenge(p, challenger, bond).1 is Ok ==> {
            let q = spec_challenge(p, challenger, bond).0;
            &&& q.state == ProposalState::Challenged
            &&& q.challenger == Some(challenger)
            &&& q.challenger_bond == bond
            &&& q.bond == p.bond
            &&& q.proposed_outcome == p.proposed_outcome
            &&& q.proposer == p.proposer
        },
        spec_challenge(p, challenger, bond).1 is Err ==> spec_challenge(p, challenger, bond).0 == p,
        p.state != ProposalState::Proposed ==> spec_challenge(p, challenger, bond).1 == Err::<
            (),
            OracleError,
        >(OracleError::InvalidTransition),
{
}

} // verus!
