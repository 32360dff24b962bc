//! Reputation module -- governs the dispute vote (DVM).
//!
//! When an optimistic proposal is challenged, voters stake and cast a vote.
//! The verdict is the stake-weighted majority. Voters on the losing side are
//! slashed in proportion to their stake. Reputation is updated
//! multiplicatively: a correct vote raises the score by 10% (capped), an
//! incorrect one halves it (floored), so persistent bad actors lose their
//! influence.
use crate::keys::same_key;
use crate::oracle::Dispute;
use vstd::prelude::*;

verus! {

/// Every way a dispute-vote operation can be refused.
#[derive(Clone, Copy, Debug, PartialEq, Eq, Structural)]
pub enum ReputationError {
    /// The voter already voted in this dispute.
    DoubleVote,
    /// The voter's stake is below the round's minimum.
    BelowMinimum { min: u64 },
    /// The voter is not registered.
    UnknownVoter,
    /// The round is finalised or has no votes.
    NoActiveDispute,
    /// A stake tally left the `u128` range.
    Overflow,
}

/// Reputation score 1.0 in six-decimal fixed point.
pub const REP_ONE: u64 = 1_000_000;

/// Floor on the score, so a fully slashed voter can still recover.
pub const REP_MIN: u64 = 1;

/// Cap on the score (4.0), bounding any single voter's influence.
pub const REP_MAX: u64 = 4 * REP_ONE;

/// Per-voter ledger entry.
#[derive(Clone, Copy, Debug, PartialEq, Eq)]
pub struct Reputation {
    pub voter: [u8; 32],
    pub stake: u64,
    pub correct_votes: u32,
    pub incorrect_votes: u32,
    pub score: u64,
}

/// One cast vote.
#[derive(Clone, Copy, Debug, PartialEq, Eq)]
pub struct Vote {
    pub voter: [u8; 32],
    pub outcome: u8,
    pub effective_stake: u128,
}

/// Vote tally for a single dispute.
#[derive(Clone, Debug)]
pub struct DvmRound {
    pub dispute: Dispute,
    pub votes: Vec<Vote>,
    pub min_stake: u64,
    pub finalised: bool,
}

/// Outcome of a tally.
#[derive(Clone, Copy, Debug, PartialEq, Eq, Structural)]
pub struct DvmVerdict {
    pub winning_outcome: u8,
    pub winning_stake: u128,
    pub losing_stake: u128,
    pub total_voters: u32,
}

/// `stake * score / REP_ONE`.
pub open spec fn spec_effective_stake(stake: u64, score: u64) -> int {
    (stake * score) / (REP_ONE as int)
}

/// The score after a correct vote: up 10%, and by at least one unit so that
/// even a score at the floor recovers, capped at `REP_MAX`.
pub open spec fn score_after_correct(score: u64) -> u64 {
    let tenth_up = (score * 110) / 100;
    let raised = if tenth_up > score { tenth_up } else { score + 1 };
    if raised <= REP_MAX { raised as u64 } else { REP_MAX }
}

/// The score after an incorrect vote: halved, floored at `REP_MIN`.
pub open spec fn score_after_incorrect(score: u64) -> u64 {
    if score / 2 >= REP_MIN { (score / 2) as u64 } else { REP_MIN }
}

/// `x + 1`, saturating at `u32::MAX`.
pub open spec fn count_up(x: u32) -> u32 {
    if x == u32::MAX { x } else { (x + 1) as u32 }
}

/// The stake a losing voter keeps after a `slash_bps` slash: the slash is
/// `stake * slash_bps / 10_000` cut down to a `u64`, and the stake saturates at zero.
pub open spec fn stake_after_slash(stake: u64, slash_bps: u16) -> u64 {
    let slash = (((stake * slash_bps) / 10_000) as u128) as u64;
    if slash <= stake { (stake - slash) as u64 } else { 0 }
}

impl Reputation {
    /// The ledger entry after a correct vote.
    pub open spec fn after_correct(self) -> Reputation {
        Reputation {
            correct_votes: count_up(self.correct_votes),
            score: score_after_correct(self.score),
            ..self
        }
    }

    /// The ledger entry after an incorrect vote slashed by `slash_bps`.
    pub open spec fn after_incorrect(self, slash_bps: u16) -> Reputation {
        Reputation {
            incorrect_votes: count_up(self.incorrect_votes),
            score: score_after_incorrect(self.score),
            stake: stake_after_slash(self.stake, slash_bps),
            ..self
        }
    }

    /// A fresh voter with score 1.0 and no history.
    pub fn new(voter: [u8; 32], stake: u64) -> (r: Self)
        ensures
            r == (Reputation { voter, stake, correct_votes: 0, incorrect_votes: 0, score: REP_ONE }),
    {
        Reputation { voter, stake, correct_votes: 0, incorrect_votes: 0, score: REP_ONE }
    }

    /// Effective stake = `stake * score / REP_ONE`.
    pub fn effective_stake(&self) -> (e: u128)
        ensures
            e == spec_effective_stake(self.stake, self.score),
    {
        proof {
            assert(self.stake * self.score <= u64::MAX * u64::MAX) by (nonlinear_arith);
        }
        (self.stake as u128) * (self.score as u128) / (REP_ONE as u128)
    }

    fn bump_correct(&mut self)
        ensures
            *final(self) == old(self).after_correct(),
    {
        self.correct_votes = self.correct_votes.saturating_add(1);
        let tenth_up: u128 = (self.score as u128) * 110 / 100;
        let raised: u128 = if tenth_up > self.score as u128 {
            tenth_up
        } else {
            self.score as u128 + 1
        };
        self.score = if raised <= REP_MAX as u128 { raised as u64 } else { REP_MAX };
    }

    fn bump_incorrect(&mut self)
        ensures
            final(self).incorrect_votes == count_up(old(self).incorrect_votes),
            final(self).score == score_after_incorrect(old(self).score),
            final(self).voter == old(self).voter,
            final(self).stake == old(self).stake,
            final(self).correct_votes == old(self).correct_votes,
    {
        self.incorrect_votes = self.incorrect_votes.saturating_add(1);
        let halved = self.score / 2;
        self.score = if halved >= REP_MIN { halved } else { REP_MIN };
    }
}

/// The score always stays within `[REP_MIN, REP_MAX]`: a correct vote raises
/// every score below the cap (so a fully slashed voter can recover) and an
/// incorrect vote never raises it.
pub proof fn lemma_score_stays_in_band(score: u64)
    requires
        REP_MIN <= score <= REP_MAX,
    ensures
        REP_MIN <= score_after_correct(score) <= REP_MAX,
        score <= score_after_correct(score),
        score < REP_MAX ==> score < score_after_correct(score),
        REP_MIN <= score_after_incorrect(score) <= REP_MAX,
        score_after_incorrect(score) <= score,
{
}

/// Stake voted for outcome `o`, over unbounded integers.
pub open spec fn stake_for(votes: Seq<Vote>, o: int) -> int
    decreases votes.len(),
{
    if votes.len() == 0 {
        0
    } else {
        stake_for(votes.drop_last(), o) + if votes.last().outcome == o {
            votes.last().effective_stake as int
        } else {
            0
        }
    }
}

/// Stake voted across all outcomes, over unbounded integers.
pub open spec fn total_stake(votes: Seq<Vote>) -> int
    decreases votes.len(),
{
    if votes.len() == 0 {
        0
    } else {
        total_stake(votes.drop_last()) + votes.last().effective_stake
    }
}

/// The sixteen per-outcome tallies.
pub open spec fn tallies(votes: Seq<Vote>) -> Seq<int> {
    Seq::new(16, |o: int| stake_for(votes, o))
}

/// Vote `k` settles the tally. Its outcome holds the most stake, and it is
/// the earliest vote cast for any outcome holding that much. On equal stake
/// the outcome whose first vote came earliest wins.
pub open spec fn is_tally_winner(votes: Seq<Vote>, k: int) -> bool {
    &&& 0 <= k < votes.len()
    &&& votes[k].outcome < 16
    &&& forall|o: int|
        0 <= o < 16 ==> #[trigger] stake_for(votes, o) <= stake_for(votes, votes[k].outcome as int)
    &&& forall|j: int|
        0 <= j < k ==> stake_for(votes, (#[trigger] votes[j]).outcome as int) < stake_for(
            votes,
            votes[k].outcome as int,
        )
}

/// Sum of the first `k` tallies, leaving out tally `w`.
pub open spec fn sum_except(b: Seq<int>, w: int, k: int) -> int
    decreases k,
{
    if k <= 0 {
        0
    } else {
        sum_except(b, w, k - 1) + if k - 1 == w { 0 } else { b[k - 1] }
    }
}

/// Sum of the first `k` tallies.
pub open spec fn sum_first(b: Seq<int>, k: int) -> int
    decreases k,
{
    if k <= 0 {
        0
    } else {
        sum_first(b, k - 1) + b[k - 1]
    }
}

/// Some tally exceeds `u128::MAX`.
pub open spec fn tally_overflows(votes: Seq<Vote>) -> bool {
    exists|o: int| 0 <= o < 16 && #[trigger] stake_for(votes, o) > u128::MAX
}

/// Tallying `votes` stays inside the sixteen bins and within `u128`: a vote
/// for an outcome past the bins is only reached after some earlier bin
/// overflowed, and when no bin overflows the losing stake fits.
pub open spec fn tally_in_range(votes: Seq<Vote>) -> bool {
    &&& bins_in_range(votes)
    &&& losing_stake_fits(votes)
}

/// A vote for an outcome past the sixteen bins is only reached after some
/// earlier bin overflowed.
pub open spec fn bins_in_range(votes: Seq<Vote>) -> bool {
    forall|i: int|
        0 <= i < votes.len() && (#[trigger] votes[i]).outcome >= 16 ==> exists|j: int|
            0 <= j < i && votes[j].outcome < 16 && #[trigger] stake_for(
                votes.take(j + 1),
                votes[j].outcome as int,
            ) > u128::MAX
}

/// When no bin overflows, the stake outside the winning bin fits in a `u128`.
pub open spec fn losing_stake_fits(votes: Seq<Vote>) -> bool {
    !tally_overflows(votes) ==> forall|k: int|
        #[trigger] is_tally_winner(votes, k) ==> sum_except(
            tallies(votes),
            votes[k].outcome as int,
            16,
        ) <= u128::MAX
}

/// Some vote was cast by `voter`.
pub open spec fn has_voted(votes: Seq<Vote>, voter: [u8; 32]) -> bool {
    exists|i: int| 0 <= i < votes.len() && (#[trigger] votes[i]).voter@ == voter@
}

/// No voter appears twice.
pub open spec fn voters_unique(votes: Seq<Vote>) -> bool {
    forall|i: int, j: int|
        0 <= i < j < votes.len() ==> (#[trigger] votes[i]).voter@ != (#[trigger] votes[j]).voter@
}

/// The first vote cast by `voter` at or after position `j`.
pub open spec fn first_vote_from(votes: Seq<Vote>, voter: [u8; 32], j: int) -> Option<Vote>
    decreases votes.len() - j,
{
    if j < 0 || j >= votes.len() {
        None
    } else if votes[j].voter@ == voter@ {
        Some(votes[j])
    } else {
        first_vote_from(votes, voter, j + 1)
    }
}

/// A ledger entry once the ruling is applied. Voters who backed the winning outcome
/// gain score, those who did not lose score and are slashed, and everyone
/// else is untouched.
pub open spec fn apply_to(rep: Reputation, votes: Seq<Vote>, winning_outcome: u8, slash_bps: u16) -> Reputation {
    match first_vote_from(votes, rep.voter, 0) {
        None => rep,
        Some(v) => if v.outcome == winning_outcome {
            rep.after_correct()
        } else {
            rep.after_incorrect(slash_bps)
        },
    }
}

proof fn lemma_stake_for_prefix_monotone(votes: Seq<Vote>, k: int, o: int)
    requires
        0 <= k <= votes.len(),
    ensures
        stake_for(votes.take(k), o) <= stake_for(votes, o),
        stake_for(votes, o) >= 0,
    decreases votes.len(),
{
    if votes.len() > 0 {
        if k == votes.len() {
            assert(votes.take(k) =~= votes);
            lemma_stake_for_prefix_monotone(votes.drop_last(), 0, o);
        } else {
            assert(votes.drop_last().take(k) =~= votes.take(k));
            lemma_stake_for_prefix_monotone(votes.drop_last(), k, o);
        }
    }
}

proof fn lemma_sum_except_monotone(b: Seq<int>, w: int, k: int, n: int)
    requires
        0 <= k <= n,
        forall|i: int| 0 <= i < b.len() ==> #[trigger] b[i] >= 0,
        n <= b.len(),
    ensures
        0 <= sum_except(b, w, k) <= sum_except(b, w, n),
    decreases n,
{
    if n > 0 {
        if k < n {
            lemma_sum_except_monotone(b, w, k, n - 1);
        } else {
            lemma_sum_except_monotone(b, w, 0, n - 1);
        }
    }
}

impl DvmRound {
    /// An open round with no votes.
    pub fn new(dispute: Dispute, min_stake: u64) -> (r: Self)
        ensures
            r.dispute == dispute,
            r.votes@ == Seq::<Vote>::empty(),
            r.min_stake == min_stake,
            !r.finalised,
    {
        DvmRound { dispute, votes: Vec::new(), min_stake, finalised: false }
    }

    /// Record `rep`'s vote for `outcome`, weighted by its effective stake.
    pub fn cast_vote(&mut self, rep: &Reputation, outcome: u8) -> (r: Result<(), ReputationError>)
        ensures
            final(self).dispute == old(self).dispute,
            final(self).min_stake == old(self).min_stake,
            final(self).finalised == old(self).finalised,
            old(self).finalised ==> r == Err::<(), ReputationError>(ReputationError::NoActiveDispute),
            !old(self).finalised && rep.stake < old(self).min_stake ==> r == Err::<
                (),
                ReputationError,
            >(ReputationError::BelowMinimum { min: old(self).min_stake }),
            !old(self).finalised && rep.stake >= old(self).min_stake && has_voted(
                old(self).votes@,
                rep.voter,
            ) ==> r == Err::<(), ReputationError>(ReputationError::DoubleVote),
            r is Ok <==> (!old(self).finalised && rep.stake >= old(self).min_stake && !has_voted(
                old(self).votes@,
                rep.voter,
            )),
            r is Ok ==> final(self).votes@ == old(self).votes@.push(
                Vote {
                    voter: rep.voter,
                    outcome,
                    effective_stake: spec_effective_stake(rep.stake, rep.score) as u128,
                },
            ),
            r is Err ==> final(self).votes@ == old(self).votes@,
    {
        if self.finalised {
            return Err(ReputationError::NoActiveDispute);
        }
        if rep.stake < self.min_stake {
            return Err(ReputationError::BelowMinimum { min: self.min_stake });
        }
        let mut i: usize = 0;
        while i < self.votes.len()
            invariant
                *self == *old(self),
                !self.finalised,
                rep.stake >= self.min_stake,
                0 <= i <= self.votes.len(),
                forall|j: int| 0 <= j < i ==> (#[trigger] self.votes@[j]).voter@ != rep.voter@,
            decreases self.votes.len() - i,
        {
            if same_key(&self.votes[i].voter, &rep.voter) {
                return Err(ReputationError::DoubleVote);
            }
            i = i + 1;
        }
        let effective_stake = rep.effective_stake();
        self.votes.push(Vote { voter: rep.voter, outcome, effective_stake });
        Ok(())
    }

    /// Apply per-voter score / stake updates from a verdict and return the
    /// updated ledger entries, in the same order.
    pub fn apply_verdict(&self, verdict: &DvmVerdict, reps: Vec<Reputation>, slash_bps: u16) -> (out: Vec<
        Reputation,
    >)
        ensures
            out@.len() == reps@.len(),
            forall|i: int|
                0 <= i < reps@.len() ==> #[trigger] out@[i] == apply_to(
                    reps@[i],
                    self.votes@,
                    verdict.winning_outcome,
                    slash_bps,
                ),
    {
        let mut out: Vec<Reputation> = Vec::new();
        let mut i: usize = 0;
        while i < reps.len()
            invariant
                0 <= i <= reps@.len(),
                out@.len() == i,
                forall|k: int|
                    0 <= k < i ==> #[trigger] out@[k] == apply_to(
                        reps@[k],
                        self.votes@,
                        verdict.winning_outcome,
                        slash_bps,
                    ),
            decreases reps@.len() - i,
        {
            let mut r = reps[i];
            let found = self.find_vote(&r.voter);
            match found {
                Some(v) => {
                    if v.outcome == verdict.winning_outcome {
                        r.bump_correct();
                    } else {
                        r.bump_incorrect();
                        proof {
                            let st = r.stake;
                            assert(st * slash_bps <= u64::MAX * u16::MAX) by (nonlinear_arith);
                        }
                        let slash: u128 = (r.stake as u128) * (slash_bps as u128) / 10_000;
                        r.stake = r.stake.saturating_sub(slash as u64);
                    }
                },
                None => {},
            }
            out.push(r);
            i = i + 1;
        }
        out
    }

    /// The first vote cast by `voter`, if any.
    fn find_vote(&self, voter: &[u8; 32]) -> (r: Option<Vote>)
        ensures
            r == first_vote_from(self.votes@, *voter, 0),
    {
        let mut j: usize = 0;
        while j < self.votes.len()
            invariant
                0 <= j <= self.votes@.len(),
                first_vote_from(self.votes@, *voter, 0) == first_vote_from(
                    self.votes@,
                    *voter,
                    j as int,
                ),
            decreases self.votes@.len() - j,
        {
            let v = self.votes[j];
            if same_key(&v.voter, voter) {
                return Some(v);
            }
            j = j + 1;
        }
        None
    }

    /// Tally the votes, mark the round finalised and return the ruling. The
    /// outcome with the most stake wins; on equal stake, the outcome whose
    /// first vote came earliest.
    pub fn tally(&mut self) -> (r: Result<DvmVerdict, ReputationError>)
        requires
            !old(self).finalised && old(self).votes@.len() > 0 ==> tally_in_range(old(self).votes@),
        ensures
            final(self).dispute == old(self).dispute,
            final(self).min_stake == old(self).min_stake,
            final(self).votes@ == old(self).votes@,
            ({
                let votes = old(self).votes@;
                &&& old(self).finalised ==> r == Err::<DvmVerdict, ReputationError>(
                    ReputationError::NoActiveDispute,
                )
                &&& !old(self).finalised && votes.len() == 0 ==> r == Err::<
                    DvmVerdict,
                    ReputationError,
                >(ReputationError::NoActiveDispute)
                &&& !old(self).finalised && votes.len() > 0 && tally_overflows(votes) ==> r == Err::<
                    DvmVerdict,
                    ReputationError,
                >(ReputationError::Overflow)
                &&& r is Ok <==> (!old(self).finalised && votes.len() > 0 && !tally_overflows(
                    votes,
                ))
                &&& r is Ok ==> {
                    let v = r->Ok_0;
                    &&& exists|k: int|
                        #[trigger] is_tally_winner(votes, k) && v.winning_outcome
                            == votes[k].outcome
                    &&& v.winning_stake == stake_for(votes, v.winning_outcome as int)
                    &&& v.losing_stake == sum_except(tallies(votes), v.winning_outcome as int, 16)
                    &&& v.total_voters == votes.len() as u32
                    &&& final(self).finalised
                }
                &&& r is Err ==> final(self).finalised == old(self).finalised
            }),
    {
        if self.finalised {
            return Err(ReputationError::NoActiveDispute);
        }
        if self.votes.len() == 0 {
            return Err(ReputationError::NoActiveDispute);
        }
        let bins = match tally_bins(&self.votes) {
            Some(bins) => bins,
            None => return Err(ReputationError::Overflow),
        };
        assert(tallies(self.votes@) =~= as_ints(bins));
        let k = deciding_vote(&self.votes, &bins);
        let w = self.votes[k].outcome as usize;
        let losing = sum_except_winner(&bins, w);
        self.finalised = true;
        Ok(DvmVerdict {
            winning_outcome: w as u8,
            winning_stake: bins[w],
            losing_stake: losing,
            total_voters: self.votes.len() as u32,
        })
    }
}

/// The sixteen bins as unbounded integers.
pub open spec fn as_ints(bins: [u128; 16]) -> Seq<int> {
    Seq::new(16, |o: int| bins@[o] as int)
}

/// Per-outcome stake of `votes`, or `None` once a bin overflows.
#[verifier::rlimit(40)]
fn tally_bins(votes: &Vec<Vote>) -> (r: Option<[u128; 16]>)
    requires
        bins_in_range(votes@),
    ensures
        r is None <==> tally_overflows(votes@),
        r matches Some(bins) ==> forall|o: int| 0 <= o < 16 ==> #[trigger] bins@[o] == stake_for(votes@, o),
        r is Some ==> forall|j: int| 0 <= j < votes@.len() ==> (#[trigger] votes@[j]).outcome < 16,
{
    let ghost vs = votes@;
    let mut bins: [u128; 16] = [0u128; 16];
    let mut i: usize = 0;
    while i < votes.len()
        invariant
            vs == votes@,
            bins_in_range(vs),
            0 <= i <= vs.len(),
            forall|o: int| 0 <= o < 16 ==> #[trigger] bins@[o] == stake_for(vs.take(i as int), o),
            forall|j: int|
                0 <= j < i ==> (#[trigger] vs[j]).outcome < 16 && stake_for(
                    vs.take(j + 1),
                    vs[j].outcome as int,
                ) <= u128::MAX,
        decreases vs.len() - i,
    {
        let v = votes[i];
        assert(vs.take(i + 1).drop_last() =~= vs.take(i as int));
        if v.outcome >= 16 {
            proof {
                let j = choose|j: int|
                    0 <= j < i && vs[j].outcome < 16 && #[trigger] stake_for(
                        vs.take(j + 1),
                        vs[j].outcome as int,
                    ) > u128::MAX;
                assert(vs[j].outcome < 16);
            }
        }
        let o = v.outcome as usize;
        match bins[o].checked_add(v.effective_stake) {
            Some(sum) => {
                bins[o] = sum;
            },
            None => {
                proof {
                    lemma_stake_for_prefix_monotone(vs, i + 1, o as int);
                    assert(stake_for(vs, o as int) > u128::MAX);
                }
                return None;
            },
        }
        i = i + 1;
    }
    assert(vs.take(vs.len() as int) =~= vs);
    assert forall|o: int| 0 <= o < 16 implies #[trigger] stake_for(vs, o) <= u128::MAX by {
        assert(bins@[o] == stake_for(vs, o));
    }
    Some(bins)
}

/// The earliest vote whose outcome holds the most stake.
fn deciding_vote(votes: &Vec<Vote>, bins: &[u128; 16]) -> (k: usize)
    requires
        votes@.len() > 0,
        forall|j: int| 0 <= j < votes@.len() ==> (#[trigger] votes@[j]).outcome < 16,
        forall|o: int| 0 <= o < 16 ==> #[trigger] bins@[o] == stake_for(votes@, o),
    ensures
        is_tally_winner(votes@, k as int),
{
    let ghost vs = votes@;
    let mut k: usize = 0;
    let mut j: usize = 1;
    while j < votes.len()
        invariant
            vs == votes@,
            forall|i: int| 0 <= i < vs.len() ==> (#[trigger] vs[i]).outcome < 16,
            forall|o: int| 0 <= o < 16 ==> #[trigger] bins@[o] == stake_for(vs, o),
            1 <= j <= vs.len(),
            0 <= k < j,
            forall|i: int|
                0 <= i < j ==> stake_for(vs, (#[trigger] vs[i]).outcome as int) <= stake_for(
                    vs,
                    vs[k as int].outcome as int,
                ),
            forall|i: int|
                0 <= i < k ==> stake_for(vs, (#[trigger] vs[i]).outcome as int) < stake_for(
                    vs,
                    vs[k as int].outcome as int,
                ),
        decreases vs.len() - j,
    {
        let oj = votes[j].outcome as usize;
        let ok = votes[k].outcome as usize;
        assert(bins@[oj as int] == stake_for(vs, oj as int));
        assert(bins@[ok as int] == stake_for(vs, ok as int));
        if bins[oj] > bins[ok] {
            k = j;
        }
        j = j + 1;
    }
    assert forall|o: int| 0 <= o < 16 implies #[trigger] stake_for(vs, o) <= stake_for(
        vs,
        vs[k as int].outcome as int,
    ) by {
        lemma_stake_for_prefix_monotone(vs, 0, vs[k as int].outcome as int);
        if exists|i: int| 0 <= i < vs.len() && vs[i].outcome == o {
            let i = choose|i: int| 0 <= i < vs.len() && vs[i].outcome == o;
            assert(stake_for(vs, vs[i].outcome as int) <= stake_for(vs, vs[k as int].outcome as int));
        } else {
            lemma_unvoted_outcome_has_no_stake(vs, o);
        }
    }
    k
}

proof fn lemma_unvoted_outcome_has_no_stake(votes: Seq<Vote>, o: int)
    requires
        forall|i: int| 0 <= i < votes.len() ==> (#[trigger] votes[i]).outcome != o,
    ensures
        stake_for(votes, o) == 0,
    decreases votes.len(),
{
    if votes.len() > 0 {
        let init = votes.drop_last();
        assert forall|i: int| 0 <= i < init.len() implies (#[trigger] init[i]).outcome != o by {
            assert(init[i] == votes[i]);
        }
        lemma_unvoted_outcome_has_no_stake(init, o);
    }
}

/// Total stake in every bin but `w`.
fn sum_except_winner(bins: &[u128; 16], w: usize) -> (s: u128)
    requires
        w < 16,
        sum_except(as_ints(*bins), w as int, 16) <= u128::MAX,
    ensures
        s == sum_except(as_ints(*bins), w as int, 16),
{
    let ghost b = as_ints(*bins);
    assert forall|o: int| 0 <= o < b.len() implies #[trigger] b[o] >= 0 by {}
    let mut losing: u128 = 0;
    let mut k: usize = 0;
    while k < 16
        invariant
            b == as_ints(*bins),
            w < 16,
            0 <= k <= 16,
            forall|o: int| 0 <= o < b.len() ==> #[trigger] b[o] >= 0,
            sum_except(b, w as int, 16) <= u128::MAX,
            losing == sum_except(b, w as int, k as int),
        decreases 16 - k,
    {
        proof {
            lemma_sum_except_monotone(b, w as int, k + 1, 16);
        }
        if k != w {
            losing = losing + bins[k];
        }
        k = k + 1;
    }
    losing
}

/// What the verdict does to each voter: backing the winner keeps the stake
/// and never lowers the score; backing a loser never raises the score nor the
/// stake; a ledger entry with no vote in the round is left as it was.
pub proof fn lemma_verdict_rewards_winners_slashes_losers(
    rep: Reputation,
    votes: Seq<Vote>,
    winning_outcome: u8,
    slash_bps: u16,
)
    requires
        REP_MIN <= rep.score <= REP_MAX,
    ensures
        ({
            let after = apply_to(rep, votes, winning_outcome, slash_bps);
            &&& after.voter == rep.voter
            &&& REP_MIN <= after.score <= REP_MAX
            &&& first_vote_from(votes, rep.voter, 0) is None ==> after == rep
            &&& first_vote_from(votes, rep.voter, 0) matches Some(v) ==> if v.outcome
                == winning_outcome {
                after.stake == rep.stake && after.score >= rep.score
            } else {
                after.stake <= rep.stake && after.score <= rep.score
            }
        }),
{
    lemma_score_stays_in_band(rep.score);
}

/// Nobody votes twice: a successful vote goes to a voter not yet on the
/// roll, so a roll without repeated voters keeps none.
pub proof fn lemma_vote_keeps_voters_unique(votes: Seq<Vote>, vote: Vote)
    requires
        voters_unique(votes),
        !has_voted(votes, vote.voter),
    ensures
        voters_unique(votes.push(vote)),
{
    let t = votes.push(vote);
    assert forall|i: int, j: int| 0 <= i < j < t.len() implies (#[trigger] t[i]).voter@
        != (#[trigger] t[j]).voter@ by {
        assert(t[i] == votes[i]);
        if j < votes.len() {
            assert(t[j] == votes[j]);
        }
    }
}

proof fn lemma_sum_first_bump(b: Seq<int>, c: Seq<int>, o: int, x: int, k: int)
    requires
        0 <= k <= b.len(),
        b.len() == c.len(),
        forall|i: int| 0 <= i < b.len() && i != o ==> #[trigger] c[i] == b[i],
        0 <= o < b.len() ==> c[o] == b[o] + x,
    ensures
        sum_first(c, k) == sum_first(b, k) + if 0 <= o < k { x } else { 0 },
    decreases k,
{
    if k > 0 {
        lemma_sum_first_bump(b, c, o, x, k - 1);
    }
}

proof fn lemma_sum_except_plus_winner(b: Seq<int>, w: int, k: int)
    requires
        0 <= k <= b.len(),
    ensures
        sum_except(b, w, k) + if 0 <= w < k { b[w] } else { 0 } == sum_first(b, k),
    decreases k,
{
    if k > 0 {
        lemma_sum_except_plus_winner(b, w, k - 1);
    }
}

proof fn lemma_tallies_sum_to_total(votes: Seq<Vote>)
    requires
        forall|i: int| 0 <= i < votes.len() ==> (#[trigger] votes[i]).outcome < 16,
    ensures
        sum_first(tallies(votes), 16) == total_stake(votes),
    decreases votes.len(),
{
    if votes.len() == 0 {
        assert(sum_first(tallies(votes), 16) == 0) by {
            lemma_sum_first_bump(Seq::new(16, |o: int| 0int), tallies(votes), -1, 0, 16);
            lemma_sum_first_zero(16);
        }
    } else {
        let init = votes.drop_last();
        assert forall|i: int| 0 <= i < init.len() implies (#[trigger] init[i]).outcome < 16 by {
            assert(init[i] == votes[i]);
        }
        lemma_tallies_sum_to_total(init);
        let last = votes.last();
        assert(last.outcome < 16);
        lemma_sum_first_bump(
            tallies(init),
            tallies(votes),
            last.outcome as int,
            last.effective_stake as int,
            16,
        );
    }
}

proof fn lemma_sum_first_zero(k: int)
    requires
        0 <= k <= 16,
    ensures
        sum_first(Seq::new(16, |o: int| 0int), k) == 0,
    decreases k,
{
    if k > 0 {
        lemma_sum_first_zero(k - 1);
    }
}

/// The verdict is the stake-weighted majority: the winning outcome holds at
/// least as much stake as any other, and the winning and losing stake
/// together account for every vote cast.
pub proof fn lemma_verdict_is_stake_majority(votes: Seq<Vote>, k: int)
    requires
        forall|i: int| 0 <= i < votes.len() ==> (#[trigger] votes[i]).outcome < 16,
        is_tally_winner(votes, k),
    ensures
        ({
            let w = votes[k].outcome as int;
            &&& forall|o: int| 0 <= o < 16 ==> stake_for(votes, o) <= stake_for(votes, w)
            &&& stake_for(votes, w) + sum_except(tallies(votes), w, 16) == total_stake(votes)
        }),
{
    let w = votes[k].outcome as int;
    assert(0 <= w < 16);
    let b = tallies(votes);
    assert(b[w] == stake_for(votes, w));
    lemma_sum_except_plus_winner(b, w, 16);
    lemma_tallies_sum_to_total(votes);
}

/// The verdict names one outcome: two votes that both decide the tally are
/// the same vote.
pub proof fn lemma_tally_winner_unique(votes: Seq<Vote>, k1: int, k2: int)
    requires
        is_tally_winner(votes, k1),
        is_tally_winner(votes, k2),
    ensures
        k1 == k2,
{
    if k1 < k2 {
        assert(stake_for(votes, votes[k1].outcome as int) < stake_for(
            votes,
            votes[k2].outcome as int,
        ));
        assert(stake_for(votes, votes[k2].outcome as int) <= stake_for(
            votes,
            votes[k1].outcome as int,
        ));
    } else if k2 < k1 {
        assert(stake_for(votes, votes[k2].outcome as int) < stake_for(
            votes,
            votes[k1].outcome as int,
        ));
        assert(stake_for(votes, votes[k1].outcome as int) <= stake_for(
            votes,
            votes[k2].outcome as int,
        ));
    }
}

/// The score after `n` incorrect votes in a row.
pub open spec fn score_after_misses(score: u64, n: nat) -> u64
    decreases n,
{
    if n == 0 {
        score
    } else {
        score_after_incorrect(score_after_misses(score, (n - 1) as nat))
    }
}

/// Largest score possible after `n` incorrect votes from the cap.
spec fn miss_bound(n: nat) -> int
    decreases n,
{
    if n == 0 {
        REP_MAX as int
    } else {
        let half = miss_bound((n - 1) as nat) / 2;
        if half >= 1 { half } else { 1 }
    }
}

proof fn lemma_misses_below_bound(score: u64, n: nat)
    requires
        REP_MIN <= score <= REP_MAX,
    ensures
        REP_MIN <= score_after_misses(score, n) <= miss_bound(n),
    decreases n,
{
    if n > 0 {
        lemma_misses_below_bound(score, (n - 1) as nat);
    }
}

/// Persistent bad actors lose their influence: from any score in the band,
/// 22 incorrect votes in a row (or more) bring the score down to the floor.
pub proof fn lemma_repeated_misses_reach_the_floor(score: u64, n: nat)
    requires
        REP_MIN <= score <= REP_MAX,
        n >= 22,
    ensures
        score_after_misses(score, n) == REP_MIN,
    decreases n,
{
    lemma_misses_below_bound(score, n);
    assert(miss_bound(22) == 1) by {
        reveal_with_fuel(miss_bound, 23);
    }
    lemma_miss_bound_stays_at_one(22, n);
}

proof fn lemma_miss_bound_stays_at_one(k: nat, n: nat)
    requires
        k <= n,
        miss_bound(k) == 1,
    ensures
        miss_bound(n) == 1,
    decreases n - k,
{
    if k < n {
        lemma_miss_bound_stays_at_one(k, (n - 1) as nat);
    }
}

/// A correct vote raises the score by 10%, rounded down and capped at
/// `REP_MAX`, at every score from 10 up; below 10, where 10% rounds to
/// nothing, it raises the score by one unit so that a voter at the floor recovers.
pub proof fn lemma_correct_vote_raises_ten_percent(score: u64)
    ensures
        10 <= score <= REP_MAX ==> score_after_correct(score) == if score * 110 / 100 <= REP_MAX {
            score * 110 / 100
        } else {
            REP_MAX as int
        },
        score < 10 ==> score_after_correct(score) == score + 1,
{
    if 10 <= score {
        assert(score * 110 / 100 > score) by (nonlinear_arith)
            requires
                score >= 10,
        ;
    } else {
        assert(score * 110 / 100 <= score) by (nonlinear_arith)
            requires
                score < 10,
        ;
    }
}

/// An incorrect vote halves the score, rounding down, but never below the
/// floor; a slash of `slash_bps` basis points (up to 100%) takes that share
/// of the stake, rounded down, and the rest is kept.
pub proof fn lemma_miss_halves_and_slash_takes_its_share(score: u64, stake: u64, slash_bps: u16)
    ensures
        score_after_incorrect(score) == if score / 2 >= 1 { score / 2 } else { 1 },
        slash_bps <= 10_000 ==> stake_after_slash(stake, slash_bps) == stake - stake * slash_bps
            / 10_000,
        slash_bps <= 10_000 ==> stake_after_slash(stake, slash_bps) <= stake,
        slash_bps == 0 ==> stake_after_slash(stake, slash_bps) == stake,
{
    if slash_bps <= 10_000 {
        assert(stake * slash_bps <= stake * 10_000) by (nonlinear_arith)
            requires
                slash_bps <= 10_000,
        ;
        assert(stake * slash_bps / 10_000 <= stake) by (nonlinear_arith)
            requires
                stake * slash_bps <= stake * 10_000,
        ;
    }
    if slash_bps == 0 {
        assert(stake * slash_bps == 0);
    }
}

/// Effective stake weighs the stake by the score, one million being 1.0: a
/// fresh voter's effective stake is its stake, and it never decreases when
/// the score grows.
pub proof fn lemma_effective_stake_weighs_by_score(stake: u64, s1: u64, s2: u64)
    ensures
        spec_effective_stake(stake, REP_ONE) == stake,
        s1 <= s2 ==> spec_effective_stake(stake, s1) <= spec_effective_stake(stake, s2),
        spec_effective_stake(stake, s1) * 1_000_000 <= stake * s1 < (spec_effective_stake(stake, s1)
            + 1) * 1_000_000,
{
    assert(stake * 1_000_000 / 1_000_000 == stake) by (nonlinear_arith);
    if s1 <= s2 {
        assert(stake * s1 <= stake * s2) by (nonlinear_arith)
            requires
                s1 <= s2,
        ;
        let x: int = stake * s1;
        let y: int = stake * s2;
        assert(x / 1_000_000 <= y / 1_000_000) by (nonlinear_arith)
            requires
                x <= y,
                x >= 0,
        ;
    }
    let x: int = stake * s1;
    assert((x / 1_000_000) * 1_000_000 <= x < (x / 1_000_000 + 1) * 1_000_000) by (nonlinear_arith)
        requires
            x >= 0,
    ;
}

} // verus!
