use wagr::oracle::Dispute;
use wagr::reputation::{DvmRound, Reputation, ReputationError, Vote, REP_MAX, REP_MIN, REP_ONE};

fn make_dispute() -> Dispute {
    Dispute {
        market_id: 1,
        round: 0,
        proposer: [1; 32],
        challenger: [2; 32],
        proposed_outcome: 0,
        challenge_window: 86_400,
        raised_at: 1_000,
    }
}

#[test]
fn majority_stake_wins() {
    let mut round = DvmRound::new(make_dispute(), 100);
    let r_yes_a = Reputation::new([10; 32], 500);
    let r_yes_b = Reputation::new([11; 32], 500);
    let r_no = Reputation::new([20; 32], 800);

    round.cast_vote(&r_yes_a, 0).unwrap();
    round.cast_vote(&r_yes_b, 0).unwrap();
    round.cast_vote(&r_no, 1).unwrap();
    let v = round.tally().unwrap();
    assert_eq!(v.winning_outcome, 0);
    assert!(v.winning_stake > v.losing_stake);
}

#[test]
fn slashes_losers() {
    let mut round = DvmRound::new(make_dispute(), 100);
    let r_yes = Reputation::new([10; 32], 1_000);
    let r_no = Reputation::new([20; 32], 1_000);
    round.cast_vote(&r_yes, 0).unwrap();
    round.cast_vote(&r_no, 1).unwrap();
    let v = round.tally().unwrap();
    let updated = round.apply_verdict(&v, vec![r_yes, r_no], 1_000); // 10% slash
    let loser = if v.winning_outcome == 0 { updated[1] } else { updated[0] };
    let winner = if v.winning_outcome == 0 { updated[0] } else { updated[1] };
    assert!(loser.stake < 1_000);
    assert_eq!(winner.stake, 1_000); // winner stake unchanged
    assert!(winner.score > REP_ONE);
    assert!(loser.score < REP_ONE);
}

#[test]
fn double_vote_blocked() {
    let mut round = DvmRound::new(make_dispute(), 100);
    let r = Reputation::new([10; 32], 1_000);
    round.cast_vote(&r, 0).unwrap();
    assert_eq!(round.cast_vote(&r, 0).unwrap_err(), ReputationError::DoubleVote);
}

#[test]
fn rejects_below_minimum() {
    let mut round = DvmRound::new(make_dispute(), 100);
    let r = Reputation::new([10; 32], 50);
    assert!(matches!(
        round.cast_vote(&r, 0).unwrap_err(),
        ReputationError::BelowMinimum { min: 100 }
    ));
}

#[test]
fn equal_stakes_go_to_the_outcome_voted_first() {
    let mut round = DvmRound::new(make_dispute(), 0);
    round.cast_vote(&Reputation::new([1; 32], 700), 3).unwrap();
    round.cast_vote(&Reputation::new([2; 32], 700), 0).unwrap();
    let v = round.tally().unwrap();
    assert_eq!(v.winning_outcome, 3);
    assert_eq!(v.winning_stake, 700);
    assert_eq!(v.losing_stake, 700);
    assert_eq!(v.total_voters, 2);
}

#[test]
fn zero_stake_round_goes_to_the_first_vote() {
    let mut round = DvmRound::new(make_dispute(), 0);
    round.cast_vote(&Reputation::new([1; 32], 0), 4).unwrap();
    round.cast_vote(&Reputation::new([2; 32], 0), 9).unwrap();
    let v = round.tally().unwrap();
    assert_eq!(v.winning_outcome, 4);
    assert_eq!(v.winning_stake, 0);
    assert_eq!(v.losing_stake, 0);
}

#[test]
fn first_recorded_outcome_wins_the_tie_in_slashing() {
    let mut round = DvmRound::new(make_dispute(), 100);
    let r_yes = Reputation::new([10; 32], 1_000);
    let r_no = Reputation::new([20; 32], 1_000);
    round.cast_vote(&r_yes, 0).unwrap();
    round.cast_vote(&r_no, 1).unwrap();
    let v = round.tally().unwrap();
    assert_eq!(v.winning_outcome, 0);
    assert_eq!(v.winning_stake, 1_000);
    assert_eq!(v.losing_stake, 1_000);
}

#[test]
fn a_voter_at_the_floor_recovers() {
    let mut round = DvmRound::new(make_dispute(), 0);
    let mut low = Reputation::new([1; 32], 100);
    low.score = REP_MIN;
    round.cast_vote(&low, 2).unwrap();
    let v = round.tally().unwrap();
    let mut reps = vec![low];
    for _ in 0..3 {
        reps = round.apply_verdict(&v, reps, 0);
    }
    assert_eq!(reps[0].score, 4);
    assert_eq!(reps[0].correct_votes, 3);
}

#[test]
fn tally_is_once_only_and_needs_votes() {
    let mut round = DvmRound::new(make_dispute(), 0);
    assert_eq!(round.tally().unwrap_err(), ReputationError::NoActiveDispute);
    round.cast_vote(&Reputation::new([1; 32], 10), 1).unwrap();
    let v = round.tally().unwrap();
    assert_eq!(v.winning_outcome, 1);
    assert!(round.finalised);
    assert_eq!(round.tally().unwrap_err(), ReputationError::NoActiveDispute);
    assert_eq!(
        round.cast_vote(&Reputation::new([2; 32], 10), 0).unwrap_err(),
        ReputationError::NoActiveDispute
    );
}

#[test]
fn tally_overflow_is_reported() {
    let mut round = DvmRound::new(make_dispute(), 0);
    round.votes.push(Vote { voter: [1; 32], outcome: 2, effective_stake: u128::MAX });
    round.votes.push(Vote { voter: [2; 32], outcome: 2, effective_stake: 1 });
    assert_eq!(round.tally().unwrap_err(), ReputationError::Overflow);
    assert!(!round.finalised);
}

#[test]
fn effective_stake_scales_with_score() {
    let mut r = Reputation::new([1; 32], 1_000);
    assert_eq!(r.effective_stake(), 1_000);
    r.score = REP_ONE / 2;
    assert_eq!(r.effective_stake(), 500);
    r.score = REP_MAX;
    r.stake = u64::MAX;
    assert_eq!(r.effective_stake(), (u64::MAX as u128) * 4);
}

#[test]
fn apply_verdict_updates_counts_and_skips_non_voters() {
    let mut round = DvmRound::new(make_dispute(), 0);
    let good = Reputation::new([1; 32], 2_000);
    let bad = Reputation::new([2; 32], 1_000);
    let idle = Reputation::new([3; 32], 5_000);
    round.cast_vote(&good, 1).unwrap();
    round.cast_vote(&bad, 0).unwrap();
    let v = round.tally().unwrap();
    assert_eq!(v.winning_outcome, 1);
    let out = round.apply_verdict(&v, vec![idle, bad, good], 2_500);
    assert_eq!(out.len(), 3);
    assert_eq!(out[0], idle);
    assert_eq!(out[1].stake, 750);
    assert_eq!(out[1].score, REP_ONE / 2);
    assert_eq!(out[1].incorrect_votes, 1);
    assert_eq!(out[2].stake, 2_000);
    assert_eq!(out[2].score, 1_100_000);
    assert_eq!(out[2].correct_votes, 1);
}

#[test]
fn score_is_capped_and_floored() {
    let mut round = DvmRound::new(make_dispute(), 0);
    let mut high = Reputation::new([1; 32], 10);
    high.score = REP_MAX - 1;
    let mut low = Reputation::new([2; 32], 10);
    low.score = 1;
    round.cast_vote(&high, 0).unwrap();
    round.cast_vote(&low, 1).unwrap();
    let v = round.tally().unwrap();
    assert_eq!(v.winning_outcome, 0);
    let out = round.apply_verdict(&v, vec![high, low], 60_000);
    assert_eq!(out[0].score, REP_MAX);
    assert_eq!(out[1].score, REP_MIN);
    // a slash above 100% takes the whole stake
    assert_eq!(out[1].stake, 0);
}

#[test]
fn winning_and_losing_stake_cover_every_vote() {
    let mut round = DvmRound::new(make_dispute(), 0);
    round.cast_vote(&Reputation::new([1; 32], 300), 0).unwrap();
    round.cast_vote(&Reputation::new([2; 32], 450), 2).unwrap();
    round.cast_vote(&Reputation::new([3; 32], 200), 2).unwrap();
    round.cast_vote(&Reputation::new([4; 32], 600), 5).unwrap();
    let v = round.tally().unwrap();
    assert_eq!(v.winning_outcome, 2);
    assert_eq!(v.winning_stake, 650);
    assert_eq!(v.winning_stake + v.losing_stake, 1_550);
    assert_eq!(v.total_voters, 4);
}

#[test]
fn repeated_misses_reach_the_floor() {
    let mut round = DvmRound::new(make_dispute(), 0);
    let mut rep = Reputation::new([1; 32], 1_000);
    rep.score = REP_MAX;
    round.cast_vote(&Reputation::new([2; 32], 100_000), 1).unwrap();
    round.cast_vote(&rep, 0).unwrap();
    let v = round.tally().unwrap();
    assert_eq!(v.winning_outcome, 1);
    let mut reps = vec![rep];
    for _ in 0..21 {
        reps = round.apply_verdict(&v, reps, 0);
    }
    assert_eq!(reps[0].score, 1);
    reps = round.apply_verdict(&v, reps, 0);
    assert_eq!(reps[0].score, REP_MIN);
    assert_eq!(reps[0].incorrect_votes, 22);
    assert_eq!(reps[0].stake, 1_000);
}
