use wagr::oracle::{
    FeedSample, MultiSourceConsensus, OptimisticProposal, OracleError, ProposalState,
};

fn new_proposal() -> OptimisticProposal {
    OptimisticProposal {
        market_id: 1,
        round: 0,
        proposer: [1; 32],
        bond: 1_000_000,
        proposed_outcome: 0,
        proposed_at: 1_000,
        challenge_window: 86_400,
        state: ProposalState::Proposed,
        challenger: None,
        challenger_bond: 0,
    }
}

fn sample(source: u8, value: i128, timestamp: i64) -> FeedSample {
    FeedSample { source: [source; 32], value, confidence: 1, timestamp }
}

#[test]
fn confirms_after_window() {
    let mut p = new_proposal();
    assert!(matches!(p.confirm(1_500).unwrap_err(), OracleError::ChallengeWindowOpen));
    let outcome = p.confirm(1_000 + 86_400 + 1).unwrap();
    assert_eq!(outcome, 0);
    assert_eq!(p.state, ProposalState::Confirmed);
}

#[test]
fn challenge_blocks_confirmation() {
    let mut p = new_proposal();
    p.challenge([2; 32], 1_000_000).unwrap();
    assert_eq!(p.state, ProposalState::Challenged);
    assert!(matches!(p.confirm(2_000_000).unwrap_err(), OracleError::InvalidTransition));
}

#[test]
fn dvm_settlement_pays_winner() {
    let mut p = new_proposal();
    p.challenge([2; 32], 1_000_000).unwrap();
    // DVM rules in favour of the challenger -- outcome 1 wins.
    let s = p.settle_from_dvm(1).unwrap();
    assert!(!s.proposer_bond_returned);
    assert!(s.challenger_bond_returned);
    assert_eq!(s.transfer_amount, 500_000);
}

#[test]
fn multi_source_requires_threshold() {
    let mut agg = MultiSourceConsensus::new(3, 60);
    agg.ingest(FeedSample { source: [1; 32], value: 100, confidence: 1, timestamp: 0 });
    agg.ingest(FeedSample { source: [2; 32], value: 110, confidence: 1, timestamp: 0 });
    assert!(matches!(
        agg.aggregate(30).unwrap_err(),
        OracleError::NoConsensus { confirms: 2, needed: 3 }
    ));
    agg.ingest(FeedSample { source: [3; 32], value: 105, confidence: 1, timestamp: 0 });
    let (median, n) = agg.aggregate(30).unwrap();
    assert_eq!(median, 105);
    assert_eq!(n, 3);
}

#[test]
fn multi_source_drops_stale_samples() {
    let mut agg = MultiSourceConsensus::new(2, 30);
    agg.ingest(FeedSample { source: [1; 32], value: 100, confidence: 1, timestamp: 0 });
    agg.ingest(FeedSample { source: [2; 32], value: 200, confidence: 1, timestamp: 50 });
    agg.ingest(FeedSample { source: [3; 32], value: 300, confidence: 1, timestamp: 60 });
    // At now=70 only the second and third samples remain fresh.
    let (median, _) = agg.aggregate(70).unwrap();
    assert_eq!(median, 250);
}

#[test]
fn binary_resolution_chooses_correct_side() {
    let mut agg = MultiSourceConsensus::new(2, 60);
    agg.ingest(FeedSample { source: [1; 32], value: 100, confidence: 1, timestamp: 0 });
    agg.ingest(FeedSample { source: [2; 32], value: 110, confidence: 1, timestamp: 0 });
    assert_eq!(agg.resolve_binary(30, 105).unwrap(), 0); // median 105 >= 105
    assert_eq!(agg.resolve_binary(30, 200).unwrap(), 1); // median 105 < 200
}

#[test]
fn second_challenge_is_refused() {
    let mut p = new_proposal();
    p.challenge([2; 32], 10).unwrap();
    assert_eq!(p.challenge([3; 32], 20).unwrap_err(), OracleError::InvalidTransition);
    assert_eq!(p.challenger, Some([2; 32]));
    assert_eq!(p.challenger_bond, 10);
    let mut q = new_proposal();
    q.challenger = Some([9; 32]);
    assert_eq!(q.challenge([3; 32], 20).unwrap_err(), OracleError::AlreadyChallenged);
    assert_eq!(q.state, ProposalState::Proposed);
}

#[test]
fn confirmed_and_settled_proposals_are_final() {
    let mut p = new_proposal();
    p.confirm(1_000 + 86_400).unwrap();
    assert_eq!(p.challenge([2; 32], 5).unwrap_err(), OracleError::InvalidTransition);
    assert_eq!(p.settle_from_dvm(0).unwrap_err(), OracleError::InvalidTransition);
    assert_eq!(p.confirm(10_000_000).unwrap_err(), OracleError::InvalidTransition);
    assert_eq!(p.state, ProposalState::Confirmed);

    let mut q = new_proposal();
    q.challenge([2; 32], 300).unwrap();
    let s = q.settle_from_dvm(0).unwrap();
    assert!(s.proposer_bond_returned);
    assert!(!s.challenger_bond_returned);
    assert_eq!(s.transfer_amount, 150);
    assert_eq!(q.settle_from_dvm(0).unwrap_err(), OracleError::InvalidTransition);
    assert_eq!(q.state, ProposalState::Settled);
}

#[test]
fn settlement_moves_half_the_losing_bond() {
    let mut p = new_proposal(); // proposer bond 1_000_000
    p.challenge([2; 32], 2_000_000).unwrap();
    let s = p.settle_from_dvm(0).unwrap(); // proposer right: challenger loses
    assert_eq!(s.transfer_amount, 1_000_000);
    let mut q = new_proposal();
    q.challenge([2; 32], 2_000_000).unwrap();
    let t = q.settle_from_dvm(1).unwrap(); // challenger right: proposer loses
    assert_eq!(t.transfer_amount, 500_000);
}

#[test]
fn settle_needs_a_challenge() {
    let mut p = new_proposal();
    assert_eq!(p.settle_from_dvm(0).unwrap_err(), OracleError::InvalidTransition);
    assert_eq!(p.state, ProposalState::Proposed);
}

#[test]
fn ingest_replaces_a_source() {
    let mut agg = MultiSourceConsensus::new(1, 100);
    agg.ingest(sample(1, 10, 0));
    agg.ingest(sample(2, 20, 0));
    agg.ingest(sample(1, 30, 5));
    assert_eq!(agg.samples.len(), 2);
    assert_eq!(agg.samples[0].value, 20);
    assert_eq!(agg.samples[1].value, 30);
    assert_eq!(agg.aggregate(10).unwrap(), (25, 2));
}

#[test]
fn median_of_unsorted_odd_and_negative_even_sets() {
    let mut agg = MultiSourceConsensus::new(1, 1_000);
    agg.ingest(sample(1, 9, 0));
    agg.ingest(sample(2, -4, 0));
    agg.ingest(sample(3, 7, 0));
    agg.ingest(sample(4, 1, 0));
    agg.ingest(sample(5, 100, 0));
    assert_eq!(agg.aggregate(0).unwrap(), (7, 5));
    let mut neg = MultiSourceConsensus::new(2, 1_000);
    neg.ingest(sample(1, -3, 0));
    neg.ingest(sample(2, -4, 0));
    // (-4 + -3) / 2 rounds toward zero
    assert_eq!(neg.aggregate(0).unwrap(), (-3, 2));
}

#[test]
fn zero_threshold_with_stale_feeds_reports_no_consensus_only_when_needed() {
    let mut agg = MultiSourceConsensus::new(1, 10);
    agg.ingest(sample(1, 5, 0));
    assert_eq!(
        agg.aggregate(100).unwrap_err(),
        OracleError::NoConsensus { confirms: 0, needed: 1 }
    );
    assert_eq!(
        agg.resolve_binary(100, 0).unwrap_err(),
        OracleError::NoConsensus { confirms: 0, needed: 1 }
    );
}

#[test]
fn agreeing_sources_give_their_common_value() {
    let mut agg = MultiSourceConsensus::new(4, 10);
    for s in 1..=4u8 {
        agg.ingest(sample(s, -17, 3));
    }
    assert_eq!(agg.aggregate(5).unwrap(), (-17, 4));
}

#[test]
fn more_than_255_fresh_sources_still_reach_consensus() {
    let mut agg = MultiSourceConsensus::new(200, 10);
    for i in 0..256u32 {
        let mut source = [0u8; 32];
        source[0] = (i % 256) as u8;
        source[1] = (i / 256) as u8;
        agg.ingest(FeedSample { source, value: i as i128, confidence: 1, timestamp: 0 });
    }
    assert_eq!(agg.samples.len(), 256);
    // the count of 256 fresh sources reads as 0 in a u8, but clears the threshold
    assert_eq!(agg.aggregate(5).unwrap(), (127, 0));
}
