use wagr::errors::OutcomeError;
use wagr::market::{MarketState, OutcomeMarket, ResolutionSource};

fn market(state: MarketState) -> OutcomeMarket {
    OutcomeMarket {
        market_id: 9,
        authority: [4; 32],
        question: String::from("will it rain?"),
        outcome_count: 2,
        resolution_source: ResolutionSource::UmaOptimistic { bond: 10, challenge_window: 60 },
        resolution_deadline: 1_000,
        state,
        collateral_mint: [5; 32],
        collateral_vault: [6; 32],
        outcome_mints: [[0; 32]; 16],
        lmsr_b: 1_000,
        total_volume: 0,
        fee_bps: 0,
        created_at: 0,
    }
}

#[test]
fn ensure_open_by_state() {
    assert_eq!(market(MarketState::Open).ensure_open(), Ok(()));
    assert_eq!(market(MarketState::Closed).ensure_open(), Err(OutcomeError::MarketClosed));
    assert_eq!(market(MarketState::Disputed).ensure_open(), Err(OutcomeError::MarketClosed));
    assert_eq!(
        market(MarketState::Resolved { winning_outcome: 1 }).ensure_open(),
        Err(OutcomeError::MarketClosed)
    );
    assert_eq!(
        market(MarketState::ResolvedInvalid).ensure_open(),
        Err(OutcomeError::MarketResolvedInvalid)
    );
}

#[test]
fn ensure_resolved_by_state() {
    assert_eq!(market(MarketState::Resolved { winning_outcome: 1 }).ensure_resolved(), Ok(1));
    assert_eq!(
        market(MarketState::ResolvedInvalid).ensure_resolved(),
        Err(OutcomeError::MarketResolvedInvalid)
    );
    assert_eq!(
        market(MarketState::Open).ensure_resolved(),
        Err(OutcomeError::MarketNotResolved)
    );
    assert_eq!(
        market(MarketState::Disputed).ensure_resolved(),
        Err(OutcomeError::MarketNotResolved)
    );
}

#[test]
fn close_waits_for_the_deadline_and_only_from_open() {
    let mut m = market(MarketState::Open);
    assert_eq!(m.close(999), Err(OutcomeError::DeadlinePassed));
    assert_eq!(m.state, MarketState::Open);
    assert_eq!(m.close(1_000), Ok(()));
    assert_eq!(m.state, MarketState::Closed);
    assert_eq!(m.close(2_000), Err(OutcomeError::MarketClosed));
    assert_eq!(m.state, MarketState::Closed);
}

#[test]
fn record_volume_saturates() {
    let mut m = market(MarketState::Open);
    m.record_volume(40);
    m.record_volume(2);
    assert_eq!(m.total_volume, 42);
    m.record_volume(u64::MAX);
    assert_eq!(m.total_volume, u64::MAX);
}

#[test]
fn winning_outcome_only_when_resolved() {
    assert_eq!(MarketState::Resolved { winning_outcome: 3 }.winning_outcome(), Some(3));
    assert_eq!(MarketState::Closed.winning_outcome(), None);
    assert_eq!(MarketState::ResolvedInvalid.winning_outcome(), None);
}
