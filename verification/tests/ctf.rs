use wagr::ctf::{merge_positions, redeem_payout, split_position};
use wagr::errors::OutcomeError;
use wagr::market::{MarketState, OutcomeMarket, ResolutionSource};
use wagr::outcome_token::{OutcomeShares, MAX_OUTCOMES};

fn open_market(outcome_count: u8, fee_bps: u16) -> OutcomeMarket {
    OutcomeMarket {
        market_id: 1,
        authority: [0; 32],
        question: String::from("test"),
        outcome_count,
        resolution_source: ResolutionSource::Manual { authority: [0; 32] },
        resolution_deadline: 1_000_000_000,
        state: MarketState::Open,
        collateral_mint: [0; 32],
        collateral_vault: [0; 32],
        outcome_mints: [[0; 32]; MAX_OUTCOMES as usize],
        lmsr_b: 1_000_000,
        total_volume: 0,
        fee_bps,
        created_at: 0,
    }
}

#[test]
fn split_then_merge_returns_collateral() {
    let mut market = open_market(2, 0);
    let mut shares = OutcomeShares::new(2).unwrap();
    let split = split_position(&mut market, &mut shares, 1_000).unwrap();
    assert_eq!(split.collateral_in, 1_000);
    assert_eq!(split.shares_out, 1_000);
    assert_eq!(shares.merge_capacity(), 1_000);

    let merged = merge_positions(&mut market, &mut shares, 600).unwrap();
    assert_eq!(merged, 600);
    assert_eq!(shares.merge_capacity(), 400);
}

#[test]
fn split_charges_fee() {
    let mut market = open_market(2, 100); // 1% fee
    let mut shares = OutcomeShares::new(2).unwrap();
    let split = split_position(&mut market, &mut shares, 10_000).unwrap();
    assert_eq!(split.fee_taken, 100);
    assert_eq!(split.shares_out, 9_900);
}

#[test]
fn redeem_pays_winner_only() {
    let mut market = open_market(2, 0);
    let mut shares = OutcomeShares::new(2).unwrap();
    split_position(&mut market, &mut shares, 1_000).unwrap();
    market.state = MarketState::Resolved { winning_outcome: 0 };

    let payout = redeem_payout(&mut market, &mut shares).unwrap();
    assert_eq!(payout, 1_000);
    assert_eq!(shares.balance(0).unwrap(), 0);
    assert_eq!(shares.balance(1).unwrap(), 1_000); // losing side stays zero-value
}

#[test]
fn merge_rejects_zero_amount() {
    let mut market = open_market(2, 0);
    let mut shares = OutcomeShares::new(2).unwrap();
    assert_eq!(
        merge_positions(&mut market, &mut shares, 0).unwrap_err(),
        OutcomeError::ZeroAmount
    );
}

#[test]
fn cannot_split_after_close() {
    let mut market = open_market(2, 0);
    market.state = MarketState::Closed;
    let mut shares = OutcomeShares::new(2).unwrap();
    assert_eq!(
        split_position(&mut market, &mut shares, 100).unwrap_err(),
        OutcomeError::MarketClosed
    );
}

#[test]
fn split_then_full_merge_restores_balances_and_counts_volume() {
    let mut market = open_market(3, 0);
    let mut shares = OutcomeShares::new(3).unwrap();
    shares.add(1, 5).unwrap();
    let before = shares;
    split_position(&mut market, &mut shares, 250).unwrap();
    assert_eq!(shares.shares[0], 250);
    assert_eq!(shares.shares[1], 255);
    assert_eq!(shares.shares[2], 250);
    merge_positions(&mut market, &mut shares, 250).unwrap();
    assert_eq!(shares, before);
    assert_eq!(market.total_volume, 500);
}

#[test]
fn split_fee_plus_shares_is_the_collateral() {
    let mut market = open_market(2, 333);
    let mut shares = OutcomeShares::new(2).unwrap();
    let r = split_position(&mut market, &mut shares, 12_345).unwrap();
    // 12_345 * (1_000_000 - 33_300) / 1_000_000 = 11_933.9... -> 11_933
    assert_eq!(r.shares_out, 11_933);
    assert_eq!(r.fee_taken, 412);
    assert_eq!(r.shares_out + r.fee_taken, r.collateral_in);
}

#[test]
fn split_with_full_fee_mints_nothing_and_is_refused() {
    let mut market = open_market(2, 10_000);
    let mut shares = OutcomeShares::new(2).unwrap();
    assert_eq!(
        split_position(&mut market, &mut shares, 500).unwrap_err(),
        OutcomeError::ZeroAmount
    );
    assert_eq!(market.total_volume, 0);
}

#[test]
fn split_stops_at_the_first_refused_outcome() {
    let mut market = open_market(3, 0);
    let mut shares = OutcomeShares::new(2).unwrap();
    assert_eq!(
        split_position(&mut market, &mut shares, 10).unwrap_err(),
        OutcomeError::OutcomeOutOfRange { index: 2, count: 2 }
    );
    // a refused split mints nothing
    assert_eq!(shares.shares[0], 0);
    assert_eq!(shares.shares[1], 0);
    assert_eq!(market.total_volume, 0);
}

#[test]
fn split_rejects_zero_and_resolved_invalid() {
    let mut market = open_market(2, 0);
    let mut shares = OutcomeShares::new(2).unwrap();
    assert_eq!(
        split_position(&mut market, &mut shares, 0).unwrap_err(),
        OutcomeError::ZeroAmount
    );
    market.state = MarketState::ResolvedInvalid;
    assert_eq!(
        split_position(&mut market, &mut shares, 1).unwrap_err(),
        OutcomeError::MarketResolvedInvalid
    );
}

#[test]
fn merge_refused_after_resolution_but_allowed_when_closed() {
    let mut market = open_market(2, 0);
    let mut shares = OutcomeShares::new(2).unwrap();
    split_position(&mut market, &mut shares, 100).unwrap();
    market.state = MarketState::Closed;
    assert_eq!(merge_positions(&mut market, &mut shares, 40).unwrap(), 40);
    market.state = MarketState::Resolved { winning_outcome: 1 };
    assert_eq!(
        merge_positions(&mut market, &mut shares, 10).unwrap_err(),
        OutcomeError::MarketClosed
    );
}

#[test]
fn merge_past_capacity_underflows() {
    let mut market = open_market(2, 0);
    let mut shares = OutcomeShares::new(2).unwrap();
    shares.add(0, 50).unwrap();
    shares.add(1, 20).unwrap();
    assert_eq!(
        merge_positions(&mut market, &mut shares, 30).unwrap_err(),
        OutcomeError::BalanceUnderflow { outcome: 1 }
    );
    // a refused merge burns nothing
    assert_eq!(shares.shares[0], 50);
    assert_eq!(shares.shares[1], 20);
}

#[test]
fn refused_merge_leaves_every_balance() {
    let mut market = open_market(2, 0);
    let mut h = OutcomeShares::new(2).unwrap();
    h.add(0, 100).unwrap();
    h.add(1, 50).unwrap();
    assert_eq!(
        merge_positions(&mut market, &mut h, 60).unwrap_err(),
        OutcomeError::BalanceUnderflow { outcome: 1 }
    );
    assert_eq!(h.balance(0).unwrap(), 100);
    assert_eq!(h.balance(1).unwrap(), 50);
    assert_eq!(market.total_volume, 0);
}

#[test]
fn second_redeem_pays_nothing() {
    let mut market = open_market(3, 0);
    let mut h = OutcomeShares::new(3).unwrap();
    split_position(&mut market, &mut h, 70).unwrap();
    market.state = MarketState::Resolved { winning_outcome: 2 };
    assert_eq!(redeem_payout(&mut market, &mut h).unwrap(), 70);
    assert_eq!(redeem_payout(&mut market, &mut h).unwrap(), 0);
    assert_eq!(h.shares[0], 70);
    assert_eq!(h.shares[1], 70);
    assert_eq!(h.shares[2], 0);
    assert_eq!(market.total_volume, 140);
}

#[test]
fn redeem_before_resolution_is_refused() {
    let mut market = open_market(2, 0);
    let mut shares = OutcomeShares::new(2).unwrap();
    assert_eq!(
        redeem_payout(&mut market, &mut shares).unwrap_err(),
        OutcomeError::MarketNotResolved
    );
    market.state = MarketState::ResolvedInvalid;
    assert_eq!(
        redeem_payout(&mut market, &mut shares).unwrap_err(),
        OutcomeError::MarketResolvedInvalid
    );
}

#[test]
fn redeem_with_nothing_pays_zero() {
    let mut market = open_market(2, 0);
    market.state = MarketState::Resolved { winning_outcome: 1 };
    let mut shares = OutcomeShares::new(2).unwrap();
    assert_eq!(redeem_payout(&mut market, &mut shares).unwrap(), 0);
    assert_eq!(market.total_volume, 0);
    market.state = MarketState::Resolved { winning_outcome: 5 };
    assert_eq!(
        redeem_payout(&mut market, &mut shares).unwrap_err(),
        OutcomeError::OutcomeOutOfRange { index: 5, count: 2 }
    );
}

#[test]
fn merge_reclaims_exactly_the_merge_capacity() {
    let mut market = open_market(3, 0);
    let mut shares = OutcomeShares::new(3).unwrap();
    shares.add(0, 30).unwrap();
    shares.add(1, 12).unwrap();
    shares.add(2, 25).unwrap();
    let cap = shares.merge_capacity();
    assert_eq!(cap, 12);
    let mut probe = shares;
    assert!(merge_positions(&mut market, &mut probe, cap + 1).is_err());
    assert_eq!(merge_positions(&mut market, &mut shares, cap).unwrap(), 12);
    assert_eq!(shares.merge_capacity(), 0);
}
