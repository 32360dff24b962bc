use wagr::errors::OutcomeError;
use wagr::outcome_token::{OutcomeShares, MAX_OUTCOMES};

#[test]
fn binary_split_round_trip() {
    let mut bal = OutcomeShares::new(2).unwrap();
    bal.add(0, 100).unwrap();
    bal.add(1, 100).unwrap();
    assert_eq!(bal.total(), 200);
    assert_eq!(bal.merge_capacity(), 100);
    bal.sub(0, 60).unwrap();
    assert_eq!(bal.merge_capacity(), 40);
}

#[test]
fn rejects_invalid_outcome_count() {
    assert!(OutcomeShares::new(1).is_err());
    assert!(OutcomeShares::new(MAX_OUTCOMES + 1).is_err());
    assert!(OutcomeShares::new(2).is_ok());
    assert!(OutcomeShares::new(MAX_OUTCOMES).is_ok());
}

#[test]
fn rejects_out_of_range_outcome() {
    let mut bal = OutcomeShares::new(3).unwrap();
    assert_eq!(
        bal.add(3, 10).unwrap_err(),
        OutcomeError::OutcomeOutOfRange { index: 3, count: 3 }
    );
}

#[test]
fn rejects_zero_amount() {
    let mut bal = OutcomeShares::new(2).unwrap();
    assert_eq!(bal.add(0, 0).unwrap_err(), OutcomeError::ZeroAmount);
}

#[test]
fn rejects_underflow() {
    let mut bal = OutcomeShares::new(2).unwrap();
    bal.add(0, 10).unwrap();
    assert!(matches!(
        bal.sub(0, 11).unwrap_err(),
        OutcomeError::BalanceUnderflow { .. }
    ));
}

#[test]
fn new_reports_the_cap_on_bad_counts() {
    assert_eq!(
        OutcomeShares::new(0).unwrap_err(),
        OutcomeError::InvalidOutcomeCount { max: 16 }
    );
    let s = OutcomeShares::new(16).unwrap();
    assert_eq!(s.outcome_count, 16);
    assert_eq!(s.shares, [0u64; 16]);
}

#[test]
fn balance_reads_and_checks_the_index() {
    let mut bal = OutcomeShares::new(3).unwrap();
    bal.add(2, 7).unwrap();
    assert_eq!(bal.balance(2).unwrap(), 7);
    assert_eq!(bal.balance(0).unwrap(), 0);
    assert_eq!(
        bal.balance(3).unwrap_err(),
        OutcomeError::OutcomeOutOfRange { index: 3, count: 3 }
    );
}

#[test]
fn add_overflow_leaves_balance_untouched() {
    let mut bal = OutcomeShares::new(2).unwrap();
    bal.add(1, u64::MAX).unwrap();
    assert_eq!(
        bal.add(1, 1).unwrap_err(),
        OutcomeError::BalanceOverflow { outcome: 1 }
    );
    assert_eq!(bal.balance(1).unwrap(), u64::MAX);
}

#[test]
fn sub_rejects_zero_and_out_of_range() {
    let mut bal = OutcomeShares::new(2).unwrap();
    bal.add(0, 5).unwrap();
    assert_eq!(bal.sub(0, 0).unwrap_err(), OutcomeError::ZeroAmount);
    assert_eq!(
        bal.sub(2, 1).unwrap_err(),
        OutcomeError::OutcomeOutOfRange { index: 2, count: 2 }
    );
    assert_eq!(
        bal.sub(1, 1).unwrap_err(),
        OutcomeError::BalanceUnderflow { outcome: 1 }
    );
    bal.sub(0, 5).unwrap();
    assert_eq!(bal.balance(0).unwrap(), 0);
}

#[test]
fn total_saturates_and_ignores_dead_slots() {
    let mut bal = OutcomeShares::new(3).unwrap();
    bal.add(0, u64::MAX).unwrap();
    bal.add(1, 5).unwrap();
    assert_eq!(bal.total(), u64::MAX);
    let mut raw = OutcomeShares::new(2).unwrap();
    raw.shares[5] = 1_000; // outside the live slots
    raw.add(0, 3).unwrap();
    raw.add(1, 4).unwrap();
    assert_eq!(raw.total(), 7);
    assert_eq!(raw.merge_capacity(), 3);
}

#[test]
fn merge_capacity_of_no_outcomes_is_zero() {
    let empty = OutcomeShares { outcome_count: 0, shares: [9u64; 16] };
    assert_eq!(empty.merge_capacity(), 0);
    assert_eq!(empty.total(), 0);
    let wide = OutcomeShares { outcome_count: 40, shares: [2u64; 16] };
    assert_eq!(wide.total(), 32);
    assert_eq!(wide.merge_capacity(), 2);
}

#[test]
fn sub_undoes_add() {
    let mut bal = OutcomeShares::new(4).unwrap();
    bal.add(3, 17).unwrap();
    let before = bal;
    bal.add(3, 5).unwrap();
    bal.sub(3, 5).unwrap();
    assert_eq!(bal, before);
}
