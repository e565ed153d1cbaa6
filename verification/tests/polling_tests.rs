use chain_harness::commit::{
    commitment_decision, CommitmentWaiter, FundingReceipt, StatusObservation, TxStatus,
    WaitDecision, WaitState,
};
use chain_harness::driver::BlockDriver;
use chain_harness::errors::HarnessError;
use chain_harness::gate::{GateState, IndexerObservation, ReadinessGate};
use chain_harness::hash::Hash256;

fn hash(b: u8) -> Hash256 {
    Hash256::new([b; 32])
}

#[test]
fn hex_parses_prefixed_spelling() {
    let text: Vec<u8> = format!("0x{}", "0a".repeat(32)).into_bytes();
    let h = Hash256::from_hex(&text).unwrap();
    assert_eq!(h.bytes, [10u8; 32]);
}

#[test]
fn hex_parses_bare_spelling_and_mixed_case() {
    let text: Vec<u8> = "Ff".repeat(32).into_bytes();
    let h = Hash256::from_hex(&text).unwrap();
    assert_eq!(h.bytes, [255u8; 32]);
}

#[test]
fn hex_orders_digits_high_first() {
    let mut s = String::from("12");
    s.push_str(&"00".repeat(31));
    let h = Hash256::from_hex(s.as_bytes()).unwrap();
    assert_eq!(h.bytes[0], 0x12);
    assert_eq!(h.bytes[1], 0);
}

#[test]
fn hex_rejects_malformed_spellings() {
    assert!(Hash256::from_hex(b"").is_none());
    assert!(Hash256::from_hex(b"0x").is_none());
    // one digit short
    assert!(Hash256::from_hex("0a".repeat(32)[1..].as_bytes()).is_none());
    // a non-digit in the middle
    let mut bad = "0a".repeat(32).into_bytes();
    bad[10] = b'g';
    assert!(Hash256::from_hex(&bad).is_none());
}

#[test]
fn gate_waits_below_expected_height() {
    let mut gate = ReadinessGate::new(10);
    gate.observe(IndexerObservation::Tip(5));
    assert_eq!(gate.state, GateState::Polling);
    assert!(gate.resolution().is_none());
    gate.observe(IndexerObservation::Tip(9));
    assert_eq!(gate.state, GateState::Polling);
}

#[test]
fn gate_ready_at_expected_height() {
    let mut gate = ReadinessGate::new(10);
    gate.observe(IndexerObservation::NoTip);
    assert_eq!(gate.state, GateState::Polling);
    gate.observe(IndexerObservation::Tip(10));
    assert_eq!(gate.state, GateState::Ready(10));
    assert_eq!(gate.resolution(), Some(Ok(10)));
}

#[test]
fn gate_ready_above_expected_height() {
    let mut gate = ReadinessGate::new(3);
    gate.observe(IndexerObservation::Tip(7));
    assert_eq!(gate.state, GateState::Ready(7));
}

#[test]
fn gate_zero_height_ready_at_once() {
    let mut gate = ReadinessGate::new(0);
    gate.observe(IndexerObservation::Tip(0));
    assert_eq!(gate.state, GateState::Ready(0));
}

#[test]
fn gate_hard_failure_surfaces_indexer_error() {
    let mut gate = ReadinessGate::new(10);
    gate.observe(IndexerObservation::Failure);
    assert_eq!(gate.state, GateState::Failed);
    assert_eq!(gate.resolution(), Some(Err(HarnessError::IndexerError)));
}

#[test]
fn advance_counts_only_changed_tips() {
    let mut driver = BlockDriver::new(2);
    assert!(!driver.is_complete());
    // idempotent production: the reported hash equals the snapshot
    driver.record_production(&hash(1), &hash(1));
    assert_eq!(driver.remaining, 2);
    driver.record_production(&hash(1), &hash(2));
    assert_eq!(driver.remaining, 1);
    driver.record_production(&hash(2), &hash(2));
    assert_eq!(driver.remaining, 1);
    driver.record_production(&hash(2), &hash(3));
    assert_eq!(driver.remaining, 0);
    assert!(driver.is_complete());
}

#[test]
fn advance_zero_is_complete_at_once() {
    let driver = BlockDriver::new(0);
    assert!(driver.is_complete());
}

#[test]
fn decision_done_only_on_committed() {
    assert_eq!(
        commitment_decision(&StatusObservation::Found(TxStatus::Committed)),
        WaitDecision::Done
    );
    assert_eq!(
        commitment_decision(&StatusObservation::Found(TxStatus::Pending)),
        WaitDecision::Continue
    );
    assert_eq!(
        commitment_decision(&StatusObservation::Found(TxStatus::Proposed)),
        WaitDecision::Continue
    );
    assert_eq!(
        commitment_decision(&StatusObservation::Found(TxStatus::Unknown)),
        WaitDecision::Continue
    );
    assert_eq!(
        commitment_decision(&StatusObservation::Found(TxStatus::Rejected)),
        WaitDecision::Continue
    );
    assert_eq!(
        commitment_decision(&StatusObservation::NotFound),
        WaitDecision::Continue
    );
    assert_eq!(commitment_decision(&StatusObservation::Failure), WaitDecision::Fail);
}

#[test]
fn waiter_commits_in_whole_rounds_of_three() {
    // a funding transaction for 1000 units was submitted against a fresh
    // network at height zero: the transaction is unknown at first, then
    // pending, then committed after blocks are produced
    let receipt = FundingReceipt { tx_hash: hash(9), amount: 1000 };
    let mut waiter = CommitmentWaiter::for_receipt(&receipt, 3);
    waiter.complete_round(&StatusObservation::NotFound);
    assert_eq!(waiter.state, WaitState::Waiting);
    assert_eq!(waiter.blocks_advanced, 3);
    waiter.complete_round(&StatusObservation::Found(TxStatus::Pending));
    assert_eq!(waiter.state, WaitState::Waiting);
    assert_eq!(waiter.blocks_advanced, 6);
    waiter.complete_round(&StatusObservation::Found(TxStatus::Committed));
    assert_eq!(waiter.state, WaitState::Committed);
    assert!(waiter.is_committed());
    assert_eq!(waiter.blocks_advanced, 9);
    assert_eq!(waiter.blocks_advanced % 3, 0);
    assert_eq!(waiter.rounds, 3);
}

#[test]
fn waiter_failure_propagates() {
    let mut waiter = CommitmentWaiter::new(hash(9), 2);
    waiter.complete_round(&StatusObservation::Failure);
    assert_eq!(waiter.state, WaitState::Failed);
    assert!(!waiter.is_committed());
}

#[test]
fn waiter_never_succeeds_on_rejected() {
    let mut waiter = CommitmentWaiter::new(hash(9), 1);
    waiter.complete_round(&StatusObservation::Found(TxStatus::Rejected));
    assert_eq!(waiter.state, WaitState::Waiting);
    assert!(!waiter.is_committed());
}
