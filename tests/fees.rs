use melminter::fees::{FeeDecision, FeeSchedule, TxKind, fee_decision};

#[test]
fn alternating_profit_and_loss() {
    let mut f = FeeSchedule::new(false, false, 100, true);
    f.record(TxKind::DoscMint, 1, 1000, 50, 10); // loss 40
    f.record(TxKind::Swap, 2, 1000, 10, 30); // profit 20 -> 20
    f.record(TxKind::DoscMint, 3, 1000, 70, 0); // loss 70 -> 90
    f.record(TxKind::Swap, 4, 1000, 0, 500); // profit 500 -> 0
    let v = f.failsafe();
    assert_eq!(v.lost, 0);
    assert!(!v.warn);
    assert!(!v.abort);
}

#[test]
fn seed_issuance_is_left_out() {
    let mut f = FeeSchedule::new(false, false, 100, true);
    f.record(TxKind::Normal, 1, 1000, 500, 0);
    f.record(TxKind::DoscMint, 2, 1000, 30, 10);
    let v = f.failsafe();
    assert_eq!(v.lost, 20);
    assert!(v.warn);
    assert!(!v.abort);
}

#[test]
fn breach_aborts_only_when_allowed() {
    let mut f = FeeSchedule::new(false, false, 100, true);
    f.record(TxKind::DoscMint, 1, 1000, 150, 50);
    let v = f.failsafe();
    assert_eq!(v.lost, 100);
    assert!(v.abort);
    f.quit = false;
    assert!(!f.failsafe().abort);
}

#[test]
fn loss_just_under_tolerance_does_not_abort() {
    let mut f = FeeSchedule::new(false, false, 100, true);
    f.record(TxKind::DoscMint, 1, 1000, 149, 50);
    let v = f.failsafe();
    assert_eq!(v.lost, 99);
    assert!(!v.abort);
}

#[test]
fn empty_ledger() {
    let f = FeeSchedule::new(false, false, 1, true);
    assert_eq!(f.failsafe().lost, 0);
    assert!(f.accepts_time(0));
}

#[test]
fn timestamps_must_increase() {
    let mut f = FeeSchedule::new(false, false, 1, true);
    f.record(TxKind::Swap, 10, 0, 0, 0);
    assert!(!f.accepts_time(10));
    assert!(!f.accepts_time(9));
    assert!(f.accepts_time(11));
}

#[test]
fn fee_decisions() {
    assert_eq!(fee_decision(5, 10, true, false), FeeDecision::Send);
    assert_eq!(fee_decision(10, 10, true, false), FeeDecision::SendWithWarning);
    assert_eq!(fee_decision(11, 10, true, false), FeeDecision::Refuse);
    assert_eq!(fee_decision(11, 10, true, true), FeeDecision::SendWithWarning);
    assert_eq!(fee_decision(11, 10, false, false), FeeDecision::SendWithWarning);
    let f = FeeSchedule::new(true, false, 1, true);
    assert_eq!(f.check_fee(11, 10, true), FeeDecision::SendWithWarning);
}
