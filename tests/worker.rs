use melminter::worker::{
    conversion_amount, next_phase, payout_amount, proof_reward, DisconnectWatch, WorkerPhase,
};

#[test]
fn phases_run_in_order() {
    let mut p = WorkerPhase::Calibrating;
    let order = [
        WorkerPhase::EnsuringSeeds,
        WorkerPhase::Minting,
        WorkerPhase::Submitting,
        WorkerPhase::Settling,
        WorkerPhase::Reporting,
        WorkerPhase::Calibrating,
    ];
    for expected in order {
        p = next_phase(p, false, false);
        assert_eq!(p, expected);
    }
}

#[test]
fn stop_is_honoured_only_at_the_checkpoint() {
    assert_eq!(next_phase(WorkerPhase::Minting, true, false), WorkerPhase::Submitting);
    assert_eq!(next_phase(WorkerPhase::Calibrating, true, false), WorkerPhase::Stopping);
    assert_eq!(next_phase(WorkerPhase::Settling, false, true), WorkerPhase::Aborted);
    assert_eq!(next_phase(WorkerPhase::Stopping, false, false), WorkerPhase::Stopping);
}

#[test]
fn reward_for_a_proof() {
    // 2^20 / (1000 + 40 - 990) = 20971; speed 2097100; 2^20 * 2097100 * 10^6 / (1000^2 * 2880)
    let r = proof_reward(20, 1000, 990, 1000);
    let expected = (1u128 << 20) * 2_097_100 * 1_000_000 / (1_000_000 * 2880);
    assert_eq!(r, expected);
    assert_ne!(r, 0);
}

#[test]
fn settlement_amounts() {
    assert_eq!(conversion_amount(0), None);
    assert_eq!(conversion_amount(7), Some(7));
    assert_eq!(payout_amount(true, 3_000_000), Some(1_500_000));
    assert_eq!(payout_amount(true, 1_000_000), None);
    assert_eq!(payout_amount(false, 3_000_000), None);
}

#[test]
fn disconnect_timeout() {
    let mut w = DisconnectWatch::new();
    assert!(!w.observe(false, 100));
    assert!(!w.observe(false, 700));
    assert!(w.observe(false, 701));
    assert!(!w.observe(true, 702));
    assert_eq!(w.since, None);
    assert!(!w.observe(false, 2000));
}
