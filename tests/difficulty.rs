use melminter::difficulty::{
    approx_round_secs, auto_difficulty, calibrate_total, difficulty_policy, effective_difficulty,
    policy_difficulty, pow2_u128, ConflictingDifficultyOptions, DifficultyPolicy,
};

#[test]
fn auto_difficulty_mainnet_thousand_hashes() {
    // ceil(log2(1000 * 30000)) = ceil(log2(30_000_000)) = 25
    assert_eq!(auto_difficulty(1000, true), 25);
}

#[test]
fn auto_difficulty_testnet() {
    // 1000 * 120 = 120_000; 2^16 = 65536 < 120000 <= 2^17
    assert_eq!(auto_difficulty(1000, false), 17);
}

#[test]
fn auto_difficulty_exact_power() {
    // 2^15 * ... : 4096 * 30000 is not a power of two; 8 * 120 = 960 -> 10
    assert_eq!(auto_difficulty(8, false), 10);
    assert_eq!(auto_difficulty(0, true), 0);
}

#[test]
fn fixed_difficulty_below_auto_is_raised() {
    assert_eq!(effective_difficulty(25, Some(20)), 25);
}

#[test]
fn fixed_difficulty_above_auto_is_kept() {
    assert_eq!(effective_difficulty(25, Some(30)), 30);
    assert_eq!(effective_difficulty(25, None), 25);
}

#[test]
fn both_fixed_options_conflict() {
    assert_eq!(difficulty_policy(Some(20), Some(600)), Err(ConflictingDifficultyOptions));
    assert_eq!(difficulty_policy(Some(20), None), Ok(DifficultyPolicy::FixedDifficulty(20)));
    assert_eq!(difficulty_policy(None, Some(600)), Ok(DifficultyPolicy::FixedDuration(600)));
    assert_eq!(difficulty_policy(None, None), Ok(DifficultyPolicy::Auto));
}

#[test]
fn policy_selects_difficulty() {
    assert_eq!(policy_difficulty(DifficultyPolicy::FixedDifficulty(20), 25), 25);
    assert_eq!(policy_difficulty(DifficultyPolicy::FixedDuration(600), 25), 25);
}

#[test]
fn powers_of_two() {
    assert_eq!(pow2_u128(0), 1);
    assert_eq!(pow2_u128(25), 33_554_432);
}

#[test]
fn solve_time_without_target() {
    // 2^25 hashes at 1000 H/s: 33554 s
    assert_eq!(approx_round_secs(25, 1000, None), 33554);
}

#[test]
fn calibration_already_within_tolerance() {
    // 2^20 = 1048576 hashes at 1000 H/s is 1048 s; target 1000 s is within 180 s
    assert_eq!(calibrate_total(1 << 20, 1000, 1000), 1 << 20);
}

#[test]
fn calibration_moves_towards_target() {
    // 2^25 at 1000 H/s is 33554 s; the step is 2^25 / 200 = 167772 hashes
    let total = calibrate_total(1 << 25, 1000, 600);
    assert!(total >= 1000 * (600 - 180) && total <= 1000 * (600 + 180));
    assert_eq!(approx_round_secs(25, 1000, Some(600)), (total / 1000) as u128);
}
