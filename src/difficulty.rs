//! Difficulty selection and solve-time calibration.
use vstd::prelude::*;

verus! {

/// Target factor on the production network: about an eight-hour solve.
pub const MAINNET_TARGET_FACTOR: u64 = 30000;

/// Target factor on any other network: about a two-minute solve.
pub const TESTNET_TARGET_FACTOR: u64 = 120;

/// The largest difficulty at which a proof can still be verified.
pub const MAX_DIFFICULTY: usize = 100;

/// Calibration stops once the implied solve time is this close to the target, in seconds.
pub const CALIBRATION_TOLERANCE_SECS: u64 = 180;

/// Calibration gives up after this many adjustments.
pub const CALIBRATION_MAX_STEPS: u32 = 20000;

/// The adjustment step shrinks by a tenth after each run of this many adjustments.
pub const CALIBRATION_DECAY_PERIOD: u32 = 10000;

/// The smallest calibration step, in hashes.
pub const CALIBRATION_MIN_STEP: u128 = 4096;

/// 2 to the power `d`.
pub open spec fn two_pow(d: nat) -> nat
    decreases d,
{
    if d == 0 {
        1
    } else {
        2 * two_pow((d - 1) as nat)
    }
}

pub proof fn lemma_two_pow_monotonic(a: nat, b: nat)
    requires
        a <= b,
    ensures
        two_pow(a) <= two_pow(b),
        1 <= two_pow(a),
    decreases b,
{
    if b > a {
        lemma_two_pow_monotonic(a, (b - 1) as nat);
    } else if a > 0 {
        lemma_two_pow_monotonic((a - 1) as nat, (a - 1) as nat);
    }
}

pub proof fn lemma_two_pow_add(a: nat, b: nat)
    ensures
        two_pow(a + b) == two_pow(a) * two_pow(b),
    decreases a,
{
    if a > 0 {
        let prev = (a - 1) as nat;
        lemma_two_pow_add(prev, b);
        assert(two_pow(a) == 2 * two_pow(prev));
        assert(two_pow(a + b) == 2 * two_pow(prev + b));
        let x = two_pow(prev);
        let y = two_pow(b);
        assert(2 * (x * y) == (2 * x) * y) by (nonlinear_arith);
    } else {
        assert(two_pow(0) == 1);
        assert(a + b == b);
    }
}

/// The powers of two that bound the machine arithmetic below.
pub proof fn lemma_two_pow_table()
    ensures
        two_pow(80) == 0x1_0000_0000_0000_0000_0000,
        two_pow(100) == 0x10_0000_0000_0000_0000_0000_0000,
        two_pow(126) == 0x4000_0000_0000_0000_0000_0000_0000_0000,
{
    assert(two_pow(16) == 0x1_0000) by {
        reveal_with_fuel(two_pow, 17);
    }
    assert(two_pow(4) == 16) by {
        reveal_with_fuel(two_pow, 5);
    }
    assert(two_pow(14) == 0x4000) by {
        reveal_with_fuel(two_pow, 15);
    }
    lemma_two_pow_add(16, 16);
    assert(two_pow(32) == 0x1_0000_0000);
    lemma_two_pow_add(32, 32);
    assert(two_pow(64) == 0x1_0000_0000_0000_0000);
    lemma_two_pow_add(64, 16);
    assert(two_pow(80) == 0x1_0000_0000_0000_0000_0000);
    lemma_two_pow_add(80, 16);
    assert(two_pow(96) == 0x1_0000_0000_0000_0000_0000_0000);
    lemma_two_pow_add(96, 4);
    lemma_two_pow_add(96, 16);
    assert(two_pow(112) == 0x1_0000_0000_0000_0000_0000_0000_0000);
    lemma_two_pow_add(112, 14);
}

/// A product of bounded non-negative factors is bounded by the product of the bounds.
pub proof fn lemma_mul_bound(a: int, b: int, ma: int, mb: int)
    requires
        0 <= a <= ma,
        0 <= b <= mb,
    ensures
        0 <= a * b <= ma * mb,
{
    assert(0 <= a * b <= ma * mb) by (nonlinear_arith)
        requires
            0 <= a <= ma,
            0 <= b <= mb,
    ;
}

/// `d` is the ceiling of the base-2 logarithm of `x`, with 0 for `x` below 2.
pub open spec fn is_ceil_log2(x: nat, d: nat) -> bool {
    &&& x <= two_pow(d)
    &&& (d == 0 || two_pow((d - 1) as nat) < x)
}

/// The target factor of the network: production or not.
pub open spec fn target_factor(mainnet: bool) -> nat {
    if mainnet {
        MAINNET_TARGET_FACTOR as nat
    } else {
        TESTNET_TARGET_FACTOR as nat
    }
}

/// `2^d` as a machine integer.
pub fn pow2_u128(d: usize) -> (r: u128)
    requires
        d <= 127,
    ensures
        r == two_pow(d as nat),
{
    let mut p: u128 = 1;
    let mut i: usize = 0;
    while i < d
        invariant
            i <= d <= 127,
            p == two_pow(i as nat),
        decreases d - i,
    {
        proof {
            lemma_two_pow_monotonic(i as nat, 126);
            lemma_two_pow_table();
        }
        p = p * 2;
        i = i + 1;
    }
    p
}

/// The automatic difficulty: the ceiling of log2(speed × target factor), where `speed`
/// is the measured hash rate in hashes per second.
pub fn auto_difficulty(speed: u64, mainnet: bool) -> (d: usize)
    ensures
        is_ceil_log2((speed as nat) * target_factor(mainnet), d as nat),
        d <= 80,
{
    let factor: u128 = if mainnet {
        MAINNET_TARGET_FACTOR as u128
    } else {
        TESTNET_TARGET_FACTOR as u128
    };
    let x: u128 = speed as u128 * factor;
    assert(x < 0x1_0000_0000_0000_0000_0000) by (nonlinear_arith)
        requires
            x == speed as u128 * factor,
            factor <= 30000,
            speed <= u64::MAX,
    ;
    let mut p: u128 = 1;
    let mut d: usize = 0;
    while p < x
        invariant
            x < 0x1_0000_0000_0000_0000_0000,
            p == two_pow(d as nat),
            p >= 1,
            d <= 80,
            d == 0 || two_pow((d - 1) as nat) < x,
            p <= 2 * x || d == 0,
        decreases 80 - d,
    {
        proof {
            if d >= 80 {
                lemma_two_pow_monotonic(80, d as nat);
                lemma_two_pow_table();
            }
        }
        p = p * 2;
        d = d + 1;
    }
    d
}

/// The difficulty to mine at: a fixed difficulty when one is given and is not below the
/// automatic one, the automatic difficulty otherwise.
pub fn effective_difficulty(auto: usize, fixed: Option<u8>) -> (d: usize)
    ensures
        d == match fixed {
            Some(f) => if f as usize >= auto { f as usize } else { auto },
            None => auto,
        },
{
    match fixed {
        Some(f) => {
            if f as usize >= auto {
                f as usize
            } else {
                auto
            }
        },
        None => auto,
    }
}

/// How the worker chooses its difficulty.
#[derive(Clone, Copy, Debug, PartialEq, Eq)]
pub enum DifficultyPolicy {
    /// From the measured speed alone.
    Auto,
    /// Never below the given difficulty.
    FixedDifficulty(u8),
    /// Automatic difficulty, with the solve time calibrated towards the given seconds.
    FixedDuration(u32),
}

/// A configuration that names both a fixed difficulty and a fixed duration.
#[derive(Clone, Copy, Debug, PartialEq, Eq)]
pub struct ConflictingDifficultyOptions;

/// The policy that the options ask for; both options at once is a configuration error.
pub fn difficulty_policy(fixed_diff: Option<u8>, fixed_secs: Option<u32>) -> (r: Result<
    DifficultyPolicy,
    ConflictingDifficultyOptions,
>)
    ensures
        (fixed_diff is Some && fixed_secs is Some) <==> r is Err,
        fixed_diff is None && fixed_secs is None ==> r == Ok::<
            DifficultyPolicy,
            ConflictingDifficultyOptions,
        >(DifficultyPolicy::Auto),
        fixed_secs is None ==> (fixed_diff matches Some(f) ==> r == Ok::<
            DifficultyPolicy,
            ConflictingDifficultyOptions,
        >(DifficultyPolicy::FixedDifficulty(f))),
        fixed_diff is None ==> (fixed_secs matches Some(s) ==> r == Ok::<
            DifficultyPolicy,
            ConflictingDifficultyOptions,
        >(DifficultyPolicy::FixedDuration(s))),
{
    match (fixed_diff, fixed_secs) {
        (Some(_), Some(_)) => Err(ConflictingDifficultyOptions),
        (Some(f), None) => Ok(DifficultyPolicy::FixedDifficulty(f)),
        (None, Some(s)) => Ok(DifficultyPolicy::FixedDuration(s)),
        (None, None) => Ok(DifficultyPolicy::Auto),
    }
}

/// The difficulty a policy selects, given the automatic difficulty.
pub fn policy_difficulty(policy: DifficultyPolicy, auto: usize) -> (d: usize)
    ensures
        d == match policy {
            DifficultyPolicy::FixedDifficulty(f) => if f as usize >= auto { f as usize } else { auto },
            _ => auto,
        },
{
    match policy {
        DifficultyPolicy::FixedDifficulty(f) => effective_difficulty(auto, Some(f)),
        _ => effective_difficulty(auto, None),
    }
}

/// The implied solve time of `total` hashes is within tolerance of `target` seconds.
pub open spec fn within_tolerance(total: int, speed: int, target: int) -> bool {
    speed * (target - CALIBRATION_TOLERANCE_SECS) <= total <= speed * (target
        + CALIBRATION_TOLERANCE_SECS)
}

/// The step after the `done`-th adjustment.
pub open spec fn next_step(offset: int, done: int) -> int {
    if done % (CALIBRATION_DECAY_PERIOD as int) == 0 {
        offset - offset / 10
    } else {
        offset
    }
}

/// The hash count that calibration settles on, from `total` after `done` adjustments:
/// move by `offset` towards the target until within tolerance or out of adjustments.
pub open spec fn calibrated(total: int, offset: int, speed: int, target: int, done: nat) -> int
    decreases CALIBRATION_MAX_STEPS - done,
{
    if within_tolerance(total, speed, target) || done >= CALIBRATION_MAX_STEPS {
        total
    } else {
        let next = if total > speed * target {
            total - offset
        } else {
            total + offset
        };
        calibrated(next, next_step(offset, done + 1 as int), speed, target, (done + 1) as nat)
    }
}

/// The first calibration step: a two-hundredth of the work, at least the minimum step.
pub open spec fn first_step(total: int) -> int {
    if total / 200 < CALIBRATION_MIN_STEP {
        CALIBRATION_MIN_STEP as int
    } else {
        total / 200
    }
}

/// The estimated solve time in seconds at `difficulty`: `2^difficulty / speed`, where the
/// hash count is first calibrated towards `target` seconds when a target is given.
pub open spec fn approx_solve_secs(difficulty: nat, speed: nat, target: Option<u32>) -> nat {
    let total = two_pow(difficulty) as int;
    let settled = match target {
        Some(t) => calibrated(total, first_step(total), speed as int, t as int, 0),
        None => total,
    };
    if settled <= 0 {
        0
    } else {
        (settled / (speed as int)) as nat
    }
}

/// Moves `total0` hashes towards `target` seconds at `speed` hashes per second, in steps
/// that start at a two-hundredth of the work and shrink over time, until the implied
/// solve time is within tolerance or the adjustments run out.
pub fn calibrate_total(total0: u128, speed: u64, target: u32) -> (total: i128)
    requires
        total0 <= 0x10_0000_0000_0000_0000_0000_0000,
        speed > 0,
    ensures
        total == calibrated(total0 as int, first_step(total0 as int), speed as int, target as int, 0),
{
    let offset0: u128 = if total0 / 200 < CALIBRATION_MIN_STEP {
        CALIBRATION_MIN_STEP
    } else {
        total0 / 200
    };
    let ghost start = total0 as int;
    let ghost step0 = offset0 as int;
    let ghost big: int = 0x10_0000_0000_0000_0000_0000_0000;
    proof {
        lemma_mul_bound(speed as int, target as int + 180, 0xffff_ffff_ffff_ffff, 0x1_0000_00b4);
        lemma_mul_bound(speed as int, target as int, 0xffff_ffff_ffff_ffff, 0x1_0000_0000);
        lemma_mul_bound(speed as int, 180, 0xffff_ffff_ffff_ffff, 180);
    }
    let sp: i128 = speed as i128;
    let tg: i128 = target as i128;
    let tol: i128 = CALIBRATION_TOLERANCE_SECS as i128;
    let hi: i128 = sp * (tg + tol);
    let mid: i128 = sp * tg;
    let lo: i128 = mid - sp * tol;
    assert(lo == sp * (tg - tol)) by (nonlinear_arith)
        requires
            lo == sp * tg - sp * tol,
    ;
    let mut total: i128 = total0 as i128;
    let mut offset: i128 = offset0 as i128;
    let mut done: u32 = 0;
    while !(lo <= total && total <= hi) && done < CALIBRATION_MAX_STEPS
        invariant
            hi == sp * (tg + tol),
            lo == sp * (tg - tol),
            mid == sp * tg,
            sp == speed,
            tg == target,
            tol == CALIBRATION_TOLERANCE_SECS,
            done <= CALIBRATION_MAX_STEPS,
            0 <= offset <= step0 <= big,
            0 <= start <= big,
            big == 0x10_0000_0000_0000_0000_0000_0000,
            start - done * step0 <= total <= start + done * step0,
            calibrated(total as int, offset as int, sp as int, tg as int, done as nat)
                == calibrated(start, step0, sp as int, tg as int, 0),
        decreases CALIBRATION_MAX_STEPS - done,
    {
        proof {
            lemma_mul_bound(done as int, step0, 20000, big);
            lemma_mul_bound(done as int + 1, step0, 20001, big);
            assert((done + 1) * step0 == done * step0 + step0) by (nonlinear_arith);
        }
        if total > mid {
            total = total - offset;
        } else {
            total = total + offset;
        }
        done = done + 1;
        if done % CALIBRATION_DECAY_PERIOD == 0 {
            offset = offset - offset / 10;
        }
    }
    total
}

/// Estimates the solve time in seconds at `difficulty` for a hash rate of `speed`
/// hashes per second, calibrated towards `target` seconds when one is given.
pub fn approx_round_secs(difficulty: usize, speed: u64, target: Option<u32>) -> (secs: u128)
    requires
        difficulty <= MAX_DIFFICULTY,
        speed > 0,
    ensures
        secs == approx_solve_secs(difficulty as nat, speed as nat, target),
{
    proof {
        lemma_two_pow_monotonic(difficulty as nat, 100);
        lemma_two_pow_table();
    }
    let total0 = pow2_u128(difficulty);
    let settled: i128 = match target {
        None => total0 as i128,
        Some(t) => calibrate_total(total0, speed, t),
    };
    if settled <= 0 {
        0
    } else {
        settled as u128 / speed as u128
    }
}

} // verus!
