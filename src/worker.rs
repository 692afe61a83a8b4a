//! The decisions of the worker loop: its phases, the reward it claims for a proof, what
//! it settles, and when a lost wallet connection stops it.
use vstd::prelude::*;
use crate::difficulty::{pow2_u128, two_pow, lemma_two_pow_monotonic, lemma_two_pow_table, MAX_DIFFICULTY};
use crate::fees::FeeSchedule;
use crate::seeds::SeedSchedule;
use crate::units::MICRO_PER_COIN;

verus! {

/// Above this native balance, half of it goes to the payout address: one coin.
pub const PAYOUT_THRESHOLD: u128 = 1_000_000;

/// How long the wallet may stay unreachable during a batch, in seconds: ten minutes.
pub const DISCONNECT_TIMEOUT_SECS: u64 = 600;

/// The block lag added to the age of a seed when pricing its proof.
pub const REWARD_HEIGHT_LAG: u64 = 40;

/// The loss tolerated on a test network: five coins.
pub const TESTNET_MAX_LOST: u128 = 5_000_000;

/// The safety settings a run uses.
#[derive(Clone, Copy, Debug, PartialEq, Eq)]
pub struct WorkerPolicy {
    pub no_failsafe: bool,
    pub quit_without_profit: bool,
    pub max_lost: u128,
    pub bulk_seeds: bool,
    pub allow_any_tx: bool,
}

/// The settings for a run: as configured on the production network; on any other network
/// fail-safes off, no stop on loss, a tolerance of five coins, bulk seeds and every
/// transaction allowed.
pub fn worker_policy(
    testnet: bool,
    no_failsafe: bool,
    disable_profit_failsafe: bool,
    max_lost: u128,
    bulk_seeds: bool,
    allow_any_tx: bool,
) -> (p: WorkerPolicy)
    ensures
        testnet ==> p == (WorkerPolicy {
            no_failsafe: true,
            quit_without_profit: false,
            max_lost: TESTNET_MAX_LOST,
            bulk_seeds: true,
            allow_any_tx: true,
        }),
        !testnet ==> p == (WorkerPolicy {
            no_failsafe,
            quit_without_profit: !disable_profit_failsafe,
            max_lost,
            bulk_seeds,
            allow_any_tx,
        }),
{
    if testnet {
        WorkerPolicy {
            no_failsafe: true,
            quit_without_profit: false,
            max_lost: TESTNET_MAX_LOST,
            bulk_seeds: true,
            allow_any_tx: true,
        }
    } else {
        WorkerPolicy {
            no_failsafe,
            quit_without_profit: !disable_profit_failsafe,
            max_lost,
            bulk_seeds,
            allow_any_tx,
        }
    }
}

/// The state the worker loop owns: its fee ledger and its seed schedule.
pub struct MintState {
    pub fee_handler: FeeSchedule,
    pub seed_handler: SeedSchedule,
}

impl MintState {
    /// A fresh state for a run under `policy`; swept seeds go to `covnull` when given.
    pub fn new(policy: WorkerPolicy, covnull: Option<[u8; 32]>) -> (m: MintState)
        ensures
            m.fee_handler.wf(),
            m.fee_handler.history@.len() == 0,
            m.fee_handler.allow_any_tx == policy.allow_any_tx,
            m.fee_handler.no_failsafe == policy.no_failsafe,
            m.fee_handler.max_lost == policy.max_lost,
            m.fee_handler.quit == policy.quit_without_profit,
            m.seed_handler.wf(),
            m.seed_handler.ttl is None,
            m.seed_handler.expired@.len() == 0,
            m.seed_handler.covnull == covnull,
            m.seed_handler.send_bulk == policy.bulk_seeds,
    {
        let fee_handler = FeeSchedule::new(
            policy.allow_any_tx,
            policy.no_failsafe,
            policy.max_lost,
            policy.quit_without_profit,
        );
        let mut seed_handler = SeedSchedule::new(covnull);
        if policy.bulk_seeds {
            seed_handler.bulk();
        }
        MintState { fee_handler, seed_handler }
    }
}

/// The phases of one iteration of the worker loop.
#[derive(Clone, Copy, Debug, PartialEq, Eq)]
pub enum WorkerPhase {
    Calibrating,
    EnsuringSeeds,
    Minting,
    Submitting,
    Settling,
    Reporting,
    Stopping,
    Aborted,
}

/// The phase after `phase` completes. A stop request is honoured only between
/// calibration and seed issuance; a tripped fail-safe stops the worker after settling.
pub open spec fn next_phase_spec(phase: WorkerPhase, stop_requested: bool, failsafe_abort: bool) -> WorkerPhase {
    match phase {
        WorkerPhase::Calibrating => if stop_requested {
            WorkerPhase::Stopping
        } else {
            WorkerPhase::EnsuringSeeds
        },
        WorkerPhase::EnsuringSeeds => WorkerPhase::Minting,
        WorkerPhase::Minting => WorkerPhase::Submitting,
        WorkerPhase::Submitting => WorkerPhase::Settling,
        WorkerPhase::Settling => if failsafe_abort {
            WorkerPhase::Aborted
        } else {
            WorkerPhase::Reporting
        },
        WorkerPhase::Reporting => WorkerPhase::Calibrating,
        WorkerPhase::Stopping => WorkerPhase::Stopping,
        WorkerPhase::Aborted => WorkerPhase::Aborted,
    }
}

/// The phase after `phase` completes, given whether a stop was requested and whether the
/// fail-safe tripped.
pub fn next_phase(phase: WorkerPhase, stop_requested: bool, failsafe_abort: bool) -> (next: WorkerPhase)
    ensures
        next == next_phase_spec(phase, stop_requested, failsafe_abort),
{
    match phase {
        WorkerPhase::Calibrating => if stop_requested {
            WorkerPhase::Stopping
        } else {
            WorkerPhase::EnsuringSeeds
        },
        WorkerPhase::EnsuringSeeds => WorkerPhase::Minting,
        WorkerPhase::Minting => WorkerPhase::Submitting,
        WorkerPhase::Submitting => WorkerPhase::Settling,
        WorkerPhase::Settling => if failsafe_abort {
            WorkerPhase::Aborted
        } else {
            WorkerPhase::Reporting
        },
        WorkerPhase::Reporting => WorkerPhase::Calibrating,
        WorkerPhase::Stopping => WorkerPhase::Stopping,
        WorkerPhase::Aborted => WorkerPhase::Aborted,
    }
}

/// A stop request never cuts a cycle short: from every phase but calibration the next
/// phase is the same whether or not a stop was requested, and a requested stop takes
/// effect before any new seeds are issued.
pub proof fn lemma_stop_only_at_checkpoint(phase: WorkerPhase, failsafe_abort: bool)
    ensures
        phase != WorkerPhase::Calibrating ==> next_phase_spec(phase, true, failsafe_abort)
            == next_phase_spec(phase, false, failsafe_abort),
        next_phase_spec(WorkerPhase::Calibrating, true, failsafe_abort) == WorkerPhase::Stopping,
        next_phase_spec(WorkerPhase::Calibrating, false, failsafe_abort)
            == WorkerPhase::EnsuringSeeds,
{
}

/// The reward the chain pays for `work` hashes done at `my_speed` when the fastest known
/// speed is `dosc_speed`, capped at the largest value.
pub open spec fn reward_formula(my_speed: u128, dosc_speed: u128, difficulty: u32) -> u128 {
    let exact = two_pow(difficulty as nat) * my_speed * MICRO_PER_COIN / (dosc_speed * dosc_speed
        * 2880);
    if exact > u128::MAX {
        u128::MAX
    } else {
        exact as u128
    }
}

/// Relies on `themelio_stf::calculate_reward`: `2^difficulty × my_speed × 10^6 /
/// (dosc_speed² × 2880)` rounded down, or the largest value when that does not fit.
#[verifier::external_body]
fn calculate_reward(my_speed: u128, dosc_speed: u128, difficulty: u32) -> (r: u128)
    requires
        difficulty < 128,
        dosc_speed > 0,
    ensures
        r == reward_formula(my_speed, dosc_speed, difficulty),
{
    themelio_stf::calculate_reward(my_speed, dosc_speed, difficulty)
}

/// The speed credited to a proof at `difficulty` on a seed confirmed at `coin_height`,
/// submitted at `current_height`: its work spread over the blocks since, plus a lag.
pub open spec fn reward_speed(difficulty: nat, current_height: u64, coin_height: u64) -> nat {
    two_pow(difficulty) / ((current_height + REWARD_HEIGHT_LAG - coin_height) as nat)
}

/// The reward, before conversion, for a proof at `difficulty` on a seed confirmed at
/// `coin_height`, submitted at `current_height` while the fastest known speed is
/// `dosc_speed`.
pub fn proof_reward(difficulty: usize, current_height: u64, coin_height: u64, dosc_speed: u128) -> (r: u128)
    requires
        difficulty <= MAX_DIFFICULTY,
        coin_height < current_height + REWARD_HEIGHT_LAG,
        dosc_speed > 0,
    ensures
        r == reward_formula(
            (reward_speed(difficulty as nat, current_height, coin_height) * 100) as u128,
            dosc_speed,
            difficulty as u32,
        ),
{
    proof {
        lemma_two_pow_monotonic(difficulty as nat, 100);
        lemma_two_pow_table();
    }
    let work = pow2_u128(difficulty);
    let blocks: u128 = (current_height as u128 + REWARD_HEIGHT_LAG as u128) - coin_height as u128;
    let speed = work / blocks;
    assert(speed <= work) by (nonlinear_arith)
        requires
            speed == work / blocks,
            blocks >= 1,
    ;
    calculate_reward(speed * 100, dosc_speed, difficulty as u32)
}

/// How much of the minted asset to convert: all of it, when there is any.
pub fn conversion_amount(minted_balance: u128) -> (r: Option<u128>)
    ensures
        minted_balance > 0 ==> r == Some(minted_balance),
        minted_balance == 0 ==> r is None,
{
    if minted_balance > 0 {
        Some(minted_balance)
    } else {
        None
    }
}

/// How much to pay out: half the native balance when a payout address is set and the
/// balance exceeds one coin.
pub fn payout_amount(has_payout: bool, balance: u128) -> (r: Option<u128>)
    ensures
        (has_payout && balance > PAYOUT_THRESHOLD) ==> r == Some(balance / 2),
        !(has_payout && balance > PAYOUT_THRESHOLD) ==> r is None,
{
    if has_payout && balance > PAYOUT_THRESHOLD {
        Some(balance / 2)
    } else {
        None
    }
}

/// Watches the wallet connection while a batch runs.
#[derive(Clone, Copy, Debug, PartialEq, Eq)]
pub struct DisconnectWatch {
    /// When the connection was first seen lost, in seconds, while it stays lost.
    pub since: Option<u64>,
}

impl DisconnectWatch {
    pub fn new() -> (w: DisconnectWatch)
        ensures
            w.since is None,
    {
        DisconnectWatch { since: None }
    }

    /// Records whether the wallet answered at `now` seconds; says whether it has now been
    /// unreachable for longer than the timeout.
    pub fn observe(&mut self, connected: bool, now: u64) -> (abort: bool)
        ensures
            connected ==> final(self).since is None && !abort,
            !connected ==> final(self).since == Some(
                match old(self).since {
                    Some(t) => t,
                    None => now,
                },
            ) && abort == (now >= final(self).since->Some_0 && now - final(self).since->Some_0
                > DISCONNECT_TIMEOUT_SECS),
    {
        if connected {
            self.since = None;
            return false;
        }
        let start = match self.since {
            Some(t) => t,
            None => now,
        };
        self.since = Some(start);
        now >= start && now - start > DISCONNECT_TIMEOUT_SECS
    }
}

} // verus!
