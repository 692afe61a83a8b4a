//! The seed schedule: which seed coins are usable, which have expired, and what the next
//! seed-issuing transaction must pay out.
use vstd::prelude::*;
use crate::batch::distinct_ids;
use crate::model::{CoinData, CoinId, Denom, hash_eq};

verus! {

/// Seconds between blocks.
pub const BLOCK_INTERVAL_SECS: u64 = 30;

/// The shortest seed lifetime, in seconds: three hours.
pub const MIN_SEED_LIFETIME_SECS: u64 = 10800;

/// The longest seed lifetime, in seconds: twelve hours.
pub const MAX_SEED_LIFETIME_SECS: u64 = 43200;

/// Expired seeds are swept once there are more than this many per thread.
pub const SWEEP_FACTOR: usize = 15;

/// The seed lifetime in blocks for a requested lifetime in seconds.
pub open spec fn ttl_blocks(lifetime_secs: u64) -> u64 {
    let secs = if lifetime_secs < MIN_SEED_LIFETIME_SECS {
        MIN_SEED_LIFETIME_SECS
    } else if lifetime_secs > MAX_SEED_LIFETIME_SECS {
        MAX_SEED_LIFETIME_SECS
    } else {
        lifetime_secs
    };
    (secs / BLOCK_INTERVAL_SECS) as u64
}

/// The lifetime in force after asking for `lifetime_secs` when `ttl` was in force:
/// the first lifetime set stays.
pub open spec fn ttl_after(ttl: Option<u64>, lifetime_secs: u64) -> u64 {
    match ttl {
        Some(blocks) => blocks,
        None => ttl_blocks(lifetime_secs),
    }
}

/// The seed lifetime asked for after a round that takes `round_secs`: two rounds.
pub fn lifetime_for_round(round_secs: u128) -> (secs: u64)
    ensures
        secs == if 2 * round_secs > u64::MAX { u64::MAX as int } else { 2 * round_secs },
{
    if round_secs > (u64::MAX / 2) as u128 {
        u64::MAX
    } else {
        (2 * round_secs) as u64
    }
}

/// A coin of the wallet, with the height of the transaction that created it when that
/// could be looked up.
#[derive(Clone, Copy, Debug, PartialEq, Eq)]
pub struct SeedCandidate {
    pub id: CoinId,
    pub data: CoinData,
    pub height: Option<u64>,
}

/// What becomes of a candidate coin.
pub enum Fate {
    /// Not a seed, or its age is unknown while seeds expire.
    Skipped,
    /// A seed too old to use.
    Expired,
    /// A seed that can be mined on.
    Usable,
}

/// A seed is a coin of a custom denomination. With a lifetime of `ttl` blocks in force,
/// a seed whose age is unknown is skipped, and one created more than `ttl` blocks
/// before `height` has expired.
pub open spec fn fate(c: SeedCandidate, ttl: Option<u64>, height: u64) -> Fate {
    if !(c.data.denom is Custom) {
        Fate::Skipped
    } else {
        match ttl {
            None => Fate::Usable,
            Some(t) => match c.height {
                None => Fate::Skipped,
                Some(created) => if created + t < height {
                    Fate::Expired
                } else {
                    Fate::Usable
                },
            },
        }
    }
}

/// Expired seeds of one issuing transaction and one denomination.
#[derive(Debug)]
pub struct ExpiredGroup {
    pub txhash: [u8; 32],
    pub denom: Denom,
    pub coins: Vec<(CoinId, CoinData)>,
}

/// The mathematical view of an `ExpiredGroup`.
pub struct GroupView {
    pub txhash: [u8; 32],
    pub denom: Denom,
    pub coins: Seq<(CoinId, CoinData)>,
}

impl View for ExpiredGroup {
    type V = GroupView;

    open spec fn view(&self) -> GroupView {
        GroupView { txhash: self.txhash, denom: self.denom, coins: self.coins@ }
    }
}

/// The views of a sequence of groups.
pub open spec fn groups_view(groups: Seq<ExpiredGroup>) -> Seq<GroupView> {
    groups.map_values(|g: ExpiredGroup| g@)
}

/// Group `k` holds seeds of `txhash` and `denom`.
pub open spec fn group_has_key(g: GroupView, txhash: [u8; 32], denom: Denom) -> bool {
    g.txhash == txhash && g.denom == denom
}

/// No two groups share a key, and no group is empty.
pub open spec fn groups_wf(groups: Seq<GroupView>) -> bool {
    &&& forall|a: int, b: int|
        0 <= a < groups.len() && 0 <= b < groups.len() && a != b ==> !group_has_key(
            #[trigger] groups[a],
            groups[b].txhash,
            groups[b].denom,
        ) || !group_has_key(#[trigger] groups[b], groups[a].txhash, groups[a].denom)
    &&& forall|k: int| 0 <= k < groups.len() ==> (#[trigger] groups[k]).coins.len() > 0
}

/// `groups` after filing the expired seed `(id, data)` under its transaction and denomination.
pub open spec fn file_expired(groups: Seq<GroupView>, id: CoinId, data: CoinData) -> Seq<GroupView> {
    if exists|k: int| 0 <= k < groups.len() && group_has_key(groups[k], id.txhash, data.denom) {
        let k = choose|k: int|
            0 <= k < groups.len() && group_has_key(groups[k], id.txhash, data.denom);
        groups.update(
            k,
            GroupView {
                txhash: groups[k].txhash,
                denom: groups[k].denom,
                coins: groups[k].coins.push((id, data)),
            },
        )
    } else {
        groups.push(GroupView { txhash: id.txhash, denom: data.denom, coins: seq![(id, data)] })
    }
}

/// The expired groups and the usable seeds after sorting `cands`, starting from `groups`.
pub open spec fn collected(
    groups: Seq<GroupView>,
    cands: Seq<SeedCandidate>,
    ttl: Option<u64>,
    height: u64,
) -> (Seq<GroupView>, Seq<(CoinId, CoinData)>)
    decreases cands.len(),
{
    if cands.len() == 0 {
        (groups, Seq::empty())
    } else {
        let (g, usable) = collected(groups, cands.drop_last(), ttl, height);
        let c = cands.last();
        match fate(c, ttl, height) {
            Fate::Skipped => (g, usable),
            Fate::Expired => (file_expired(g, c.id, c.data), usable),
            Fate::Usable => (g, usable.push((c.id, c.data))),
        }
    }
}

/// The number of expired seeds held in `groups`.
pub open spec fn expired_count(groups: Seq<GroupView>) -> nat
    decreases groups.len(),
{
    if groups.len() == 0 {
        0
    } else {
        expired_count(groups.drop_last()) + groups.last().coins.len()
    }
}

/// The fresh seed coins that an issuing transaction creates for `threads` workers: one
/// coin worth `threads` in bulk mode, `threads` coins worth 1 otherwise.
pub open spec fn seed_outputs(own: [u8; 32], bulk: bool, threads: nat) -> Seq<CoinData> {
    if bulk {
        seq![CoinData { covhash: own, value: threads as u128, denom: Denom::NewCoin }]
    } else {
        Seq::new(threads, |i: int| CoinData { covhash: own, value: 1, denom: Denom::NewCoin })
    }
}

/// One output per expired group, worth the group's number of seeds, paid to the void
/// address or to the fallback address as the group's draw is even or odd.
pub open spec fn sweep_outputs(
    groups: Seq<GroupView>,
    void_dst: [u8; 32],
    fallback: [u8; 32],
    draws: Seq<u128>,
) -> Seq<CoinData> {
    Seq::new(
        groups.len(),
        |k: int|
            CoinData {
                covhash: if draws[k] % 2 == 0 {
                    void_dst
                } else {
                    fallback
                },
                value: groups[k].coins.len() as u128,
                denom: groups[k].denom,
            },
    )
}

/// Expired seeds are swept once they outnumber fifteen per thread.
pub open spec fn sweep_due(groups: Seq<GroupView>, threads: nat) -> bool {
    expired_count(groups) > SWEEP_FACTOR * threads
}

/// The outputs of the next seed-issuing transaction.
pub open spec fn issuance_outputs(
    groups: Seq<GroupView>,
    own: [u8; 32],
    bulk: bool,
    threads: nat,
    void_dst: [u8; 32],
    fallback: [u8; 32],
    draws: Seq<u128>,
) -> Seq<CoinData> {
    seed_outputs(own, bulk, threads) + if sweep_due(groups, threads) {
        sweep_outputs(groups, void_dst, fallback, draws)
    } else {
        Seq::empty()
    }
}

/// The sum of the values of `outs`.
pub open spec fn total_value(outs: Seq<CoinData>) -> nat
    decreases outs.len(),
{
    if outs.len() == 0 {
        0
    } else {
        total_value(outs.drop_last()) + outs.last().value as nat
    }
}

/// The outputs of a seed-issuing transaction, and whether it sweeps the expired seeds.
pub struct IssuancePlan {
    pub outputs: Vec<CoinData>,
    pub sweeps: bool,
}

/// Tracks the lifetime of seeds and the seeds that have outlived it.
pub struct SeedSchedule {
    /// Lifetime of a seed in blocks, once set.
    pub ttl: Option<u64>,
    /// Expired seeds, grouped by issuing transaction and denomination.
    pub expired: Vec<ExpiredGroup>,
    /// Where swept seeds go, when a fixed void address is known.
    pub covnull: Option<[u8; 32]>,
    /// Whether seeds are issued as one coin split by index.
    pub send_bulk: bool,
}

impl SeedSchedule {
    /// The expired groups as values.
    pub open spec fn groups(&self) -> Seq<GroupView> {
        groups_view(self.expired@)
    }

    pub open spec fn wf(&self) -> bool {
        groups_wf(self.groups())
    }

    /// A schedule with no lifetime set, nothing expired, and one coin per seed.
    pub fn new(covnull: Option<[u8; 32]>) -> (s: SeedSchedule)
        ensures
            s.wf(),
            s.ttl is None,
            s.groups() == Seq::<GroupView>::empty(),
            s.expired@.len() == 0,
            s.covnull == covnull,
            !s.send_bulk,
    {
        let s = SeedSchedule { ttl: None, expired: Vec::new(), covnull, send_bulk: false };
        assert(s.groups() =~= Seq::<GroupView>::empty());
        s
    }

    /// Issues seeds as one coin that is split by output index.
    pub fn bulk(&mut self)
        ensures
            final(self).send_bulk,
            final(self).ttl == old(self).ttl,
            final(self).expired@ == old(self).expired@,
            final(self).covnull == old(self).covnull,
    {
        self.send_bulk = true;
    }

    /// Sets the seed lifetime from a wall-clock lifetime, clamped to three to twelve hours
    /// and counted in 30-second blocks, and returns the lifetime in force. Only the first
    /// call sets it.
    pub fn set_expire(&mut self, lifetime_secs: u64) -> (blocks: u64)
        ensures
            blocks == ttl_after(old(self).ttl, lifetime_secs),
            final(self).ttl == Some(blocks),
            final(self).expired@ == old(self).expired@,
            final(self).covnull == old(self).covnull,
            final(self).send_bulk == old(self).send_bulk,
    {
        if let Some(blocks) = self.ttl {
            return blocks;
        }
        let mut secs = lifetime_secs;
        if secs < MIN_SEED_LIFETIME_SECS {
            secs = MIN_SEED_LIFETIME_SECS;
        }
        if secs > MAX_SEED_LIFETIME_SECS {
            secs = MAX_SEED_LIFETIME_SECS;
        }
        let blocks = secs / BLOCK_INTERVAL_SECS;
        self.ttl = Some(blocks);
        blocks
    }

    /// Files one expired seed under its group.
    fn file(&mut self, id: CoinId, data: CoinData)
        requires
            old(self).wf(),
        ensures
            final(self).wf(),
            final(self).groups() == file_expired(old(self).groups(), id, data),
            final(self).ttl == old(self).ttl,
            final(self).covnull == old(self).covnull,
            final(self).send_bulk == old(self).send_bulk,
    {
        let ghost g = self.groups();
        let mut k: usize = 0;
        while k < self.expired.len()
            invariant
                k <= self.expired@.len(),
                g == self.groups(),
                g == old(self).groups(),
                self.ttl == old(self).ttl,
                self.covnull == old(self).covnull,
                self.send_bulk == old(self).send_bulk,
                groups_wf(g),
                forall|j: int| 0 <= j < k ==> !group_has_key(g[j], id.txhash, data.denom),
            decreases self.expired.len() - k,
        {
            assert(g[k as int] == self.expired@[k as int]@);
            if hash_eq(&self.expired[k].txhash, &id.txhash) && self.expired[k].denom.same(&data.denom) {
                assert(group_has_key(g[k as int], id.txhash, data.denom));
                assert(forall|j: int|
                    0 <= j < g.len() && group_has_key(g[j], id.txhash, data.denom) ==> j == k);
                let mut group = self.expired.remove(k);
                group.coins.push((id, data));
                self.expired.insert(k, group);
                proof {
                    let chosen = choose|j: int|
                        0 <= j < g.len() && group_has_key(g[j], id.txhash, data.denom);
                    assert(chosen == k);
                    let target = file_expired(g, id, data);
                    assert(self.groups() =~= target);
                    assert forall|a: int| 0 <= a < target.len() implies (#[trigger] target[a]).coins.len() > 0 by {
                        if a != k {
                            assert(target[a] == g[a]);
                        }
                    }
                    assert forall|a: int, b: int|
                        0 <= a < target.len() && 0 <= b < target.len() && a != b implies !group_has_key(
                        #[trigger] target[a],
                        target[b].txhash,
                        target[b].denom,
                    ) || !group_has_key(#[trigger] target[b], target[a].txhash, target[a].denom) by {
                        assert(group_has_key(target[a], g[a].txhash, g[a].denom));
                        assert(group_has_key(target[b], g[b].txhash, g[b].denom));
                    }
                }
                return;
            }
            k = k + 1;
        }
        let mut coins: Vec<(CoinId, CoinData)> = Vec::new();
        coins.push((id, data));
        self.expired.push(ExpiredGroup { txhash: id.txhash, denom: data.denom, coins });
        proof {
            let target = file_expired(g, id, data);
            assert(!exists|j: int| 0 <= j < g.len() && group_has_key(g[j], id.txhash, data.denom));
            assert(self.groups() =~= target);
            assert forall|a: int| 0 <= a < target.len() implies (#[trigger] target[a]).coins.len() > 0 by {
                if a < g.len() {
                    assert(target[a] == g[a]);
                }
            }
        }
    }

    /// Sorts the wallet's coins at chain height `height`: returns the usable seeds and files
    /// the expired ones under their issuing transaction.
    pub fn collect(&mut self, height: u64, coins: &Vec<SeedCandidate>) -> (usable: Vec<(CoinId, CoinData)>)
        requires
            old(self).wf(),
            distinct_ids(coins@.map_values(|c: SeedCandidate| c.id)),
        ensures
            final(self).wf(),
            (final(self).groups(), usable@) == collected(old(self).groups(), coins@, old(self).ttl, height),
            final(self).ttl == old(self).ttl,
            final(self).covnull == old(self).covnull,
            final(self).send_bulk == old(self).send_bulk,
    {
        let ghost g0 = self.groups();
        let mut usable: Vec<(CoinId, CoinData)> = Vec::new();
        let mut i: usize = 0;
        while i < coins.len()
            invariant
                i <= coins@.len(),
                self.wf(),
                self.ttl == old(self).ttl,
                self.covnull == old(self).covnull,
                self.send_bulk == old(self).send_bulk,
                g0 == old(self).groups(),
                (self.groups(), usable@) == collected(g0, coins@.take(i as int), self.ttl, height),
            decreases coins.len() - i,
        {
            let c = coins[i];
            assert(coins@.take(i + 1).drop_last() =~= coins@.take(i as int));
            assert(coins@.take(i + 1).last() == coins@[i as int]);
            let seed = match c.data.denom {
                Denom::Custom(_) => true,
                _ => false,
            };
            if seed {
                match self.ttl {
                    None => {
                        usable.push((c.id, c.data));
                    },
                    Some(t) => {
                        match c.height {
                            None => {},
                            Some(created) => {
                                if (created as u128) + (t as u128) < height as u128 {
                                    self.file(c.id, c.data);
                                } else {
                                    usable.push((c.id, c.data));
                                }
                            },
                        }
                    },
                }
            }
            i = i + 1;
        }
        assert(coins@.take(coins@.len() as int) =~= coins@);
        usable
    }

    /// The number of expired seeds held.
    pub fn expired_total(&self) -> (n: u128)
        ensures
            n == expired_count(self.groups()),
    {
        let mut n: u128 = 0;
        let mut k: usize = 0;
        while k < self.expired.len()
            invariant
                k <= self.expired@.len(),
                n == expired_count(self.groups().take(k as int)),
                n <= k * 0x1_0000_0000_0000_0000,
            decreases self.expired.len() - k,
        {
            assert(self.groups().take(k + 1).drop_last() =~= self.groups().take(k as int));
            assert(self.groups()[k as int] == self.expired@[k as int]@);
            assert(k * 0x1_0000_0000_0000_0000 + 0x1_0000_0000_0000_0000 == (k + 1)
                * 0x1_0000_0000_0000_0000) by (nonlinear_arith);
            assert(k * 0x1_0000_0000_0000_0000 < 0x1_0000_0000_0000_0000 * 0x1_0000_0000_0000_0000
                - 0x1_0000_0000_0000_0000) by (nonlinear_arith)
                requires
                    k < 0x1_0000_0000_0000_0000 - 1,
            ;
            n = n + self.expired[k].coins.len() as u128;
            k = k + 1;
        }
        assert(self.groups().take(self.groups().len() as int) =~= self.groups());
        n
    }

    /// Whether `seeds` suffice for `threads` workers: in bulk mode one seed worth exactly
    /// `threads`, otherwise at least `threads` seeds.
    pub fn seeds_sufficient(&self, seeds: &Vec<(CoinId, CoinData)>, threads: usize) -> (ok: bool)
        ensures
            ok == if self.send_bulk {
                exists|j: int| 0 <= j < seeds@.len() && seeds@[j].1.value == threads as u128
            } else {
                seeds@.len() >= threads
            },
    {
        if self.send_bulk {
            let mut j: usize = 0;
            while j < seeds.len()
                invariant
                    self.send_bulk,
                    j <= seeds@.len(),
                    forall|i: int| 0 <= i < j ==> seeds@[i].1.value != threads as u128,
                decreases seeds.len() - j,
            {
                if seeds[j].1.value == threads as u128 {
                    assert(seeds@[j as int].1.value == threads as u128);
                    return true;
                }
                j = j + 1;
            }
            false
        } else {
            seeds.len() >= threads
        }
    }

    /// The outputs of the next seed-issuing transaction: fresh seeds paid to `own` and,
    /// once expired seeds outnumber fifteen per thread, one output per expired group paid
    /// to `void_dst` or `fallback` as that group's draw is even or odd.
    pub fn plan_issuance(
        &self,
        threads: usize,
        own: [u8; 32],
        void_dst: [u8; 32],
        fallback: [u8; 32],
        draws: &Vec<u128>,
    ) -> (plan: IssuancePlan)
        requires
            self.wf(),
            threads <= 255,
            draws@.len() >= self.expired@.len(),
        ensures
            plan.outputs@ == issuance_outputs(
                self.groups(),
                own,
                self.send_bulk,
                threads as nat,
                void_dst,
                fallback,
                draws@,
            ),
            plan.sweeps == (sweep_due(self.groups(), threads as nat) && self.groups().len() > 0),
    {
        let mut outputs: Vec<CoinData> = Vec::new();
        if self.send_bulk {
            outputs.push(CoinData { covhash: own, value: threads as u128, denom: Denom::NewCoin });
            assert(outputs@ =~= seed_outputs(own, true, threads as nat));
        } else {
            let mut n: usize = 0;
            while n < threads
                invariant
                    n <= threads,
                    outputs@ =~= Seq::new(
                        n as nat,
                        |i: int| CoinData { covhash: own, value: 1, denom: Denom::NewCoin },
                    ),
                decreases threads - n,
            {
                outputs.push(CoinData { covhash: own, value: 1, denom: Denom::NewCoin });
                n = n + 1;
            }
        }
        let ghost seeds_part = outputs@;
        assert(seeds_part == seed_outputs(own, self.send_bulk, threads as nat));
        let total = self.expired_total();
        let due = total > (SWEEP_FACTOR * threads) as u128;
        if due {
            let mut k: usize = 0;
            while k < self.expired.len()
                invariant
                    k <= self.expired@.len(),
                    draws@.len() >= self.expired@.len(),
                    outputs@ == seeds_part + sweep_outputs(
                        self.groups(),
                        void_dst,
                        fallback,
                        draws@,
                    ).take(k as int),
                decreases self.expired.len() - k,
            {
                let dst = if draws[k] % 2 == 0 {
                    void_dst
                } else {
                    fallback
                };
                outputs.push(
                    CoinData {
                        covhash: dst,
                        value: self.expired[k].coins.len() as u128,
                        denom: self.expired[k].denom,
                    },
                );
                proof {
                    let sw = sweep_outputs(self.groups(), void_dst, fallback, draws@);
                    assert(self.groups()[k as int] == self.expired@[k as int]@);
                    assert(sw.take(k + 1) =~= sw.take(k as int).push(sw[k as int]));
                    assert(seeds_part + sw.take(k + 1) =~= (seeds_part + sw.take(k as int)).push(
                        sw[k as int],
                    ));
                }
                k = k + 1;
            }
            proof {
                let sw = sweep_outputs(self.groups(), void_dst, fallback, draws@);
                assert(sw.take(sw.len() as int) =~= sw);
            }
        } else {
            assert(outputs@ =~= seeds_part + Seq::<CoinData>::empty());
        }
        IssuancePlan { outputs, sweeps: due && self.expired.len() > 0 }
    }

    /// Forgets the expired seeds once an issuing transaction that swept them was sent.
    pub fn finish_issuance(&mut self, swept: bool)
        requires
            old(self).wf(),
        ensures
            final(self).wf(),
            swept ==> final(self).groups() == Seq::<GroupView>::empty(),
            !swept ==> final(self).expired@ == old(self).expired@,
            final(self).ttl == old(self).ttl,
            final(self).covnull == old(self).covnull,
            final(self).send_bulk == old(self).send_bulk,
    {
        if swept {
            self.expired.clear();
            assert(self.groups() =~= Seq::<GroupView>::empty());
        }
    }
}

/// Once set, the seed lifetime no longer changes: a second request, for any lifetime,
/// returns the lifetime that the first one set.
pub proof fn lemma_ttl_set_once(ttl: Option<u64>, first_secs: u64, second_secs: u64)
    ensures
        ttl_after(Some(ttl_after(ttl, first_secs)), second_secs) == ttl_after(ttl, first_secs),
        ttl is None ==> ttl_after(ttl, first_secs) == ttl_blocks(first_secs),
{
}

/// A sweep pays out every expired seed: its outputs are worth as much as there are
/// expired seeds.
pub proof fn lemma_sweep_covers_expired(
    groups: Seq<GroupView>,
    void_dst: [u8; 32],
    fallback: [u8; 32],
    draws: Seq<u128>,
)
    requires
        forall|k: int| 0 <= k < groups.len() ==> (#[trigger] groups[k]).coins.len() <= u128::MAX,
    ensures
        total_value(sweep_outputs(groups, void_dst, fallback, draws)) == expired_count(groups),
    decreases groups.len(),
{
    let sw = sweep_outputs(groups, void_dst, fallback, draws);
    if groups.len() > 0 {
        let prefix = groups.drop_last();
        lemma_sweep_covers_expired(prefix, void_dst, fallback, draws);
        assert(sw.drop_last() =~= sweep_outputs(prefix, void_dst, fallback, draws));
    }
}

} // verus!
