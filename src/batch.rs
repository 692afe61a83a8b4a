//! Choosing the seeds of one proof batch, and the puzzle each proof solves.
use vstd::prelude::*;
use crate::model::{CoinData, CoinId, hash_eq};
use stdcode::StdcodeSerializeExt;

verus! {

/// The largest number of worker threads: a coin's split index is a single byte.
pub const MAX_THREADS: usize = 255;

/// Why no batch could be chosen.
#[derive(Clone, Copy, Debug, PartialEq, Eq)]
pub enum BatchError {
    /// The wallet holds no seed at all.
    NoSeeds,
    /// Fewer usable seeds of one issuing transaction than threads.
    NotEnoughSeeds,
}

/// The `threads` logical seeds that one bulk coin of transaction `txhash` splits into.
pub open spec fn bulk_block(txhash: [u8; 32], threads: nat) -> Seq<CoinId> {
    Seq::new(threads, |i: int| CoinId { txhash, index: i as u8 })
}

/// The seed ids that `seeds` offer for a batch drawn from transaction `txhash`: seeds of
/// other transactions are ignored; in bulk mode each coin worth exactly `threads` splits
/// into `threads` ids by index, other coins give none; otherwise each coin gives its id.
pub open spec fn offered_ids(
    seeds: Seq<(CoinId, CoinData)>,
    txhash: [u8; 32],
    bulk: bool,
    threads: nat,
) -> Seq<CoinId>
    decreases seeds.len(),
{
    if seeds.len() == 0 {
        Seq::empty()
    } else {
        let rest = offered_ids(seeds.drop_last(), txhash, bulk, threads);
        let (id, data) = seeds.last();
        if id.txhash != txhash {
            rest
        } else if bulk {
            if data.value == threads {
                rest + bulk_block(txhash, threads)
            } else {
                rest
            }
        } else {
            rest.push(id)
        }
    }
}

/// The batch drawn from `seeds`: the first `threads` ids that the first seed's
/// transaction offers, or why there are not enough.
pub open spec fn batch_ids(seeds: Seq<(CoinId, CoinData)>, bulk: bool, threads: nat) -> Result<
    Seq<CoinId>,
    BatchError,
> {
    if seeds.len() == 0 {
        Err(BatchError::NoSeeds)
    } else {
        let offered = offered_ids(seeds, seeds[0].0.txhash, bulk, threads);
        if offered.len() < threads {
            Err(BatchError::NotEnoughSeeds)
        } else {
            Ok(offered.take(threads as int))
        }
    }
}

/// The ids that `seeds` offer for a batch drawn from transaction `txhash`.
fn collect_offered(seeds: &Vec<(CoinId, CoinData)>, txhash: [u8; 32], bulk: bool, threads: usize) -> (out: Vec<CoinId>)
    requires
        threads <= MAX_THREADS,
    ensures
        out@ == offered_ids(seeds@, txhash, bulk, threads as nat),
{
    let mut out: Vec<CoinId> = Vec::new();
    let mut i: usize = 0;
    while i < seeds.len()
        invariant
            i <= seeds@.len(),
            threads <= MAX_THREADS,
            out@ == offered_ids(seeds@.take(i as int), txhash, bulk, threads as nat),
        decreases seeds.len() - i,
    {
        let (id, data) = seeds[i];
        assert(seeds@.take(i + 1).drop_last() =~= seeds@.take(i as int));
        assert(seeds@.take(i + 1).last() == seeds@[i as int]);
        if hash_eq(&id.txhash, &txhash) {
            if bulk {
                if data.value == threads as u128 {
                    let ghost before = out@;
                    let mut n: usize = 0;
                    while n < threads
                        invariant
                            n <= threads <= MAX_THREADS,
                            out@ == before + bulk_block(txhash, n as nat),
                        decreases threads - n,
                    {
                        out.push(CoinId { txhash, index: n as u8 });
                        assert(bulk_block(txhash, (n + 1) as nat) =~= bulk_block(txhash, n as nat).push(
                            CoinId { txhash, index: n as u8 },
                        ));
                        assert(before + bulk_block(txhash, (n + 1) as nat) =~= (before + bulk_block(
                            txhash,
                            n as nat,
                        )).push(CoinId { txhash, index: n as u8 }));
                        n = n + 1;
                    }
                }
            } else {
                out.push(id);
            }
        }
        i = i + 1;
    }
    assert(seeds@.take(seeds@.len() as int) =~= seeds@);
    out
}

/// Whether `seeds` hold a batch for `threads` workers, and why not otherwise. Having too
/// few seeds means seed issuance was skipped: a caller is to stop on an error here.
pub fn check_batch(seeds: &Vec<(CoinId, CoinData)>, bulk: bool, threads: usize) -> (r: Result<
    (),
    BatchError,
>)
    requires
        threads <= MAX_THREADS,
    ensures
        match batch_ids(seeds@, bulk, threads as nat) {
            Ok(_) => r is Ok,
            Err(e) => r == Err::<(), BatchError>(e),
        },
{
    if seeds.len() == 0 {
        return Err(BatchError::NoSeeds);
    }
    let offered = collect_offered(seeds, seeds[0].0.txhash, bulk, threads);
    if offered.len() < threads {
        Err(BatchError::NotEnoughSeeds)
    } else {
        Ok(())
    }
}

/// Whether no two of `ids` are the same coin.
pub fn distinct_coin_ids(ids: &Vec<CoinId>) -> (r: bool)
    ensures
        r == distinct_ids(ids@),
{
    let mut i: usize = 0;
    while i < ids.len()
        invariant
            i <= ids@.len(),
            forall|a: int, b: int| 0 <= a < i && 0 <= b < ids@.len() && a != b ==> ids@[a] != ids@[b],
        decreases ids.len() - i,
    {
        let mut j: usize = 0;
        while j < ids.len()
            invariant
                i < ids@.len(),
                j <= ids@.len(),
                forall|a: int, b: int| 0 <= a < i && 0 <= b < ids@.len() && a != b ==> ids@[a] != ids@[b],
                forall|b: int| 0 <= b < j && b != i ==> ids@[i as int] != ids@[b],
            decreases ids.len() - j,
        {
            if j != i && hash_eq(&ids[i].txhash, &ids[j].txhash) && ids[i].index == ids[j].index {
                assert(ids@[i as int] == ids@[j as int]);
                return false;
            }
            j = j + 1;
        }
        i = i + 1;
    }
    true
}

/// Chooses the seeds of one batch: one per thread, all from the issuing transaction of
/// the first seed. The wallet's coins are distinct, and so are the chosen seeds.
pub fn select_batch_seeds(seeds: &Vec<(CoinId, CoinData)>, bulk: bool, threads: usize) -> (r: Vec<CoinId>)
    requires
        threads <= MAX_THREADS,
        batch_ids(seeds@, bulk, threads as nat) is Ok,
        distinct_ids(seeds@.map_values(|s: (CoinId, CoinData)| s.0)),
    ensures
        batch_ids(seeds@, bulk, threads as nat) == Ok::<Seq<CoinId>, BatchError>(r@),
        distinct_ids(r@),
{
    let txhash = seeds[0].0.txhash;
    let mut out = collect_offered(seeds, txhash, bulk, threads);
    out.truncate(threads);
    assert(out@ =~= offered_ids(seeds@, txhash, bulk, threads as nat).take(threads as int));
    proof {
        lemma_batch_distinct(seeds@, bulk, threads as nat);
    }
    out
}

/// In bulk mode the ids offered are empty or start with one whole bulk block.
proof fn lemma_bulk_offer_starts_with_block(
    seeds: Seq<(CoinId, CoinData)>,
    txhash: [u8; 32],
    threads: nat,
)
    ensures
        ({
            let offered = offered_ids(seeds, txhash, true, threads);
            &&& offered.len() == 0 || offered.len() >= threads
            &&& offered.len() >= threads ==> offered.take(threads as int) == bulk_block(txhash, threads)
            &&& (exists|j: int|
                0 <= j < seeds.len() && seeds[j].0.txhash == txhash && seeds[j].1.value == threads)
                ==> offered.len() >= threads
        }),
    decreases seeds.len(),
{
    if seeds.len() > 0 {
        let prefix = seeds.drop_last();
        lemma_bulk_offer_starts_with_block(prefix, txhash, threads);
        let rest = offered_ids(prefix, txhash, true, threads);
        let block = bulk_block(txhash, threads);
        if rest.len() >= threads {
            assert((rest + block).take(threads as int) =~= rest.take(threads as int));
        } else {
            assert((rest + block).take(threads as int) =~= block);
        }
        if exists|j: int|
            0 <= j < seeds.len() && seeds[j].0.txhash == txhash && seeds[j].1.value == threads {
            let j = choose|j: int|
                0 <= j < seeds.len() && seeds[j].0.txhash == txhash && seeds[j].1.value == threads;
            if j < seeds.len() - 1 {
                assert(prefix[j] == seeds[j]);
            }
        }
    }
}

/// A batch drawn in bulk mode from seeds whose first issuing transaction holds a coin
/// worth exactly `threads` consists of exactly `threads` ids, all of that transaction,
/// with the indices `0..threads` in order.
pub proof fn lemma_bulk_batch_indices(seeds: Seq<(CoinId, CoinData)>, threads: nat)
    requires
        seeds.len() > 0,
        exists|j: int|
            0 <= j < seeds.len() && seeds[j].0.txhash == seeds[0].0.txhash && seeds[j].1.value
                == threads,
    ensures
        batch_ids(seeds, true, threads) == Ok::<Seq<CoinId>, BatchError>(
            Seq::new(threads, |i: int| CoinId { txhash: seeds[0].0.txhash, index: i as u8 }),
        ),
{
    lemma_bulk_offer_starts_with_block(seeds, seeds[0].0.txhash, threads);
}

/// No two entries of `ids` are the same coin.
pub open spec fn distinct_ids(ids: Seq<CoinId>) -> bool {
    forall|i: int, j: int| 0 <= i < ids.len() && 0 <= j < ids.len() && i != j ==> ids[i] != ids[j]
}

proof fn lemma_offer_distinct(seeds: Seq<(CoinId, CoinData)>, txhash: [u8; 32], threads: nat)
    requires
        distinct_ids(seeds.map_values(|s: (CoinId, CoinData)| s.0)),
    ensures
        distinct_ids(offered_ids(seeds, txhash, false, threads)),
        forall|k: int|
            0 <= k < offered_ids(seeds, txhash, false, threads).len() ==> exists|j: int|
                0 <= j < seeds.len() && seeds[j].0 == #[trigger] offered_ids(
                    seeds,
                    txhash,
                    false,
                    threads,
                )[k],
    decreases seeds.len(),
{
    if seeds.len() > 0 {
        let prefix = seeds.drop_last();
        let ids = seeds.map_values(|s: (CoinId, CoinData)| s.0);
        assert(prefix.map_values(|s: (CoinId, CoinData)| s.0) =~= ids.drop_last());
        lemma_offer_distinct(prefix, txhash, threads);
        let rest = offered_ids(prefix, txhash, false, threads);
        let last = seeds.last().0;
        assert forall|k: int| 0 <= k < rest.len() implies rest[k] != last by {
            let j = choose|j: int| 0 <= j < prefix.len() && prefix[j].0 == rest[k];
            assert(ids[j] == prefix[j].0);
            assert(ids[seeds.len() - 1] == last);
        }
        assert forall|k: int| 0 <= k < rest.len() implies exists|j: int|
            0 <= j < seeds.len() && seeds[j].0 == #[trigger] rest[k] by {
            let j = choose|j: int| 0 <= j < prefix.len() && prefix[j].0 == rest[k];
            assert(seeds[j] == prefix[j]);
        }
    }
}

/// A batch never mines on the same seed twice: when the wallet's coins are distinct, so
/// are the ids of a batch, in either mode.
pub proof fn lemma_batch_distinct(seeds: Seq<(CoinId, CoinData)>, bulk: bool, threads: nat)
    requires
        distinct_ids(seeds.map_values(|s: (CoinId, CoinData)| s.0)),
        threads <= 256,
    ensures
        batch_ids(seeds, bulk, threads) matches Ok(ids) ==> distinct_ids(ids),
{
    if seeds.len() > 0 {
        let txhash = seeds[0].0.txhash;
        let offered = offered_ids(seeds, txhash, bulk, threads);
        if offered.len() >= threads {
            let ids = offered.take(threads as int);
            if bulk {
                lemma_bulk_offer_starts_with_block(seeds, txhash, threads);
                assert forall|i: int, j: int|
                    0 <= i < ids.len() && 0 <= j < ids.len() && i != j implies ids[i] != ids[j] by {
                    assert(ids[i].index == i as u8);
                    assert(ids[j].index == j as u8);
                }
            } else {
                lemma_offer_distinct(seeds, txhash, threads);
            }
        }
    }
}

/// The keyed hash of `msg` under `key`.
pub uninterp spec fn keyed_hash(key: Seq<u8>, msg: Seq<u8>) -> Seq<u8>;

/// Relies on stdcode's `StdcodeSerializeExt::stdcode` on themelio-stf's `CoinID`: its
/// 32 hash bytes, then its index byte.
#[verifier::external_body]
fn encode_coin_id(id: &CoinId) -> (r: Vec<u8>)
    ensures
        r@ == id.txhash@.push(id.index),
{
    themelio_stf::CoinID {
        txhash: themelio_stf::TxHash(tmelcrypt::HashVal(id.txhash)),
        index: id.index,
    }.stdcode()
}

/// Relies on `tmelcrypt::hash_keyed`: a 32-byte hash that depends on the key and the
/// message alone.
#[verifier::external_body]
fn hash_keyed(key: &[u8; 32], msg: &Vec<u8>) -> (r: [u8; 32])
    ensures
        r@ == keyed_hash(key@, msg@),
{
    tmelcrypt::hash_keyed(key, msg).0
}

/// The puzzle for the proof on `seed`: the hash of the seed's canonical encoding (its
/// transaction hash, then its index), keyed by the hash of the block header at the seed's
/// height.
pub fn mint_challenge(header_hash: &[u8; 32], seed: &CoinId) -> (chi: [u8; 32])
    ensures
        chi@ == keyed_hash(header_hash@, seed.txhash@.push(seed.index)),
{
    let encoded = encode_coin_id(seed);
    hash_keyed(header_hash, &encoded)
}

} // verus!
