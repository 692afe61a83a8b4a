use melminter::batch::{check_batch, distinct_coin_ids, mint_challenge, select_batch_seeds, BatchError};
use melminter::model::{CoinData, CoinId, Denom};
use melminter::seeds::{SeedCandidate, SeedSchedule};

fn hash(b: u8) -> [u8; 32] {
    [b; 32]
}

fn seed(tx: u8, index: u8, value: u128) -> (CoinId, CoinData) {
    (
        CoinId { txhash: hash(tx), index },
        CoinData { covhash: hash(0xaa), value, denom: Denom::Custom(hash(tx)) },
    )
}

#[test]
fn ttl_of_one_hour_is_clamped_to_three_hours() {
    let mut s = SeedSchedule::new(None);
    assert_eq!(s.set_expire(3600), 360);
    assert_eq!(s.ttl, Some(360));
}

#[test]
fn ttl_is_set_once() {
    let mut s = SeedSchedule::new(None);
    let first = s.set_expire(5 * 3600);
    assert_eq!(first, 600);
    assert_eq!(s.set_expire(100 * 3600), first);
    assert_eq!(s.set_expire(0), first);
}

#[test]
fn ttl_is_clamped_to_twelve_hours() {
    let mut s = SeedSchedule::new(None);
    assert_eq!(s.set_expire(24 * 3600), 1440);
}

#[test]
fn collect_sorts_usable_and_expired() {
    let mut s = SeedSchedule::new(None);
    s.set_expire(3600); // 360 blocks
    let (id1, d1) = seed(1, 0, 1);
    let (id2, d2) = seed(2, 0, 1);
    let (id3, d3) = seed(2, 1, 1);
    let plain = CoinData { covhash: hash(0xaa), value: 5, denom: Denom::Mel };
    let coins = vec![
        SeedCandidate { id: id1, data: d1, height: Some(1000) },
        SeedCandidate { id: id2, data: d2, height: Some(100) },
        SeedCandidate { id: id3, data: d3, height: Some(100) },
        SeedCandidate { id: CoinId { txhash: hash(9), index: 0 }, data: plain, height: Some(1000) },
        SeedCandidate { id: CoinId { txhash: hash(8), index: 0 }, data: d1, height: None },
    ];
    let usable = s.collect(1100, &coins);
    assert_eq!(usable, vec![(id1, d1)]);
    assert_eq!(s.expired.len(), 1);
    assert_eq!(s.expired[0].txhash, hash(2));
    assert_eq!(s.expired[0].coins, vec![(id2, d2), (id3, d3)]);
    assert_eq!(s.expired_total(), 2);
}

#[test]
fn collect_without_ttl_keeps_every_seed() {
    let mut s = SeedSchedule::new(None);
    let (id1, d1) = seed(1, 0, 1);
    let coins = vec![SeedCandidate { id: id1, data: d1, height: None }];
    assert_eq!(s.collect(5, &coins), vec![(id1, d1)]);
}

#[test]
fn sufficiency_in_both_modes() {
    let mut s = SeedSchedule::new(None);
    let seeds = vec![seed(1, 0, 1), seed(1, 1, 1)];
    assert!(s.seeds_sufficient(&seeds, 2));
    assert!(!s.seeds_sufficient(&seeds, 3));
    s.bulk();
    assert!(!s.seeds_sufficient(&seeds, 2));
    assert!(s.seeds_sufficient(&vec![seed(1, 0, 4)], 4));
}

#[test]
fn sixty_four_expired_seeds_are_swept_with_four_threads() {
    let mut s = SeedSchedule::new(None);
    s.set_expire(3600);
    let mut coins = vec![];
    for g in 0..4u8 {
        for i in 0..16u8 {
            let (id, d) = seed(10 + g, i, 1);
            coins.push(SeedCandidate { id, data: d, height: Some(0) });
        }
    }
    let usable = s.collect(10_000, &coins);
    assert!(usable.is_empty());
    assert_eq!(s.expired_total(), 64);
    let own = hash(0x11);
    let void = hash(0x22);
    let fallback = hash(0x33);
    let draws = vec![0u128, 1, 2, 3];
    let plan = s.plan_issuance(4, own, void, fallback, &draws);
    assert!(plan.sweeps);
    assert_eq!(plan.outputs.len(), 4 + 4);
    for o in &plan.outputs[..4] {
        assert_eq!(*o, CoinData { covhash: own, value: 1, denom: Denom::NewCoin });
    }
    let swept: u128 = plan.outputs[4..].iter().map(|o| o.value).sum();
    assert_eq!(swept, 64);
    assert_eq!(plan.outputs[4].covhash, void);
    assert_eq!(plan.outputs[5].covhash, fallback);
    assert_eq!(plan.outputs[4].denom, Denom::Custom(hash(10)));
    s.finish_issuance(plan.sweeps);
    assert!(s.expired.is_empty());
}

#[test]
fn sixty_expired_seeds_are_not_swept_with_four_threads() {
    let mut s = SeedSchedule::new(None);
    s.set_expire(3600);
    let mut coins = vec![];
    for i in 0..60u8 {
        let (id, d) = seed(10, i, 1);
        coins.push(SeedCandidate { id, data: d, height: Some(0) });
    }
    s.collect(10_000, &coins);
    s.bulk();
    let plan = s.plan_issuance(4, hash(1), hash(2), hash(3), &vec![0]);
    assert!(!plan.sweeps);
    assert_eq!(plan.outputs, vec![CoinData { covhash: hash(1), value: 4, denom: Denom::NewCoin }]);
    s.finish_issuance(plan.sweeps);
    assert_eq!(s.expired_total(), 60);
}

#[test]
fn bulk_batch_has_indices_zero_to_n() {
    let seeds = vec![seed(7, 0, 4), seed(9, 0, 4)];
    assert_eq!(check_batch(&seeds, true, 4), Ok(()));
    let batch = select_batch_seeds(&seeds, true, 4);
    let expected: Vec<CoinId> = (0..4u8).map(|i| CoinId { txhash: hash(7), index: i }).collect();
    assert_eq!(batch, expected);
}

#[test]
fn batch_ignores_other_transactions() {
    let seeds = vec![seed(7, 0, 1), seed(9, 0, 1), seed(7, 3, 1)];
    assert_eq!(check_batch(&seeds, false, 2), Ok(()));
    let batch = select_batch_seeds(&seeds, false, 2);
    assert_eq!(batch, vec![seeds[0].0, seeds[2].0]);
}

#[test]
fn batch_errors() {
    assert_eq!(check_batch(&vec![], false, 2), Err(BatchError::NoSeeds));
    let seeds = vec![seed(7, 0, 1), seed(9, 0, 1)];
    assert_eq!(check_batch(&seeds, false, 2), Err(BatchError::NotEnoughSeeds));
    assert_eq!(check_batch(&vec![seed(7, 0, 3)], true, 4), Err(BatchError::NotEnoughSeeds));
}

#[test]
fn challenge_depends_on_header_and_seed() {
    let a = mint_challenge(&hash(1), &CoinId { txhash: hash(2), index: 0 });
    let b = mint_challenge(&hash(1), &CoinId { txhash: hash(2), index: 1 });
    let c = mint_challenge(&hash(3), &CoinId { txhash: hash(2), index: 0 });
    assert_ne!(a, b);
    assert_ne!(a, c);
    assert_ne!(a, hash(1));
    assert_eq!(a, mint_challenge(&hash(1), &CoinId { txhash: hash(2), index: 0 }));
}

#[test]
fn coin_ids_must_be_distinct() {
    let a = CoinId { txhash: hash(1), index: 0 };
    let b = CoinId { txhash: hash(1), index: 1 };
    assert!(distinct_coin_ids(&vec![a, b]));
    assert!(distinct_coin_ids(&vec![]));
    assert!(!distinct_coin_ids(&vec![a, b, a]));
}

#[test]
fn challenge_hashes_the_chain_encoding_of_the_seed() {
    let seed = CoinId { txhash: hash(2), index: 5 };
    let chain_id = themelio_stf::CoinID {
        txhash: themelio_stf::TxHash(tmelcrypt::HashVal(hash(2))),
        index: 5,
    };
    let encoded = stdcode::StdcodeSerializeExt::stdcode(&chain_id);
    let mut expected_bytes = hash(2).to_vec();
    expected_bytes.push(5);
    assert_eq!(encoded, expected_bytes);
    assert_eq!(mint_challenge(&hash(1), &seed), tmelcrypt::hash_keyed(&hash(1), &encoded).0);
}
