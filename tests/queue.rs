use melminter::codec::{decode_key, decode_state, encode_key, encode_state};
use melminter::db::{Dict, DictClosed, TrySendProof, TrySendProofState, TABLE_PROOF_LIST};
use melminter::model::{CoinData, CoinDataHeight, CoinId, Denom};
use melminter::queue::{Disposition, SubmissionQueue};

fn sample_proof(tag: u8) -> TrySendProof {
    TrySendProof {
        coin: CoinId { txhash: [tag; 32], index: 3 },
        data: CoinDataHeight {
            coin_data: CoinData { covhash: [7; 32], value: 1, denom: Denom::Custom([tag; 32]) },
            height: 123_456,
        },
        proof: vec![tag, 1, 2, 3, 4, 5],
    }
}

fn fresh_state() -> TrySendProofState {
    TrySendProofState { fails: 0, created: 1_700_000_000_000_000_000, sent: false, failed: false, errors: vec![] }
}

fn copy_proof(p: &TrySendProof) -> TrySendProof {
    TrySendProof { coin: p.coin, data: p.data, proof: p.proof.clone() }
}

#[test]
fn record_round_trips_through_bytes() {
    let p = sample_proof(9);
    let s = TrySendProofState {
        fails: 2,
        created: 42,
        sent: false,
        failed: true,
        errors: vec!["timeout".to_string(), "ünïcode ✓".to_string(), String::new()],
    };
    let k = encode_key(&p);
    let v = encode_state(&s);
    assert_eq!(k.len(), 130 + 6);
    assert_eq!(decode_key(&k), Some(copy_proof(&p)));
    assert_eq!(decode_state(&v), Some(s));
}

#[test]
fn plain_denominations_round_trip() {
    for denom in [Denom::Mel, Denom::Sym, Denom::NomDosc, Denom::NewCoin] {
        let mut p = sample_proof(1);
        p.data.coin_data.denom = denom;
        assert_eq!(decode_key(&encode_key(&p)), Some(p));
    }
}

#[test]
fn garbage_does_not_decode() {
    assert_eq!(decode_key(&vec![1, 2, 3]), None);
    assert_eq!(decode_state(&vec![0; 10]), None);
    let mut k = encode_key(&sample_proof(1));
    k.push(0);
    assert_eq!(decode_key(&k), None);
    let mut v = encode_state(&fresh_state());
    v[17] = 2;
    assert_eq!(decode_state(&v), None);
}

#[test]
fn restart_restores_the_queue() {
    let mut dict = Dict::new(TABLE_PROOF_LIST);
    let mut q = SubmissionQueue::new();
    q.enqueue(&mut dict, sample_proof(1), fresh_state()).unwrap();
    q.enqueue(&mut dict, sample_proof(2), fresh_state()).unwrap();
    let (d, s) = q.complete_front(&mut dict, Some("busy".to_string())).unwrap();
    assert_eq!(d, Disposition::Retry);
    assert_eq!(s.fails, 1);
    drop(q);
    let restored = SubmissionQueue::restore(&dict).unwrap();
    assert_eq!(restored.len(), 2);
    assert_eq!(*restored.front(), sample_proof(1));
    let k = encode_key(&sample_proof(1));
    let stored = decode_state(&dict.get(&k).unwrap().unwrap()).unwrap();
    assert_eq!(stored.fails, 1);
    assert_eq!(stored.errors, vec!["busy".to_string()]);
}

#[test]
fn four_failures_drop_the_record() {
    let mut dict = Dict::new(TABLE_PROOF_LIST);
    let mut q = SubmissionQueue::new();
    q.enqueue(&mut dict, sample_proof(1), fresh_state()).unwrap();
    for n in 1..=3u8 {
        let (d, s) = q.complete_front(&mut dict, Some(format!("error {}", n))).unwrap();
        assert_eq!(d, Disposition::Retry);
        assert_eq!(s.fails, n);
        assert_eq!(q.len(), 1);
    }
    let (d, s) = q.complete_front(&mut dict, Some("error 4".to_string())).unwrap();
    assert_eq!(d, Disposition::Dropped);
    assert!(s.failed);
    assert_eq!(s.fails, 4);
    assert_eq!(s.errors.len(), 4);
    assert_eq!(q.len(), 0);
    assert_eq!(dict.keys().unwrap().len(), 0);
    assert_eq!(SubmissionQueue::restore(&dict).unwrap().len(), 0);
}

#[test]
fn two_failures_then_success_sends_the_record() {
    let mut dict = Dict::new(TABLE_PROOF_LIST);
    let mut q = SubmissionQueue::new();
    q.enqueue(&mut dict, sample_proof(1), fresh_state()).unwrap();
    q.complete_front(&mut dict, Some("a".to_string())).unwrap();
    q.complete_front(&mut dict, Some("b".to_string())).unwrap();
    let (d, s) = q.complete_front(&mut dict, None).unwrap();
    assert_eq!(d, Disposition::Sent);
    assert!(s.sent);
    assert_eq!(s.fails, 2);
    assert_eq!(q.len(), 0);
    assert_eq!(dict.get(&encode_key(&sample_proof(1))).unwrap(), None);
}

#[test]
fn closed_table_refuses_work() {
    let mut dict = Dict::new("scratch");
    assert_eq!(dict.name(), "scratch");
    assert!(!dict.is_closed());
    dict.set(&vec![1], &vec![2]).unwrap();
    assert!(dict.close());
    assert!(dict.is_closed());
    assert!(!dict.close());
    assert_eq!(dict.get(&vec![1]), Err(DictClosed));
    assert_eq!(dict.set(&vec![1], &vec![3]), Err(DictClosed));
    assert_eq!(dict.items(), Err(DictClosed));
    let mut q = SubmissionQueue::new();
    assert_eq!(q.enqueue(&mut dict, sample_proof(1), fresh_state()), Err(DictClosed));
    assert_eq!(q.len(), 0);
    assert!(SubmissionQueue::restore(&dict).is_err());
}

#[test]
fn dict_replaces_and_removes() {
    let mut dict = Dict::new("scratch");
    dict.set(&vec![1], &vec![2]).unwrap();
    dict.set(&vec![3], &vec![4]).unwrap();
    dict.set(&vec![1], &vec![5]).unwrap();
    assert_eq!(dict.items().unwrap(), vec![(vec![1], vec![5]), (vec![3], vec![4])]);
    dict.remove(&vec![1]).unwrap();
    assert_eq!(dict.keys().unwrap(), vec![vec![3]]);
    assert_eq!(dict.get(&vec![1]).unwrap(), None);
}
