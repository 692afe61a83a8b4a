//! The byte layout of queued proofs in persistent storage.
//!
//! A proof is stored under a key holding the seed id, the seed's coin data and height,
//! and the length-prefixed proof bytes; its submission state is the value. Integers are
//! little-endian, flags are one byte, strings are length-prefixed UTF-8.
use vstd::prelude::*;
use vstd::bytes::*;
use vstd::slice::*;
use vstd::utf8::*;
use crate::db::{ProofView, StateView, TrySendProof, TrySendProofState};
use crate::model::{CoinData, CoinDataHeight, CoinId, Denom};

verus! {

broadcast use vstd::utf8::group_utf8_lib;

/// Length of the fixed part of a key.
pub const KEY_HEADER_LEN: usize = 130;

/// Length of the fixed part of a value.
pub const STATE_HEADER_LEN: usize = 27;

/// The tag byte of a denomination.
pub open spec fn denom_tag(d: Denom) -> u8 {
    match d {
        Denom::Mel => 0,
        Denom::Sym => 1,
        Denom::NomDosc => 2,
        Denom::NewCoin => 3,
        Denom::Custom(_) => 4,
    }
}

/// The 32 bytes after the tag: the hash of a custom denomination, zeros otherwise.
pub open spec fn denom_hash(d: Denom) -> Seq<u8> {
    match d {
        Denom::Custom(h) => h@,
        _ => Seq::new(32, |i: int| 0u8),
    }
}

/// The key under which a proof is stored.
pub open spec fn key_bytes(p: ProofView) -> Seq<u8> {
    p.coin.txhash@ + seq![p.coin.index] + p.data.coin_data.covhash@ + spec_u128_to_le_bytes(
        p.data.coin_data.value,
    ) + seq![denom_tag(p.data.coin_data.denom)] + denom_hash(p.data.coin_data.denom)
        + spec_u64_to_le_bytes(p.data.height) + spec_u64_to_le_bytes(p.proof.len() as u64)
        + p.proof
}

/// The proof stored under `b`, when `b` is the key of one.
pub open spec fn decode_key_spec(b: Seq<u8>) -> Option<ProofView> {
    if exists|p: ProofView| p.proof.len() <= u64::MAX && key_bytes(p) == b {
        Some(choose|p: ProofView| p.proof.len() <= u64::MAX && key_bytes(p) == b)
    } else {
        None
    }
}

/// One byte for a flag.
pub open spec fn flag_byte(f: bool) -> u8 {
    if f {
        1
    } else {
        0
    }
}

/// The length-prefixed UTF-8 encodings of `errs`, one after another.
pub open spec fn strings_bytes(errs: Seq<Seq<char>>) -> Seq<u8>
    decreases errs.len(),
{
    if errs.len() == 0 {
        Seq::empty()
    } else {
        spec_u64_to_le_bytes(encode_utf8(errs[0]).len() as u64) + encode_utf8(errs[0])
            + strings_bytes(errs.drop_first())
    }
}

/// The value a submission state is stored as.
pub open spec fn state_bytes(s: StateView) -> Seq<u8> {
    seq![s.fails] + spec_u128_to_le_bytes(s.created) + seq![flag_byte(s.sent), flag_byte(s.failed)]
        + spec_u64_to_le_bytes(s.errors.len() as u64) + strings_bytes(s.errors)
}

/// Reads `n` length-prefixed UTF-8 strings that fill `b` exactly.
pub open spec fn parse_strings(b: Seq<u8>, n: nat) -> Option<Seq<Seq<char>>>
    decreases n,
{
    if n == 0 {
        if b.len() == 0 {
            Some(Seq::empty())
        } else {
            None
        }
    } else if b.len() < 8 {
        None
    } else {
        let l = spec_u64_from_le_bytes(b.subrange(0, 8)) as int;
        if b.len() - 8 < l {
            None
        } else {
            let chunk = b.subrange(8, 8 + l);
            if !valid_utf8(chunk) {
                None
            } else {
                match parse_strings(b.subrange(8 + l, b.len() as int), (n - 1) as nat) {
                    Some(rest) => Some(seq![decode_utf8(chunk)] + rest),
                    None => None,
                }
            }
        }
    }
}

/// Reads a submission state.
pub open spec fn parse_state(b: Seq<u8>) -> Option<StateView> {
    if b.len() < STATE_HEADER_LEN || b[17] > 1 || b[18] > 1 {
        None
    } else {
        match parse_strings(
            b.subrange(27, b.len() as int),
            spec_u64_from_le_bytes(b.subrange(19, 27)) as nat,
        ) {
            Some(errors) => Some(
                StateView {
                    fails: b[0],
                    created: spec_u128_from_le_bytes(b.subrange(1, 17)),
                    sent: b[17] == 1,
                    failed: b[18] == 1,
                    errors,
                },
            ),
            None => None,
        }
    }
}

/// Every string of `errs` fits a length prefix, and so does their number.
pub open spec fn strings_fit(errs: Seq<Seq<char>>) -> bool {
    &&& errs.len() <= u64::MAX
    &&& forall|i: int| 0 <= i < errs.len() ==> encode_utf8(#[trigger] errs[i]).len() <= u64::MAX
}

proof fn lemma_u64_bytes()
    ensures
        forall|x: u64| #[trigger]
            spec_u64_to_le_bytes(x).len() == 8 && spec_u64_from_le_bytes(spec_u64_to_le_bytes(x))
                == x,
        forall|s: Seq<u8>|
            s.len() == 8 ==> #[trigger] spec_u64_to_le_bytes(spec_u64_from_le_bytes(s)) == s,
{
    lemma_auto_spec_u64_to_from_le_bytes();
}

/// Where each field of a proof sits in its key.
proof fn lemma_key_layout(p: ProofView)
    ensures
        ({
            let b = key_bytes(p);
            &&& b.len() == KEY_HEADER_LEN + p.proof.len()
            &&& b.subrange(0, 32) == p.coin.txhash@
            &&& b[32] == p.coin.index
            &&& b.subrange(33, 65) == p.data.coin_data.covhash@
            &&& b.subrange(65, 81) == spec_u128_to_le_bytes(p.data.coin_data.value)
            &&& b[81] == denom_tag(p.data.coin_data.denom)
            &&& b.subrange(82, 114) == denom_hash(p.data.coin_data.denom)
            &&& b.subrange(114, 122) == spec_u64_to_le_bytes(p.data.height)
            &&& b.subrange(122, 130) == spec_u64_to_le_bytes(p.proof.len() as u64)
            &&& b.subrange(130, b.len() as int) == p.proof
        }),
{
    lemma_u64_bytes();
    lemma_auto_spec_u128_to_from_le_bytes();
    let b = key_bytes(p);
    let a0 = p.coin.txhash@;
    let a1 = a0 + seq![p.coin.index];
    let a2 = a1 + p.data.coin_data.covhash@;
    let a3 = a2 + spec_u128_to_le_bytes(p.data.coin_data.value);
    let a4 = a3 + seq![denom_tag(p.data.coin_data.denom)];
    let a5 = a4 + denom_hash(p.data.coin_data.denom);
    let a6 = a5 + spec_u64_to_le_bytes(p.data.height);
    let a7 = a6 + spec_u64_to_le_bytes(p.proof.len() as u64);
    assert(b == a7 + p.proof);
    assert(b.subrange(0, 32) =~= a0);
    assert(b.subrange(33, 65) =~= p.data.coin_data.covhash@);
    assert(b.subrange(65, 81) =~= spec_u128_to_le_bytes(p.data.coin_data.value));
    assert(b.subrange(82, 114) =~= denom_hash(p.data.coin_data.denom));
    assert(b.subrange(114, 122) =~= spec_u64_to_le_bytes(p.data.height));
    assert(b.subrange(122, 130) =~= spec_u64_to_le_bytes(p.proof.len() as u64));
    assert(b.subrange(130, b.len() as int) =~= p.proof);
}

/// Two proofs with the same key are the same proof.
proof fn lemma_key_injective(p: ProofView, q: ProofView)
    requires
        p.proof.len() <= u64::MAX,
        q.proof.len() <= u64::MAX,
        key_bytes(p) == key_bytes(q),
    ensures
        p == q,
{
    lemma_key_layout(p);
    lemma_key_layout(q);
    lemma_u64_bytes();
    lemma_auto_spec_u128_to_from_le_bytes();
    let b = key_bytes(p);
    assert(p.coin.txhash =~= q.coin.txhash);
    assert(p.data.coin_data.covhash =~= q.data.coin_data.covhash);
    assert(spec_u128_from_le_bytes(b.subrange(65, 81)) == p.data.coin_data.value);
    assert(spec_u128_from_le_bytes(b.subrange(65, 81)) == q.data.coin_data.value);
    assert(spec_u64_from_le_bytes(b.subrange(114, 122)) == p.data.height);
    assert(spec_u64_from_le_bytes(b.subrange(114, 122)) == q.data.height);
    assert(p.proof =~= q.proof);
    match (p.data.coin_data.denom, q.data.coin_data.denom) {
        (Denom::Custom(h1), Denom::Custom(h2)) => {
            assert(h1 =~= h2);
        },
        _ => {},
    }
    assert(p.data.coin_data == q.data.coin_data);
    assert(p.coin == q.coin);
}

/// A stored proof reads back as itself.
pub proof fn lemma_key_round_trip(p: ProofView)
    requires
        p.proof.len() <= u64::MAX,
    ensures
        decode_key_spec(key_bytes(p)) == Some(p),
{
    let q = choose|q: ProofView| q.proof.len() <= u64::MAX && key_bytes(q) == key_bytes(p);
    lemma_key_injective(p, q);
}

proof fn lemma_strings_round_trip(errs: Seq<Seq<char>>)
    requires
        strings_fit(errs),
    ensures
        parse_strings(strings_bytes(errs), errs.len()) == Some(errs),
    decreases errs.len(),
{
    lemma_u64_bytes();
    if errs.len() > 0 {
        let rest = errs.drop_first();
        assert(strings_fit(rest)) by {
            assert forall|i: int| 0 <= i < rest.len() implies encode_utf8(#[trigger] rest[i]).len()
                <= u64::MAX by {
                assert(rest[i] == errs[i + 1]);
            }
        }
        lemma_strings_round_trip(rest);
        let e = encode_utf8(errs[0]);
        let b = strings_bytes(errs);
        let l = e.len() as int;
        assert(b.subrange(0, 8) =~= spec_u64_to_le_bytes(l as u64));
        assert(b.subrange(8, 8 + l) =~= e);
        assert(b.subrange(8 + l, b.len() as int) =~= strings_bytes(rest));
        assert(seq![errs[0]] + rest =~= errs);
    }
}

/// A stored submission state reads back as itself.
pub proof fn lemma_state_round_trip(s: StateView)
    requires
        strings_fit(s.errors),
    ensures
        parse_state(state_bytes(s)) == Some(s),
{
    lemma_u64_bytes();
    lemma_auto_spec_u128_to_from_le_bytes();
    lemma_strings_round_trip(s.errors);
    let b = state_bytes(s);
    assert(b.subrange(1, 17) =~= spec_u128_to_le_bytes(s.created));
    assert(b.subrange(19, 27) =~= spec_u64_to_le_bytes(s.errors.len() as u64));
    assert(b.subrange(27, b.len() as int) =~= strings_bytes(s.errors));
}

/// Appends `src` to `out`.
fn append_slice(out: &mut Vec<u8>, src: &[u8])
    ensures
        final(out)@ == old(out)@ + src@,
{
    let mut i: usize = 0;
    while i < src.len()
        invariant
            i <= src@.len(),
            out@ == old(out)@ + src@.take(i as int),
        decreases src.len() - i,
    {
        out.push(src[i]);
        assert(src@.take(i + 1) =~= src@.take(i as int).push(src@[i as int]));
        i = i + 1;
    }
    assert(src@.take(src@.len() as int) =~= src@);
}

/// Appends a 32-byte hash to `out`.
fn append_array(out: &mut Vec<u8>, src: &[u8; 32])
    ensures
        final(out)@ == old(out)@ + src@,
{
    let mut i: usize = 0;
    while i < 32
        invariant
            i <= 32,
            out@ == old(out)@ + src@.take(i as int),
        decreases 32 - i,
    {
        out.push(src[i]);
        assert(src@.take(i + 1) =~= src@.take(i as int).push(src@[i as int]));
        i = i + 1;
    }
    assert(src@.take(32) =~= src@);
}

/// Reads 32 bytes of `b` from `start`.
fn read_array(b: &Vec<u8>, start: usize) -> (a: [u8; 32])
    requires
        start + 32 <= b@.len(),
    ensures
        a@ == b@.subrange(start as int, start + 32),
{
    let mut a: [u8; 32] = [0u8; 32];
    let mut i: usize = 0;
    while i < 32
        invariant
            i <= 32,
            start + 32 <= b.len(),
            forall|j: int| 0 <= j < i ==> a@[j] == b@[start + j],
        decreases 32 - i,
    {
        a[i] = b[start + i];
        i = i + 1;
    }
    assert(a@ =~= b@.subrange(start as int, start + 32));
    a
}

/// The key under which `p` is stored.
pub fn encode_key(p: &TrySendProof) -> (b: Vec<u8>)
    ensures
        b@ == key_bytes(p@),
{
    let mut b: Vec<u8> = Vec::new();
    append_array(&mut b, &p.coin.txhash);
    b.push(p.coin.index);
    append_array(&mut b, &p.data.coin_data.covhash);
    let value = u128_to_le_bytes(p.data.coin_data.value);
    append_slice(&mut b, value.as_slice());
    let (tag, hash): (u8, [u8; 32]) = match p.data.coin_data.denom {
        Denom::Mel => (0, [0u8; 32]),
        Denom::Sym => (1, [0u8; 32]),
        Denom::NomDosc => (2, [0u8; 32]),
        Denom::NewCoin => (3, [0u8; 32]),
        Denom::Custom(h) => (4, h),
    };
    b.push(tag);
    assert(hash@ =~= denom_hash(p.data.coin_data.denom));
    append_array(&mut b, &hash);
    let height = u64_to_le_bytes(p.data.height);
    append_slice(&mut b, height.as_slice());
    let len = u64_to_le_bytes(p.proof.len() as u64);
    append_slice(&mut b, len.as_slice());
    append_slice(&mut b, p.proof.as_slice());
    b
}

/// Reads the proof stored under key `b`; `None` when `b` is not the key of a proof.
pub fn decode_key(b: &Vec<u8>) -> (r: Option<TrySendProof>)
    ensures
        match r {
            Some(p) => decode_key_spec(b@) == Some(p@),
            None => decode_key_spec(b@) is None,
        },
{
    proof {
        lemma_u64_bytes();
        lemma_auto_spec_u128_to_from_le_bytes();
    }
    if b.len() < KEY_HEADER_LEN {
        proof {
            assert forall|p: ProofView| key_bytes(p) != b@ by {
                lemma_key_layout(p);
            }
        }
        return None;
    }
    let txhash = read_array(b, 0);
    let index = b[32];
    let covhash = read_array(b, 33);
    let value = u128_from_le_bytes(slice_subrange(b.as_slice(), 65, 81));
    let tag = b[81];
    let hash = read_array(b, 82);
    let height = u64_from_le_bytes(slice_subrange(b.as_slice(), 114, 122));
    let len = u64_from_le_bytes(slice_subrange(b.as_slice(), 122, 130));
    let zero = [0u8; 32];
    let plain_ok = crate::model::hash_eq(&hash, &zero);
    assert(zero@ =~= Seq::new(32, |i: int| 0u8));
    let denom = if tag == 0 && plain_ok {
        Denom::Mel
    } else if tag == 1 && plain_ok {
        Denom::Sym
    } else if tag == 2 && plain_ok {
        Denom::NomDosc
    } else if tag == 3 && plain_ok {
        Denom::NewCoin
    } else if tag == 4 {
        Denom::Custom(hash)
    } else {
        proof {
            assert forall|p: ProofView| key_bytes(p) != b@ by {
                lemma_key_layout(p);
                if key_bytes(p) == b@ {
                    assert(b@.subrange(82, 114) == denom_hash(p.data.coin_data.denom));
                    assert(hash@ == b@.subrange(82, 114));
                    if tag <= 3 {
                        assert(hash =~= zero);
                    }
                }
            }
        }
        return None;
    };
    if (b.len() - KEY_HEADER_LEN) as u64 != len {
        proof {
            assert forall|p: ProofView| key_bytes(p) != b@ by {
                lemma_key_layout(p);
            }
        }
        return None;
    }
    let mut proof_bytes: Vec<u8> = Vec::new();
    append_slice(&mut proof_bytes, slice_subrange(b.as_slice(), KEY_HEADER_LEN, b.len()));
    let p = TrySendProof {
        coin: CoinId { txhash, index },
        data: CoinDataHeight { coin_data: CoinData { covhash, value, denom }, height },
        proof: proof_bytes,
    };
    proof {
        lemma_key_layout(p@);
        assert(denom_hash(denom) == b@.subrange(82, 114));
        assert(key_bytes(p@) =~= b@) by {
            let k = key_bytes(p@);
            assert(k.subrange(0, 32) == b@.subrange(0, 32));
            assert(k.subrange(33, 65) == b@.subrange(33, 65));
            assert(k.subrange(65, 81) == b@.subrange(65, 81));
            assert(k.subrange(82, 114) == b@.subrange(82, 114));
            assert(k.subrange(114, 122) == b@.subrange(114, 122));
            assert(k.subrange(122, 130) == b@.subrange(122, 130));
            assert(k.subrange(130, k.len() as int) == b@.subrange(130, b@.len() as int));
            assert forall|i: int| 0 <= i < k.len() implies k[i] == b@[i] by {
                if i < 32 {
                    assert(k[i] == k.subrange(0, 32)[i]);
                    assert(b@[i] == b@.subrange(0, 32)[i]);
                } else if i == 32 {
                } else if i < 65 {
                    assert(k[i] == k.subrange(33, 65)[i - 33]);
                    assert(b@[i] == b@.subrange(33, 65)[i - 33]);
                } else if i < 81 {
                    assert(k[i] == k.subrange(65, 81)[i - 65]);
                    assert(b@[i] == b@.subrange(65, 81)[i - 65]);
                } else if i == 81 {
                } else if i < 114 {
                    assert(k[i] == k.subrange(82, 114)[i - 82]);
                    assert(b@[i] == b@.subrange(82, 114)[i - 82]);
                } else if i < 122 {
                    assert(k[i] == k.subrange(114, 122)[i - 114]);
                    assert(b@[i] == b@.subrange(114, 122)[i - 114]);
                } else if i < 130 {
                    assert(k[i] == k.subrange(122, 130)[i - 122]);
                    assert(b@[i] == b@.subrange(122, 130)[i - 122]);
                } else {
                    assert(k[i] == k.subrange(130, k.len() as int)[i - 130]);
                    assert(b@[i] == b@.subrange(130, b@.len() as int)[i - 130]);
                }
            }
        }
        lemma_key_round_trip(p@);
    }
    Some(p)
}

/// Relies on `String::from_utf8`: it succeeds exactly on valid UTF-8, with the
/// characters that the bytes encode.
#[verifier::external_body]
fn string_from_utf8(bytes: Vec<u8>) -> (r: Option<String>)
    ensures
        r is Some <==> valid_utf8(bytes@),
        r matches Some(s) ==> s@ == decode_utf8(bytes@),
{
    String::from_utf8(bytes).ok()
}

/// The value that `s` is stored as.
pub fn encode_state(s: &TrySendProofState) -> (b: Vec<u8>)
    ensures
        b@ == state_bytes(s@),
{
    let mut b: Vec<u8> = Vec::new();
    b.push(s.fails);
    let created = u128_to_le_bytes(s.created);
    append_slice(&mut b, created.as_slice());
    b.push(if s.sent { 1 } else { 0 });
    b.push(if s.failed { 1 } else { 0 });
    let count = u64_to_le_bytes(s.errors.len() as u64);
    append_slice(&mut b, count.as_slice());
    let ghost head = b@;
    let ghost errs = s@.errors;
    assert(head =~= seq![s.fails] + spec_u128_to_le_bytes(s.created) + seq![
        flag_byte(s.sent),
        flag_byte(s.failed),
    ] + spec_u64_to_le_bytes(s.errors.len() as u64));
    assert(errs.skip(0) =~= errs);
    let mut i: usize = 0;
    while i < s.errors.len()
        invariant
            i <= s.errors@.len(),
            errs == s@.errors,
            errs.len() == s.errors@.len(),
            head + strings_bytes(errs) == b@ + strings_bytes(errs.skip(i as int)),
        decreases s.errors.len() - i,
    {
        let bytes = s.errors[i].as_str().as_bytes();
        let n = u64_to_le_bytes(bytes.len() as u64);
        let ghost before = b@;
        proof {
            let rest = errs.skip(i as int);
            assert(rest[0] == errs[i as int]);
            assert(errs[i as int] == s.errors@[i as int]@);
            assert(rest.drop_first() =~= errs.skip(i + 1));
            assert(bytes@ == encode_utf8(rest[0]));
        }
        append_slice(&mut b, n.as_slice());
        append_slice(&mut b, bytes);
        proof {
            let rest = errs.skip(i as int);
            let tail = strings_bytes(errs.skip(i + 1));
            assert(strings_bytes(rest) == n@ + bytes@ + tail);
            assert(b@ + tail =~= before + (n@ + bytes@ + tail));
        }
        i = i + 1;
    }
    assert(errs.skip(errs.len() as int) =~= Seq::<Seq<char>>::empty());
    assert(b@ =~= state_bytes(s@));
    b
}

/// Reads a stored submission state; `None` when `b` is not one.
pub fn decode_state(b: &Vec<u8>) -> (r: Option<TrySendProofState>)
    ensures
        match r {
            Some(s) => parse_state(b@) == Some(s@),
            None => parse_state(b@) is None,
        },
{
    if b.len() < STATE_HEADER_LEN {
        return None;
    }
    if b[17] > 1 || b[18] > 1 {
        return None;
    }
    let fails = b[0];
    let created = u128_from_le_bytes(slice_subrange(b.as_slice(), 1, 17));
    let count = u64_from_le_bytes(slice_subrange(b.as_slice(), 19, 27));
    let ghost len = b@.len() as int;
    let ghost tail = b@.subrange(27, len);
    let mut errors: Vec<String> = Vec::new();
    let mut pos: usize = STATE_HEADER_LEN;
    let mut i: u64 = 0;
    assert(b@.subrange(27, len) == tail);
    assert(errors@.map_values(|e: String| e@) =~= Seq::<Seq<char>>::empty());
    assert(Seq::<Seq<char>>::empty() + Seq::<Seq<char>>::empty() =~= Seq::<Seq<char>>::empty());
    while i < count
        invariant
            27 <= pos <= b@.len(),
            len == b@.len(),
            b@[17] <= 1,
            b@[18] <= 1,
            count == spec_u64_from_le_bytes(b@.subrange(19, 27)),
            i <= count,
            tail == b@.subrange(27, len),
            parse_strings(tail, count as nat) == match parse_strings(
                b@.subrange(pos as int, len),
                (count - i) as nat,
            ) {
                Some(rest) => Some(errors@.map_values(|e: String| e@) + rest),
                None => None::<Seq<Seq<char>>>,
            },
        decreases count - i,
    {
        let ghost rem = b@.subrange(pos as int, len);
        let ghost acc = errors@.map_values(|e: String| e@);
        if b.len() - pos < 8 {
            assert(parse_strings(rem, (count - i) as nat) is None);
            return None;
        }
        let l = u64_from_le_bytes(slice_subrange(b.as_slice(), pos, pos + 8));
        assert(rem.subrange(0, 8) =~= b@.subrange(pos as int, pos + 8));
        if ((b.len() - pos - 8) as u64) < l {
            assert(parse_strings(rem, (count - i) as nat) is None);
            return None;
        }
        let lu = l as usize;
        let mut chunk: Vec<u8> = Vec::new();
        append_slice(&mut chunk, slice_subrange(b.as_slice(), pos + 8, pos + 8 + lu));
        assert(rem.subrange(8, 8 + lu) =~= chunk@);
        assert(rem.subrange(8 + lu, rem.len() as int) =~= b@.subrange(pos + 8 + lu, len));
        match string_from_utf8(chunk) {
            None => {
                assert(parse_strings(rem, (count - i) as nat) is None);
                return None;
            },
            Some(text) => {
                let ghost item = text@;
                errors.push(text);
                proof {
                    assert(errors@.map_values(|e: String| e@) =~= acc.push(item));
                    match parse_strings(b@.subrange(pos + 8 + lu, len), (count - i - 1) as nat) {
                        Some(rest) => {
                            assert(acc + (seq![item] + rest) =~= acc.push(item) + rest);
                        },
                        None => {},
                    }
                }
            },
        }
        pos = pos + 8 + lu;
        i = i + 1;
    }
    if pos != b.len() {
        assert(b@.subrange(pos as int, len).len() > 0);
        return None;
    }
    assert(b@.subrange(pos as int, len) =~= Seq::<u8>::empty());
    assert(errors@.map_values(|e: String| e@) + Seq::<Seq<char>>::empty() =~= errors@.map_values(
        |e: String| e@,
    ));
    Some(TrySendProofState { fails, created, sent: b[17] == 1, failed: b[18] == 1, errors })
}

} // verus!
