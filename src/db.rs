//! Records kept in persistent storage, and the byte-keyed table that holds them.
use vstd::prelude::*;
use crate::model::{CoinDataHeight, CoinId};

verus! {

/// Table of proofs waiting to be submitted.
pub const TABLE_PROOF_LIST: &'static str = "try_send_proofs";

/// What a log record is about.
#[derive(Clone, Copy, Debug, PartialEq, Eq)]
pub enum WhatLog {
    /// Balance changes: seed issuance, mint and swap fees.
    BalanceHistory,
    /// A fail-safe tripped.
    Failsafe,
    /// General logging and ordinary events.
    Log,
    /// A fault that stops the worker.
    Fatal,
    /// A programming error.
    Exception,
    /// An expected exit.
    Quit,
    /// An interrupt from the keyboard.
    KeyboardInterrupt,
    /// A seed-issuing transaction was sent.
    NewCoin,
    /// A swap was sent.
    Swap,
    /// A proof was generated.
    Proof,
    /// The storage failed.
    StorageProblem,
    /// Written by tests.
    Test,
}

/// One log record: who wrote it, what about, when (nanoseconds since the Unix epoch), an
/// optional backtrace, the event, its text, and an optional encoded message.
#[derive(Debug)]
pub struct LogRecord {
    pub id: String,
    pub kind: WhatLog,
    pub time: u128,
    pub backtrace: Option<Vec<u8>>,
    pub event: String,
    pub text: String,
    pub msg: Vec<u8>,
}

/// A proof waiting to be submitted: the seed it was computed on, the seed's coin data at
/// its height, and the proof bytes.
#[derive(Debug, PartialEq, Eq)]
pub struct TrySendProof {
    pub coin: CoinId,
    pub data: CoinDataHeight,
    pub proof: Vec<u8>,
}

/// The submission state of a proof: failed attempts so far, when it was queued
/// (nanoseconds since the Unix epoch), whether it was sent, whether it was given up, and
/// the errors met, in order.
#[derive(Debug, PartialEq, Eq)]
pub struct TrySendProofState {
    pub fails: u8,
    pub created: u128,
    pub sent: bool,
    pub failed: bool,
    pub errors: Vec<String>,
}

/// The value of a `TrySendProof`.
pub struct ProofView {
    pub coin: CoinId,
    pub data: CoinDataHeight,
    pub proof: Seq<u8>,
}

/// The value of a `TrySendProofState`.
pub struct StateView {
    pub fails: u8,
    pub created: u128,
    pub sent: bool,
    pub failed: bool,
    pub errors: Seq<Seq<char>>,
}

impl View for TrySendProof {
    type V = ProofView;

    open spec fn view(&self) -> ProofView {
        ProofView { coin: self.coin, data: self.data, proof: self.proof@ }
    }
}

impl View for TrySendProofState {
    type V = StateView;

    open spec fn view(&self) -> StateView {
        StateView {
            fails: self.fails,
            created: self.created,
            sent: self.sent,
            failed: self.failed,
            errors: self.errors@.map_values(|e: String| e@),
        }
    }
}

/// Compares two byte strings.
pub fn bytes_eq(a: &Vec<u8>, b: &Vec<u8>) -> (r: bool)
    ensures
        r == (a@ == b@),
{
    if a.len() != b.len() {
        return false;
    }
    let mut i: usize = 0;
    while i < a.len()
        invariant
            i <= a@.len() == b@.len(),
            forall|j: int| 0 <= j < i ==> a@[j] == b@[j],
        decreases a.len() - i,
    {
        if a[i] != b[i] {
            return false;
        }
        i = i + 1;
    }
    assert(a@ =~= b@);
    true
}

/// Copies a byte string.
pub fn copy_bytes(a: &Vec<u8>) -> (r: Vec<u8>)
    ensures
        r@ == a@,
{
    let mut r: Vec<u8> = Vec::new();
    let mut i: usize = 0;
    while i < a.len()
        invariant
            i <= a@.len(),
            r@ == a@.take(i as int),
        decreases a.len() - i,
    {
        r.push(a[i]);
        assert(a@.take(i + 1) =~= a@.take(i as int).push(a@[i as int]));
        i = i + 1;
    }
    assert(a@.take(a@.len() as int) =~= a@);
    r
}

/// The value stored under `key` in `entries`, if any.
pub open spec fn lookup(entries: Seq<(Seq<u8>, Seq<u8>)>, key: Seq<u8>) -> Option<Seq<u8>> {
    if exists|i: int| 0 <= i < entries.len() && entries[i].0 == key {
        let i = choose|i: int| 0 <= i < entries.len() && entries[i].0 == key;
        Some(entries[i].1)
    } else {
        None
    }
}

/// `entries` after storing `value` under `key`: replaced in place, or appended.
pub open spec fn store(entries: Seq<(Seq<u8>, Seq<u8>)>, key: Seq<u8>, value: Seq<u8>) -> Seq<
    (Seq<u8>, Seq<u8>),
> {
    if exists|i: int| 0 <= i < entries.len() && entries[i].0 == key {
        let i = choose|i: int| 0 <= i < entries.len() && entries[i].0 == key;
        entries.update(i, (key, value))
    } else {
        entries.push((key, value))
    }
}

/// `entries` without the entry stored under `key`.
pub open spec fn erase(entries: Seq<(Seq<u8>, Seq<u8>)>, key: Seq<u8>) -> Seq<(Seq<u8>, Seq<u8>)> {
    if exists|i: int| 0 <= i < entries.len() && entries[i].0 == key {
        let i = choose|i: int| 0 <= i < entries.len() && entries[i].0 == key;
        entries.remove(i)
    } else {
        entries
    }
}

/// No key occurs twice.
pub open spec fn keys_unique(entries: Seq<(Seq<u8>, Seq<u8>)>) -> bool {
    forall|i: int, j: int|
        0 <= i < entries.len() && 0 <= j < entries.len() && i != j ==> #[trigger] entries[i].0
            != #[trigger] entries[j].0
}

/// The table was used after it was closed.
#[derive(Clone, Copy, Debug, PartialEq, Eq)]
pub struct DictClosed;

/// A named byte-keyed table, kept in memory in the order its keys were first stored.
/// Whatever opens a table loads its stored entries into it, and writes it back.
pub struct Dict {
    table: String,
    entries: Vec<(Vec<u8>, Vec<u8>)>,
    closed: bool,
}

impl Dict {
    /// The entries as values.
    pub closed spec fn entries(&self) -> Seq<(Seq<u8>, Seq<u8>)> {
        self.entries@.map_values(|e: (Vec<u8>, Vec<u8>)| (e.0@, e.1@))
    }

    pub closed spec fn closed(&self) -> bool {
        self.closed
    }

    pub closed spec fn table(&self) -> Seq<char> {
        self.table@
    }

    pub open spec fn wf(&self) -> bool {
        keys_unique(self.entries())
    }

    /// An open, empty table.
    pub fn new(table: &str) -> (d: Dict)
        ensures
            d.wf(),
            !d.closed(),
            d.table() == table@,
            d.entries() == Seq::<(Seq<u8>, Seq<u8>)>::empty(),
    {
        let d = Dict { table: table.to_string(), entries: Vec::new(), closed: false };
        assert(d.entries() =~= Seq::<(Seq<u8>, Seq<u8>)>::empty());
        d
    }

    /// Closes the table; says whether it was open.
    pub fn close(&mut self) -> (was_open: bool)
        ensures
            was_open == !old(self).closed(),
            final(self).closed(),
            final(self).entries() == old(self).entries(),
            final(self).table() == old(self).table(),
    {
        if !self.closed {
            self.closed = true;
            true
        } else {
            false
        }
    }

    pub fn is_closed(&self) -> (r: bool)
        ensures
            r == self.closed(),
    {
        self.closed
    }

    /// The table's name.
    pub fn name(&self) -> (r: String)
        ensures
            r@ == self.table(),
    {
        self.table.clone()
    }

    /// The position of `key`, if stored.
    fn find(&self, key: &Vec<u8>) -> (r: Option<usize>)
        ensures
            match r {
                Some(i) => i < self.entries().len() && self.entries()[i as int].0 == key@,
                None => forall|i: int| 0 <= i < self.entries().len() ==> self.entries()[i].0 != key@,
            },
    {
        let mut i: usize = 0;
        while i < self.entries.len()
            invariant
                i <= self.entries@.len(),
                forall|j: int| 0 <= j < i ==> self.entries()[j].0 != key@,
            decreases self.entries.len() - i,
        {
            if bytes_eq(&self.entries[i].0, key) {
                return Some(i);
            }
            i = i + 1;
        }
        None
    }

    /// The value stored under `key`; an error once the table is closed.
    pub fn get(&self, key: &Vec<u8>) -> (r: Result<Option<Vec<u8>>, DictClosed>)
        requires
            self.wf(),
        ensures
            self.closed() ==> r is Err,
            !self.closed() ==> (r matches Ok(v) && match lookup(self.entries(), key@) {
                Some(stored) => v matches Some(x) && x@ == stored,
                None => v is None,
            }),
    {
        if self.closed {
            return Err(DictClosed);
        }
        match self.find(key) {
            Some(i) => {
                proof {
                    let c = choose|j: int|
                        0 <= j < self.entries().len() && self.entries()[j].0 == key@;
                    assert(c == i);
                }
                Ok(Some(copy_bytes(&self.entries[i].1)))
            },
            None => Ok(None),
        }
    }

    /// Stores `value` under `key`; an error once the table is closed.
    pub fn set(&mut self, key: &Vec<u8>, value: &Vec<u8>) -> (r: Result<(), DictClosed>)
        requires
            old(self).wf(),
        ensures
            final(self).wf(),
            final(self).closed() == old(self).closed(),
            final(self).table() == old(self).table(),
            old(self).closed() ==> r is Err && final(self).entries() == old(self).entries(),
            !old(self).closed() ==> r is Ok && final(self).entries() == store(
                old(self).entries(),
                key@,
                value@,
            ),
    {
        if self.closed {
            return Err(DictClosed);
        }
        let ghost e0 = self.entries();
        match self.find(key) {
            Some(i) => {
                proof {
                    let c = choose|j: int| 0 <= j < e0.len() && e0[j].0 == key@;
                    assert(c == i);
                }
                self.entries.set(i, (copy_bytes(key), copy_bytes(value)));
                assert(self.entries() =~= e0.update(i as int, (key@, value@)));
            },
            None => {
                self.entries.push((copy_bytes(key), copy_bytes(value)));
                assert(self.entries() =~= e0.push((key@, value@)));
            },
        }
        Ok(())
    }

    /// Removes the entry stored under `key`; an error once the table is closed.
    pub fn remove(&mut self, key: &Vec<u8>) -> (r: Result<(), DictClosed>)
        requires
            old(self).wf(),
        ensures
            final(self).wf(),
            final(self).closed() == old(self).closed(),
            final(self).table() == old(self).table(),
            old(self).closed() ==> r is Err && final(self).entries() == old(self).entries(),
            !old(self).closed() ==> r is Ok && final(self).entries() == erase(old(self).entries(), key@),
    {
        if self.closed {
            return Err(DictClosed);
        }
        let ghost e0 = self.entries();
        match self.find(key) {
            Some(i) => {
                proof {
                    let c = choose|j: int| 0 <= j < e0.len() && e0[j].0 == key@;
                    assert(c == i);
                }
                let _ = self.entries.remove(i);
                assert(self.entries() =~= e0.remove(i as int));
                proof {
                    let e1 = self.entries();
                    assert forall|a: int, b: int|
                        0 <= a < e1.len() && 0 <= b < e1.len() && a != b implies #[trigger] e1[a].0
                        != #[trigger] e1[b].0 by {
                        let a0 = if a < i { a } else { a + 1 };
                        let b0 = if b < i { b } else { b + 1 };
                        assert(e1[a] == e0[a0]);
                        assert(e1[b] == e0[b0]);
                    }
                }
            },
            None => {},
        }
        Ok(())
    }

    /// All stored entries, in order; an error once the table is closed.
    pub fn items(&self) -> (r: Result<Vec<(Vec<u8>, Vec<u8>)>, DictClosed>)
        ensures
            self.closed() ==> r is Err,
            !self.closed() ==> (r matches Ok(v) && v@.map_values(
                |e: (Vec<u8>, Vec<u8>)| (e.0@, e.1@),
            ) == self.entries()),
    {
        if self.closed {
            return Err(DictClosed);
        }
        let mut out: Vec<(Vec<u8>, Vec<u8>)> = Vec::new();
        let mut i: usize = 0;
        while i < self.entries.len()
            invariant
                i <= self.entries@.len(),
                out@.map_values(|e: (Vec<u8>, Vec<u8>)| (e.0@, e.1@)) == self.entries().take(
                    i as int,
                ),
            decreases self.entries.len() - i,
        {
            let k = copy_bytes(&self.entries[i].0);
            let v = copy_bytes(&self.entries[i].1);
            let ghost before = out@;
            out.push((k, v));
            proof {
                assert(self.entries()[i as int] == (k@, v@));
                assert(out@.map_values(|e: (Vec<u8>, Vec<u8>)| (e.0@, e.1@)) =~= before.map_values(
                    |e: (Vec<u8>, Vec<u8>)| (e.0@, e.1@),
                ).push((k@, v@)));
                assert(self.entries().take(i + 1) =~= self.entries().take(i as int).push(
                    self.entries()[i as int],
                ));
            }
            i = i + 1;
        }
        assert(self.entries().take(self.entries().len() as int) =~= self.entries());
        Ok(out)
    }

    /// All stored keys, in order; an error once the table is closed.
    pub fn keys(&self) -> (r: Result<Vec<Vec<u8>>, DictClosed>)
        ensures
            self.closed() ==> r is Err,
            !self.closed() ==> (r matches Ok(v) && v@.map_values(|k: Vec<u8>| k@)
                == self.entries().map_values(|e: (Seq<u8>, Seq<u8>)| e.0)),
    {
        if self.closed {
            return Err(DictClosed);
        }
        let mut out: Vec<Vec<u8>> = Vec::new();
        let mut i: usize = 0;
        while i < self.entries.len()
            invariant
                i <= self.entries@.len(),
                out@.map_values(|k: Vec<u8>| k@) == self.entries().map_values(
                    |e: (Seq<u8>, Seq<u8>)| e.0,
                ).take(i as int),
            decreases self.entries.len() - i,
        {
            let k = copy_bytes(&self.entries[i].0);
            let ghost before = out@;
            out.push(k);
            proof {
                let ks = self.entries().map_values(|e: (Seq<u8>, Seq<u8>)| e.0);
                assert(ks[i as int] == k@);
                assert(out@.map_values(|k: Vec<u8>| k@) =~= before.map_values(|k: Vec<u8>| k@).push(
                    k@,
                ));
                assert(ks.take(i + 1) =~= ks.take(i as int).push(ks[i as int]));
            }
            i = i + 1;
        }
        assert(self.entries().map_values(|e: (Seq<u8>, Seq<u8>)| e.0).take(
            self.entries().len() as int,
        ) =~= self.entries().map_values(|e: (Seq<u8>, Seq<u8>)| e.0));
        Ok(out)
    }
}

/// Reading back what was just stored gives it back.
pub proof fn lemma_store_then_lookup(entries: Seq<(Seq<u8>, Seq<u8>)>, key: Seq<u8>, value: Seq<u8>)
    requires
        keys_unique(entries),
    ensures
        keys_unique(store(entries, key, value)),
        lookup(store(entries, key, value), key) == Some(value),
{
    let s = store(entries, key, value);
    if exists|i: int| 0 <= i < entries.len() && entries[i].0 == key {
        let i = choose|i: int| 0 <= i < entries.len() && entries[i].0 == key;
        assert(s[i].0 == key);
        assert(forall|j: int| 0 <= j < s.len() && j != i ==> s[j] == entries[j]);
    } else {
        assert(s[entries.len() as int].0 == key);
        assert(forall|j: int| 0 <= j < entries.len() ==> s[j] == entries[j]);
    }
    let c = choose|j: int| 0 <= j < s.len() && s[j].0 == key;
    assert(s[c].1 == value);
}

} // verus!
