//! The durable queue of proofs waiting to be submitted.
use vstd::prelude::*;
use crate::codec::{
    decode_key, decode_key_spec, decode_state, encode_key, encode_state, key_bytes,
    lemma_key_round_trip, lemma_state_round_trip, parse_state, state_bytes, strings_fit,
};
use crate::db::{
    Dict, DictClosed, ProofView, StateView, TrySendProof, TrySendProofState, erase, keys_unique,
    lemma_store_then_lookup, lookup, store,
};

verus! {

/// A proof is retried while it has failed at most this many times.
pub const MAX_RETRIES: u8 = 3;

/// What became of a proof after one submission attempt.
#[derive(Clone, Copy, Debug, PartialEq, Eq)]
pub enum Disposition {
    /// Submitted; it leaves the queue and storage.
    Sent,
    /// Failed; it goes to the back of the queue.
    Retry,
    /// Failed once too often; it leaves the queue and storage for good.
    Dropped,
}

/// The state after one attempt: success marks the proof sent; a failure counts one more
/// failure and records the error, and past the retry ceiling marks the proof failed.
pub open spec fn attempt(s: StateView, error: Option<Seq<char>>) -> (StateView, Disposition) {
    match error {
        None => (StateView { sent: true, ..s }, Disposition::Sent),
        Some(e) => {
            let fails = if s.fails < 255 {
                (s.fails + 1) as u8
            } else {
                255u8
            };
            let next = StateView { fails, errors: s.errors.push(e), ..s };
            if fails <= MAX_RETRIES {
                (next, Disposition::Retry)
            } else {
                (StateView { failed: true, ..next }, Disposition::Dropped)
            }
        },
    }
}

/// The error of an attempt as a value.
pub open spec fn error_view(error: Option<String>) -> Option<Seq<char>> {
    match error {
        Some(x) => Some(x@),
        None => None,
    }
}

/// The queue after an attempt on its front record: a retried record goes to the back with
/// its new state, any other leaves.
pub open spec fn queue_after(q: Seq<(ProofView, StateView)>, error: Option<Seq<char>>) -> Seq<
    (ProofView, StateView),
> {
    let (next, d) = attempt(q[0].1, error);
    if d is Retry {
        q.drop_first().push((q[0].0, next))
    } else {
        q.drop_first()
    }
}

/// The storage after an attempt on the front record `rec`: a retried record is stored
/// with its new state, any other is erased.
pub open spec fn storage_after(
    entries: Seq<(Seq<u8>, Seq<u8>)>,
    rec: (ProofView, StateView),
    error: Option<Seq<char>>,
) -> Seq<(Seq<u8>, Seq<u8>)> {
    let (next, d) = attempt(rec.1, error);
    if d is Retry {
        store(entries, key_bytes(rec.0), state_bytes(next))
    } else {
        erase(entries, key_bytes(rec.0))
    }
}

/// The records that stored entries decode to, in order; entries that do not decode are
/// left out.
pub open spec fn restored(entries: Seq<(Seq<u8>, Seq<u8>)>) -> Seq<(ProofView, StateView)>
    decreases entries.len(),
{
    if entries.len() == 0 {
        Seq::empty()
    } else {
        let before = restored(entries.drop_last());
        let (k, v) = entries.last();
        match (decode_key_spec(k), parse_state(v)) {
            (Some(p), Some(s)) => before.push((p, s)),
            _ => before,
        }
    }
}

/// Proofs waiting to be submitted, in order, each with its submission state.
pub struct SubmissionQueue {
    items: Vec<(TrySendProof, TrySendProofState)>,
}

impl SubmissionQueue {
    pub closed spec fn view(&self) -> Seq<(ProofView, StateView)> {
        self.items@.map_values(|r: (TrySendProof, TrySendProofState)| (r.0@, r.1@))
    }

    /// An empty queue.
    pub fn new() -> (q: SubmissionQueue)
        ensures
            q.view() == Seq::<(ProofView, StateView)>::empty(),
    {
        let q = SubmissionQueue { items: Vec::new() };
        assert(q.view() =~= Seq::<(ProofView, StateView)>::empty());
        q
    }

    /// Rebuilds the queue from storage: every stored entry that reads back as a proof and
    /// its state, in storage order.
    pub fn restore(dict: &Dict) -> (r: Result<SubmissionQueue, DictClosed>)
        ensures
            dict.closed() ==> r is Err,
            !dict.closed() ==> (r matches Ok(q) && q.view() == restored(dict.entries())),
    {
        let entries = match dict.items() {
            Ok(e) => e,
            Err(e) => return Err(e),
        };
        let ghost ev = entries@.map_values(|e: (Vec<u8>, Vec<u8>)| (e.0@, e.1@));
        let mut q = SubmissionQueue::new();
        let mut i: usize = 0;
        while i < entries.len()
            invariant
                i <= entries@.len(),
                ev == entries@.map_values(|e: (Vec<u8>, Vec<u8>)| (e.0@, e.1@)),
                q.view() == restored(ev.take(i as int)),
            decreases entries.len() - i,
        {
            proof {
                assert(ev.take(i + 1).drop_last() =~= ev.take(i as int));
                assert(ev.take(i + 1).last() == (entries@[i as int].0@, entries@[i as int].1@));
            }
            let key = decode_key(&entries[i].0);
            let state = decode_state(&entries[i].1);
            match (key, state) {
                (Some(p), Some(s)) => {
                    let ghost before = q.view();
                    let ghost rec = (p@, s@);
                    q.items.push((p, s));
                    assert(q.view() =~= before.push(rec));
                },
                _ => {},
            }
            i = i + 1;
        }
        assert(ev.take(ev.len() as int) =~= ev);
        Ok(q)
    }

    /// The number of queued proofs.
    pub fn len(&self) -> (n: usize)
        ensures
            n == self.view().len(),
    {
        self.items.len()
    }

    /// The proof at the front of the queue.
    pub fn front(&self) -> (p: &TrySendProof)
        requires
            self.view().len() > 0,
        ensures
            p@ == self.view()[0].0,
    {
        &self.items[0].0
    }

    /// Stores a proof and its state, then appends it to the queue. Nothing is queued when
    /// storage is closed.
    pub fn enqueue(
        &mut self,
        dict: &mut Dict,
        proof: TrySendProof,
        state: TrySendProofState,
    ) -> (r: Result<(), DictClosed>)
        requires
            old(dict).wf(),
        ensures
            final(dict).wf(),
            final(dict).closed() == old(dict).closed(),
            old(dict).closed() ==> r is Err && final(self).view() == old(self).view()
                && final(dict).entries() == old(dict).entries(),
            !old(dict).closed() ==> r is Ok && final(self).view() == old(self).view().push(
                (proof@, state@),
            ) && final(dict).entries() == store(
                old(dict).entries(),
                key_bytes(proof@),
                state_bytes(state@),
            ),
    {
        let key = encode_key(&proof);
        let value = encode_state(&state);
        match dict.set(&key, &value) {
            Err(e) => Err(e),
            Ok(()) => {
                let ghost before = self.view();
                let ghost rec = (proof@, state@);
                self.items.push((proof, state));
                assert(self.view() =~= before.push(rec));
                Ok(())
            },
        }
    }

    /// Settles the attempt to submit the front proof: `error` is `None` when it was sent.
    /// A sent proof, or one that failed more than the retry ceiling, leaves the queue and
    /// storage; any other failure is stored and the proof goes to the back of the queue.
    /// Nothing changes when storage is closed.
    pub fn complete_front(&mut self, dict: &mut Dict, error: Option<String>) -> (r: Result<
        (Disposition, TrySendProofState),
        DictClosed,
    >)
        requires
            old(self).view().len() > 0,
            old(dict).wf(),
        ensures
            final(dict).wf(),
            final(dict).closed() == old(dict).closed(),
            old(dict).closed() ==> r is Err && final(self).view() == old(self).view()
                && final(dict).entries() == old(dict).entries(),
            !old(dict).closed() ==> (r matches Ok((d, s)) && ({
                let e = error_view(error);
                &&& (s@, d) == attempt(old(self).view()[0].1, e)
                &&& final(self).view() == queue_after(old(self).view(), e)
                &&& final(dict).entries() == storage_after(old(dict).entries(), old(self).view()[0], e)
            })),
    {
        if dict.is_closed() {
            return Err(DictClosed);
        }
        let ghost q0 = self.view();
        let ghost e = error_view(error);
        let (proof, mut state) = self.items.remove(0);
        assert(self.view() =~= q0.drop_first());
        let disposition = match error {
            None => {
                state.sent = true;
                Disposition::Sent
            },
            Some(text) => {
                state.fails = state.fails.saturating_add(1);
                let ghost errs = state@.errors;
                let ghost item = text@;
                state.errors.push(text);
                assert(state@.errors =~= errs.push(item));
                if state.fails <= MAX_RETRIES {
                    Disposition::Retry
                } else {
                    state.failed = true;
                    Disposition::Dropped
                }
            },
        };
        assert((state@, disposition) == attempt(q0[0].1, e));
        let key = encode_key(&proof);
        match disposition {
            Disposition::Retry => {
                let value = encode_state(&state);
                let _ = dict.set(&key, &value);
                let copy = TrySendProofState {
                    fails: state.fails,
                    created: state.created,
                    sent: state.sent,
                    failed: state.failed,
                    errors: copy_strings(&state.errors),
                };
                let ghost before = self.view();
                let ghost rec = (proof@, state@);
                self.items.push((proof, state));
                assert(self.view() =~= before.push(rec));
                Ok((disposition, copy))
            },
            _ => {
                let _ = dict.remove(&key);
                Ok((disposition, state))
            },
        }
    }
}

/// Copies a list of strings.
fn copy_strings(v: &Vec<String>) -> (r: Vec<String>)
    ensures
        r@.map_values(|e: String| e@) == v@.map_values(|e: String| e@),
{
    let mut r: Vec<String> = Vec::new();
    let mut i: usize = 0;
    while i < v.len()
        invariant
            i <= v@.len(),
            r@.map_values(|e: String| e@) == v@.map_values(|e: String| e@).take(i as int),
        decreases v.len() - i,
    {
        let s = v[i].clone();
        let ghost before = r@.map_values(|e: String| e@);
        r.push(s);
        assert(r@.map_values(|e: String| e@) =~= v@.map_values(|e: String| e@).take(i + 1)) by {
            assert(r@.map_values(|e: String| e@) =~= before.push(v@[i as int]@));
        }
        i = i + 1;
    }
    assert(v@.map_values(|e: String| e@).take(v@.len() as int) =~= v@.map_values(|e: String| e@));
    r
}

/// A record stored in the queue's table comes back unchanged after a restart: the table
/// holds its encoding under its key, and both read back as the record and its state,
/// retry count included.
pub proof fn lemma_persisted_record_round_trip(
    entries: Seq<(Seq<u8>, Seq<u8>)>,
    p: ProofView,
    s: StateView,
)
    requires
        keys_unique(entries),
        p.proof.len() <= u64::MAX,
        strings_fit(s.errors),
    ensures
        ({
            let stored = store(entries, key_bytes(p), state_bytes(s));
            &&& lookup(stored, key_bytes(p)) == Some(state_bytes(s))
            &&& decode_key_spec(key_bytes(p)) == Some(p)
            &&& parse_state(state_bytes(s)) == Some(s)
            &&& restored(stored).contains((p, s))
        }),
{
    lemma_store_then_lookup(entries, key_bytes(p), state_bytes(s));
    lemma_key_round_trip(p);
    lemma_state_round_trip(s);
    let stored = store(entries, key_bytes(p), state_bytes(s));
    let i = choose|i: int| 0 <= i < stored.len() && stored[i].0 == key_bytes(p);
    assert(stored[i].1 == state_bytes(s));
    lemma_restored_contains(stored, i);
}

/// The table that holds exactly the encodings of `records`, in order.
pub open spec fn table_of(records: Seq<(ProofView, StateView)>) -> Seq<(Seq<u8>, Seq<u8>)> {
    records.map_values(|r: (ProofView, StateView)| (key_bytes(r.0), state_bytes(r.1)))
}

/// Every record fits the storage layout: its proof and each of its errors fit a length
/// prefix.
pub open spec fn records_fit(records: Seq<(ProofView, StateView)>) -> bool {
    forall|i: int|
        0 <= i < records.len() ==> (#[trigger] records[i]).0.proof.len() <= u64::MAX
            && strings_fit(records[i].1.errors)
}

/// A whole table comes back unchanged after a restart: restoring the table that holds
/// the encodings of some records gives back exactly those records, in order, each with
/// its retry count and every other field.
pub proof fn lemma_restored_table(records: Seq<(ProofView, StateView)>)
    requires
        records_fit(records),
    ensures
        restored(table_of(records)) == records,
    decreases records.len(),
{
    if records.len() > 0 {
        let prefix = records.drop_last();
        assert(records_fit(prefix)) by {
            assert forall|i: int| 0 <= i < prefix.len() implies (#[trigger] prefix[i]).0.proof.len()
                <= u64::MAX && strings_fit(prefix[i].1.errors) by {
                assert(prefix[i] == records[i]);
            }
        }
        lemma_restored_table(prefix);
        assert(table_of(records).drop_last() =~= table_of(prefix));
        let last = records.last();
        assert(records[records.len() - 1] == last);
        lemma_key_round_trip(last.0);
        lemma_state_round_trip(last.1);
        assert(records =~= prefix.push(last));
    }
}

/// Every entry that decodes is among the restored records.
proof fn lemma_restored_contains(entries: Seq<(Seq<u8>, Seq<u8>)>, i: int)
    requires
        0 <= i < entries.len(),
        decode_key_spec(entries[i].0) is Some,
        parse_state(entries[i].1) is Some,
    ensures
        restored(entries).contains(
            (decode_key_spec(entries[i].0)->Some_0, parse_state(entries[i].1)->Some_0),
        ),
    decreases entries.len(),
{
    let prefix = entries.drop_last();
    let x = (decode_key_spec(entries[i].0)->Some_0, parse_state(entries[i].1)->Some_0);
    if i == entries.len() - 1 {
        assert(restored(entries).last() == x);
    } else {
        assert(prefix[i] == entries[i]);
        lemma_restored_contains(prefix, i);
        let before = restored(prefix);
        let j = choose|j: int| 0 <= j < before.len() && before[j] == x;
        assert(restored(entries)[j] == x);
    }
}

/// An attempt never lowers the retry count, and a proof that was sent leaves the queue.
pub proof fn lemma_attempt_monotone(q: Seq<(ProofView, StateView)>, error: Option<Seq<char>>)
    requires
        q.len() > 0,
    ensures
        attempt(q[0].1, error).0.fails >= q[0].1.fails,
        error is None ==> attempt(q[0].1, error).0.sent && queue_after(q, error) == q.drop_first(),
{
}

/// A proof that fails four attempts in a row is dropped and leaves the queue; one that
/// fails twice and then succeeds is marked sent and leaves the queue.
pub proof fn lemma_retry_ceiling(
    p: ProofView,
    s: StateView,
    e1: Seq<char>,
    e2: Seq<char>,
    e3: Seq<char>,
    e4: Seq<char>,
)
    requires
        s.fails == 0,
    ensures
        ({
            let q0 = seq![(p, s)];
            let q1 = queue_after(q0, Some(e1));
            let q2 = queue_after(q1, Some(e2));
            let q3 = queue_after(q2, Some(e3));
            let q4 = queue_after(q3, Some(e4));
            let (s4, d4) = attempt(q3[0].1, Some(e4));
            &&& q1.len() == 1 && q2.len() == 1 && q3.len() == 1
            &&& d4 is Dropped && s4.failed && s4.fails == 4
            &&& q4.len() == 0
        }),
        ({
            let q0 = seq![(p, s)];
            let q1 = queue_after(q0, Some(e1));
            let q2 = queue_after(q1, Some(e2));
            let (s3, d3) = attempt(q2[0].1, None);
            &&& d3 is Sent && s3.sent && s3.fails == 2
            &&& queue_after(q2, None).len() == 0
        }),
{
    let q0 = seq![(p, s)];
    let q1 = queue_after(q0, Some(e1));
    let q2 = queue_after(q1, Some(e2));
    let q3 = queue_after(q2, Some(e3));
    assert(q0.drop_first() =~= Seq::<(ProofView, StateView)>::empty());
    assert(q1[0] == q0.drop_first().push((q0[0].0, attempt(q0[0].1, Some(e1)).0))[0]);
    assert(q1.drop_first() =~= Seq::<(ProofView, StateView)>::empty());
    assert(q2.drop_first() =~= Seq::<(ProofView, StateView)>::empty());
    assert(q3.drop_first() =~= Seq::<(ProofView, StateView)>::empty());
}

} // verus!
