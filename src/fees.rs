//! The fee ledger and the profit/loss fail-safe.
use vstd::prelude::*;

verus! {

/// The kind of a transaction the worker pays fees for.
#[derive(Clone, Copy, Debug, PartialEq, Eq, Hash)]
pub enum TxKind {
    /// A seed-issuing transaction; it earns nothing by itself.
    Normal,
    /// A mint transaction submitting a proof.
    DoscMint,
    /// A swap converting the minted asset into the native currency.
    Swap,
}

/// One transaction the worker sent: its kind, when it was sent (nanoseconds since the
/// Unix epoch), the wallet balance after sending, the fee paid and the income expected.
#[derive(Clone, Copy, Debug, PartialEq, Eq)]
pub struct FeeRecord {
    pub kind: TxKind,
    pub time: u128,
    pub balance: u128,
    pub fee: u128,
    pub income: u128,
}

/// The running loss after `records`: a loss adds to it, a profit pays it back down to no
/// less than zero, and seed-issuing transactions are left out. The total saturates at the
/// largest coin value.
pub open spec fn lost_after(records: Seq<FeeRecord>) -> u128
    decreases records.len(),
{
    if records.len() == 0 {
        0
    } else {
        let before = lost_after(records.drop_last());
        let r = records.last();
        if r.kind is Normal {
            before
        } else if r.income < r.fee {
            let grown = before + (r.fee - r.income);
            if grown > u128::MAX {
                u128::MAX
            } else {
                grown as u128
            }
        } else if before <= r.income - r.fee {
            0
        } else {
            (before - (r.income - r.fee)) as u128
        }
    }
}

/// Times strictly increase along `records`.
pub open spec fn times_increasing(records: Seq<FeeRecord>) -> bool {
    forall|i: int, j: int| 0 <= i < j < records.len() ==> records[i].time < records[j].time
}

/// What the fail-safe found.
#[derive(Clone, Copy, Debug, PartialEq, Eq)]
pub struct FailsafeVerdict {
    /// The unrecovered loss.
    pub lost: u128,
    /// Some loss is unrecovered: the operator is to be warned.
    pub warn: bool,
    /// The loss reached the tolerance and the fail-safe may stop the worker.
    pub abort: bool,
}

/// What to do with a transaction before sending it.
#[derive(Clone, Copy, Debug, PartialEq, Eq)]
pub enum FeeDecision {
    /// The fee is below the income.
    Send,
    /// The fee is not below the income; send, and warn.
    SendWithWarning,
    /// The fee exceeds the income on the production network and such transactions are refused.
    Refuse,
}

/// The decision for a transaction paying `fee` for `income`.
pub open spec fn fee_decision_spec(fee: u128, income: u128, mainnet: bool, allow_any_tx: bool) -> FeeDecision {
    if fee > income && mainnet && !allow_any_tx {
        FeeDecision::Refuse
    } else if fee >= income {
        FeeDecision::SendWithWarning
    } else {
        FeeDecision::Send
    }
}

/// Decides whether a transaction paying `fee` for `income` is sent: on the production
/// network a fee above the income is refused unless every transaction is allowed, and a
/// fee not below the income is always warned about.
pub fn fee_decision(fee: u128, income: u128, mainnet: bool, allow_any_tx: bool) -> (d: FeeDecision)
    ensures
        d == fee_decision_spec(fee, income, mainnet, allow_any_tx),
{
    if fee > income && mainnet && !allow_any_tx {
        FeeDecision::Refuse
    } else if fee >= income {
        FeeDecision::SendWithWarning
    } else {
        FeeDecision::Send
    }
}

/// The fee ledger and its policy.
pub struct FeeSchedule {
    /// Every fee-paying transaction sent, in order.
    pub history: Vec<FeeRecord>,
    /// Send transactions whatever their fee.
    pub allow_any_tx: bool,
    /// All fail-safes are off.
    pub no_failsafe: bool,
    /// The loss tolerated before the fail-safe trips.
    pub max_lost: u128,
    /// The fail-safe stops the worker when it trips.
    pub quit: bool,
}

impl FeeSchedule {
    pub open spec fn wf(&self) -> bool {
        times_increasing(self.history@)
    }

    /// An empty ledger with the given policy.
    pub fn new(allow_any_tx: bool, no_failsafe: bool, max_lost: u128, quit: bool) -> (s: FeeSchedule)
        ensures
            s.wf(),
            s.history@ == Seq::<FeeRecord>::empty(),
            s.allow_any_tx == allow_any_tx,
            s.no_failsafe == no_failsafe,
            s.max_lost == max_lost,
            s.quit == quit,
    {
        FeeSchedule { history: Vec::new(), allow_any_tx, no_failsafe, max_lost, quit }
    }

    /// Whether the ledger's times strictly increase.
    pub fn times_in_order(&self) -> (ok: bool)
        ensures
            ok == self.wf(),
    {
        let h = &self.history;
        let mut k: usize = 1;
        if h.len() == 0 {
            return true;
        }
        while k < h.len()
            invariant
                1 <= k <= h@.len(),
                h@ == self.history@,
                times_increasing(h@.take(k as int)),
            decreases h.len() - k,
        {
            if h[k - 1].time >= h[k].time {
                assert(!times_increasing(h@));
                return false;
            }
            proof {
                let t = h@.take(k + 1);
                assert forall|i: int, j: int| 0 <= i < j < t.len() implies t[i].time < t[j].time by {
                    if j == k {
                        if i < k - 1 {
                            assert(h@.take(k as int)[i].time < h@.take(k as int)[k - 1].time);
                        }
                    } else {
                        assert(h@.take(k as int)[i].time < h@.take(k as int)[j].time);
                    }
                }
            }
            k = k + 1;
        }
        assert(h@.take(h@.len() as int) =~= h@);
        true
    }

    /// Whether a record made at `time` may be appended: it must come after the last one.
    pub fn accepts_time(&self, time: u128) -> (ok: bool)
        ensures
            ok == (self.history@.len() == 0 || self.history@.last().time < time),
    {
        if self.history.len() == 0 {
            true
        } else {
            self.history[self.history.len() - 1].time < time
        }
    }

    /// Appends a record.
    pub fn record(&mut self, kind: TxKind, time: u128, balance: u128, fee: u128, income: u128)
        requires
            old(self).wf(),
            old(self).history@.len() == 0 || old(self).history@.last().time < time,
        ensures
            final(self).wf(),
            final(self).history@ == old(self).history@.push(
                FeeRecord { kind, time, balance, fee, income },
            ),
            final(self).allow_any_tx == old(self).allow_any_tx,
            final(self).no_failsafe == old(self).no_failsafe,
            final(self).max_lost == old(self).max_lost,
            final(self).quit == old(self).quit,
    {
        self.history.push(FeeRecord { kind, time, balance, fee, income });
        proof {
            let h = self.history@;
            assert forall|i: int, j: int| 0 <= i < j < h.len() implies h[i].time < h[j].time by {
                if j == h.len() - 1 && i < j {
                    assert(old(self).history@[i].time <= old(self).history@.last().time);
                }
            }
        }
    }

    /// Walks the ledger and reports the unrecovered loss, whether to warn, and whether the
    /// loss reached the tolerance with stopping allowed.
    pub fn failsafe(&self) -> (v: FailsafeVerdict)
        requires
            self.wf(),
        ensures
            v == failsafe_verdict(self.history@, self.max_lost, self.quit),
    {
        let mut lost: u128 = 0;
        let mut i: usize = 0;
        while i < self.history.len()
            invariant
                i <= self.history@.len(),
                lost == lost_after(self.history@.take(i as int)),
            decreases self.history.len() - i,
        {
            let r = self.history[i];
            assert(self.history@.take(i + 1).drop_last() =~= self.history@.take(i as int));
            assert(self.history@.take(i + 1).last() == self.history@[i as int]);
            match r.kind {
                TxKind::Normal => {},
                _ => {
                    if r.income < r.fee {
                        lost = lost.saturating_add(r.fee - r.income);
                    } else if lost <= r.income - r.fee {
                        lost = 0;
                    } else {
                        lost = lost - (r.income - r.fee);
                    }
                },
            }
            i = i + 1;
        }
        assert(self.history@.take(self.history@.len() as int) =~= self.history@);
        FailsafeVerdict { lost, warn: lost > 0, abort: self.quit && lost >= self.max_lost }
    }

    /// The decision for a transaction paying `fee` for `income` under this ledger's policy.
    pub fn check_fee(&self, fee: u128, income: u128, mainnet: bool) -> (d: FeeDecision)
        ensures
            d == fee_decision_spec(fee, income, mainnet, self.allow_any_tx),
    {
        fee_decision(fee, income, mainnet, self.allow_any_tx)
    }
}

/// The losses of `records`, profits left out.
pub open spec fn gross_loss(records: Seq<FeeRecord>) -> nat
    decreases records.len(),
{
    if records.len() == 0 {
        0
    } else {
        let r = records.last();
        gross_loss(records.drop_last()) + if !(r.kind is Normal) && r.income < r.fee {
            (r.fee - r.income) as nat
        } else {
            0
        }
    }
}

/// The losses of `records` less their profits.
pub open spec fn net_loss(records: Seq<FeeRecord>) -> int
    decreases records.len(),
{
    if records.len() == 0 {
        0
    } else {
        let r = records.last();
        net_loss(records.drop_last()) + if r.kind is Normal {
            0
        } else {
            r.fee - r.income
        }
    }
}

/// The verdict of the fail-safe on `records`.
pub open spec fn failsafe_verdict(records: Seq<FeeRecord>, max_lost: u128, quit: bool) -> FailsafeVerdict {
    let lost = lost_after(records);
    FailsafeVerdict { lost, warn: lost > 0, abort: quit && lost >= max_lost }
}

/// Over any ledger whose losses fit in a coin value, the loss the fail-safe reports is
/// never negative, never more than the losses, never less than the losses less the
/// profits; and it stops the worker exactly when stopping is allowed and that loss has
/// reached the tolerance.
pub proof fn lemma_failsafe_law(records: Seq<FeeRecord>, max_lost: u128, quit: bool)
    requires
        gross_loss(records) <= u128::MAX,
    ensures
        0 <= lost_after(records) <= gross_loss(records),
        net_loss(records) <= lost_after(records),
        failsafe_verdict(records, max_lost, quit).abort <==> (quit && lost_after(records) >= max_lost),
        failsafe_verdict(records, max_lost, quit).lost == lost_after(records),
    decreases records.len(),
{
    if records.len() > 0 {
        lemma_failsafe_law(records.drop_last(), max_lost, quit);
    }
}

} // verus!
