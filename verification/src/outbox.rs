//! The relay worker's decisions over the outbox: which pending entries to
//! drain, and how an entry moves on a successful submission, a failed
//! attempt, or a corrupt payload.
//!
//! Every update is conditional on the entry still being `Pending`, so a
//! duplicate worker tick is a silent no-op.  A failed attempt increments
//! the retry count and the entry fails permanently once the count exceeds
//! its budget; a corrupt payload fails permanently at once.

use vstd::prelude::*;

use crate::records::{OutboxModel, OutboxStatus, RETRY_BUDGET};
use crate::store::{has_outbox, has_settlement, wf, Store, StoreModel};

verus! {

/// A pending entry with this identifier exists.
pub open spec fn has_pending_entry(es: Seq<OutboxModel>, id: u64) -> bool {
    exists|i: int|
        0 <= i < es.len() && (#[trigger] es[i]).id == id && es[i].status == OutboxStatus::Pending
}

/// An entry with this identifier exists.
pub open spec fn has_entry(es: Seq<OutboxModel>, id: u64) -> bool {
    exists|i: int| 0 <= i < es.len() && (#[trigger] es[i]).id == id
}

/// The position of the entry with this identifier.
pub open spec fn entry_index(es: Seq<OutboxModel>, id: u64) -> int {
    choose|i: int| 0 <= i < es.len() && (#[trigger] es[i]).id == id
}

/// The entry with this identifier.
pub open spec fn entry_of(es: Seq<OutboxModel>, id: u64) -> OutboxModel
    recommends
        has_entry(es, id),
{
    es[entry_index(es, id)]
}

/// A successfully relayed entry: `Sent`, terminally, with any prior error
/// cleared.
pub open spec fn mark_sent(e: OutboxModel, now: u64) -> OutboxModel {
    OutboxModel { status: OutboxStatus::Sent, last_error: None, updated_at: now, ..e }
}

/// One failed relay attempt: the retry count grows by one, the error is
/// recorded, and the entry stays `Pending` until the count exceeds its
/// budget, when it fails permanently.
pub open spec fn fail_step(e: OutboxModel, err: Seq<char>, now: u64) -> OutboxModel {
    OutboxModel {
        retries: (e.retries + 1) as u64,
        last_error: Some(err),
        status: if e.retries + 1 > RETRY_BUDGET {
            OutboxStatus::Failed
        } else {
            OutboxStatus::Pending
        },
        updated_at: now,
        ..e
    }
}

/// A permanently failed entry: `Failed` at once, no retry, the reason
/// recorded.  The retry count is left as it stands, which tells a corrupt
/// payload apart from an exhausted retry budget.
pub open spec fn mark_failed(e: OutboxModel, err: Seq<char>, now: u64) -> OutboxModel {
    OutboxModel { status: OutboxStatus::Failed, last_error: Some(err), updated_at: now, ..e }
}

/// The store after an entry update that applies only while the entry is
/// pending.
pub open spec fn update_pending_spec(
    s: StoreModel,
    id: u64,
    updated: OutboxModel,
) -> StoreModel {
    if has_pending_entry(s.outbox, id) {
        StoreModel { outbox: s.outbox.update(entry_index(s.outbox, id), updated), ..s }
    } else {
        s
    }
}

/// The identifiers of the oldest pending entries, oldest first, up to a
/// limit.  Entries are drained in creation order: FIFO fairness.
pub open spec fn pending_ids_limit(es: Seq<OutboxModel>, limit: int) -> Seq<u64>
    decreases es.len(),
{
    if es.len() == 0 || limit <= 0 {
        Seq::empty()
    } else if es.first().status == OutboxStatus::Pending {
        seq![es.first().id] + pending_ids_limit(es.drop_first(), limit - 1)
    } else {
        pending_ids_limit(es.drop_first(), limit)
    }
}

/// With one entry per market and entries keyed by their market, lookup
/// lands on the one holder of an id.
proof fn lemma_entry_index_is(s: StoreModel, i: int)
    requires
        wf(s),
        0 <= i < s.outbox.len(),
    ensures
        entry_index(s.outbox, s.outbox[i].id) == i,
{
    let es = s.outbox;
    let id = es[i].id;
    assert(has_entry(es, id));
    let k = entry_index(es, id);
    if k != i {
        if k < i {
            assert(es[k].market_id != es[i].market_id);
        } else {
            assert(es[i].market_id != es[k].market_id);
        }
    }
}

/// An entry update that keeps the entry's identity and market preserves the
/// store invariant, as long as the updated retry state stays within its
/// bounds.
proof fn lemma_update_pending_wf(s: StoreModel, id: u64, updated: OutboxModel)
    requires
        wf(s),
        has_pending_entry(s.outbox, id) ==> ({
            let e = entry_of(s.outbox, id);
            &&& updated.id == e.id
            &&& updated.market_id == e.market_id
            &&& updated.retries <= RETRY_BUDGET + 1
            &&& (updated.status == OutboxStatus::Pending ==> updated.retries <= RETRY_BUDGET)
        }),
    ensures
        wf(update_pending_spec(s, id, updated)),
{
    if has_pending_entry(s.outbox, id) {
        let s2 = update_pending_spec(s, id, updated);
        let idx = entry_index(s.outbox, id);
        assert(0 <= idx < s.outbox.len() && s.outbox[idx].id == id);
        assert forall|i: int| 0 <= i < s2.outbox.len() implies (#[trigger] s2.outbox[i]).market_id
            == s.outbox[i].market_id && s2.outbox[i].id == s.outbox[i].id by {}
        assert forall|i: int| 0 <= i < s2.outbox.len() implies has_settlement(
            s2.settlements,
            (#[trigger] s2.outbox[i]).market_id,
        ) by {
            assert(has_settlement(s.settlements, s.outbox[i].market_id));
        }
        assert forall|i: int| 0 <= i < s2.settlements.len() implies has_outbox(
            s2.outbox,
            (#[trigger] s2.settlements[i]).market_id,
        ) by {
            let k = choose|k: int|
                0 <= k < s.outbox.len() && (#[trigger] s.outbox[k]).market_id
                    == s.settlements[i].market_id;
            assert(s2.outbox[k].market_id == s.settlements[i].market_id);
        }
    }
}

impl Store {
    /// The identifiers of up to `limit` pending outbox entries, oldest
    /// first.
    pub fn next_pending(&self, limit: usize) -> (r: Vec<u64>)
        ensures
            r@ == pending_ids_limit(self@.outbox, limit as int),
    {
        let n = self.outbox.len();
        let mut out: Vec<u64> = Vec::new();
        let mut i: usize = 0;
        let mut left: usize = limit;
        proof {
            assert(self@.outbox.skip(0) =~= self@.outbox);
        }
        while i < n
            invariant
                n == self.outbox@.len(),
                i <= n,
                left <= limit,
                pending_ids_limit(self@.outbox, limit as int) == out@ + pending_ids_limit(
                    self@.outbox.skip(i as int),
                    left as int,
                ),
            decreases n - i,
        {
            let ghost rest = self@.outbox.skip(i as int);
            proof {
                assert(rest.len() == n - i);
                assert(rest.first() == self@.outbox[i as int]);
                assert(rest.drop_first() =~= self@.outbox.skip(i as int + 1));
            }
            if left == 0 {
                proof {
                    assert(pending_ids_limit(rest, 0) == Seq::<u64>::empty());
                    assert(out@ + Seq::<u64>::empty() =~= out@);
                    assert(self@.outbox.skip(n as int) =~= Seq::<OutboxModel>::empty());
                }
                return out;
            }
            if matches!(self.outbox[i].status, OutboxStatus::Pending) {
                out.push(self.outbox[i].id);
                left = left - 1;
                proof {
                    assert(pending_ids_limit(rest, left as int + 1) == seq![rest.first().id]
                        + pending_ids_limit(rest.drop_first(), left as int));
                    assert((out@.drop_last() + (seq![rest.first().id] + pending_ids_limit(
                        rest.drop_first(),
                        left as int,
                    ))) =~= out@ + pending_ids_limit(
                        self@.outbox.skip(i as int + 1),
                        left as int,
                    ));
                }
            } else {
                proof {
                    assert(pending_ids_limit(rest, left as int) == pending_ids_limit(
                        rest.drop_first(),
                        left as int,
                    ));
                }
            }
            i = i + 1;
        }
        proof {
            assert(self@.outbox.skip(n as int) =~= Seq::<OutboxModel>::empty());
            assert(out@ + Seq::<u64>::empty() =~= out@);
        }
        out
    }

    /// The payload of the entry with this identifier, if it exists.
    pub fn entry_payload(&self, id: u64) -> (r: Option<Vec<u8>>)
        requires
            self.inv(),
        ensures
            match r {
                Some(p) => has_entry(self@.outbox, id) && p@ == entry_of(self@.outbox, id).payload,
                None => !has_entry(self@.outbox, id),
            },
    {
        let n = self.outbox.len();
        let mut i: usize = 0;
        while i < n
            invariant
                self.inv(),
                n == self.outbox@.len(),
                i <= n,
                forall|j: int| 0 <= j < i ==> (#[trigger] self@.outbox[j]).id != id,
            decreases n - i,
        {
            if self.outbox[i].id == id {
                proof {
                    assert(self@.outbox[i as int].id == id);
                    lemma_entry_index_is(self@, i as int);
                }
                return Some(self.outbox[i].payload.clone());
            }
            i = i + 1;
        }
        None
    }

    /// Record a successful relay: the entry flips to `Sent` and its error
    /// clears, if it still is pending.  Returns whether it applied.
    pub fn record_relay_success(&mut self, id: u64, now: u64) -> (applied: bool)
        requires
            old(self).inv(),
        ensures
            final(self).inv(),
            applied == has_pending_entry(old(self)@.outbox, id),
            final(self)@ == update_pending_spec(
                old(self)@,
                id,
                mark_sent(entry_of(old(self)@.outbox, id), now),
            ),
    {
        let n = self.outbox.len();
        let mut i: usize = 0;
        while i < n
            invariant
                self.inv(),
                self@ == old(self)@,
                n == self.outbox@.len(),
                i <= n,
                forall|j: int|
                    0 <= j < i ==> !((#[trigger] self@.outbox[j]).id == id && self@.outbox[j].status
                        == OutboxStatus::Pending),
            decreases n - i,
        {
            if self.outbox[i].id == id && matches!(self.outbox[i].status, OutboxStatus::Pending) {
                proof {
                    assert(self@.outbox[i as int].id == id && self@.outbox[i as int].status
                        == OutboxStatus::Pending);
                    assert(has_pending_entry(self@.outbox, id));
                    lemma_entry_index_is(self@, i as int);
                }
                let mut e = self.outbox[i].clone();
                proof {
                    assert(e@ == self@.outbox[i as int]);
                }
                e.status = OutboxStatus::Sent;
                e.last_error = None;
                e.updated_at = now;
                let ghost pre = self@;
                self.outbox.set(i, e);
                proof {
                    let upd = mark_sent(entry_of(old(self)@.outbox, id), now);
                    assert(entry_of(old(self)@.outbox, id) == pre.outbox[i as int]);
                    assert(e@ == upd);
                    assert forall|k: int|
                        0 <= k < pre.outbox.len() && k != i as int implies (
                    #[trigger] self@.outbox[k]) == pre.outbox[k] by {}
                    assert(self@.outbox[i as int] == upd);
                    assert(self@.outbox =~= pre.outbox.update(i as int, upd));
                    assert(self@ =~= update_pending_spec(pre, id, upd));
                    lemma_update_pending_wf(pre, id, upd);
                }
                return true;
            }
            i = i + 1;
        }
        proof {
            assert(!has_pending_entry(self@.outbox, id));
        }
        false
    }

    /// Record a failed relay attempt: the retry count grows by one and the
    /// entry stays pending until the count exceeds its budget, when it
    /// fails permanently.  Applies only while the entry is pending; returns
    /// whether it applied.
    pub fn record_relay_failure(&mut self, id: u64, error: String, now: u64) -> (applied: bool)
        requires
            old(self).inv(),
        ensures
            final(self).inv(),
            applied == has_pending_entry(old(self)@.outbox, id),
            final(self)@ == update_pending_spec(
                old(self)@,
                id,
                fail_step(entry_of(old(self)@.outbox, id), error@, now),
            ),
    {
        let n = self.outbox.len();
        let mut i: usize = 0;
        while i < n
            invariant
                self.inv(),
                self@ == old(self)@,
                n == self.outbox@.len(),
                i <= n,
                forall|j: int|
                    0 <= j < i ==> !((#[trigger] self@.outbox[j]).id == id && self@.outbox[j].status
                        == OutboxStatus::Pending),
            decreases n - i,
        {
            if self.outbox[i].id == id && matches!(self.outbox[i].status, OutboxStatus::Pending) {
                proof {
                    assert(self@.outbox[i as int].id == id && self@.outbox[i as int].status
                        == OutboxStatus::Pending);
                    assert(has_pending_entry(self@.outbox, id));
                    lemma_entry_index_is(self@, i as int);
                    assert(self@.outbox[i as int].retries <= RETRY_BUDGET);
                }
                let mut e = self.outbox[i].clone();
                proof {
                    assert(e@ == self@.outbox[i as int]);
                }
                let next_retries = e.retries + 1;
                e.retries = next_retries;
                e.last_error = Some(error);
                e.status = if next_retries > RETRY_BUDGET {
                    OutboxStatus::Failed
                } else {
                    OutboxStatus::Pending
                };
                e.updated_at = now;
                let ghost pre = self@;
                self.outbox.set(i, e);
                proof {
                    let upd = fail_step(entry_of(old(self)@.outbox, id), error@, now);
                    assert(entry_of(old(self)@.outbox, id) == pre.outbox[i as int]);
                    assert(e@ == upd);
                    assert forall|k: int|
                        0 <= k < pre.outbox.len() && k != i as int implies (
                    #[trigger] self@.outbox[k]) == pre.outbox[k] by {}
                    assert(self@.outbox[i as int] == upd);
                    assert(self@.outbox =~= pre.outbox.update(i as int, upd));
                    assert(self@ =~= update_pending_spec(pre, id, upd));
                    lemma_update_pending_wf(pre, id, upd);
                }
                return true;
            }
            i = i + 1;
        }
        proof {
            assert(!has_pending_entry(self@.outbox, id));
        }
        false
    }

    /// Record a permanent payload failure: the entry fails at once, no
    /// retry, with the reason recorded.  Applies only while the entry is
    /// pending; returns whether it applied.
    pub fn record_malformed(&mut self, id: u64, error: String, now: u64) -> (applied: bool)
        requires
            old(self).inv(),
        ensures
            final(self).inv(),
            applied == has_pending_entry(old(self)@.outbox, id),
            final(self)@ == update_pending_spec(
                old(self)@,
                id,
                mark_failed(entry_of(old(self)@.outbox, id), error@, now),
            ),
    {
        let n = self.outbox.len();
        let mut i: usize = 0;
        while i < n
            invariant
                self.inv(),
                self@ == old(self)@,
                n == self.outbox@.len(),
                i <= n,
                forall|j: int|
                    0 <= j < i ==> !((#[trigger] self@.outbox[j]).id == id && self@.outbox[j].status
                        == OutboxStatus::Pending),
            decreases n - i,
        {
            if self.outbox[i].id == id && matches!(self.outbox[i].status, OutboxStatus::Pending) {
                proof {
                    assert(self@.outbox[i as int].id == id && self@.outbox[i as int].status
                        == OutboxStatus::Pending);
                    assert(has_pending_entry(self@.outbox, id));
                    lemma_entry_index_is(self@, i as int);
                }
                let mut e = self.outbox[i].clone();
                proof {
                    assert(e@ == self@.outbox[i as int]);
                }
                e.status = OutboxStatus::Failed;
                e.last_error = Some(error);
                e.updated_at = now;
                let ghost pre = self@;
                self.outbox.set(i, e);
                proof {
                    let upd = mark_failed(entry_of(old(self)@.outbox, id), error@, now);
                    assert(entry_of(old(self)@.outbox, id) == pre.outbox[i as int]);
                    assert(e@ == upd);
                    assert forall|k: int|
                        0 <= k < pre.outbox.len() && k != i as int implies (
                    #[trigger] self@.outbox[k]) == pre.outbox[k] by {}
                    assert(self@.outbox[i as int] == upd);
                    assert(self@.outbox =~= pre.outbox.update(i as int, upd));
                    assert(self@ =~= update_pending_spec(pre, id, upd));
                    lemma_update_pending_wf(pre, id, upd);
                }
                return true;
            }
            i = i + 1;
        }
        proof {
            assert(!has_pending_entry(self@.outbox, id));
        }
        false
    }
}

/// The entry after `k` consecutive failed relay attempts.
pub open spec fn apply_failures(e: OutboxModel, err: Seq<char>, now: u64, k: int) -> OutboxModel
    decreases k,
{
    if k <= 0 {
        e
    } else {
        fail_step(apply_failures(e, err, now, k - 1), err, now)
    }
}

/// A fresh pending entry that fails six consecutive relay attempts stays
/// pending through the first five and ends `Failed` with six recorded
/// retries — one more than its budget — not `Pending`.
pub proof fn lemma_retry_budget_exhaustion(e: OutboxModel, err: Seq<char>, now: u64)
    requires
        e.status == OutboxStatus::Pending,
        e.retries == 0,
    ensures
        forall|k: int|
            0 <= k <= RETRY_BUDGET ==> (#[trigger] apply_failures(e, err, now, k)).status
                == OutboxStatus::Pending && apply_failures(e, err, now, k).retries == k,
        apply_failures(e, err, now, RETRY_BUDGET + 1).status == OutboxStatus::Failed,
        apply_failures(e, err, now, RETRY_BUDGET + 1).retries == RETRY_BUDGET + 1,
{
    assert forall|k: int| 0 <= k <= RETRY_BUDGET implies (#[trigger] apply_failures(
        e,
        err,
        now,
        k,
    )).status == OutboxStatus::Pending && apply_failures(e, err, now, k).retries == k by {
        lemma_failures_below_budget(e, err, now, k);
    }
    lemma_failures_below_budget(e, err, now, RETRY_BUDGET as int);
}

proof fn lemma_failures_below_budget(e: OutboxModel, err: Seq<char>, now: u64, k: int)
    requires
        e.status == OutboxStatus::Pending,
        e.retries == 0,
        0 <= k <= RETRY_BUDGET,
    ensures
        apply_failures(e, err, now, k).status == OutboxStatus::Pending,
        apply_failures(e, err, now, k).retries == k,
    decreases k,
{
    if k > 0 {
        lemma_failures_below_budget(e, err, now, k - 1);
    }
}

} // verus!
