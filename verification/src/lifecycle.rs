//! The lifecycle scheduler's two transactional steps: auto-closing due open
//! markets, and resolving closed markets whose reports have converged.
//!
//! Resolution finalizes atomically: the settlement is recorded, the market
//! flips from `Closed` to `Resolved` only if it still is `Closed`, and
//! exactly one pending outbox entry is enqueued — the only handoff to the
//! relay worker.

use vstd::prelude::*;
use vstd::pervasive::VecAdditionalExecFns;

use crate::codec::{encode_payload, market_hash, settlement_leaf, settlement_payload_bytes,
    SettlementPayload};
use crate::records::{status_rank, MarketModel, MarketStatus, OutboxEntry, OutboxModel,
    OutboxStatus, Settlement};
use crate::resolution::{resolve_spec, try_resolve};
use crate::store::{has_batch, has_market, has_outbox, has_settlement, lemma_market_index_is,
    market_index, market_status_of, markets_unique, report_values_spec, wf, Store, StoreModel};

verus! {

/// A due open market closes; every other market is untouched.
pub open spec fn close_due_market(m: MarketModel, now: u64) -> MarketModel {
    if m.status == MarketStatus::Open && m.closes_at <= now {
        MarketModel { status: MarketStatus::Closed, ..m }
    } else {
        m
    }
}

/// The store after the auto-close step: one conditional update over all
/// markets.
pub open spec fn auto_close_spec(s: StoreModel, now: u64) -> StoreModel {
    StoreModel { markets: s.markets.map_values(|m: MarketModel| close_due_market(m, now)), ..s }
}

/// The store after a market finalizes with the given outcome: within one
/// transaction the settlement is inserted, the market flips to `Resolved`,
/// and one pending outbox entry is enqueued.
pub open spec fn finalize_market_spec(
    s: StoreModel,
    market_id: u64,
    outcome: u64,
    now: u64,
) -> StoreModel {
    let i = market_index(s.markets, market_id);
    StoreModel {
        markets: s.markets.update(
            i,
            MarketModel { status: MarketStatus::Resolved, ..s.markets[i] },
        ),
        settlements: s.settlements.push(
            Settlement { id: market_id, market_id, outcome, decided_at: now },
        ),
        outbox: s.outbox.push(
            OutboxModel {
                id: market_id,
                market_id,
                payload: settlement_payload_bytes(market_id, outcome, now),
                status: OutboxStatus::Pending,
                retries: 0,
                last_error: None,
                created_at: now,
                updated_at: now,
            },
        ),
        ..s
    }
}

/// Whether finalization applies: the market exists and still is `Closed`.
pub open spec fn finalize_guard(s: StoreModel, market_id: u64) -> bool {
    has_market(s.markets, market_id) && market_status_of(s.markets, market_id)
        == MarketStatus::Closed
}

/// The resolve step over the first `n` market positions with the given
/// budget of markets to process: each due closed market costs one unit of
/// budget; on consensus over its reports it finalizes, otherwise it is left
/// as it stands.  Returns the store and the budget that is left.
pub open spec fn resolve_upto(s: StoreModel, now: u64, n: int, budget: int) -> (StoreModel, int)
    decreases n,
{
    if n <= 0 {
        (s, budget)
    } else {
        let prev = resolve_upto(s, now, n - 1, budget);
        if prev.1 > 0 && n - 1 < prev.0.markets.len() && prev.0.markets[n - 1].status
            == MarketStatus::Closed && prev.0.markets[n - 1].closes_at <= now {
            let m = prev.0.markets[n - 1];
            match resolve_spec(report_values_spec(prev.0.reports, m.id)) {
                Some(outcome) => (finalize_market_spec(prev.0, m.id, outcome, now), prev.1 - 1),
                None => (prev.0, prev.1 - 1),
            }
        } else {
            prev
        }
    }
}

/// Auto-closing preserves the store invariant.
proof fn lemma_auto_close_wf(s: StoreModel, now: u64)
    requires
        wf(s),
    ensures
        wf(auto_close_spec(s, now)),
{
    let s2 = auto_close_spec(s, now);
    assert(s2.markets.len() == s.markets.len());
    assert forall|i: int| 0 <= i < s.markets.len() implies (#[trigger] s2.markets[i]).id
        == s.markets[i].id by {}
    assert forall|i: int| 0 <= i < s.reports.len() implies has_market(
        s2.markets,
        (#[trigger] s.reports[i]).market_id,
    ) by {
        let k = choose|k: int|
            0 <= k < s.markets.len() && (#[trigger] s.markets[k]).id == s.reports[i].market_id;
        assert(s2.markets[k].id == s.reports[i].market_id);
    }
    assert forall|i: int| 0 <= i < s2.settlements.len() implies has_market(
        s2.markets,
        (#[trigger] s2.settlements[i]).market_id,
    ) && market_status_of(s2.markets, s2.settlements[i].market_id) == MarketStatus::Resolved by {
        let id = s.settlements[i].market_id;
        let k = market_index(s.markets, id);
        assert(has_market(s.markets, id));
        assert(0 <= k < s.markets.len() && s.markets[k].id == id);
        assert(s2.markets[k] == s.markets[k]);
        assert(has_market(s2.markets, id));
        lemma_market_index_is(s2.markets, k);
    }
    assert forall|i: int|
        0 <= i < s2.markets.len() && (#[trigger] s2.markets[i]).status
            == MarketStatus::Resolved implies has_settlement(s2.settlements, s2.markets[i].id) by {
        assert(s.markets[i].status == MarketStatus::Resolved);
    }
}

/// Auto-closing moves no market backward, changes no other field, and
/// leaves everything but due open markets exactly as it stands.
pub proof fn lemma_auto_close_monotonic(s: StoreModel, now: u64)
    ensures
        auto_close_spec(s, now).markets.len() == s.markets.len(),
        forall|i: int|
            0 <= i < s.markets.len() ==> ({
                let m = s.markets[i];
                let m2 = #[trigger] auto_close_spec(s, now).markets[i];
                &&& m2.id == m.id
                &&& m2.question == m.question
                &&& m2.closes_at == m.closes_at
                &&& m2.created_at == m.created_at
                &&& status_rank(m.status) <= status_rank(m2.status)
                &&& (m.status != MarketStatus::Open ==> m2 == m)
            }),
        auto_close_spec(s, now).reports == s.reports,
        auto_close_spec(s, now).settlements == s.settlements,
        auto_close_spec(s, now).outbox == s.outbox,
        auto_close_spec(s, now).batches == s.batches,
        auto_close_spec(s, now).batch_items == s.batch_items,
{
}

/// Finalizing preserves the store invariant.
proof fn lemma_finalize_wf(s: StoreModel, market_id: u64, outcome: u64, now: u64)
    requires
        wf(s),
        finalize_guard(s, market_id),
    ensures
        wf(finalize_market_spec(s, market_id, outcome, now)),
{
    let s2 = finalize_market_spec(s, market_id, outcome, now);
    let idx = market_index(s.markets, market_id);
    assert(0 <= idx < s.markets.len() && s.markets[idx].id == market_id);
    assert(s2.markets.len() == s.markets.len());
    assert forall|i: int| 0 <= i < s.markets.len() implies (#[trigger] s2.markets[i]).id
        == s.markets[i].id by {}
    assert(markets_unique(s2.markets));
    // the market still holds no settlement and no outbox entry
    assert(!has_settlement(s.settlements, market_id)) by {
        if has_settlement(s.settlements, market_id) {
            let k = choose|k: int|
                0 <= k < s.settlements.len() && (#[trigger] s.settlements[k]).market_id
                    == market_id;
            assert(market_status_of(s.markets, market_id) == MarketStatus::Resolved);
        }
    }
    assert(!has_outbox(s.outbox, market_id)) by {
        if has_outbox(s.outbox, market_id) {
            let k = choose|k: int|
                0 <= k < s.outbox.len() && (#[trigger] s.outbox[k]).market_id == market_id;
            assert(has_settlement(s.settlements, market_id));
        }
    }
    let ns = s.settlements.len() as int;
    let ne = s.outbox.len() as int;
    assert forall|i: int| 0 <= i < s.reports.len() implies has_market(
        s2.markets,
        (#[trigger] s.reports[i]).market_id,
    ) by {
        let k = choose|k: int|
            0 <= k < s.markets.len() && (#[trigger] s.markets[k]).id == s.reports[i].market_id;
        assert(s2.markets[k].id == s.reports[i].market_id);
    }
    assert forall|i: int, j: int| 0 <= i < j < s2.settlements.len() implies (
    #[trigger] s2.settlements[i]).market_id != (#[trigger] s2.settlements[j]).market_id by {
        if j == ns {
            assert(!(s.settlements[i].market_id == market_id));
        }
    }
    assert forall|i: int| 0 <= i < s2.settlements.len() implies has_market(
        s2.markets,
        (#[trigger] s2.settlements[i]).market_id,
    ) && market_status_of(s2.markets, s2.settlements[i].market_id) == MarketStatus::Resolved by {
        if i < ns {
            let id = s.settlements[i].market_id;
            let k = market_index(s.markets, id);
            assert(has_market(s.markets, id));
            assert(0 <= k < s.markets.len() && s.markets[k].id == id);
            assert(k != idx) by {
                if k == idx {
                    assert(market_status_of(s.markets, market_id) == MarketStatus::Closed);
                }
            }
            assert(s2.markets[k] == s.markets[k]);
            assert(has_market(s2.markets, id));
            lemma_market_index_is(s2.markets, k);
        } else {
            assert(s2.settlements[i].market_id == market_id);
            assert(s2.markets[idx].id == market_id && s2.markets[idx].status
                == MarketStatus::Resolved);
            assert(has_market(s2.markets, market_id));
            lemma_market_index_is(s2.markets, idx);
        }
    }
    assert forall|i: int|
        0 <= i < s2.markets.len() && (#[trigger] s2.markets[i]).status
            == MarketStatus::Resolved implies has_settlement(s2.settlements, s2.markets[i].id) by {
        if i == idx {
            assert(s2.settlements[ns].market_id == market_id);
        } else {
            assert(s.markets[i].status == MarketStatus::Resolved);
            let k = choose|k: int|
                0 <= k < s.settlements.len() && (#[trigger] s.settlements[k]).market_id
                    == s.markets[i].id;
            assert(s2.settlements[k].market_id == s.markets[i].id);
        }
    }
    assert forall|i: int, j: int| 0 <= i < j < s2.outbox.len() implies (
    #[trigger] s2.outbox[i]).market_id != (#[trigger] s2.outbox[j]).market_id by {
        if j == ne {
            assert(!(s.outbox[i].market_id == market_id));
        }
    }
    assert forall|i: int| 0 <= i < s2.outbox.len() implies has_settlement(
        s2.settlements,
        (#[trigger] s2.outbox[i]).market_id,
    ) by {
        if i < ne {
            let k = choose|k: int|
                0 <= k < s.settlements.len() && (#[trigger] s.settlements[k]).market_id
                    == s.outbox[i].market_id;
            assert(s2.settlements[k].market_id == s.outbox[i].market_id);
        } else {
            assert(s2.settlements[ns].market_id == market_id);
        }
    }
    assert forall|i: int| 0 <= i < s2.settlements.len() implies has_outbox(
        s2.outbox,
        (#[trigger] s2.settlements[i]).market_id,
    ) by {
        if i < ns {
            let k = choose|k: int|
                0 <= k < s.outbox.len() && (#[trigger] s.outbox[k]).market_id
                    == s.settlements[i].market_id;
            assert(s2.outbox[k].market_id == s.settlements[i].market_id);
        } else {
            assert(s2.outbox[ne].market_id == market_id);
        }
    }
    assert forall|i: int| 0 <= i < s2.batch_items.len() implies has_settlement(
        s2.settlements,
        (#[trigger] s2.batch_items[i]).market_id,
    ) && has_batch(s2.batches, s2.batch_items[i].batch_id) by {
        let k = choose|k: int|
            0 <= k < s.settlements.len() && (#[trigger] s.settlements[k]).market_id
                == s.batch_items[i].market_id;
        assert(s2.settlements[k].market_id == s.batch_items[i].market_id);
    }
}

/// Finalizing moves only the target market, and only forward.
pub proof fn lemma_finalize_monotonic(s: StoreModel, market_id: u64, outcome: u64, now: u64)
    requires
        markets_unique(s.markets),
        finalize_guard(s, market_id),
    ensures
        finalize_market_spec(s, market_id, outcome, now).markets.len() == s.markets.len(),
        forall|i: int|
            0 <= i < s.markets.len() ==> ({
                let m = s.markets[i];
                let m2 = #[trigger] finalize_market_spec(s, market_id, outcome, now).markets[i];
                &&& m2.id == m.id
                &&& m2.question == m.question
                &&& m2.closes_at == m.closes_at
                &&& m2.created_at == m.created_at
                &&& status_rank(m.status) <= status_rank(m2.status)
                &&& (m.id != market_id ==> m2 == m)
            }),
{
    let idx = market_index(s.markets, market_id);
    assert(0 <= idx < s.markets.len() && s.markets[idx].id == market_id);
    assert forall|i: int| 0 <= i < s.markets.len() implies ({
        let m = s.markets[i];
        let m2 = #[trigger] finalize_market_spec(s, market_id, outcome, now).markets[i];
        &&& m2.id == m.id
        &&& m2.question == m.question
        &&& m2.closes_at == m.closes_at
        &&& m2.created_at == m.created_at
        &&& status_rank(m.status) <= status_rank(m2.status)
        &&& (m.id != market_id ==> m2 == m)
    }) by {
        if i == idx {
            assert(s.markets[i].status == MarketStatus::Closed);
        }
    }
}

/// After a market finalizes it is `Resolved`, so a second finalization of
/// the same market is refused by the guard and changes nothing.
pub proof fn lemma_finalize_twice_refused(s: StoreModel, market_id: u64, outcome: u64, now: u64)
    requires
        wf(s),
        finalize_guard(s, market_id),
    ensures
        !finalize_guard(finalize_market_spec(s, market_id, outcome, now), market_id),
        market_status_of(finalize_market_spec(s, market_id, outcome, now).markets, market_id)
            == MarketStatus::Resolved,
{
    let s2 = finalize_market_spec(s, market_id, outcome, now);
    let idx = market_index(s.markets, market_id);
    assert(0 <= idx < s.markets.len() && s.markets[idx].id == market_id);
    assert forall|i: int| 0 <= i < s.markets.len() implies (#[trigger] s2.markets[i]).id
        == s.markets[i].id by {}
    assert(markets_unique(s2.markets));
    assert(s2.markets[idx].id == market_id);
    assert(has_market(s2.markets, market_id));
    lemma_market_index_is(s2.markets, idx);
}

/// How many outbox entries reference one market.
pub open spec fn outbox_count_for(es: Seq<OutboxModel>, market_id: u64) -> nat
    decreases es.len(),
{
    if es.len() == 0 {
        0
    } else {
        outbox_count_for(es.drop_last(), market_id) + if es.last().market_id == market_id {
            1nat
        } else {
            0nat
        }
    }
}

proof fn lemma_no_outbox_count_zero(es: Seq<OutboxModel>, market_id: u64)
    requires
        !has_outbox(es, market_id),
    ensures
        outbox_count_for(es, market_id) == 0,
    decreases es.len(),
{
    if es.len() > 0 {
        assert(!has_outbox(es.drop_last(), market_id)) by {
            if has_outbox(es.drop_last(), market_id) {
                let k = choose|k: int|
                    0 <= k < es.drop_last().len() && (#[trigger] es.drop_last()[k]).market_id
                        == market_id;
                assert(es[k].market_id == market_id);
            }
        }
        lemma_no_outbox_count_zero(es.drop_last(), market_id);
        assert(es.last().market_id != market_id);
    }
}

/// Resolving a market enqueues exactly one outbox entry for it, however
/// often finalization is attempted afterwards.
pub proof fn lemma_finalize_exactly_one_outbox(s: StoreModel, market_id: u64, outcome: u64, now: u64)
    requires
        wf(s),
        finalize_guard(s, market_id),
    ensures
        outbox_count_for(finalize_market_spec(s, market_id, outcome, now).outbox, market_id) == 1,
{
    let s2 = finalize_market_spec(s, market_id, outcome, now);
    assert(!has_outbox(s.outbox, market_id)) by {
        if has_outbox(s.outbox, market_id) {
            let k = choose|k: int|
                0 <= k < s.outbox.len() && (#[trigger] s.outbox[k]).market_id == market_id;
            assert(has_settlement(s.settlements, market_id));
            let j = choose|j: int|
                0 <= j < s.settlements.len() && (#[trigger] s.settlements[j]).market_id
                    == market_id;
            assert(market_status_of(s.markets, market_id) == MarketStatus::Resolved);
        }
    }
    lemma_no_outbox_count_zero(s.outbox, market_id);
    assert(s2.outbox.drop_last() =~= s.outbox);
    assert(s2.outbox.last().market_id == market_id);
}

/// Over a whole resolve pass, no market ever moves backward in its
/// lifecycle, no field but the status changes, the reports are untouched,
/// and an already-resolved market is left exactly as it stands — so
/// repeated scheduler ticks on a resolved market are no-ops.
pub proof fn lemma_resolve_pass_monotonic(s: StoreModel, now: u64, n: int, budget: int)
    requires
        wf(s),
    ensures
        ({
            let s2 = resolve_upto(s, now, n, budget).0;
            &&& wf(s2)
            &&& s2.markets.len() == s.markets.len()
            &&& s2.reports == s.reports
            &&& forall|i: int|
                0 <= i < s.markets.len() ==> ({
                    let m = s.markets[i];
                    let m2 = #[trigger] s2.markets[i];
                    &&& m2.id == m.id
                    &&& m2.question == m.question
                    &&& m2.closes_at == m.closes_at
                    &&& m2.created_at == m.created_at
                    &&& status_rank(m.status) <= status_rank(m2.status)
                    &&& (m.status == MarketStatus::Resolved ==> m2 == m)
                })
        }),
    decreases n,
{
    if n > 0 {
        lemma_resolve_pass_monotonic(s, now, n - 1, budget);
        let prev = resolve_upto(s, now, n - 1, budget);
        let p = prev.0;
        let s2 = resolve_upto(s, now, n, budget).0;
        if prev.1 > 0 && n - 1 < p.markets.len() && p.markets[n - 1].status == MarketStatus::Closed
            && p.markets[n - 1].closes_at <= now {
            let m = p.markets[n - 1];
            assert(has_market(p.markets, m.id));
            lemma_market_index_is(p.markets, n - 1);
            assert(finalize_guard(p, m.id));
            match resolve_spec(report_values_spec(p.reports, m.id)) {
                Some(outcome) => {
                    lemma_finalize_wf(p, m.id, outcome, now);
                    lemma_finalize_monotonic(p, m.id, outcome, now);
                    assert forall|i: int| 0 <= i < s.markets.len() implies ({
                        let ma = s.markets[i];
                        let mb = #[trigger] s2.markets[i];
                        &&& mb.id == ma.id
                        &&& mb.question == ma.question
                        &&& mb.closes_at == ma.closes_at
                        &&& mb.created_at == ma.created_at
                        &&& status_rank(ma.status) <= status_rank(mb.status)
                        &&& (ma.status == MarketStatus::Resolved ==> mb == ma)
                    }) by {
                        assert(p.markets[i].id == s.markets[i].id);
                        if s.markets[i].status == MarketStatus::Resolved {
                            assert(p.markets[i] == s.markets[i]);
                            assert(p.markets[i].id != m.id) by {
                                if i != n - 1 {
                                    assert(p.markets[i].id != p.markets[n - 1].id);
                                }
                            }
                        }
                    }
                },
                None => {},
            }
        }
    }
}

impl Store {
    /// Close every open market whose closing time has passed: a set-based
    /// conditional update, safe to repeat.
    pub fn auto_close_markets(&mut self, now: u64)
        requires
            old(self).inv(),
        ensures
            final(self).inv(),
            final(self)@ == auto_close_spec(old(self)@, now),
    {
        let n = self.markets.len();
        let mut i: usize = 0;
        while i < n
            invariant
                old(self).inv(),
                n == self.markets@.len(),
                n == old(self)@.markets.len(),
                i <= n,
                self@.reports == old(self)@.reports,
                self@.settlements == old(self)@.settlements,
                self@.outbox == old(self)@.outbox,
                self@.batches == old(self)@.batches,
                self@.batch_items == old(self)@.batch_items,
                self@.next_id == old(self)@.next_id,
                self@.markets.len() == n,
                forall|k: int|
                    0 <= k < i ==> (#[trigger] self@.markets[k]) == close_due_market(
                        old(self)@.markets[k],
                        now,
                    ),
                forall|k: int| i <= k < n ==> (#[trigger] self@.markets[k]) == old(self)@.markets[k],
            decreases n - i,
        {
            let ghost pre = self@;
            let due = matches!(self.markets[i].status, MarketStatus::Open) && self.markets[i].closes_at
                <= now;
            if due {
                let mut m = self.markets[i].clone();
                proof {
                    assert(m@ == pre.markets[i as int]);
                }
                m.status = MarketStatus::Closed;
                self.markets.set(i, m);
                proof {
                    assert forall|k: int| 0 <= k < n && k != i as int implies (
                    #[trigger] self@.markets[k]) == pre.markets[k] by {}
                    assert(self@.markets[i as int] == close_due_market(
                        old(self)@.markets[i as int],
                        now,
                    ));
                }
            } else {
                proof {
                    assert(pre.markets[i as int] == old(self)@.markets[i as int]);
                    assert(close_due_market(old(self)@.markets[i as int], now) == old(
                        self,
                    )@.markets[i as int]);
                }
            }
            i = i + 1;
        }
        proof {
            assert(self@.markets =~= old(self)@.markets.map_values(
                |m: MarketModel| close_due_market(m, now),
            ));
            assert(self@ =~= auto_close_spec(old(self)@, now));
            lemma_auto_close_wf(old(self)@, now);
        }
    }

    /// Finalize a market with the given outcome, if it exists and still is
    /// `Closed`: within one transition the settlement is recorded, the
    /// market flips to `Resolved`, and one pending outbox entry carrying the
    /// canonical payload is enqueued.  Returns whether it applied; a market
    /// no longer `Closed` is a silent no-op, so a repeated or concurrent
    /// attempt cannot double-settle.
    pub fn finalize_market(&mut self, market_id: u64, outcome: u64, now: u64) -> (applied: bool)
        requires
            old(self).inv(),
        ensures
            final(self).inv(),
            applied == finalize_guard(old(self)@, market_id),
            applied ==> final(self)@ == finalize_market_spec(old(self)@, market_id, outcome, now),
            !applied ==> final(self)@ == old(self)@,
    {
        let mi = match self.find_market(market_id) {
            Some(i) => i,
            None => {
                return false;
            },
        };
        proof {
            lemma_market_index_is(self@.markets, mi as int);
        }
        if !matches!(self.markets[mi].status, MarketStatus::Closed) {
            return false;
        }
        let ghost pre = self@;
        // the transactional write: settlement, market flip, outbox entry
        let mut m = self.markets[mi].clone();
        m.status = MarketStatus::Resolved;
        self.markets.set(mi, m);
        self.settlements.push(
            Settlement { id: market_id, market_id, outcome, decided_at: now },
        );
        let mh = market_hash(market_id);
        let leaf = settlement_leaf(market_id, outcome, now);
        let payload = encode_payload(
            &SettlementPayload { market_hash: mh, leaf, outcome_u64: outcome, ts: now },
        );
        self.outbox.push(
            OutboxEntry {
                id: market_id,
                market_id,
                payload,
                status: OutboxStatus::Pending,
                retries: 0,
                last_error: None,
                created_at: now,
                updated_at: now,
            },
        );
        proof {
            let post = finalize_market_spec(pre, market_id, outcome, now);
            assert(self@.markets =~= post.markets);
            assert(self@.outbox =~= post.outbox);
            assert(self@.settlements =~= post.settlements);
            assert(self@ =~= post);
            lemma_finalize_wf(pre, market_id, outcome, now);
        }
        true
    }

    /// One resolve pass: walk the markets and, for up to `limit` closed
    /// markets whose closing time has passed, run resolution over their
    /// reports and finalize those that reached consensus.
    pub fn resolve_markets(&mut self, now: u64, limit: usize)
        requires
            old(self).inv(),
        ensures
            final(self).inv(),
            final(self)@ == resolve_upto(
                old(self)@,
                now,
                old(self)@.markets.len() as int,
                limit as int,
            ).0,
    {
        let n = self.markets.len();
        let mut i: usize = 0;
        let mut left: usize = limit;
        while i < n
            invariant
                self.inv(),
                n == old(self)@.markets.len(),
                self@.markets.len() == n,
                i <= n,
                left <= limit,
                (self@, left as int) == resolve_upto(old(self)@, now, i as int, limit as int),
            decreases n - i,
        {
            let due = left > 0 && matches!(self.markets[i].status, MarketStatus::Closed)
                && self.markets[i].closes_at <= now;
            if due {
                let market_id = self.markets[i].id;
                proof {
                    lemma_market_index_is(self@.markets, i as int);
                }
                let values = self.report_values(market_id);
                match try_resolve(&values) {
                    Some(outcome) => {
                        let applied = self.finalize_market(market_id, outcome, now);
                        proof {
                            assert(applied);
                        }
                    },
                    None => {},
                }
                left = left - 1;
            }
            i = i + 1;
            proof {
                assert((self@, left as int) == resolve_upto(
                    old(self)@,
                    now,
                    i as int,
                    limit as int,
                ));
            }
        }
    }
}

} // verus!
