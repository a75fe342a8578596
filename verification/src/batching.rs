//! The batching scheduler's one step: gather every settlement that no batch
//! commits to yet, in settlement creation order, and record a new batch
//! whose Merkle root commits to exactly those settlements — atomically with
//! one membership row per settlement, so a settlement is batched exactly
//! once.

use vstd::prelude::*;

use crate::codec::{settlement_leaf, settlement_leaf_spec};
use crate::merkle::{build_merkle_root, digests_of, merkle_root_spec};
use crate::records::{Batch, BatchItem, BatchModel, Settlement};
use crate::store::{has_batch, has_batch_item, has_settlement, settlements_unique, wf, Store,
    StoreModel};

verus! {

/// The settlements no batch commits to yet, in creation order.
pub open spec fn unbatched(ss: Seq<Settlement>, bis: Seq<BatchItem>) -> Seq<Settlement>
    decreases ss.len(),
{
    if ss.len() == 0 {
        Seq::empty()
    } else {
        let init = unbatched(ss.drop_last(), bis);
        if has_batch_item(bis, ss.last().market_id) {
            init
        } else {
            init.push(ss.last())
        }
    }
}

/// The ordered Merkle leaves of a settlement sequence.
pub open spec fn settlement_leaves(ss: Seq<Settlement>) -> Seq<Seq<u8>> {
    ss.map_values(|st: Settlement| settlement_leaf_spec(st.market_id, st.outcome, st.decided_at))
}

/// The store after one batching pass: nothing changes when every settlement
/// is already batched; otherwise one batch over all unbatched settlements
/// and their membership rows are appended.
pub open spec fn create_batch_spec(s: StoreModel, now: u64) -> StoreModel {
    let un = unbatched(s.settlements, s.batch_items);
    if un.len() == 0 {
        s
    } else {
        let bid = s.batches.len() as u64;
        StoreModel {
            batches: s.batches.push(
                BatchModel {
                    id: bid,
                    merkle_root: merkle_root_spec(settlement_leaves(un)),
                    created_at: now,
                },
            ),
            batch_items: s.batch_items + un.map_values(
                |st: Settlement| BatchItem { batch_id: bid, market_id: st.market_id },
            ),
            ..s
        }
    }
}

/// Every unbatched settlement is one of the settlements, is still
/// unbatched, and the unbatched markets stay pairwise distinct.
proof fn lemma_unbatched_props(ss: Seq<Settlement>, bis: Seq<BatchItem>)
    requires
        settlements_unique(ss),
    ensures
        forall|k: int|
            0 <= k < unbatched(ss, bis).len() ==> exists|j: int|
                0 <= j < ss.len() && ss[j] == #[trigger] unbatched(ss, bis)[k],
        forall|k: int|
            0 <= k < unbatched(ss, bis).len() ==> !has_batch_item(
                bis,
                (#[trigger] unbatched(ss, bis)[k]).market_id,
            ),
        settlements_unique(unbatched(ss, bis)),
    decreases ss.len(),
{
    if ss.len() > 0 {
        let d = ss.drop_last();
        lemma_unbatched_props(d, bis);
        let un = unbatched(ss, bis);
        let un0 = unbatched(d, bis);
        assert forall|k: int| 0 <= k < un0.len() implies exists|j: int|
            0 <= j < ss.len() && ss[j] == #[trigger] un0[k] by {
            let j = choose|j: int| 0 <= j < d.len() && d[j] == un0[k];
            assert(ss[j] == un0[k]);
        }
        if !has_batch_item(bis, ss.last().market_id) {
            assert(un == un0.push(ss.last()));
            assert forall|i: int, j: int| 0 <= i < j < un.len() implies (
            #[trigger] un[i]).market_id != (#[trigger] un[j]).market_id by {
                if j == un0.len() {
                    let i0 = choose|x: int| 0 <= x < d.len() && d[x] == un0[i];
                    assert(ss[i0].market_id != ss[ss.len() - 1].market_id);
                } else {
                    assert(un0[i].market_id != un0[j].market_id);
                }
            }
        }
    }
}

/// Every settlement is either already batched or found among the unbatched.
proof fn lemma_unbatched_complete(ss: Seq<Settlement>, bis: Seq<BatchItem>)
    ensures
        forall|j: int|
            0 <= j < ss.len() ==> has_batch_item(bis, (#[trigger] ss[j]).market_id) || exists|k: int|
                0 <= k < unbatched(ss, bis).len() && unbatched(ss, bis)[k] == ss[j],
    decreases ss.len(),
{
    if ss.len() > 0 {
        let d = ss.drop_last();
        lemma_unbatched_complete(d, bis);
        let un = unbatched(ss, bis);
        let un0 = unbatched(d, bis);
        assert forall|j: int| 0 <= j < ss.len() implies has_batch_item(
            bis,
            (#[trigger] ss[j]).market_id,
        ) || exists|k: int| 0 <= k < un.len() && un[k] == ss[j] by {
            if j < d.len() {
                if !has_batch_item(bis, d[j].market_id) {
                    let k = choose|k: int| 0 <= k < un0.len() && un0[k] == d[j];
                    assert(un[k] == ss[j]);
                }
            } else {
                if !has_batch_item(bis, ss.last().market_id) {
                    assert(un[un.len() - 1] == ss[j]);
                }
            }
        }
    }
}

/// When every settlement is batched, nothing is left to batch.
proof fn lemma_all_batched_empty(ss: Seq<Settlement>, bis: Seq<BatchItem>)
    requires
        forall|j: int| 0 <= j < ss.len() ==> has_batch_item(bis, (#[trigger] ss[j]).market_id),
    ensures
        unbatched(ss, bis).len() == 0,
    decreases ss.len(),
{
    if ss.len() > 0 {
        lemma_all_batched_empty(ss.drop_last(), bis);
    }
}

/// One batching pass preserves the store invariant.
proof fn lemma_create_batch_wf(s: StoreModel, now: u64)
    requires
        wf(s),
        s.batches.len() <= u64::MAX,
    ensures
        wf(create_batch_spec(s, now)),
{
    let un = unbatched(s.settlements, s.batch_items);
    if un.len() > 0 {
        let s2 = create_batch_spec(s, now);
        let bid = s.batches.len() as u64;
        let added = un.map_values(
            |st: Settlement| BatchItem { batch_id: bid, market_id: st.market_id },
        );
        let nb = s.batch_items.len() as int;
        lemma_unbatched_props(s.settlements, s.batch_items);
        assert forall|i: int, j: int| 0 <= i < j < s2.batch_items.len() implies (
        #[trigger] s2.batch_items[i]).market_id != (#[trigger] s2.batch_items[j]).market_id by {
            if j < nb {
                assert(s.batch_items[i].market_id != s.batch_items[j].market_id);
            } else {
                let mj = un[j - nb].market_id;
                assert(s2.batch_items[j].market_id == mj);
                if i < nb {
                    assert(!has_batch_item(s.batch_items, mj));
                    assert(s.batch_items[i].market_id != mj);
                } else {
                    assert(un[i - nb].market_id != un[j - nb].market_id);
                }
            }
        }
        assert forall|i: int| 0 <= i < s2.batch_items.len() implies has_settlement(
            s2.settlements,
            (#[trigger] s2.batch_items[i]).market_id,
        ) && has_batch(s2.batches, s2.batch_items[i].batch_id) by {
            if i < nb {
                let k = choose|k: int|
                    0 <= k < s.settlements.len() && (#[trigger] s.settlements[k]).market_id
                        == s.batch_items[i].market_id;
                assert(s2.settlements[k].market_id == s2.batch_items[i].market_id);
                let b = choose|b: int|
                    0 <= b < s.batches.len() && (#[trigger] s.batches[b]).id
                        == s.batch_items[i].batch_id;
                assert(s2.batches[b].id == s2.batch_items[i].batch_id);
            } else {
                let st = un[i - nb];
                assert(un[i - nb] == st);
                assert(exists|j: int| 0 <= j < s.settlements.len() && s.settlements[j] == st);
                let j = choose|j: int| 0 <= j < s.settlements.len() && s.settlements[j] == st;
                assert(s2.settlements[j].market_id == s2.batch_items[i].market_id);
                assert(s2.batches[s.batches.len() as int].id == bid);
            }
        }
        assert forall|i: int, j: int| 0 <= i < j < s2.batches.len() implies (
        #[trigger] s2.batches[i]).id != (#[trigger] s2.batches[j]).id by {}
    }
}

/// After one batching pass every settlement is batched, so a second pass —
/// at any later time — adds no batch and no membership row.
pub proof fn lemma_rebatch_noop(s: StoreModel, now1: u64, now2: u64)
    requires
        wf(s),
    ensures
        create_batch_spec(create_batch_spec(s, now1), now2) == create_batch_spec(s, now1),
{
    let un = unbatched(s.settlements, s.batch_items);
    let s2 = create_batch_spec(s, now1);
    if un.len() == 0 {
        assert(s2 == s);
    } else {
        let bid = s.batches.len() as u64;
        let added = un.map_values(
            |st: Settlement| BatchItem { batch_id: bid, market_id: st.market_id },
        );
        let nb = s.batch_items.len() as int;
        lemma_unbatched_complete(s.settlements, s.batch_items);
        assert forall|j: int| 0 <= j < s2.settlements.len() implies has_batch_item(
            s2.batch_items,
            (#[trigger] s2.settlements[j]).market_id,
        ) by {
            if has_batch_item(s.batch_items, s.settlements[j].market_id) {
                let k = choose|k: int|
                    0 <= k < s.batch_items.len() && (#[trigger] s.batch_items[k]).market_id
                        == s.settlements[j].market_id;
                assert(s2.batch_items[k].market_id == s2.settlements[j].market_id);
            } else {
                let k = choose|k: int| 0 <= k < un.len() && un[k] == s.settlements[j];
                assert(s2.batch_items[nb + k].market_id == s2.settlements[j].market_id);
            }
        }
        lemma_all_batched_empty(s2.settlements, s2.batch_items);
    }
}

impl Store {
    /// Whether some batch already commits to this market's settlement.
    pub fn is_batched(&self, market_id: u64) -> (r: bool)
        ensures
            r == has_batch_item(self@.batch_items, market_id),
    {
        let n = self.batch_items.len();
        let mut i: usize = 0;
        while i < n
            invariant
                n == self.batch_items@.len(),
                i <= n,
                forall|j: int| 0 <= j < i ==> (#[trigger] self@.batch_items[j]).market_id != market_id,
            decreases n - i,
        {
            if self.batch_items[i].market_id == market_id {
                proof {
                    assert(self@.batch_items[i as int].market_id == market_id);
                }
                return true;
            }
            i = i + 1;
        }
        false
    }

    /// The settlements that no batch commits to yet, in creation order.
    pub fn collect_unbatched_settlements(&self) -> (r: Vec<Settlement>)
        ensures
            r@ == unbatched(self@.settlements, self@.batch_items),
    {
        let n = self.settlements.len();
        let mut out: Vec<Settlement> = Vec::new();
        let mut i: usize = 0;
        while i < n
            invariant
                n == self.settlements@.len(),
                i <= n,
                out@ =~= unbatched(self@.settlements.take(i as int), self@.batch_items),
            decreases n - i,
        {
            proof {
                assert(self@.settlements.take(i as int + 1).drop_last() =~= self@.settlements.take(
                    i as int,
                ));
                assert(self@.settlements.take(i as int + 1).last() == self@.settlements[i as int]);
            }
            if !self.is_batched(self.settlements[i].market_id) {
                out.push(self.settlements[i]);
            }
            i = i + 1;
        }
        proof {
            assert(self@.settlements.take(n as int) =~= self@.settlements);
        }
        out
    }

    /// One batching pass: if any settlement is unbatched, commit to all of
    /// them under one Merkle root, atomically with their membership rows.
    #[verifier::rlimit(50)]
    pub fn create_batch(&mut self, now: u64)
        requires
            old(self).inv(),
        ensures
            final(self).inv(),
            final(self)@ == create_batch_spec(old(self)@, now),
    {
        let un = self.collect_unbatched_settlements();
        if un.is_empty() {
            return ;
        }
        let m = un.len();
        let mut leaves: Vec<Vec<u8>> = Vec::new();
        let mut i: usize = 0;
        while i < m
            invariant
                m == un@.len(),
                i <= m,
                leaves@.len() == i,
                forall|j: int| 0 <= j < i ==> (#[trigger] leaves@[j])@ == settlement_leaves(un@)[j],
                forall|j: int| 0 <= j < i ==> (#[trigger] leaves@[j])@.len() == 32,
            decreases m - i,
        {
            let st = un[i];
            let leaf = settlement_leaf(st.market_id, st.outcome, st.decided_at);
            proof {
                assert(settlement_leaves(un@)[i as int] == settlement_leaf_spec(
                    st.market_id,
                    st.outcome,
                    st.decided_at,
                ));
            }
            leaves.push(leaf);
            i = i + 1;
        }
        proof {
            assert(digests_of(leaves@) =~= settlement_leaves(un@));
        }
        let root = build_merkle_root(leaves);
        let batch_id = self.batches.len() as u64;
        let ghost pre = self@;
        self.batches.push(Batch { id: batch_id, merkle_root: root, created_at: now });
        let mut k: usize = 0;
        while k < m
            invariant
                m == un@.len(),
                k <= m,
                self@.batch_items =~= pre.batch_items + un@.map_values(
                    |st: Settlement| BatchItem { batch_id, market_id: st.market_id },
                ).take(k as int),
                self@.markets == pre.markets,
                self@.reports == pre.reports,
                self@.settlements == pre.settlements,
                self@.outbox == pre.outbox,
                self@.batches == pre.batches.push(
                    BatchModel { id: batch_id, merkle_root: root@, created_at: now },
                ),
                self@.next_id == pre.next_id,
            decreases m - k,
        {
            self.batch_items.push(BatchItem { batch_id, market_id: un[k].market_id });
            proof {
                assert(self@.batch_items =~= pre.batch_items + un@.map_values(
                    |st: Settlement| BatchItem { batch_id, market_id: st.market_id },
                ).take(k as int + 1));
            }
            k = k + 1;
        }
        proof {
            let post = create_batch_spec(pre, now);
            let added = un@.map_values(
                |st: Settlement| BatchItem { batch_id, market_id: st.market_id },
            );
            assert(added.take(m as int) =~= added);
            assert(self@.batches =~= post.batches);
            assert(self@.batch_items =~= post.batch_items);
            assert(self@ =~= post);
            lemma_create_batch_wf(pre, now);
        }
    }
}

} // verus!
