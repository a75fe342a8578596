//! The persistent state of the engine as one value, with the conditional
//! transitions that the HTTP surface performs: creating markets and
//! submitting reports.
//!
//! Every transition is specified as a function on the store's ghost model
//! and preserves the store invariant `wf`: markets have unique identifiers,
//! a report references an existing market and its `(market, idempotency
//! key)` pair is unique, a settlement exists exactly for resolved markets,
//! each settlement has exactly one outbox entry, and a settlement is a
//! member of at most one batch.

use vstd::prelude::*;

use crate::records::{Batch, BatchItem, BatchModel, CreateMarketRequest, CreateReportRequest,
    Market, MarketModel, MarketStatus, OutboxEntry, OutboxModel, OutboxStatus, Report, ReportModel,
    Settlement, RETRY_BUDGET};

verus! {

/// The ghost model of the whole store.
#[verifier::ext_equal]
pub ghost struct StoreModel {
    pub markets: Seq<MarketModel>,
    pub reports: Seq<ReportModel>,
    pub settlements: Seq<Settlement>,
    pub outbox: Seq<OutboxModel>,
    pub batches: Seq<BatchModel>,
    pub batch_items: Seq<BatchItem>,
    pub next_id: u64,
}

/// A market with this identifier exists.
pub open spec fn has_market(ms: Seq<MarketModel>, id: u64) -> bool {
    exists|i: int| 0 <= i < ms.len() && (#[trigger] ms[i]).id == id
}

/// The position of the market with this identifier.
pub open spec fn market_index(ms: Seq<MarketModel>, id: u64) -> int {
    choose|i: int| 0 <= i < ms.len() && (#[trigger] ms[i]).id == id
}

/// The status of the market with this identifier.
pub open spec fn market_status_of(ms: Seq<MarketModel>, id: u64) -> MarketStatus
    recommends
        has_market(ms, id),
{
    ms[market_index(ms, id)].status
}

/// Some report for this market already carries this idempotency key.
pub open spec fn has_report_key(rs: Seq<ReportModel>, market_id: u64, key: Seq<char>) -> bool {
    exists|i: int|
        0 <= i < rs.len() && (#[trigger] rs[i]).market_id == market_id && rs[i].idempotency_key
            == key
}

/// A settlement for this market exists.
pub open spec fn has_settlement(ss: Seq<Settlement>, market_id: u64) -> bool {
    exists|i: int| 0 <= i < ss.len() && (#[trigger] ss[i]).market_id == market_id
}

/// An outbox entry for this market exists.
pub open spec fn has_outbox(es: Seq<OutboxModel>, market_id: u64) -> bool {
    exists|i: int| 0 <= i < es.len() && (#[trigger] es[i]).market_id == market_id
}

/// A batch with this identifier exists.
pub open spec fn has_batch(bs: Seq<BatchModel>, batch_id: u64) -> bool {
    exists|i: int| 0 <= i < bs.len() && (#[trigger] bs[i]).id == batch_id
}

/// This market's settlement is a member of some batch.
pub open spec fn has_batch_item(bis: Seq<BatchItem>, market_id: u64) -> bool {
    exists|i: int| 0 <= i < bis.len() && (#[trigger] bis[i]).market_id == market_id
}

/// Market identifiers are pairwise distinct.
pub open spec fn markets_unique(ms: Seq<MarketModel>) -> bool {
    forall|i: int, j: int| 0 <= i < j < ms.len() ==> (#[trigger] ms[i]).id != (#[trigger] ms[j]).id
}

/// Report (market, idempotency key) pairs are pairwise distinct.
pub open spec fn report_keys_unique(rs: Seq<ReportModel>) -> bool {
    forall|i: int, j: int|
        0 <= i < j < rs.len() ==> !((#[trigger] rs[i]).market_id == (#[trigger] rs[j]).market_id
            && rs[i].idempotency_key == rs[j].idempotency_key)
}

/// At most one settlement per market.
pub open spec fn settlements_unique(ss: Seq<Settlement>) -> bool {
    forall|i: int, j: int|
        0 <= i < j < ss.len() ==> (#[trigger] ss[i]).market_id != (#[trigger] ss[j]).market_id
}

/// At most one outbox entry per market.
pub open spec fn outbox_unique(es: Seq<OutboxModel>) -> bool {
    forall|i: int, j: int|
        0 <= i < j < es.len() ==> (#[trigger] es[i]).market_id != (#[trigger] es[j]).market_id
}

/// Batch identifiers are pairwise distinct.
pub open spec fn batches_unique(bs: Seq<BatchModel>) -> bool {
    forall|i: int, j: int| 0 <= i < j < bs.len() ==> (#[trigger] bs[i]).id != (#[trigger] bs[j]).id
}

/// A market appears in at most one batch item, ever.
pub open spec fn batch_items_unique(bis: Seq<BatchItem>) -> bool {
    forall|i: int, j: int|
        0 <= i < j < bis.len() ==> (#[trigger] bis[i]).market_id != (#[trigger] bis[j]).market_id
}

/// The store invariant.
pub open spec fn wf(s: StoreModel) -> bool {
    // markets carry unique identifiers drawn from the id counter
    &&& markets_unique(s.markets)
    &&& forall|i: int| 0 <= i < s.markets.len() ==> (#[trigger] s.markets[i]).id < s.next_id
    &&& forall|i: int|
        0 <= i < s.reports.len() ==> has_market(s.markets, (#[trigger] s.reports[i]).market_id)
    &&& report_keys_unique(s.reports)
    // a settlement exists exactly for the resolved markets, at most one each
    &&& settlements_unique(s.settlements)
    &&& forall|i: int|
        0 <= i < s.settlements.len() ==> has_market(
            s.markets,
            (#[trigger] s.settlements[i]).market_id,
        ) && market_status_of(s.markets, s.settlements[i].market_id) == MarketStatus::Resolved
    &&& forall|i: int|
        0 <= i < s.markets.len() && (#[trigger] s.markets[i]).status == MarketStatus::Resolved
            ==> has_settlement(s.settlements, s.markets[i].id)
    // exactly one outbox entry per settlement, keyed by its market, with
    // retries within budget while the entry is still pending
    &&& outbox_unique(s.outbox)
    &&& forall|i: int| 0 <= i < s.outbox.len() ==> (#[trigger] s.outbox[i]).id == s.outbox[i].market_id
    &&& forall|i: int|
        0 <= i < s.outbox.len() ==> has_settlement(
            s.settlements,
            (#[trigger] s.outbox[i]).market_id,
        )
    &&& forall|i: int|
        0 <= i < s.settlements.len() ==> has_outbox(
            s.outbox,
            (#[trigger] s.settlements[i]).market_id,
        )
    &&& forall|i: int|
        0 <= i < s.outbox.len() && (#[trigger] s.outbox[i]).status == OutboxStatus::Pending
            ==> s.outbox[i].retries <= RETRY_BUDGET
    &&& forall|i: int| 0 <= i < s.outbox.len() ==> (#[trigger] s.outbox[i]).retries <= RETRY_BUDGET + 1
    // batches are numbered by position, and a settlement joins at most one
    &&& batches_unique(s.batches)
    &&& forall|i: int| 0 <= i < s.batches.len() ==> (#[trigger] s.batches[i]).id == i
    &&& batch_items_unique(s.batch_items)
    &&& forall|i: int|
        0 <= i < s.batch_items.len() ==> has_settlement(
            s.settlements,
            (#[trigger] s.batch_items[i]).market_id,
        ) && has_batch(s.batches, s.batch_items[i].batch_id)
}

/// With unique market identifiers, lookup lands on the one holder of an id.
pub proof fn lemma_market_index_is(ms: Seq<MarketModel>, i: int)
    requires
        markets_unique(ms),
        0 <= i < ms.len(),
    ensures
        market_index(ms, ms[i].id) == i,
{
    let id = ms[i].id;
    assert(has_market(ms, id));
    let k = market_index(ms, id);
    if k != i {
        if k < i {
            assert(ms[k].id != ms[i].id);
        } else {
            assert(ms[i].id != ms[k].id);
        }
    }
}

/// The engine's persistent state: five record sets and an id counter.
pub struct Store {
    pub markets: Vec<Market>,
    pub reports: Vec<Report>,
    pub settlements: Vec<Settlement>,
    pub outbox: Vec<OutboxEntry>,
    pub batches: Vec<Batch>,
    pub batch_items: Vec<BatchItem>,
    pub next_id: u64,
}

impl View for Store {
    type V = StoreModel;

    open spec fn view(&self) -> StoreModel {
        StoreModel {
            markets: self.markets@.map_values(|m: Market| m@),
            reports: self.reports@.map_values(|r: Report| r@),
            settlements: self.settlements@,
            outbox: self.outbox@.map_values(|e: OutboxEntry| e@),
            batches: self.batches@.map_values(|b: Batch| b@),
            batch_items: self.batch_items@,
            next_id: self.next_id,
        }
    }
}

/// Why a report submission was rejected.
#[derive(Clone, Copy, PartialEq, Eq, Structural, Debug)]
pub enum SubmitError {
    /// No market with the given identifier exists.
    MarketNotFound,
    /// The market exists but no longer accepts reports.
    MarketNotOpen,
    /// A report with the same (market, idempotency key) pair already exists.
    DuplicateReport,
}

/// What submission decides for the given store and request: `None` means the
/// report is accepted.
pub open spec fn submit_error_spec(s: StoreModel, market_id: u64, key: Seq<char>) -> Option<
    SubmitError,
> {
    if !has_market(s.markets, market_id) {
        Some(SubmitError::MarketNotFound)
    } else if market_status_of(s.markets, market_id) != MarketStatus::Open {
        Some(SubmitError::MarketNotOpen)
    } else if has_report_key(s.reports, market_id, key) {
        Some(SubmitError::DuplicateReport)
    } else {
        None
    }
}

/// The store after a market is created.
pub open spec fn create_market_spec(
    s: StoreModel,
    question: Seq<char>,
    closes_at: u64,
    now: u64,
) -> StoreModel {
    StoreModel {
        markets: s.markets.push(
            MarketModel {
                id: s.next_id,
                question,
                closes_at,
                status: MarketStatus::Open,
                created_at: now,
            },
        ),
        next_id: (s.next_id + 1) as u64,
        ..s
    }
}

/// The store after an accepted report.
pub open spec fn submit_report_spec(
    s: StoreModel,
    market_id: u64,
    source: Seq<char>,
    value: u64,
    key: Seq<char>,
    now: u64,
) -> StoreModel {
    StoreModel {
        reports: s.reports.push(
            ReportModel {
                id: s.next_id,
                market_id,
                source,
                value,
                idempotency_key: key,
                created_at: now,
            },
        ),
        next_id: (s.next_id + 1) as u64,
        ..s
    }
}

impl Store {
    /// The store invariant, at the exec interface.
    pub open spec fn inv(&self) -> bool {
        wf(self@)
    }

    /// An empty store.
    pub fn new() -> (r: Store)
        ensures
            r.inv(),
            r@.markets == Seq::<MarketModel>::empty(),
            r@.reports == Seq::<ReportModel>::empty(),
            r@.settlements == Seq::<Settlement>::empty(),
            r@.outbox == Seq::<OutboxModel>::empty(),
            r@.batches == Seq::<BatchModel>::empty(),
            r@.batch_items == Seq::<BatchItem>::empty(),
            r@.next_id == 0,
    {
        let r = Store {
            markets: Vec::new(),
            reports: Vec::new(),
            settlements: Vec::new(),
            outbox: Vec::new(),
            batches: Vec::new(),
            batch_items: Vec::new(),
            next_id: 0,
        };
        proof {
            assert(r@.markets =~= Seq::<MarketModel>::empty());
            assert(r@.reports =~= Seq::<ReportModel>::empty());
            assert(r@.outbox =~= Seq::<OutboxModel>::empty());
            assert(r@.batches =~= Seq::<BatchModel>::empty());
        }
        r
    }

    /// The position of the market with this identifier, if any.
    pub fn find_market(&self, id: u64) -> (r: Option<usize>)
        ensures
            match r {
                Some(i) => i < self@.markets.len() && self@.markets[i as int].id == id
                    && has_market(self@.markets, id),
                None => !has_market(self@.markets, id),
            },
    {
        let n = self.markets.len();
        let mut i: usize = 0;
        while i < n
            invariant
                n == self.markets@.len(),
                i <= n,
                forall|j: int| 0 <= j < i ==> (#[trigger] self@.markets[j]).id != id,
            decreases n - i,
        {
            if self.markets[i].id == id {
                proof {
                    assert(self@.markets[i as int].id == id);
                }
                return Some(i);
            }
            i = i + 1;
        }
        None
    }

    /// Create an open market; returns its identifier.
    pub fn create_market(&mut self, req: CreateMarketRequest, now: u64) -> (id: u64)
        requires
            old(self).inv(),
            old(self)@.next_id < u64::MAX,
        ensures
            final(self).inv(),
            final(self)@ == create_market_spec(old(self)@, req.question@, req.closes_at, now),
            id == old(self)@.next_id,
    {
        let id = self.next_id;
        let ghost pre = self@;
        let ghost q = req.question@;
        let closes_at = req.closes_at;
        self.markets.push(
            Market {
                id,
                question: req.question,
                closes_at,
                status: MarketStatus::Open,
                created_at: now,
            },
        );
        self.next_id = id + 1;
        proof {
            let post = create_market_spec(pre, q, closes_at, now);
            assert(self@.markets =~= post.markets);
            assert(self@ =~= post);
            lemma_create_market_wf(pre, q, closes_at, now);
        }
        id
    }

    /// Accept or reject one report, atomically: on acceptance the report is
    /// recorded; on rejection the store is unchanged and the error says
    /// exactly why.
    pub fn create_report(
        &mut self,
        market_id: u64,
        req: CreateReportRequest,
        now: u64,
    ) -> (r: Result<u64, SubmitError>)
        requires
            old(self).inv(),
            old(self)@.next_id < u64::MAX,
        ensures
            final(self).inv(),
            match r {
                Ok(id) => submit_error_spec(old(self)@, market_id, req.idempotency_key@) is None
                    && id == old(self)@.next_id && final(self)@ == submit_report_spec(
                    old(self)@,
                    market_id,
                    req.source@,
                    req.value,
                    req.idempotency_key@,
                    now,
                ),
                Err(e) => submit_error_spec(old(self)@, market_id, req.idempotency_key@) == Some(e)
                    && final(self)@ == old(self)@,
            },
    {
        let CreateReportRequest { source, value, idempotency_key } = req;
        let mi = match self.find_market(market_id) {
            Some(i) => i,
            None => {
                return Err(SubmitError::MarketNotFound);
            },
        };
        proof {
            lemma_market_index_is(self@.markets, mi as int);
        }
        if !matches!(self.markets[mi].status, MarketStatus::Open) {
            proof {
                assert(self@.markets[mi as int].status != MarketStatus::Open);
            }
            return Err(SubmitError::MarketNotOpen);
        }
        proof {
            assert(self@.markets[mi as int].status == MarketStatus::Open);
            assert(market_status_of(self@.markets, market_id) == MarketStatus::Open);
        }
        let n = self.reports.len();
        let mut j: usize = 0;
        while j < n
            invariant
                self@ == old(self)@,
                old(self).inv(),
                old(self)@.next_id < u64::MAX,
                idempotency_key@ == req.idempotency_key@,
                has_market(self@.markets, market_id),
                market_status_of(self@.markets, market_id) == MarketStatus::Open,
                n == self.reports@.len(),
                j <= n,
                forall|k: int|
                    0 <= k < j ==> !((#[trigger] self@.reports[k]).market_id == market_id
                        && self@.reports[k].idempotency_key == idempotency_key@),
            decreases n - j,
        {
            if self.reports[j].market_id == market_id && self.reports[j].idempotency_key.eq(
                &idempotency_key,
            ) {
                proof {
                    assert(self@.reports[j as int].market_id == market_id
                        && self@.reports[j as int].idempotency_key == idempotency_key@);
                    assert(has_report_key(self@.reports, market_id, idempotency_key@));
                }
                return Err(SubmitError::DuplicateReport);
            }
            j = j + 1;
        }
        proof {
            assert(!has_report_key(self@.reports, market_id, idempotency_key@));
        }
        let id = self.next_id;
        let ghost pre = self@;
        self.reports.push(
            Report { id, market_id, source, value, idempotency_key, created_at: now },
        );
        self.next_id = id + 1;
        proof {
            let post = submit_report_spec(pre, market_id, source@, value, idempotency_key@, now);
            assert(self@.reports =~= post.reports);
            assert(self@ =~= post);
            lemma_submit_report_wf(pre, market_id, source@, value, idempotency_key@, now);
        }
        Ok(id)
    }

    /// All markets, newest first.
    pub fn list_markets(&self) -> (r: Vec<Market>)
        ensures
            r@.len() == self@.markets.len(),
            forall|i: int|
                0 <= i < r@.len() ==> (#[trigger] r@[i])@ == self@.markets[self@.markets.len() - 1
                    - i],
    {
        let n = self.markets.len();
        let mut out: Vec<Market> = Vec::new();
        let mut i: usize = n;
        while i > 0
            invariant
                n == self.markets@.len(),
                i <= n,
                out@.len() == n - i,
                forall|k: int|
                    0 <= k < out@.len() ==> (#[trigger] out@[k])@ == self@.markets[n - 1 - k],
            decreases i,
        {
            i = i - 1;
            out.push(self.markets[i].clone());
        }
        out
    }

    /// The reports of one market, oldest first.
    pub fn list_reports(&self, market_id: u64) -> (r: Vec<Report>)
        ensures
            r@.map_values(|x: Report| x@) == reports_for(self@.reports, market_id),
    {
        let n = self.reports.len();
        let mut out: Vec<Report> = Vec::new();
        let mut i: usize = 0;
        proof {
            assert(self@.reports.take(0) =~= Seq::<ReportModel>::empty());
            assert(out@.map_values(|x: Report| x@) =~= reports_for(
                self@.reports.take(0),
                market_id,
            ));
        }
        while i < n
            invariant
                n == self.reports@.len(),
                i <= n,
                out@.map_values(|x: Report| x@) =~= reports_for(
                    self@.reports.take(i as int),
                    market_id,
                ),
            decreases n - i,
        {
            proof {
                assert(self@.reports.take(i as int + 1).drop_last() =~= self@.reports.take(
                    i as int,
                ));
                assert(self@.reports.take(i as int + 1).last() == self@.reports[i as int]);
            }
            if self.reports[i].market_id == market_id {
                out.push(self.reports[i].clone());
                proof {
                    assert(out@.map_values(|x: Report| x@) =~= reports_for(
                        self@.reports.take(i as int + 1),
                        market_id,
                    ));
                }
            }
            i = i + 1;
        }
        proof {
            assert(self@.reports.take(n as int) =~= self@.reports);
        }
        out
    }

    /// The values of one market's reports, oldest first.
    pub fn report_values(&self, market_id: u64) -> (r: Vec<u64>)
        ensures
            r@ == report_values_spec(self@.reports, market_id),
    {
        let n = self.reports.len();
        let mut out: Vec<u64> = Vec::new();
        let mut i: usize = 0;
        proof {
            assert(self@.reports.take(0) =~= Seq::<ReportModel>::empty());
        }
        while i < n
            invariant
                n == self.reports@.len(),
                i <= n,
                out@ =~= report_values_spec(self@.reports.take(i as int), market_id),
            decreases n - i,
        {
            proof {
                assert(self@.reports.take(i as int + 1).drop_last() =~= self@.reports.take(
                    i as int,
                ));
                assert(self@.reports.take(i as int + 1).last() == self@.reports[i as int]);
            }
            if self.reports[i].market_id == market_id {
                out.push(self.reports[i].value);
            }
            i = i + 1;
        }
        proof {
            assert(self@.reports.take(n as int) =~= self@.reports);
        }
        out
    }
}

/// The reports of one market, in submission order.
pub open spec fn reports_for(rs: Seq<ReportModel>, market_id: u64) -> Seq<ReportModel>
    decreases rs.len(),
{
    if rs.len() == 0 {
        Seq::empty()
    } else {
        let init = reports_for(rs.drop_last(), market_id);
        if rs.last().market_id == market_id {
            init.push(rs.last())
        } else {
            init
        }
    }
}

/// The values of one market's reports, in submission order.
pub open spec fn report_values_spec(rs: Seq<ReportModel>, market_id: u64) -> Seq<u64>
    decreases rs.len(),
{
    if rs.len() == 0 {
        Seq::empty()
    } else {
        let init = report_values_spec(rs.drop_last(), market_id);
        if rs.last().market_id == market_id {
            init.push(rs.last().value)
        } else {
            init
        }
    }
}

/// Creating a market preserves the store invariant.
proof fn lemma_create_market_wf(s: StoreModel, question: Seq<char>, closes_at: u64, now: u64)
    requires
        wf(s),
        s.next_id < u64::MAX,
    ensures
        wf(create_market_spec(s, question, closes_at, now)),
{
    let s2 = create_market_spec(s, question, closes_at, now);
    let n = s.markets.len() as int;
    assert forall|i: int, j: int| 0 <= i < j < s2.markets.len() implies (
    #[trigger] s2.markets[i]).id != (#[trigger] s2.markets[j]).id by {
        if j < n {
            assert(s.markets[i].id != s.markets[j].id);
        } else {
            assert(s.markets[i].id < s.next_id);
        }
    }
    assert forall|i: int| 0 <= i < s.reports.len() implies has_market(
        s2.markets,
        (#[trigger] s.reports[i]).market_id,
    ) by {
        let k = choose|k: int|
            0 <= k < s.markets.len() && (#[trigger] s.markets[k]).id == s.reports[i].market_id;
        assert(s2.markets[k].id == s.reports[i].market_id);
    }
    assert forall|i: int| 0 <= i < s2.settlements.len() implies has_market(
        s2.markets,
        (#[trigger] s2.settlements[i]).market_id,
    ) && market_status_of(s2.markets, s2.settlements[i].market_id) == MarketStatus::Resolved by {
        let id = s.settlements[i].market_id;
        let k = choose|k: int| 0 <= k < s.markets.len() && (#[trigger] s.markets[k]).id == id;
        assert(s2.markets[k].id == id);
        assert(has_market(s2.markets, id));
        lemma_market_index_is(s.markets, k);
        assert(market_status_of(s.markets, id) == s.markets[k].status);
        assert(markets_unique(s2.markets));
        lemma_market_index_is(s2.markets, k);
        assert(market_status_of(s2.markets, id) == s2.markets[k].status);
        assert(s2.markets[k] == s.markets[k]);
    }
    assert forall|i: int|
        0 <= i < s2.markets.len() && (#[trigger] s2.markets[i]).status
            == MarketStatus::Resolved implies has_settlement(s2.settlements, s2.markets[i].id) by {
        if i < n {
            assert(s.markets[i].status == MarketStatus::Resolved);
            assert(has_settlement(s.settlements, s.markets[i].id));
        }
    }
}

/// Accepting a report preserves the store invariant.
proof fn lemma_submit_report_wf(
    s: StoreModel,
    market_id: u64,
    source: Seq<char>,
    value: u64,
    key: Seq<char>,
    now: u64,
)
    requires
        wf(s),
        s.next_id < u64::MAX,
        submit_error_spec(s, market_id, key) is None,
    ensures
        wf(submit_report_spec(s, market_id, source, value, key, now)),
{
    let s2 = submit_report_spec(s, market_id, source, value, key, now);
    let n = s.reports.len() as int;
    assert forall|i: int| 0 <= i < s2.reports.len() implies has_market(
        s2.markets,
        (#[trigger] s2.reports[i]).market_id,
    ) by {
        if i < n {
            assert(has_market(s.markets, s.reports[i].market_id));
        } else {
            assert(s2.reports[i].market_id == market_id);
            assert(has_market(s.markets, market_id));
        }
    }
    assert forall|i: int, j: int| 0 <= i < j < s2.reports.len() implies !((
    #[trigger] s2.reports[i]).market_id == (#[trigger] s2.reports[j]).market_id
        && s2.reports[i].idempotency_key == s2.reports[j].idempotency_key) by {
        if j < n {
            assert(!(s.reports[i].market_id == s.reports[j].market_id
                && s.reports[i].idempotency_key == s.reports[j].idempotency_key));
        } else {
            assert(!has_report_key(s.reports, market_id, key));
            assert(!(s.reports[i].market_id == market_id && s.reports[i].idempotency_key == key));
        }
    }
}

/// Submitting the same (market, idempotency key) twice succeeds once and is
/// rejected the second time with a conflict.  What the second submission
/// decides does not depend on the value it carries: `submit_error_spec`
/// takes no value at all.
pub proof fn lemma_duplicate_submission_conflicts(
    s: StoreModel,
    market_id: u64,
    source: Seq<char>,
    value: u64,
    now: u64,
    key: Seq<char>,
)
    requires
        wf(s),
        submit_error_spec(s, market_id, key) is None,
    ensures
        submit_error_spec(
            submit_report_spec(s, market_id, source, value, key, now),
            market_id,
            key,
        ) == Some(SubmitError::DuplicateReport),
{
    let s2 = submit_report_spec(s, market_id, source, value, key, now);
    let n = s.reports.len() as int;
    assert(s2.reports[n].market_id == market_id && s2.reports[n].idempotency_key == key);
    assert(has_report_key(s2.reports, market_id, key));
}

} // verus!
