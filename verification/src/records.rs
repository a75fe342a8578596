//! The five record kinds the engine persists, with the ghost models the
//! store's transitions are specified against.

use vstd::prelude::*;

verus! {

/// Retries granted to a pending relay job before it fails permanently.
pub const RETRY_BUDGET: u64 = 5;

/// A market's lifecycle stage.  Transitions run only forward:
/// `Open` to `Closed` to `Resolved`.
#[derive(Clone, Copy, PartialEq, Eq, Structural, Debug)]
pub enum MarketStatus {
    Open,
    Closed,
    Resolved,
}

/// A stage's position in the lifecycle, for stating monotonicity.
pub open spec fn status_rank(s: MarketStatus) -> int {
    match s {
        MarketStatus::Open => 0,
        MarketStatus::Closed => 1,
        MarketStatus::Resolved => 2,
    }
}

/// A relay job's state: `Pending` until a terminal `Sent` or `Failed`.
#[derive(Clone, Copy, PartialEq, Eq, Structural, Debug)]
pub enum OutboxStatus {
    Pending,
    Sent,
    Failed,
}

/// A question awaiting a numeric outcome decided by aggregated reports.
pub struct Market {
    pub id: u64,
    pub question: String,
    pub closes_at: u64,
    pub status: MarketStatus,
    pub created_at: u64,
}

/// The ghost value of a market.
#[verifier::ext_equal]
pub ghost struct MarketModel {
    pub id: u64,
    pub question: Seq<char>,
    pub closes_at: u64,
    pub status: MarketStatus,
    pub created_at: u64,
}

impl View for Market {
    type V = MarketModel;

    open spec fn view(&self) -> MarketModel {
        MarketModel {
            id: self.id,
            question: self.question@,
            closes_at: self.closes_at,
            status: self.status,
            created_at: self.created_at,
        }
    }
}

impl Clone for Market {
    fn clone(&self) -> (r: Self)
        ensures
            r@ == self@,
    {
        Market {
            id: self.id,
            question: self.question.clone(),
            closes_at: self.closes_at,
            status: self.status,
            created_at: self.created_at,
        }
    }
}

/// One source's claimed value for a market's outcome.  Values are
/// fixed-point integers.
pub struct Report {
    pub id: u64,
    pub market_id: u64,
    pub source: String,
    pub value: u64,
    pub idempotency_key: String,
    pub created_at: u64,
}

/// The ghost value of a report.
#[verifier::ext_equal]
pub ghost struct ReportModel {
    pub id: u64,
    pub market_id: u64,
    pub source: Seq<char>,
    pub value: u64,
    pub idempotency_key: Seq<char>,
    pub created_at: u64,
}

impl View for Report {
    type V = ReportModel;

    open spec fn view(&self) -> ReportModel {
        ReportModel {
            id: self.id,
            market_id: self.market_id,
            source: self.source@,
            value: self.value,
            idempotency_key: self.idempotency_key@,
            created_at: self.created_at,
        }
    }
}

impl Clone for Report {
    fn clone(&self) -> (r: Self)
        ensures
            r@ == self@,
    {
        Report {
            id: self.id,
            market_id: self.market_id,
            source: self.source.clone(),
            value: self.value,
            idempotency_key: self.idempotency_key.clone(),
            created_at: self.created_at,
        }
    }
}

/// The finalized outcome of a resolved market; at most one per market.
#[derive(Clone, Copy, PartialEq, Eq, Structural, Debug)]
pub struct Settlement {
    pub id: u64,
    pub market_id: u64,
    pub outcome: u64,
    pub decided_at: u64,
}

/// A durable relay job: the settlement's payload on its way to the external
/// ledger.
pub struct OutboxEntry {
    pub id: u64,
    pub market_id: u64,
    pub payload: Vec<u8>,
    pub status: OutboxStatus,
    pub retries: u64,
    pub last_error: Option<String>,
    pub created_at: u64,
    pub updated_at: u64,
}

/// The ghost value of an outbox entry.
#[verifier::ext_equal]
pub ghost struct OutboxModel {
    pub id: u64,
    pub market_id: u64,
    pub payload: Seq<u8>,
    pub status: OutboxStatus,
    pub retries: u64,
    pub last_error: Option<Seq<char>>,
    pub created_at: u64,
    pub updated_at: u64,
}

impl View for OutboxEntry {
    type V = OutboxModel;

    open spec fn view(&self) -> OutboxModel {
        OutboxModel {
            id: self.id,
            market_id: self.market_id,
            payload: self.payload@,
            status: self.status,
            retries: self.retries,
            last_error: match self.last_error {
                Some(e) => Some(e@),
                None => None,
            },
            created_at: self.created_at,
            updated_at: self.updated_at,
        }
    }
}

impl Clone for OutboxEntry {
    fn clone(&self) -> (r: Self)
        ensures
            r@ == self@,
    {
        let last_error = match &self.last_error {
            Some(e) => Some(e.clone()),
            None => None,
        };
        OutboxEntry {
            id: self.id,
            market_id: self.market_id,
            payload: self.payload.clone(),
            status: self.status,
            retries: self.retries,
            last_error,
            created_at: self.created_at,
            updated_at: self.updated_at,
        }
    }
}

/// A request to create a market.  The closing time is a timestamp; parsing
/// a caller's textual form is the transport's concern.
pub struct CreateMarketRequest {
    pub question: String,
    pub closes_at: u64,
}

/// A request to submit a report for a market.  The value is a fixed-point
/// integer.
pub struct CreateReportRequest {
    pub source: String,
    pub value: u64,
    pub idempotency_key: String,
}

/// A set of settlements committed under one Merkle root.
pub struct Batch {
    pub id: u64,
    pub merkle_root: Vec<u8>,
    pub created_at: u64,
}

/// The ghost value of a batch.
#[verifier::ext_equal]
pub ghost struct BatchModel {
    pub id: u64,
    pub merkle_root: Seq<u8>,
    pub created_at: u64,
}

impl View for Batch {
    type V = BatchModel;

    open spec fn view(&self) -> BatchModel {
        BatchModel { id: self.id, merkle_root: self.merkle_root@, created_at: self.created_at }
    }
}

impl Clone for Batch {
    fn clone(&self) -> (r: Self)
        ensures
            r@ == self@,
    {
        Batch {
            id: self.id,
            merkle_root: self.merkle_root.clone(),
            created_at: self.created_at,
        }
    }
}

/// Membership of one settlement in one batch.
#[derive(Clone, Copy, PartialEq, Eq, Structural, Debug)]
pub struct BatchItem {
    pub batch_id: u64,
    pub market_id: u64,
}

} // verus!
