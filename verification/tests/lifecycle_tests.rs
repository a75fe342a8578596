use oracle_settle::records::{CreateMarketRequest, CreateReportRequest, MarketStatus, OutboxStatus};
use oracle_settle::store::Store;

fn market_req(question: &str, closes_at: u64) -> CreateMarketRequest {
    CreateMarketRequest { question: question.to_string(), closes_at }
}

fn report_req(source: &str, value: u64, key: &str) -> CreateReportRequest {
    CreateReportRequest {
        source: source.to_string(),
        value,
        idempotency_key: key.to_string(),
    }
}

/// A market with three converging reports, closed and due at time 100.
fn settled_store() -> (Store, u64) {
    let mut store = Store::new();
    let id = store.create_market(market_req("price of x", 100), 10);
    store.create_report(id, report_req("a", 10000, "ka"), 11).unwrap();
    store.create_report(id, report_req("b", 10050, "kb"), 12).unwrap();
    store.create_report(id, report_req("c", 10100, "kc"), 13).unwrap();
    store.auto_close_markets(100);
    store.resolve_markets(100, 10);
    (store, id)
}

#[test]
fn auto_close_only_due_open_markets() {
    let mut store = Store::new();
    let due = store.create_market(market_req("due", 100), 10);
    let later = store.create_market(market_req("later", 200), 10);
    store.auto_close_markets(100);
    assert_eq!(store.markets[0].id, due);
    assert_eq!(store.markets[0].status, MarketStatus::Closed);
    assert_eq!(store.markets[1].id, later);
    assert_eq!(store.markets[1].status, MarketStatus::Open);
}

#[test]
fn wide_spread_leaves_market_closed() {
    // the 99.0 / 100.0 / 100.3 / 101.0 scenario, in tenths: the spread is
    // about 2% of the minimum, so the market stays closed, unresolved
    let mut store = Store::new();
    let id = store.create_market(market_req("q", 100), 10);
    store.create_report(id, report_req("a", 1000, "ka"), 11).unwrap();
    store.create_report(id, report_req("b", 1010, "kb"), 12).unwrap();
    store.create_report(id, report_req("c", 990, "kc"), 13).unwrap();
    store.create_report(id, report_req("d", 1003, "kd"), 14).unwrap();
    store.auto_close_markets(100);
    store.resolve_markets(100, 10);
    assert_eq!(store.markets[0].status, MarketStatus::Closed);
    assert_eq!(store.settlements.len(), 0);
    assert_eq!(store.outbox.len(), 0);
}

#[test]
fn consensus_resolves_and_enqueues_exactly_one_outbox_entry() {
    let (store, id) = settled_store();
    assert_eq!(store.markets[0].status, MarketStatus::Resolved);
    assert_eq!(store.settlements.len(), 1);
    assert_eq!(store.settlements[0].market_id, id);
    assert_eq!(store.settlements[0].outcome, 10050);
    assert_eq!(store.settlements[0].decided_at, 100);
    assert_eq!(store.outbox.len(), 1);
    assert_eq!(store.outbox[0].market_id, id);
    assert_eq!(store.outbox[0].status, OutboxStatus::Pending);
    assert_eq!(store.outbox[0].retries, 0);
    assert_eq!(store.outbox[0].payload.len(), 80);
}

#[test]
fn repeated_ticks_on_resolved_market_are_no_ops() {
    let (mut store, _id) = settled_store();
    store.auto_close_markets(200);
    store.resolve_markets(200, 10);
    store.auto_close_markets(300);
    store.resolve_markets(300, 10);
    assert_eq!(store.markets[0].status, MarketStatus::Resolved);
    assert_eq!(store.settlements.len(), 1);
    assert_eq!(store.outbox.len(), 1);
}

#[test]
fn finalize_applies_once() {
    let mut store = Store::new();
    let id = store.create_market(market_req("q", 100), 10);
    store.auto_close_markets(100);
    assert!(store.finalize_market(id, 42, 100));
    assert!(!store.finalize_market(id, 43, 101));
    assert_eq!(store.settlements.len(), 1);
    assert_eq!(store.settlements[0].outcome, 42);
    assert_eq!(store.outbox.len(), 1);
}

#[test]
fn finalize_needs_a_closed_market() {
    let mut store = Store::new();
    let id = store.create_market(market_req("q", 100), 10);
    // still open
    assert!(!store.finalize_market(id, 42, 50));
    // unknown market
    assert!(!store.finalize_market(id + 1, 42, 50));
    assert_eq!(store.settlements.len(), 0);
}

#[test]
fn resolve_budget_bounds_markets_per_pass() {
    let mut store = Store::new();
    let a = store.create_market(market_req("a", 100), 10);
    let b = store.create_market(market_req("b", 100), 10);
    for (m, key) in [(a, "a"), (b, "b")] {
        store.create_report(m, report_req("s1", 1000, &format!("{key}1")), 11).unwrap();
        store.create_report(m, report_req("s2", 1000, &format!("{key}2")), 12).unwrap();
        store.create_report(m, report_req("s3", 1000, &format!("{key}3")), 13).unwrap();
    }
    store.auto_close_markets(100);
    store.resolve_markets(100, 1);
    assert_eq!(store.markets[0].status, MarketStatus::Resolved);
    assert_eq!(store.markets[1].status, MarketStatus::Closed);
    store.resolve_markets(100, 1);
    assert_eq!(store.markets[1].status, MarketStatus::Resolved);
    assert_eq!(store.settlements.len(), 2);
}

#[test]
fn get_settlement_serves_reports_and_digest() {
    let (store, id) = settled_store();
    let view = store.get_settlement(id).unwrap();
    assert_eq!(view.market_id, id);
    assert_eq!(view.outcome, 10050);
    assert_eq!(view.decided_at, 100);
    assert_eq!(view.reports.len(), 3);
    assert_eq!(view.reports[0].source, "a");
    assert_eq!(view.reports[2].source, "c");
    // a 32-byte digest rendered as lower-case hex
    assert_eq!(view.hash.len(), 64);
    assert!(view.hash.chars().all(|c| c.is_ascii_hexdigit() && !c.is_ascii_uppercase()));
}

#[test]
fn get_settlement_of_unresolved_market_is_none() {
    let mut store = Store::new();
    let id = store.create_market(market_req("q", 100), 10);
    assert!(store.get_settlement(id).is_none());
}
