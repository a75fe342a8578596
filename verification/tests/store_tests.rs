use oracle_settle::records::{CreateMarketRequest, CreateReportRequest, MarketStatus};
use oracle_settle::store::{Store, SubmitError};

fn market_req(question: &str, closes_at: u64) -> CreateMarketRequest {
    CreateMarketRequest { question: question.to_string(), closes_at }
}

fn report_req(source: &str, value: u64, key: &str) -> CreateReportRequest {
    CreateReportRequest {
        source: source.to_string(),
        value,
        idempotency_key: key.to_string(),
    }
}

#[test]
fn created_market_is_open() {
    let mut store = Store::new();
    let id = store.create_market(market_req("will it rain", 100), 10);
    assert_eq!(store.markets.len(), 1);
    assert_eq!(store.markets[0].id, id);
    assert_eq!(store.markets[0].status, MarketStatus::Open);
    assert_eq!(store.markets[0].question, "will it rain");
    assert_eq!(store.markets[0].closes_at, 100);
    assert_eq!(store.markets[0].created_at, 10);
}

#[test]
fn list_markets_newest_first() {
    let mut store = Store::new();
    let first = store.create_market(market_req("first", 100), 10);
    let second = store.create_market(market_req("second", 100), 20);
    let listed = store.list_markets();
    assert_eq!(listed.len(), 2);
    assert_eq!(listed[0].id, second);
    assert_eq!(listed[1].id, first);
}

#[test]
fn report_on_unknown_market_is_not_found() {
    let mut store = Store::new();
    let r = store.create_report(7, report_req("src", 1000, "k1"), 10);
    assert_eq!(r, Err(SubmitError::MarketNotFound));
    assert_eq!(store.reports.len(), 0);
}

#[test]
fn report_on_closed_market_is_rejected() {
    let mut store = Store::new();
    let id = store.create_market(market_req("q", 100), 10);
    store.auto_close_markets(100);
    let r = store.create_report(id, report_req("src", 1000, "k1"), 101);
    assert_eq!(r, Err(SubmitError::MarketNotOpen));
}

#[test]
fn duplicate_idempotency_key_conflicts() {
    let mut store = Store::new();
    let id = store.create_market(market_req("q", 100), 10);
    let first = store.create_report(id, report_req("a", 1000, "key"), 11);
    assert!(first.is_ok());
    // the same key is rejected whatever value and source it carries
    let second = store.create_report(id, report_req("b", 2222, "key"), 12);
    assert_eq!(second, Err(SubmitError::DuplicateReport));
    assert_eq!(store.reports.len(), 1);
    assert_eq!(store.reports[0].value, 1000);
}

#[test]
fn same_key_on_another_market_is_accepted() {
    let mut store = Store::new();
    let a = store.create_market(market_req("a", 100), 10);
    let b = store.create_market(market_req("b", 100), 10);
    assert!(store.create_report(a, report_req("s", 1, "key"), 11).is_ok());
    assert!(store.create_report(b, report_req("s", 2, "key"), 12).is_ok());
}

#[test]
fn list_reports_oldest_first_for_one_market() {
    let mut store = Store::new();
    let a = store.create_market(market_req("a", 100), 10);
    let b = store.create_market(market_req("b", 100), 10);
    store.create_report(a, report_req("one", 1, "k1"), 11).unwrap();
    store.create_report(b, report_req("other", 9, "k1"), 12).unwrap();
    store.create_report(a, report_req("two", 2, "k2"), 13).unwrap();
    let listed = store.list_reports(a);
    assert_eq!(listed.len(), 2);
    assert_eq!(listed[0].source, "one");
    assert_eq!(listed[0].value, 1);
    assert_eq!(listed[1].source, "two");
    assert_eq!(listed[1].value, 2);
}
