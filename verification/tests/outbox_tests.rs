use oracle_settle::codec::decode_payload;
use oracle_settle::records::{CreateMarketRequest, CreateReportRequest, OutboxStatus};
use oracle_settle::store::Store;
use sha2::{Digest, Sha256};

fn market_req(question: &str, closes_at: u64) -> CreateMarketRequest {
    CreateMarketRequest { question: question.to_string(), closes_at }
}

fn report_req(source: &str, value: u64, key: &str) -> CreateReportRequest {
    CreateReportRequest {
        source: source.to_string(),
        value,
        idempotency_key: key.to_string(),
    }
}

fn store_with_pending_entries(n: u64) -> Store {
    let mut store = Store::new();
    for m in 0..n {
        let id = store.create_market(market_req(&format!("q{m}"), 100), 10);
        store.create_report(id, report_req("a", 2000, "ka"), 11).unwrap();
        store.create_report(id, report_req("b", 2000, "kb"), 12).unwrap();
        store.create_report(id, report_req("c", 2000, "kc"), 13).unwrap();
    }
    store.auto_close_markets(100);
    store.resolve_markets(100, 100);
    store
}

#[test]
fn pending_entries_drain_oldest_first_up_to_the_limit() {
    let store = store_with_pending_entries(3);
    assert_eq!(store.outbox.len(), 3);
    let all = store.next_pending(10);
    assert_eq!(all.len(), 3);
    assert_eq!(all[0], store.outbox[0].id);
    assert_eq!(all[1], store.outbox[1].id);
    assert_eq!(all[2], store.outbox[2].id);
    let two = store.next_pending(2);
    assert_eq!(two, vec![store.outbox[0].id, store.outbox[1].id]);
    assert_eq!(store.next_pending(0), Vec::<u64>::new());
}

#[test]
fn enqueued_payload_decodes_to_the_settlement() {
    let store = store_with_pending_entries(1);
    let id = store.outbox[0].id;
    let payload = store.entry_payload(id).unwrap();
    let decoded = decode_payload(&payload).unwrap();
    assert_eq!(decoded.outcome_u64, 2000);
    assert_eq!(decoded.ts, 100);
    // the market identity hash is SHA-256 over the market id's eight
    // big-endian bytes
    let market_id = store.settlements[0].market_id;
    let expected = Sha256::digest(&market_id.to_be_bytes()).to_vec();
    assert_eq!(decoded.market_hash, expected);
    assert_eq!(decoded.leaf.len(), 32);
}

#[test]
fn missing_entry_has_no_payload() {
    let store = store_with_pending_entries(1);
    assert!(store.entry_payload(9999).is_none());
}

#[test]
fn successful_relay_marks_sent_and_clears_the_error() {
    let mut store = store_with_pending_entries(1);
    let id = store.outbox[0].id;
    // one failed attempt first, so an error is on record
    assert!(store.record_relay_failure(id, "ledger unreachable".to_string(), 110));
    assert_eq!(store.outbox[0].status, OutboxStatus::Pending);
    assert_eq!(store.outbox[0].retries, 1);
    assert_eq!(store.outbox[0].last_error.as_deref(), Some("ledger unreachable"));
    assert!(store.record_relay_success(id, 120));
    assert_eq!(store.outbox[0].status, OutboxStatus::Sent);
    assert_eq!(store.outbox[0].last_error, None);
    assert_eq!(store.outbox[0].updated_at, 120);
    // terminal: nothing applies to a sent entry
    assert!(!store.record_relay_success(id, 130));
    assert!(!store.record_relay_failure(id, "late".to_string(), 130));
}

#[test]
fn six_consecutive_failures_end_failed_with_six_retries() {
    let mut store = store_with_pending_entries(1);
    let id = store.outbox[0].id;
    for attempt in 1..=5u64 {
        assert!(store.record_relay_failure(id, format!("attempt {attempt}"), 100 + attempt));
        assert_eq!(store.outbox[0].status, OutboxStatus::Pending);
        assert_eq!(store.outbox[0].retries, attempt);
    }
    assert!(store.record_relay_failure(id, "attempt 6".to_string(), 106));
    assert_eq!(store.outbox[0].status, OutboxStatus::Failed);
    assert_eq!(store.outbox[0].retries, 6);
    assert_eq!(store.outbox[0].last_error.as_deref(), Some("attempt 6"));
    // the budget is spent: no further attempt applies
    assert!(!store.record_relay_failure(id, "attempt 7".to_string(), 107));
    assert_eq!(store.outbox[0].retries, 6);
}

#[test]
fn failed_entries_are_not_drained() {
    let mut store = store_with_pending_entries(2);
    let first = store.outbox[0].id;
    for attempt in 1..=6u64 {
        store.record_relay_failure(first, "down".to_string(), 100 + attempt);
    }
    assert_eq!(store.next_pending(10), vec![store.outbox[1].id]);
}

#[test]
fn malformed_payload_fails_permanently_without_retry() {
    let mut store = store_with_pending_entries(1);
    let id = store.outbox[0].id;
    assert!(store.record_malformed(id, "bad payload".to_string(), 150));
    assert_eq!(store.outbox[0].status, OutboxStatus::Failed);
    assert_eq!(store.outbox[0].retries, 0);
    assert_eq!(store.outbox[0].last_error.as_deref(), Some("bad payload"));
    assert!(!store.record_malformed(id, "again".to_string(), 151));
}
