use oracle_settle::codec::settlement_leaf;
use oracle_settle::merkle::build_merkle_root;
use oracle_settle::records::{CreateMarketRequest, CreateReportRequest};
use oracle_settle::store::Store;
use sha2::{Digest, Sha256};

fn market_req(question: &str, closes_at: u64) -> CreateMarketRequest {
    CreateMarketRequest { question: question.to_string(), closes_at }
}

fn report_req(source: &str, value: u64, key: &str) -> CreateReportRequest {
    CreateReportRequest {
        source: source.to_string(),
        value,
        idempotency_key: key.to_string(),
    }
}

fn store_with_settlements(n: u64) -> Store {
    let mut store = Store::new();
    for m in 0..n {
        let id = store.create_market(market_req(&format!("q{m}"), 100), 10);
        store.create_report(id, report_req("a", 1000, "ka"), 11).unwrap();
        store.create_report(id, report_req("b", 1000, "kb"), 12).unwrap();
        store.create_report(id, report_req("c", 1000, "kc"), 13).unwrap();
    }
    store.auto_close_markets(100);
    store.resolve_markets(100, 100);
    store
}

#[test]
fn no_settlements_no_batch() {
    let mut store = Store::new();
    store.create_batch(200);
    assert_eq!(store.batches.len(), 0);
    assert_eq!(store.batch_items.len(), 0);
}

#[test]
fn single_settlement_batch_root_is_its_leaf() {
    let mut store = store_with_settlements(1);
    store.create_batch(200);
    assert_eq!(store.batches.len(), 1);
    assert_eq!(store.batch_items.len(), 1);
    let st = store.settlements[0];
    assert_eq!(store.batch_items[0].market_id, st.market_id);
    assert_eq!(store.batch_items[0].batch_id, store.batches[0].id);
    // the leaf is SHA-256 over the canonical 24-byte settlement encoding
    let mut input = Vec::new();
    input.extend_from_slice(&st.market_id.to_be_bytes());
    input.extend_from_slice(&st.outcome.to_be_bytes());
    input.extend_from_slice(&st.decided_at.to_be_bytes());
    let leaf = Sha256::digest(&input).to_vec();
    assert_eq!(store.batches[0].merkle_root, leaf);
    assert_eq!(store.batches[0].created_at, 200);
}

#[test]
fn batch_commits_to_all_unbatched_settlements_in_order() {
    let mut store = store_with_settlements(3);
    assert_eq!(store.settlements.len(), 3);
    store.create_batch(200);
    assert_eq!(store.batches.len(), 1);
    assert_eq!(store.batch_items.len(), 3);
    let leaves: Vec<Vec<u8>> = store
        .settlements
        .iter()
        .map(|s| settlement_leaf(s.market_id, s.outcome, s.decided_at))
        .collect();
    assert_eq!(store.batches[0].merkle_root, build_merkle_root(leaves));
    for (item, st) in store.batch_items.iter().zip(store.settlements.iter()) {
        assert_eq!(item.market_id, st.market_id);
        assert_eq!(item.batch_id, store.batches[0].id);
    }
}

#[test]
fn rerunning_the_batcher_adds_nothing() {
    let mut store = store_with_settlements(3);
    store.create_batch(200);
    let batches = store.batches.len();
    let items = store.batch_items.len();
    store.create_batch(300);
    store.create_batch(400);
    assert_eq!(store.batches.len(), batches);
    assert_eq!(store.batch_items.len(), items);
}

#[test]
fn later_settlements_join_a_new_batch() {
    let mut store = store_with_settlements(1);
    store.create_batch(200);
    // a second market settles after the first batch
    let id = store.create_market(market_req("late", 250), 210);
    store.create_report(id, report_req("a", 500, "ka"), 211).unwrap();
    store.create_report(id, report_req("b", 500, "kb"), 212).unwrap();
    store.create_report(id, report_req("c", 500, "kc"), 213).unwrap();
    store.auto_close_markets(250);
    store.resolve_markets(250, 10);
    store.create_batch(300);
    assert_eq!(store.batches.len(), 2);
    assert_eq!(store.batch_items.len(), 2);
    assert_eq!(store.batch_items[1].market_id, id);
    assert_eq!(store.batch_items[1].batch_id, store.batches[1].id);
}
