use oracle_settle::audit::settlement_hash;
use oracle_settle::records::{CreateMarketRequest, CreateReportRequest};
use oracle_settle::store::Store;
use sha2::{Digest, Sha256};

#[test]
fn audit_digest_recomputes_from_the_canonical_encoding() {
    let mut store = Store::new();
    let id = store.create_market(
        CreateMarketRequest { question: "q".to_string(), closes_at: 100 },
        10,
    );
    for (source, value, key, at) in
        [("alpha", 10000u64, "k1", 11u64), ("beta", 10050, "k2", 12), ("gamma", 10100, "k3", 13)]
    {
        store
            .create_report(
                id,
                CreateReportRequest {
                    source: source.to_string(),
                    value,
                    idempotency_key: key.to_string(),
                },
                at,
            )
            .unwrap();
    }
    store.auto_close_markets(100);
    store.resolve_markets(100, 10);
    let view = store.get_settlement(id).unwrap();

    // recompute the digest independently from the documented encoding:
    // settlement fields, then per report id, length-prefixed source bytes,
    // value and submission time, all integers as eight big-endian bytes
    let mut input = Vec::new();
    input.extend_from_slice(&id.to_be_bytes());
    input.extend_from_slice(&view.outcome.to_be_bytes());
    input.extend_from_slice(&view.decided_at.to_be_bytes());
    for r in &view.reports {
        input.extend_from_slice(&r.id.to_be_bytes());
        input.extend_from_slice(&(r.source.len() as u64).to_be_bytes());
        input.extend_from_slice(r.source.as_bytes());
        input.extend_from_slice(&r.value.to_be_bytes());
        input.extend_from_slice(&r.created_at.to_be_bytes());
    }
    let expected = hex::encode(Sha256::digest(&input));
    assert_eq!(view.hash, expected);
}

#[test]
fn audit_digest_of_no_reports_is_over_the_settlement_alone() {
    let hash = settlement_hash(5, 42, 99, &Vec::new());
    let mut input = Vec::new();
    input.extend_from_slice(&5u64.to_be_bytes());
    input.extend_from_slice(&42u64.to_be_bytes());
    input.extend_from_slice(&99u64.to_be_bytes());
    assert_eq!(hash, hex::encode(Sha256::digest(&input)));
}

#[test]
fn audit_digest_covers_the_reports() {
    let mut store = Store::new();
    let id = store.create_market(
        CreateMarketRequest { question: "q".to_string(), closes_at: 100 },
        10,
    );
    store.auto_close_markets(100);
    assert!(store.finalize_market(id, 42, 100));
    let bare = store.get_settlement(id).unwrap().hash;
    let with_reports = settlement_hash(id, 42, 100, &store.list_reports(id));
    assert_eq!(bare, with_reports);
    assert_ne!(bare, settlement_hash(id, 43, 100, &store.list_reports(id)));
}
