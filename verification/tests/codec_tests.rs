use oracle_settle::codec::{decode_payload, encode_payload, PayloadError, SettlementPayload};

#[test]
fn payload_round_trip() {
    let p = SettlementPayload {
        market_hash: vec![0xaa; 32],
        leaf: vec![0xbb; 32],
        outcome_u64: 0x0102030405060708,
        ts: 1_700_000_000,
    };
    let bytes = encode_payload(&p);
    assert_eq!(bytes.len(), 80);
    let q = decode_payload(&bytes).unwrap();
    assert_eq!(q.market_hash, vec![0xaa; 32]);
    assert_eq!(q.leaf, vec![0xbb; 32]);
    assert_eq!(q.outcome_u64, 0x0102030405060708);
    assert_eq!(q.ts, 1_700_000_000);
}

#[test]
fn payload_layout_is_big_endian() {
    let p = SettlementPayload {
        market_hash: vec![0; 32],
        leaf: vec![0; 32],
        outcome_u64: 0x0102030405060708,
        ts: 0,
    };
    let bytes = encode_payload(&p);
    assert_eq!(&bytes[64..72], &[1, 2, 3, 4, 5, 6, 7, 8]);
    assert_eq!(&bytes[72..80], &[0; 8]);
}

#[test]
fn short_payload_is_permanently_malformed() {
    assert!(matches!(decode_payload(&vec![0u8; 79]), Err(PayloadError::WrongLength)));
    assert!(matches!(decode_payload(&vec![]), Err(PayloadError::WrongLength)));
    assert!(matches!(decode_payload(&vec![0u8; 81]), Err(PayloadError::WrongLength)));
}

#[test]
fn payload_error_message_names_the_length() {
    assert_eq!(PayloadError::WrongLength.message(), "payload is not 80 bytes");
}
