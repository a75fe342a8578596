//! The canonical encodings the engine commits to: the settlement leaf, the
//! market identity hash, and the outbox payload that carries a settlement to
//! the external ledger.
//!
//! The payload is a fixed-width binary value: the 32-byte market identity
//! hash, the 32-byte settlement leaf, then the outcome and the decision
//! timestamp as eight big-endian bytes each.  The encoding is fixed once and
//! recomputed independently for audit, so it must stay bit-reproducible.

use vstd::prelude::*;

use crate::bytes::{append_bytes, lemma_u64_be_round_trip, push_u64_be, read_u64_be, u64_be,
    u64_from_be};
use crate::hashing::{hash_leaf, sha256_of};

verus! {

/// Why a payload failed to decode.  A payload that fails here is corrupt and
/// will never become valid: the failure is permanent.
#[derive(Clone, Copy, PartialEq, Eq, Structural, Debug)]
pub enum PayloadError {
    WrongLength,
}

impl PayloadError {
    /// A description fit for an outbox entry's recorded error.
    pub fn message(&self) -> (r: String)
        ensures
            r@ == "payload is not 80 bytes"@,
    {
        String::from_str("payload is not 80 bytes")
    }
}

/// A decoded outbox payload: what the external ledger is handed.
pub struct SettlementPayload {
    /// SHA-256 of the market's canonical identity encoding; 32 bytes.
    pub market_hash: Vec<u8>,
    /// The settlement's Merkle leaf digest; 32 bytes.
    pub leaf: Vec<u8>,
    /// The settled outcome, integer-encoded.
    pub outcome_u64: u64,
    /// The decision timestamp, seconds.
    pub ts: u64,
}

impl SettlementPayload {
    /// Both digest fields carry full 32-byte digests.
    pub open spec fn wf(&self) -> bool {
        self.market_hash@.len() == 32 && self.leaf@.len() == 32
    }
}

/// The canonical byte encoding of a payload's four fields.
pub open spec fn payload_bytes(
    market_hash: Seq<u8>,
    leaf: Seq<u8>,
    outcome: u64,
    ts: u64,
) -> Seq<u8> {
    market_hash + leaf + u64_be(outcome) + u64_be(ts)
}

/// The canonical identity encoding of a market, and its identity hash.
pub open spec fn market_hash_spec(market_id: u64) -> Seq<u8> {
    sha256_of(u64_be(market_id))
}

/// The canonical leaf encoding of a settlement: market id, outcome and
/// decision timestamp, eight big-endian bytes each.
pub open spec fn leaf_input_spec(market_id: u64, outcome: u64, decided_at: u64) -> Seq<u8> {
    u64_be(market_id) + u64_be(outcome) + u64_be(decided_at)
}

/// The Merkle leaf a settlement contributes to a batch.
pub open spec fn settlement_leaf_spec(market_id: u64, outcome: u64, decided_at: u64) -> Seq<u8> {
    sha256_of(leaf_input_spec(market_id, outcome, decided_at))
}

/// The payload enqueued when a market settles.
pub open spec fn settlement_payload_bytes(market_id: u64, outcome: u64, decided_at: u64) -> Seq<
    u8,
> {
    payload_bytes(
        market_hash_spec(market_id),
        settlement_leaf_spec(market_id, outcome, decided_at),
        outcome,
        decided_at,
    )
}

/// The market identity hash as a value.
pub fn market_hash(market_id: u64) -> (r: Vec<u8>)
    ensures
        r@ == market_hash_spec(market_id),
        r@.len() == 32,
{
    let mut ident: Vec<u8> = Vec::new();
    push_u64_be(&mut ident, market_id);
    proof {
        assert(ident@ =~= u64_be(market_id));
    }
    hash_leaf(&ident)
}

/// The settlement leaf as a value.
pub fn settlement_leaf(market_id: u64, outcome: u64, decided_at: u64) -> (r: Vec<u8>)
    ensures
        r@ == settlement_leaf_spec(market_id, outcome, decided_at),
        r@.len() == 32,
{
    let mut input: Vec<u8> = Vec::new();
    push_u64_be(&mut input, market_id);
    push_u64_be(&mut input, outcome);
    push_u64_be(&mut input, decided_at);
    proof {
        assert(input@ =~= leaf_input_spec(market_id, outcome, decided_at));
    }
    hash_leaf(&input)
}

/// Encode a payload into its canonical bytes.
pub fn encode_payload(p: &SettlementPayload) -> (r: Vec<u8>)
    requires
        p.wf(),
    ensures
        r@ == payload_bytes(p.market_hash@, p.leaf@, p.outcome_u64, p.ts),
        r@.len() == 80,
{
    let mut out: Vec<u8> = Vec::new();
    append_bytes(&mut out, &p.market_hash);
    append_bytes(&mut out, &p.leaf);
    push_u64_be(&mut out, p.outcome_u64);
    push_u64_be(&mut out, p.ts);
    proof {
        assert(out@ =~= payload_bytes(p.market_hash@, p.leaf@, p.outcome_u64, p.ts));
    }
    out
}

/// Copy `len` bytes of `s` starting at `start`.
fn copy_range(s: &Vec<u8>, start: usize, len: usize) -> (r: Vec<u8>)
    requires
        start + len <= s@.len(),
    ensures
        r@ == s@.subrange(start as int, start as int + len as int),
{
    let n = s.len();
    let mut out: Vec<u8> = Vec::new();
    let mut i: usize = 0;
    while i < len
        invariant
            start + len <= n == s@.len(),
            i <= len,
            out@ =~= s@.subrange(start as int, start as int + i as int),
        decreases len - i,
    {
        let b = s[start + i];
        out.push(b);
        proof {
            assert(out@ =~= s@.subrange(start as int, start as int + i as int + 1));
        }
        i = i + 1;
    }
    out
}

/// Decode a payload from its canonical bytes.  Exactly the 80-byte encodings
/// decode; anything else is a permanent `WrongLength` failure.
pub fn decode_payload(bytes: &Vec<u8>) -> (r: Result<SettlementPayload, PayloadError>)
    ensures
        r is Ok <==> bytes@.len() == 80,
        r matches Ok(p) ==> {
            &&& p.wf()
            &&& p.market_hash@ == bytes@.subrange(0, 32)
            &&& p.leaf@ == bytes@.subrange(32, 64)
            &&& p.outcome_u64 as int == u64_from_be(bytes@.subrange(64, 72))
            &&& p.ts as int == u64_from_be(bytes@.subrange(72, 80))
        },
        r is Err ==> r == Result::<SettlementPayload, PayloadError>::Err(
            PayloadError::WrongLength,
        ),
{
    if bytes.len() != 80 {
        return Err(PayloadError::WrongLength);
    }
    let market_hash = copy_range(bytes, 0, 32);
    let leaf = copy_range(bytes, 32, 32);
    let outcome_u64 = read_u64_be(bytes, 64);
    let ts = read_u64_be(bytes, 72);
    Ok(SettlementPayload { market_hash, leaf, outcome_u64, ts })
}

/// Decoding the canonical encoding of a payload recovers its four fields.
pub proof fn lemma_payload_round_trip(market_hash: Seq<u8>, leaf: Seq<u8>, outcome: u64, ts: u64)
    requires
        market_hash.len() == 32,
        leaf.len() == 32,
    ensures
        payload_bytes(market_hash, leaf, outcome, ts).len() == 80,
        payload_bytes(market_hash, leaf, outcome, ts).subrange(0, 32) == market_hash,
        payload_bytes(market_hash, leaf, outcome, ts).subrange(32, 64) == leaf,
        u64_from_be(payload_bytes(market_hash, leaf, outcome, ts).subrange(64, 72)) == outcome,
        u64_from_be(payload_bytes(market_hash, leaf, outcome, ts).subrange(72, 80)) == ts,
{
    let b = payload_bytes(market_hash, leaf, outcome, ts);
    assert(b.subrange(0, 32) =~= market_hash);
    assert(b.subrange(32, 64) =~= leaf);
    assert(b.subrange(64, 72) =~= u64_be(outcome));
    assert(b.subrange(72, 80) =~= u64_be(ts));
    lemma_u64_be_round_trip(outcome);
    lemma_u64_be_round_trip(ts);
}

} // verus!
