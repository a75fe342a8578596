//! The settlement view the HTTP surface serves: a resolved market's
//! outcome together with all its reports and a recomputed audit digest, so
//! a caller can verify the settlement independently.
//!
//! The audit digest hashes a canonical byte encoding of the settlement and
//! every report: integers as eight big-endian bytes, report sources as
//! length-prefixed UTF-8 bytes.  The encoding is fixed once; an auditor
//! recomputes it from the same records.

use vstd::prelude::*;
use vstd::string::StrSliceExecFns;
use vstd::utf8::encode_utf8;

use crate::bytes::{append_bytes, push_u64_be, u64_be};
use crate::hashing::{hex_encode, hex_of, sha256, sha256_of};
use crate::records::{Report, ReportModel, Settlement};
use crate::store::{has_settlement, reports_for, Store};

verus! {

/// The canonical audit bytes of one report.
pub open spec fn report_audit_bytes(r: ReportModel) -> Seq<u8> {
    u64_be(r.id) + u64_be(encode_utf8(r.source).len() as u64) + encode_utf8(r.source) + u64_be(
        r.value,
    ) + u64_be(r.created_at)
}

/// The canonical audit bytes of a report sequence, in order.
pub open spec fn reports_audit_bytes(rs: Seq<ReportModel>) -> Seq<u8>
    decreases rs.len(),
{
    if rs.len() == 0 {
        Seq::empty()
    } else {
        reports_audit_bytes(rs.drop_last()) + report_audit_bytes(rs.last())
    }
}

/// The canonical audit bytes of a settlement and its reports.
pub open spec fn audit_input(
    market_id: u64,
    outcome: u64,
    decided_at: u64,
    rs: Seq<ReportModel>,
) -> Seq<u8> {
    u64_be(market_id) + u64_be(outcome) + u64_be(decided_at) + reports_audit_bytes(rs)
}

/// The audit digest over a settlement and its reports, rendered as hex.
pub open spec fn settlement_hash_spec(
    market_id: u64,
    outcome: u64,
    decided_at: u64,
    rs: Seq<ReportModel>,
) -> Seq<char> {
    hex_of(sha256_of(audit_input(market_id, outcome, decided_at, rs)))
}

/// A resolved market's settlement as served to a caller: the outcome, all
/// reports, and the recomputed audit digest.
pub struct SettlementView {
    pub market_id: u64,
    pub outcome: u64,
    pub decided_at: u64,
    pub reports: Vec<Report>,
    pub hash: String,
}

/// The settlement of one market, where one exists.
pub open spec fn settlement_for(ss: Seq<Settlement>, market_id: u64) -> Settlement
    recommends
        has_settlement(ss, market_id),
{
    ss[choose|i: int| 0 <= i < ss.len() && (#[trigger] ss[i]).market_id == market_id]
}

/// The audit digest over a settlement and its reports.
pub fn settlement_hash(
    market_id: u64,
    outcome: u64,
    decided_at: u64,
    reports: &Vec<Report>,
) -> (r: String)
    ensures
        r@ == settlement_hash_spec(
            market_id,
            outcome,
            decided_at,
            reports@.map_values(|x: Report| x@),
        ),
{
    let ghost rs = reports@.map_values(|x: Report| x@);
    let mut buf: Vec<u8> = Vec::new();
    push_u64_be(&mut buf, market_id);
    push_u64_be(&mut buf, outcome);
    push_u64_be(&mut buf, decided_at);
    let ghost head = u64_be(market_id) + u64_be(outcome) + u64_be(decided_at);
    proof {
        assert(buf@ =~= head);
        assert(buf@ =~= head + reports_audit_bytes(rs.take(0)));
    }
    let n = reports.len();
    let mut i: usize = 0;
    while i < n
        invariant
            n == reports@.len(),
            i <= n,
            rs == reports@.map_values(|x: Report| x@),
            head == u64_be(market_id) + u64_be(outcome) + u64_be(decided_at),
            buf@ == head + reports_audit_bytes(rs.take(i as int)),
        decreases n - i,
    {
        let rep = &reports[i];
        let src_bytes = rep.source.as_str().as_bytes_vec();
        push_u64_be(&mut buf, rep.id);
        push_u64_be(&mut buf, src_bytes.len() as u64);
        append_bytes(&mut buf, &src_bytes);
        push_u64_be(&mut buf, rep.value);
        push_u64_be(&mut buf, rep.created_at);
        proof {
            assert(rs.take(i as int + 1).drop_last() =~= rs.take(i as int));
            assert(rs.take(i as int + 1).last() == rs[i as int]);
            assert(rs[i as int] == reports@[i as int]@);
            assert(src_bytes@ == encode_utf8(rs[i as int].source));
            assert(buf@ =~= head + reports_audit_bytes(rs.take(i as int + 1)));
        }
        i = i + 1;
    }
    proof {
        assert(rs.take(n as int) =~= rs);
        assert(buf@ =~= audit_input(market_id, outcome, decided_at, rs));
    }
    let digest = sha256(&buf);
    hex_encode(&digest)
}

impl Store {
    /// The position of the settlement for this market, if any.
    fn find_settlement(&self, market_id: u64) -> (r: Option<usize>)
        ensures
            match r {
                Some(i) => i < self@.settlements.len() && self@.settlements[i as int].market_id
                    == market_id && has_settlement(self@.settlements, market_id),
                None => !has_settlement(self@.settlements, market_id),
            },
    {
        let n = self.settlements.len();
        let mut i: usize = 0;
        while i < n
            invariant
                n == self.settlements@.len(),
                i <= n,
                forall|j: int| 0 <= j < i ==> (#[trigger] self@.settlements[j]).market_id != market_id,
            decreases n - i,
        {
            if self.settlements[i].market_id == market_id {
                return Some(i);
            }
            i = i + 1;
        }
        None
    }

    /// The settlement of a market, with its reports and the recomputed
    /// audit digest; nothing for an unresolved market.
    pub fn get_settlement(&self, market_id: u64) -> (r: Option<SettlementView>)
        requires
            self.inv(),
        ensures
            r is Some <==> has_settlement(self@.settlements, market_id),
            r matches Some(v) ==> ({
                let st = settlement_for(self@.settlements, market_id);
                let rs = reports_for(self@.reports, market_id);
                &&& v.market_id == market_id
                &&& v.outcome == st.outcome
                &&& v.decided_at == st.decided_at
                &&& v.reports@.map_values(|x: Report| x@) == rs
                &&& v.hash@ == settlement_hash_spec(market_id, st.outcome, st.decided_at, rs)
            }),
    {
        let si = match self.find_settlement(market_id) {
            Some(i) => i,
            None => {
                return None;
            },
        };
        proof {
            let k = choose|k: int|
                0 <= k < self@.settlements.len() && (#[trigger] self@.settlements[k]).market_id
                    == market_id;
            if k != si as int {
                assert(self@.settlements[k].market_id != self@.settlements[si as int].market_id);
            }
            assert(settlement_for(self@.settlements, market_id) == self@.settlements[si as int]);
        }
        let st = self.settlements[si];
        let reports = self.list_reports(market_id);
        let hash = settlement_hash(market_id, st.outcome, st.decided_at, &reports);
        Some(
            SettlementView {
                market_id,
                outcome: st.outcome,
                decided_at: st.decided_at,
                reports,
                hash,
            },
        )
    }
}

} // verus!
