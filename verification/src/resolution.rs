//! The consensus decision over a market's reports.
//!
//! Report values are fixed-point integers (the caller chooses the scale).
//! Fewer than three reports never constitute consensus; otherwise consensus
//! holds exactly when the relative spread `(max - min) / min` is at most 1%,
//! and the outcome is the arithmetic mean of all values.  A report set whose
//! minimum is zero has no defined relative spread and is treated as
//! non-convergent.

use vstd::prelude::*;

verus! {

/// The sum of a value sequence.
pub open spec fn sum_of(s: Seq<u64>) -> int
    decreases s.len(),
{
    if s.len() == 0 {
        0
    } else {
        sum_of(s.drop_last()) + s.last()
    }
}

/// The least value of a non-empty sequence.
pub open spec fn min_of(s: Seq<u64>) -> int
    recommends
        s.len() > 0,
    decreases s.len(),
{
    if s.len() <= 1 {
        s[0] as int
    } else if s.last() < min_of(s.drop_last()) {
        s.last() as int
    } else {
        min_of(s.drop_last())
    }
}

/// The greatest value of a non-empty sequence.
pub open spec fn max_of(s: Seq<u64>) -> int
    recommends
        s.len() > 0,
    decreases s.len(),
{
    if s.len() <= 1 {
        s[0] as int
    } else if s.last() > max_of(s.drop_last()) {
        s.last() as int
    } else {
        max_of(s.drop_last())
    }
}

/// Consensus holds of at least three values whose relative spread is at most
/// one percent; a zero minimum leaves the spread undefined and never
/// converges.
pub open spec fn has_consensus(s: Seq<u64>) -> bool {
    &&& s.len() >= 3
    &&& min_of(s) > 0
    &&& 100 * (max_of(s) - min_of(s)) <= min_of(s)
}

/// The outcome of a convergent report set: the arithmetic mean of all
/// values, rounded toward zero.
pub open spec fn consensus_outcome(s: Seq<u64>) -> int {
    sum_of(s) / s.len() as int
}

/// What resolution decides for a report set.
pub open spec fn resolve_spec(s: Seq<u64>) -> Option<u64> {
    if has_consensus(s) {
        Some(consensus_outcome(s) as u64)
    } else {
        None
    }
}

proof fn lemma_min_max_order(s: Seq<u64>)
    requires
        s.len() > 0,
    ensures
        min_of(s) <= max_of(s),
        0 <= min_of(s),
        max_of(s) <= u64::MAX as int,
    decreases s.len(),
{
    if s.len() > 1 {
        lemma_min_max_order(s.drop_last());
    }
}

/// The sum of a non-empty sequence lies between `len * min` and `len * max`.
proof fn lemma_sum_bounds(s: Seq<u64>)
    requires
        s.len() > 0,
    ensures
        s.len() * min_of(s) <= sum_of(s),
        sum_of(s) <= s.len() * max_of(s),
    decreases s.len(),
{
    if s.len() == 1 {
        assert(sum_of(s) == sum_of(s.drop_last()) + s.last());
        assert(sum_of(s.drop_last()) == 0);
    } else {
        let d = s.drop_last();
        lemma_sum_bounds(d);
        lemma_min_max_order(d);
        let n = d.len() as int;
        assert(min_of(s) <= min_of(d) && min_of(s) <= s.last() as int);
        assert(max_of(s) >= max_of(d) && max_of(s) >= s.last() as int);
        assert(n * min_of(s) <= n * min_of(d)) by (nonlinear_arith)
            requires
                n >= 0,
                min_of(s) <= min_of(d),
        ;
        assert(n * max_of(s) >= n * max_of(d)) by (nonlinear_arith)
            requires
                n >= 0,
                max_of(s) >= max_of(d),
        ;
        assert((n + 1) * min_of(s) == n * min_of(s) + min_of(s)) by (nonlinear_arith);
        assert((n + 1) * max_of(s) == n * max_of(s) + max_of(s)) by (nonlinear_arith);
    }
}

/// The mean of a non-empty sequence lies between its least and greatest
/// value.
pub proof fn lemma_mean_bounds(s: Seq<u64>)
    requires
        s.len() > 0,
    ensures
        min_of(s) <= consensus_outcome(s),
        consensus_outcome(s) <= max_of(s),
{
    lemma_sum_bounds(s);
    lemma_min_max_order(s);
    let n = s.len() as int;
    assert(min_of(s) <= sum_of(s) / n) by (nonlinear_arith)
        requires
            n > 0,
            n * min_of(s) <= sum_of(s),
    ;
    assert(sum_of(s) / n <= max_of(s)) by (nonlinear_arith)
        requires
            n > 0,
            sum_of(s) <= n * max_of(s),
    ;
}

/// Resolution never reaches consensus on fewer than three reports.
pub proof fn lemma_small_report_set_no_consensus(s: Seq<u64>)
    requires
        s.len() < 3,
    ensures
        resolve_spec(s) is None,
{
}

/// On at least three reports whose relative spread is within one percent of
/// a positive minimum, resolution returns the arithmetic mean.
pub proof fn lemma_consensus_is_mean(s: Seq<u64>)
    requires
        s.len() >= 3,
        min_of(s) > 0,
        100 * (max_of(s) - min_of(s)) <= min_of(s),
    ensures
        resolve_spec(s) == Some((sum_of(s) / s.len() as int) as u64),
        min_of(s) <= sum_of(s) / s.len() as int <= max_of(s),
{
    lemma_mean_bounds(s);
}

/// On at least three reports whose relative spread exceeds one percent,
/// resolution reports no consensus.
pub proof fn lemma_wide_spread_no_consensus(s: Seq<u64>)
    requires
        s.len() >= 3,
        100 * (max_of(s) - min_of(s)) > min_of(s),
    ensures
        resolve_spec(s) is None,
{
}

/// Decide whether a report set has converged; on consensus, the outcome is
/// the arithmetic mean of all values.
pub fn try_resolve(values: &Vec<u64>) -> (r: Option<u64>)
    ensures
        r == resolve_spec(values@),
{
    if values.len() < 3 {
        return None;
    }
    let n = values.len();
    let mut mn: u64 = values[0];
    let mut mx: u64 = values[0];
    let mut sum: u128 = values[0] as u128;
    let mut i: usize = 1;
    proof {
        assert(values@.take(1) =~= seq![values@[0]]);
        assert(seq![values@[0]].drop_last() =~= Seq::<u64>::empty());
        assert(sum_of(Seq::<u64>::empty()) == 0);
    }
    while i < n
        invariant
            3 <= n == values@.len(),
            1 <= i <= n,
            mn as int == min_of(values@.take(i as int)),
            mx as int == max_of(values@.take(i as int)),
            sum as int == sum_of(values@.take(i as int)),
            sum <= (i as u128) * (u64::MAX as u128),
        decreases n - i,
    {
        let v = values[i];
        proof {
            let t = values@.take(i as int + 1);
            assert(t.drop_last() =~= values@.take(i as int));
            assert(t.last() == values@[i as int]);
            assert((i + 1) as u128 * (u64::MAX as u128) == i as u128 * (u64::MAX as u128)
                + u64::MAX as u128) by (nonlinear_arith);
        }
        if v < mn {
            mn = v;
        }
        if v > mx {
            mx = v;
        }
        sum = sum + v as u128;
        i = i + 1;
    }
    proof {
        assert(values@.take(n as int) =~= values@);
    }
    if mn == 0 {
        return None;
    }
    let diff = mx - mn;
    if (diff as u128) * 100 <= mn as u128 {
        proof {
            lemma_mean_bounds(values@);
        }
        let avg = sum / (n as u128);
        Some(avg as u64)
    } else {
        None
    }
}

} // verus!
