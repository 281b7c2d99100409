//! Percentile extraction for the automatic-enhancement histogram pass.
//!
//! The analysis collects one perceptual luminance per pixel, sorts them
//! and reads fixed percentiles. The luminance values are floating point;
//! the application layer hands them over in an order-preserving integer
//! encoding (they are never negative), and the sorting and index
//! selection are exact here.

use vstd::arithmetic::div_mod::lemma_div_is_ordered;
use vstd::arithmetic::div_mod::lemma_div_multiples_vanish;
use vstd::prelude::*;

verus! {

/// Never decreasing from one entry to a later one.
pub open spec fn sorted_ascending(s: Seq<u64>) -> bool {
    forall|i: int, j: int| 0 <= i <= j < s.len() ==> s[i] <= s[j]
}

/// Relies on `<[u64]>::sort_unstable`: sorts the slice in ascending
/// order; the result is a permutation of the input.
#[verifier::external_body]
fn sort_u64(v: &mut Vec<u64>)
    ensures
        final(v)@.len() == old(v)@.len(),
        sorted_ascending(final(v)@),
        final(v)@.to_multiset() == old(v)@.to_multiset(),
{
    v.as_mut_slice().sort_unstable();
}

/// Which of `len` sorted samples the `pct`-th percentile reads.
pub open spec fn percentile_index(len: int, pct: int) -> int {
    pct * (len - 1) / 100
}

proof fn lemma_percentile_index_in_range(len: int, pct: int)
    requires
        len > 0,
        0 <= pct <= 100,
    ensures
        0 <= percentile_index(len, pct) < len,
{
    assert(0 <= pct * (len - 1)) by (nonlinear_arith)
        requires
            0 <= pct,
            0 < len,
    ;
    assert(pct * (len - 1) <= 100 * (len - 1)) by (nonlinear_arith)
        requires
            pct <= 100,
            0 < len,
    ;
    lemma_div_is_ordered(0, pct * (len - 1), 100);
    lemma_div_is_ordered(pct * (len - 1), 100 * (len - 1), 100);
    lemma_div_multiples_vanish(len - 1, 100);
}

/// Sorts a luminance table in place and reads the 5th, 10th, 50th and
/// 95th percentiles, as the automatic enhancement's histogram analysis
/// uses them: the sorted table is a permutation of the input, and each
/// returned value is the sorted entry at `percentile_index`.
pub fn luminance_percentiles(lums: &mut Vec<u64>) -> (r: (u64, u64, u64, u64))
    requires
        old(lums)@.len() > 0,
        old(lums)@.len() <= usize::MAX / 100,
    ensures
        final(lums)@.len() == old(lums)@.len(),
        sorted_ascending(final(lums)@),
        final(lums)@.to_multiset() == old(lums)@.to_multiset(),
        r.0 == final(lums)@[percentile_index(final(lums)@.len() as int, 5)],
        r.1 == final(lums)@[percentile_index(final(lums)@.len() as int, 10)],
        r.2 == final(lums)@[percentile_index(final(lums)@.len() as int, 50)],
        r.3 == final(lums)@[percentile_index(final(lums)@.len() as int, 95)],
{
    sort_u64(lums);
    let n = lums.len();
    proof {
        lemma_percentile_index_in_range(n as int, 5);
        lemma_percentile_index_in_range(n as int, 10);
        lemma_percentile_index_in_range(n as int, 50);
        lemma_percentile_index_in_range(n as int, 95);
        assert(100 * (n - 1) <= 100 * (usize::MAX / 100 - 1)) by (nonlinear_arith)
            requires
                n <= usize::MAX / 100,
        ;
        assert(100 * (usize::MAX as int / 100) <= usize::MAX as int) by {
            vstd::arithmetic::div_mod::lemma_fundamental_div_mod(usize::MAX as int, 100);
        }
    }
    let p5 = lums[5 * (n - 1) / 100];
    let p10 = lums[10 * (n - 1) / 100];
    let p50 = lums[50 * (n - 1) / 100];
    let p95 = lums[95 * (n - 1) / 100];
    (p5, p10, p50, p95)
}

} // verus!
