//! Points tagged with their position in the caller's sequence.
//!
//! Filtering keeps each survivor's original position, so every index reported
//! after filtering still refers to the sequence the caller passed in.

use vstd::prelude::*;

verus! {

/// A value paired with its zero-based position in the caller's sequence.
#[derive(Debug, Clone, Copy, PartialEq, Eq)]
pub struct Positioned<P> {
    pub point: P,
    pub index: usize,
}

/// The original positions carried by a sequence of tagged values.
pub open spec fn position_ids<P>(ps: Seq<Positioned<P>>) -> Seq<usize> {
    ps.map_values(|p: Positioned<P>| p.index)
}

/// The tagged survivors of `points[0..n]` under `keep`, in order.
pub open spec fn kept_positioned<P>(points: Seq<P>, keep: Seq<bool>, n: int) -> Seq<Positioned<P>>
    decreases n,
{
    if n <= 0 {
        Seq::empty()
    } else {
        let prev = kept_positioned(points, keep, n - 1);
        if keep[n - 1] {
            prev.push(Positioned { point: points[n - 1], index: (n - 1) as usize })
        } else {
            prev
        }
    }
}

/// Tags every value with its position.
pub fn position_points<P: Copy>(points: &[P]) -> (r: Vec<Positioned<P>>)
    ensures
        r@.len() == points@.len(),
        forall|k: int|
            0 <= k < r@.len() ==> #[trigger] r@[k] == (Positioned { point: points@[k], index: k as usize }),
{
    let mut out: Vec<Positioned<P>> = Vec::with_capacity(points.len());
    let mut k: usize = 0;
    while k < points.len()
        invariant
            k <= points@.len(),
            out@.len() == k,
            forall|i: int|
                0 <= i < k ==> #[trigger] out@[i] == (Positioned { point: points@[i], index: i as usize }),
        decreases points@.len() - k,
    {
        out.push(Positioned { point: points[k], index: k });
        k = k + 1;
    }
    out
}

/// Keeps the values whose flag is set, each tagged with its original
/// position; `keep[k]` says whether `points[k]` survives.
pub fn filter_points<P: Copy>(points: &[P], keep: &Vec<bool>) -> (r: Vec<Positioned<P>>)
    requires
        keep@.len() == points@.len(),
    ensures
        r@ == kept_positioned(points@, keep@, points@.len() as int),
{
    let mut out: Vec<Positioned<P>> = Vec::new();
    let mut k: usize = 0;
    while k < points.len()
        invariant
            k <= points@.len(),
            keep@.len() == points@.len(),
            out@ == kept_positioned(points@, keep@, k as int),
        decreases points@.len() - k,
    {
        if keep[k] {
            out.push(Positioned { point: points[k], index: k });
        }
        k = k + 1;
    }
    out
}

/// Filtering never renumbers: each survivor carries a position of the
/// original sequence, holds the value found there, was flagged to stay, and
/// survivors keep their relative order.
pub proof fn lemma_filter_keeps_positions<P>(points: Seq<P>, keep: Seq<bool>, n: int)
    requires
        0 <= n <= points.len() <= usize::MAX,
        keep.len() == points.len(),
    ensures
        forall|k: int|
            0 <= k < kept_positioned(points, keep, n).len() ==> {
                let t = #[trigger] kept_positioned(points, keep, n)[k];
                &&& 0 <= t.index < n
                &&& t.point == points[t.index as int]
                &&& keep[t.index as int]
            },
        forall|k1: int, k2: int|
            0 <= k1 < k2 < kept_positioned(points, keep, n).len() ==> kept_positioned(
                points,
                keep,
                n,
            )[k1].index < kept_positioned(points, keep, n)[k2].index,
    decreases n,
{
    if n > 0 {
        lemma_filter_keeps_positions(points, keep, n - 1);
        let prev = kept_positioned(points, keep, n - 1);
        let cur = kept_positioned(points, keep, n);
        assert forall|k: int| 0 <= k < prev.len() implies prev[k].index < n - 1 by {
            let t = prev[k];
            assert(0 <= t.index < n - 1);
        }
        if keep[n - 1] {
            assert(cur == prev.push(Positioned { point: points[n - 1], index: (n - 1) as usize }));
            assert(forall|k: int| 0 <= k < prev.len() ==> cur[k] == prev[k]);
        } else {
            assert(cur == prev);
        }
    }
}

} // verus!
