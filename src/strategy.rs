//! Choice between the all-pairs scan and the indexed nearest-neighbour search.

use vstd::prelude::*;

verus! {

/// Below this many points on the smaller side the index is never built.
pub const MIN_INDEX_CANDIDATE_SIZE: usize = 32;

/// Up to this many origin/candidate pairs the all-pairs scan is used.
pub const MAX_NAIVE_CROSS_PRODUCT: usize = 4000;

/// How a directed Hausdorff distance is evaluated.
#[derive(Debug, Clone, Copy, PartialEq, Eq, Structural)]
pub enum HausdorffStrategy {
    /// Every origin is compared with every candidate.
    Naive,
    /// Candidates are put in a spatial index queried once per origin.
    Indexed,
}

/// `a * b`, or `usize::MAX` where the product does not fit.
pub open spec fn saturating_product(a: usize, b: usize) -> int {
    if a * b <= usize::MAX {
        a * b
    } else {
        usize::MAX as int
    }
}

/// The all-pairs scan is chosen when the smaller side is small or when there
/// are few pairs in all.
pub open spec fn prefers_naive(a_len: usize, b_len: usize) -> bool {
    vstd::math::min(a_len as int, b_len as int) < MIN_INDEX_CANDIDATE_SIZE
        || saturating_product(a_len, b_len) <= MAX_NAIVE_CROSS_PRODUCT
}

/// Whether the all-pairs scan should be used for sets of these sizes.
pub fn should_use_naive(a_len: usize, b_len: usize) -> (r: bool)
    ensures
        r == prefers_naive(a_len, b_len),
{
    let min_size: usize = if a_len < b_len { a_len } else { b_len };
    let cross_product: usize = match a_len.checked_mul(b_len) {
        Some(product) => product,
        None => usize::MAX,
    };
    min_size < MIN_INDEX_CANDIDATE_SIZE || cross_product <= MAX_NAIVE_CROSS_PRODUCT
}

/// The strategy for a directed evaluation over sets of these sizes.
pub fn choose_strategy(a_len: usize, b_len: usize) -> (r: HausdorffStrategy)
    ensures
        r == (if prefers_naive(a_len, b_len) {
            HausdorffStrategy::Naive
        } else {
            HausdorffStrategy::Indexed
        }),
{
    if should_use_naive(a_len, b_len) {
        HausdorffStrategy::Naive
    } else {
        HausdorffStrategy::Indexed
    }
}

} // verus!
