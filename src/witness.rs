//! Directed and symmetric Hausdorff witnesses chosen from distance keys.
//!
//! A distance key is an order-preserving integer encoding of a non-negative
//! distance: the IEEE-754 bit pattern of a non-negative finite double orders
//! exactly as the value does. Keys are compared here; metres are computed and
//! recovered by the caller.

use vstd::prelude::*;

use crate::error::GeodistError;
use crate::positioned::{Positioned, kept_positioned, lemma_filter_keeps_positions, position_ids};

verus! {

/// The smallest key of a non-empty sequence.
pub open spec fn min_key(s: Seq<u64>) -> u64
    decreases s.len(),
{
    if s.len() <= 1 {
        if s.len() == 1 { s[0] } else { 0 }
    } else {
        let rest = min_key(s.drop_last());
        if s.last() < rest { s.last() } else { rest }
    }
}

/// The largest key of a non-empty sequence.
pub open spec fn max_key(s: Seq<u64>) -> u64
    decreases s.len(),
{
    if s.len() <= 1 {
        if s.len() == 1 { s[0] } else { 0 }
    } else {
        let rest = max_key(s.drop_last());
        if s.last() > rest { s.last() } else { rest }
    }
}

/// `j` is the first position at which `v` occurs in `s`.
pub open spec fn is_first_occurrence(s: Seq<u64>, v: u64, j: int) -> bool {
    &&& 0 <= j < s.len()
    &&& s[j] == v
    &&& forall|k: int| 0 <= k < j ==> s[k] != v
}

/// The first position at which `v` occurs in `s`.
pub open spec fn first_occurrence(s: Seq<u64>, v: u64) -> int {
    choose|j: int| is_first_occurrence(s, v, j)
}

/// Position of the first nearest candidate in a row of keys.
pub open spec fn nearest_position(row: Seq<u64>) -> int {
    first_occurrence(row, min_key(row))
}

/// Position of the first origin whose nearest key is the largest.
pub open spec fn farthest_position(minima: Seq<u64>) -> int {
    first_occurrence(minima, max_key(minima))
}

/// For each origin, the key of its nearest candidate.
pub open spec fn row_minima(rows: Seq<Seq<u64>>) -> Seq<u64> {
    Seq::new(rows.len(), |i: int| min_key(rows[i]))
}

/// The directed Hausdorff key: the largest, over origins, of the smallest key
/// to any candidate.
pub open spec fn directed_key(rows: Seq<Seq<u64>>) -> u64 {
    max_key(row_minima(rows))
}

/// Directed Hausdorff result with the realising origin and candidate.
///
/// Both indices refer to the caller's original ordering.
#[derive(Debug, Clone, Copy, PartialEq, Eq, Structural)]
pub struct HausdorffDirectedWitness {
    pub distance_key: u64,
    pub origin_index: usize,
    pub candidate_index: usize,
}

/// Symmetric Hausdorff result holding both directed witnesses.
#[derive(Debug, Clone, Copy, PartialEq, Eq, Structural)]
pub struct HausdorffWitness {
    pub distance_key: u64,
    pub a_to_b: HausdorffDirectedWitness,
    pub b_to_a: HausdorffDirectedWitness,
}

/// The keys of a sequence of witnesses.
pub open spec fn witness_keys(ws: Seq<HausdorffDirectedWitness>) -> Seq<u64> {
    ws.map_values(|w: HausdorffDirectedWitness| w.distance_key)
}

/// The witness an all-pairs scan produces for a key matrix whose rows belong
/// to the origins and whose columns belong to the candidates.
pub open spec fn naive_witness(
    rows: Seq<Seq<u64>>,
    origin_ids: Seq<usize>,
    candidate_ids: Seq<usize>,
) -> HausdorffDirectedWitness {
    let i = farthest_position(row_minima(rows));
    HausdorffDirectedWitness {
        distance_key: directed_key(rows),
        origin_index: origin_ids[i],
        candidate_index: candidate_ids[nearest_position(rows[i])],
    }
}

/// A first occurrence is unique, so `first_occurrence` finds it.
pub proof fn lemma_first_occurrence_unique(s: Seq<u64>, v: u64, j: int)
    requires
        is_first_occurrence(s, v, j),
    ensures
        first_occurrence(s, v) == j,
{
    let c = first_occurrence(s, v);
    assert(is_first_occurrence(s, v, c));
    if c < j {
        assert(s[c] != v);
    } else if j < c {
        assert(s[j] != v);
    }
}

impl HausdorffDirectedWitness {
    /// Key of the directed Hausdorff distance.
    pub fn distance_key(&self) -> (r: u64)
        ensures
            r == self.distance_key,
    {
        self.distance_key
    }

    /// Index of the origin point in the caller's sequence, before any
    /// clipping.
    pub fn origin_index(&self) -> (r: usize)
        ensures
            r == self.origin_index,
    {
        self.origin_index
    }

    /// Index of the nearest candidate in the caller's sequence, before any
    /// clipping.
    pub fn candidate_index(&self) -> (r: usize)
        ensures
            r == self.candidate_index,
    {
        self.candidate_index
    }
}

impl HausdorffWitness {
    /// Combines the two directed legs; the symmetric key is the larger one.
    pub fn new(a_to_b: HausdorffDirectedWitness, b_to_a: HausdorffDirectedWitness) -> (r: Self)
        ensures
            r.distance_key == vstd::math::max(
                a_to_b.distance_key as int,
                b_to_a.distance_key as int,
            ),
            r.a_to_b == a_to_b,
            r.b_to_a == b_to_a,
    {
        let distance_key: u64 = if a_to_b.distance_key >= b_to_a.distance_key {
            a_to_b.distance_key
        } else {
            b_to_a.distance_key
        };
        HausdorffWitness { distance_key, a_to_b, b_to_a }
    }

    /// Key of the symmetric Hausdorff distance.
    pub fn distance_key(&self) -> (r: u64)
        ensures
            r == self.distance_key,
    {
        self.distance_key
    }

    /// Directed witness from the first set to the second.
    pub fn a_to_b(&self) -> (r: HausdorffDirectedWitness)
        ensures
            r == self.a_to_b,
    {
        self.a_to_b
    }

    /// Directed witness from the second set back to the first.
    pub fn b_to_a(&self) -> (r: HausdorffDirectedWitness)
        ensures
            r == self.b_to_a,
    {
        self.b_to_a
    }
}

/// Position of the first smallest key.
pub fn nearest_in_row(keys: &Vec<u64>) -> (j: usize)
    requires
        keys@.len() > 0,
    ensures
        j < keys@.len(),
        j == nearest_position(keys@),
        keys@[j as int] == min_key(keys@),
        forall|k: int| 0 <= k < keys@.len() ==> keys@[j as int] <= keys@[k],
{
    let mut best: usize = 0;
    let mut pos: usize = 1;
    while pos < keys.len()
        invariant
            1 <= pos <= keys@.len(),
            is_first_occurrence(keys@.take(pos as int), min_key(keys@.take(pos as int)), best as int),
            forall|k: int| 0 <= k < pos ==> keys@[best as int] <= keys@[k],
        decreases keys@.len() - pos,
    {
        let ghost prefix = keys@.take(pos as int);
        assert(keys@.take(pos as int + 1).drop_last() =~= prefix);
        if keys[pos] < keys[best] {
            best = pos;
        }
        pos = pos + 1;
    }
    assert(keys@.take(pos as int) =~= keys@);
    proof {
        lemma_first_occurrence_unique(keys@, min_key(keys@), best as int);
    }
    best
}

/// Position of the first largest key.
pub fn farthest_in(keys: &Vec<u64>) -> (i: usize)
    requires
        keys@.len() > 0,
    ensures
        i < keys@.len(),
        i == farthest_position(keys@),
        keys@[i as int] == max_key(keys@),
        forall|k: int| 0 <= k < keys@.len() ==> keys@[k] <= keys@[i as int],
{
    let mut best: usize = 0;
    let mut pos: usize = 1;
    while pos < keys.len()
        invariant
            1 <= pos <= keys@.len(),
            is_first_occurrence(keys@.take(pos as int), max_key(keys@.take(pos as int)), best as int),
            forall|k: int| 0 <= k < pos ==> keys@[k] <= keys@[best as int],
        decreases keys@.len() - pos,
    {
        let ghost prefix = keys@.take(pos as int);
        assert(keys@.take(pos as int + 1).drop_last() =~= prefix);
        if keys[pos] > keys[best] {
            best = pos;
        }
        pos = pos + 1;
    }
    assert(keys@.take(pos as int) =~= keys@);
    proof {
        lemma_first_occurrence_unique(keys@, max_key(keys@), best as int);
    }
    best
}


/// The witness kept when each origin's nearest candidate is already known:
/// the first origin whose nearest key is the largest.
pub open spec fn farthest_witness(nearest: Seq<HausdorffDirectedWitness>) -> HausdorffDirectedWitness {
    nearest[farthest_position(witness_keys(nearest))]
}

/// Directed result from per-origin nearest witnesses, as produced by a
/// nearest-neighbour index queried once per origin.
pub fn hausdorff_directed_from_nearest(nearest: &Vec<HausdorffDirectedWitness>) -> (r: Result<
    HausdorffDirectedWitness,
    GeodistError,
>)
    ensures
        nearest@.len() == 0 ==> r == Err::<HausdorffDirectedWitness, GeodistError>(
            GeodistError::EmptyPointSet,
        ),
        nearest@.len() > 0 ==> r == Ok::<HausdorffDirectedWitness, GeodistError>(
            farthest_witness(nearest@),
        ),
{
    if nearest.len() == 0 {
        return Err(GeodistError::EmptyPointSet);
    }
    let mut keys: Vec<u64> = Vec::with_capacity(nearest.len());
    let mut i: usize = 0;
    while i < nearest.len()
        invariant
            i <= nearest@.len(),
            keys@ == witness_keys(nearest@.take(i as int)),
        decreases nearest@.len() - i,
    {
        keys.push(nearest[i].distance_key);
        i = i + 1;
        assert(keys@ =~= witness_keys(nearest@.take(i as int)));
    }
    assert(nearest@.take(i as int) =~= nearest@);
    let best = farthest_in(&keys);
    Ok(nearest[best])
}

/// The key matrix has one row per origin and one column per candidate.
pub open spec fn is_key_matrix(rows: Seq<Vec<u64>>, n_origins: int, n_candidates: int) -> bool {
    &&& rows.len() == n_origins
    &&& forall|i: int| 0 <= i < rows.len() ==> (#[trigger] rows[i])@.len() == n_candidates
}

/// The matrix as sequences of keys.
pub open spec fn key_rows(rows: Seq<Vec<u64>>) -> Seq<Seq<u64>> {
    rows.map_values(|r: Vec<u64>| r@)
}

/// Directed Hausdorff result of the all-pairs scan over a key matrix:
/// `rows[i][j]` is the key of the distance from `origins[i]` to
/// `candidates[j]`. Ties go to the earliest origin and the earliest candidate.
pub fn hausdorff_directed_naive<P>(
    origins: &[Positioned<P>],
    candidates: &[Positioned<P>],
    rows: &Vec<Vec<u64>>,
) -> (r: Result<HausdorffDirectedWitness, GeodistError>)
    requires
        is_key_matrix(rows@, origins@.len() as int, candidates@.len() as int),
    ensures
        origins@.len() == 0 || candidates@.len() == 0 <==> r is Err,
        r is Err ==> r == Err::<HausdorffDirectedWitness, GeodistError>(
            GeodistError::EmptyPointSet,
        ),
        r is Ok ==> r == Ok::<HausdorffDirectedWitness, GeodistError>(
            naive_witness(key_rows(rows@), position_ids(origins@), position_ids(candidates@)),
        ),
{
    if origins.len() == 0 || candidates.len() == 0 {
        return Err(GeodistError::EmptyPointSet);
    }
    let ghost krows = key_rows(rows@);
    let ghost oids = position_ids(origins@);
    let ghost cids = position_ids(candidates@);
    let mut nearest: Vec<HausdorffDirectedWitness> = Vec::with_capacity(origins.len());
    let mut i: usize = 0;
    while i < origins.len()
        invariant
            i <= origins@.len(),
            origins@.len() > 0,
            candidates@.len() > 0,
            is_key_matrix(rows@, origins@.len() as int, candidates@.len() as int),
            krows == key_rows(rows@),
            oids == position_ids(origins@),
            cids == position_ids(candidates@),
            nearest@.len() == i,
            forall|k: int|
                0 <= k < i ==> #[trigger] nearest@[k] == (HausdorffDirectedWitness {
                    distance_key: min_key(krows[k]),
                    origin_index: oids[k],
                    candidate_index: cids[nearest_position(krows[k])],
                }),
        decreases origins@.len() - i,
    {
        let row = &rows[i];
        assert(row@ == krows[i as int]);
        assert(row@.len() == candidates@.len());
        let j = nearest_in_row(row);
        nearest.push(
            HausdorffDirectedWitness {
                distance_key: row[j],
                origin_index: origins[i].index,
                candidate_index: candidates[j].index,
            },
        );
        i = i + 1;
    }
    proof {
        lemma_nearest_strategy_agrees(krows, oids, cids, nearest@);
    }
    hausdorff_directed_from_nearest(&nearest)
}

/// Symmetric Hausdorff result of two all-pairs scans: `rows_ab` holds the
/// keys from each point of `a` to each point of `b`, `rows_ba` those from `b`
/// to `a`. Both directions are evaluated in full.
pub fn hausdorff_naive<P>(
    a: &[Positioned<P>],
    b: &[Positioned<P>],
    rows_ab: &Vec<Vec<u64>>,
    rows_ba: &Vec<Vec<u64>>,
) -> (r: Result<HausdorffWitness, GeodistError>)
    requires
        is_key_matrix(rows_ab@, a@.len() as int, b@.len() as int),
        is_key_matrix(rows_ba@, b@.len() as int, a@.len() as int),
    ensures
        a@.len() == 0 || b@.len() == 0 <==> r is Err,
        r is Err ==> r == Err::<HausdorffWitness, GeodistError>(GeodistError::EmptyPointSet),
        r matches Ok(w) ==> {
            let forward = naive_witness(key_rows(rows_ab@), position_ids(a@), position_ids(b@));
            let reverse = naive_witness(key_rows(rows_ba@), position_ids(b@), position_ids(a@));
            &&& w.a_to_b == forward
            &&& w.b_to_a == reverse
            &&& w.distance_key == vstd::math::max(
                forward.distance_key as int,
                reverse.distance_key as int,
            )
        },
{
    let forward = hausdorff_directed_naive(a, b, rows_ab)?;
    let reverse = hausdorff_directed_naive(b, a, rows_ba)?;
    Ok(HausdorffWitness::new(forward, reverse))
}

/// Strategies agree: when every origin is paired with a candidate at its
/// smallest key, keeping the farthest origin gives the directed Hausdorff key
/// of the matrix; when each pairing is moreover the first nearest candidate,
/// the whole witness is the one the all-pairs scan reports.
pub proof fn lemma_nearest_strategy_agrees(
    rows: Seq<Seq<u64>>,
    origin_ids: Seq<usize>,
    candidate_ids: Seq<usize>,
    nearest: Seq<HausdorffDirectedWitness>,
)
    requires
        nearest.len() == rows.len(),
        rows.len() > 0,
        forall|i: int| 0 <= i < rows.len() ==> (#[trigger] nearest[i]).distance_key == min_key(rows[i]),
    ensures
        farthest_witness(nearest).distance_key == directed_key(rows),
        (forall|i: int|
            0 <= i < rows.len() ==> #[trigger] nearest[i] == (HausdorffDirectedWitness {
                distance_key: min_key(rows[i]),
                origin_index: origin_ids[i],
                candidate_index: candidate_ids[nearest_position(rows[i])],
            })) ==> farthest_witness(nearest) == naive_witness(rows, origin_ids, candidate_ids),
{
    assert(witness_keys(nearest) =~= row_minima(rows));
    let keys = row_minima(rows);
    lemma_max_key_occurs(keys);
    let i = farthest_position(keys);
    assert(nearest[i].distance_key == keys[i]);
}

/// Once `v` occurs in `s`, its first occurrence is well defined.
pub proof fn lemma_first_occurrence_exists(s: Seq<u64>, v: u64, j: int)
    requires
        0 <= j < s.len(),
        s[j] == v,
    ensures
        is_first_occurrence(s, v, first_occurrence(s, v)),
    decreases j,
{
    if exists|k: int| 0 <= k < j && s[k] == v {
        let k = choose|k: int| 0 <= k < j && s[k] == v;
        lemma_first_occurrence_exists(s, v, k);
    } else {
        assert(is_first_occurrence(s, v, j));
    }
}

/// The largest key of a non-empty sequence occurs in it.
pub proof fn lemma_max_key_occurs(s: Seq<u64>)
    requires
        s.len() > 0,
    ensures
        is_first_occurrence(s, max_key(s), farthest_position(s)),
    decreases s.len(),
{
    if s.len() == 1 {
        lemma_first_occurrence_exists(s, max_key(s), 0);
    } else {
        let rest = s.drop_last();
        if s.last() > max_key(rest) {
            lemma_first_occurrence_exists(s, max_key(s), s.len() - 1);
        } else {
            lemma_max_key_occurs(rest);
            let jr = farthest_position(rest);
            assert(s[jr] == rest[jr]);
            lemma_first_occurrence_exists(s, max_key(s), jr);
        }
    }
}

/// The smallest key of a non-empty sequence occurs in it.
pub proof fn lemma_min_key_occurs(s: Seq<u64>)
    requires
        s.len() > 0,
    ensures
        is_first_occurrence(s, min_key(s), nearest_position(s)),
    decreases s.len(),
{
    if s.len() == 1 {
        lemma_first_occurrence_exists(s, min_key(s), 0);
    } else {
        let rest = s.drop_last();
        if s.last() < min_key(rest) {
            lemma_first_occurrence_exists(s, min_key(s), s.len() - 1);
        } else {
            lemma_min_key_occurs(rest);
            let jr = nearest_position(rest);
            assert(s[jr] == rest[jr]);
            lemma_first_occurrence_exists(s, min_key(s), jr);
        }
    }
}

/// Witnesses of clipped inputs name original positions: when both sides are
/// filtered with their position kept, the reported origin and candidate are
/// positions of the caller's sequences, of points that passed the filter.
pub proof fn lemma_clipped_witness_refers_to_original<P>(
    a: Seq<P>,
    keep_a: Seq<bool>,
    b: Seq<P>,
    keep_b: Seq<bool>,
    rows: Seq<Seq<u64>>,
)
    requires
        a.len() <= usize::MAX,
        b.len() <= usize::MAX,
        keep_a.len() == a.len(),
        keep_b.len() == b.len(),
        rows.len() == kept_positioned(a, keep_a, a.len() as int).len() > 0,
        kept_positioned(b, keep_b, b.len() as int).len() > 0,
        forall|i: int|
            0 <= i < rows.len() ==> (#[trigger] rows[i]).len() == kept_positioned(
                b,
                keep_b,
                b.len() as int,
            ).len(),
    ensures
        ({
            let w = naive_witness(
                rows,
                position_ids(kept_positioned(a, keep_a, a.len() as int)),
                position_ids(kept_positioned(b, keep_b, b.len() as int)),
            );
            &&& w.origin_index < a.len() && keep_a[w.origin_index as int]
            &&& w.candidate_index < b.len() && keep_b[w.candidate_index as int]
        }),
{
    let fa = kept_positioned(a, keep_a, a.len() as int);
    let fb = kept_positioned(b, keep_b, b.len() as int);
    lemma_filter_keeps_positions(a, keep_a, a.len() as int);
    lemma_filter_keeps_positions(b, keep_b, b.len() as int);
    let minima = row_minima(rows);
    lemma_max_key_occurs(minima);
    let i = farthest_position(minima);
    lemma_min_key_occurs(rows[i]);
    let j = nearest_position(rows[i]);
    assert(position_ids(fa)[i] == fa[i].index);
    assert(position_ids(fb)[j] == fb[j].index);
}

} // verus!
