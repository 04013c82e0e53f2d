//! Layout of densified (multi)polylines: flat samples plus part offsets, and
//! the counting rules that bound how many samples a densification emits.

use vstd::prelude::*;

use crate::error::{CoordinateAxis, GeodistError};

verus! {

/// Offsets delimit consecutive parts of `samples`: they start at zero, never
/// decrease, and end at the number of samples.
pub open spec fn is_layout<P>(samples: Seq<P>, offsets: Seq<usize>) -> bool {
    &&& offsets.len() >= 1
    &&& offsets[0] == 0
    &&& forall|i: int| 0 <= i < offsets.len() - 1 ==> #[trigger] offsets[i] <= offsets[i + 1]
    &&& offsets.last() == samples.len()
}

/// Part `i` of a layout holds exactly `part`.
pub open spec fn is_part<P>(samples: Seq<P>, offsets: Seq<usize>, i: int, part: Seq<P>) -> bool {
    &&& 0 <= i < offsets.len() - 1
    &&& offsets[i] <= offsets[i + 1] <= samples.len()
    &&& samples.subrange(offsets[i] as int, offsets[i + 1] as int) == part
}

/// Number of set flags among `keep[0..n]`.
pub open spec fn count_kept(keep: Seq<bool>, n: int) -> nat
    decreases n,
{
    if n <= 0 {
        0
    } else {
        count_kept(keep, n - 1) + if keep[n - 1] { 1nat } else { 0nat }
    }
}

/// The values of `samples[0..n]` whose flag is set, in order.
pub open spec fn kept_values<P>(samples: Seq<P>, keep: Seq<bool>, n: int) -> Seq<P>
    decreases n,
{
    if n <= 0 {
        Seq::empty()
    } else {
        let prev = kept_values(samples, keep, n - 1);
        if keep[n - 1] {
            prev.push(samples[n - 1])
        } else {
            prev
        }
    }
}

/// Offsets after filtering: each boundary moves to the number of survivors
/// before it.
pub open spec fn kept_offsets(offsets: Seq<usize>, keep: Seq<bool>) -> Seq<usize> {
    Seq::new(offsets.len(), |k: int| count_kept(keep, offsets[k] as int) as usize)
}

/// Flattened samples of one or more polylines with the offsets of each part.
///
/// Part `i` occupies `samples[offsets[i]..offsets[i + 1]]`.
#[derive(Debug, Clone)]
pub struct FlattenedPolyline<P> {
    samples: Vec<P>,
    part_offsets: Vec<usize>,
}

impl<P> View for FlattenedPolyline<P> {
    type V = (Seq<P>, Seq<usize>);

    closed spec fn view(&self) -> (Seq<P>, Seq<usize>) {
        (self.samples@, self.part_offsets@)
    }
}

impl<P> FlattenedPolyline<P> {
    /// Samples and offsets form a layout.
    pub open spec fn wf(&self) -> bool {
        is_layout(self@.0, self@.1)
    }

    /// A layout with no parts and no samples.
    pub fn new() -> (r: Self)
        ensures
            r.wf(),
            r@.0 == Seq::<P>::empty(),
            r@.1 == seq![0usize],
    {
        let mut part_offsets: Vec<usize> = Vec::new();
        part_offsets.push(0);
        let r = FlattenedPolyline { samples: Vec::new(), part_offsets };
        assert(r@.1 =~= seq![0usize]);
        r
    }

    /// Appends the samples of one more part and closes it with an offset.
    pub fn push_part(&mut self, part: Vec<P>)
        requires
            old(self).wf(),
        ensures
            final(self).wf(),
            final(self)@.0 == old(self)@.0 + part@,
            final(self)@.1 == old(self)@.1.push((old(self)@.0.len() + part@.len()) as usize),
    {
        let mut part = part;
        self.samples.append(&mut part);
        let end = self.samples.len();
        self.part_offsets.push(end);
        assert(self@.1.last() == self@.0.len());
        assert(forall|i: int|
            0 <= i < old(self)@.1.len() ==> self@.1[i] == old(self)@.1[i]);
    }

    /// All samples, part after part.
    pub fn samples(&self) -> (r: &[P])
        ensures
            r@ == self@.0,
    {
        self.samples.as_slice()
    }

    /// Offsets delimiting each part within the samples.
    pub fn part_offsets(&self) -> (r: &[usize])
        ensures
            r@ == self@.1,
    {
        self.part_offsets.as_slice()
    }

    /// Number of parts.
    pub fn part_count(&self) -> (r: usize)
        requires
            self.wf(),
        ensures
            r == self@.1.len() - 1,
    {
        self.part_offsets.len() - 1
    }
}

impl<P: Copy> FlattenedPolyline<P> {
    /// Lays out the given parts one after another: part `i` occupies
    /// `samples[offsets[i]..offsets[i + 1]]`, and there is one more offset
    /// than there are parts.
    pub fn from_parts(parts: &Vec<Vec<P>>) -> (r: Self)
        ensures
            r.wf(),
            r@.1.len() == parts@.len() + 1,
            forall|i: int| 0 <= i < parts@.len() ==> is_part(r@.0, r@.1, i, #[trigger] parts@[i]@),
    {
        let mut r = Self::new();
        let mut k: usize = 0;
        while k < parts.len()
            invariant
                k <= parts@.len(),
                r.wf(),
                r@.1.len() == k + 1,
                forall|i: int| 0 <= i < k ==> is_part(r@.0, r@.1, i, #[trigger] parts@[i]@),
            decreases parts@.len() - k,
        {
            let ghost before = r@;
            let part = &parts[k];
            let mut j: usize = 0;
            while j < part.len()
                invariant
                    j <= part@.len(),
                    r@.1 == before.1,
                    r@.0 == before.0 + part@.take(j as int),
                decreases part@.len() - j,
            {
                r.samples.push(part[j]);
                j = j + 1;
                assert(r@.0 =~= before.0 + part@.take(j as int));
            }
            assert(part@.take(j as int) =~= part@);
            let end = r.samples.len();
            r.part_offsets.push(end);
            proof {
                assert forall|i: int| 0 <= i <= k implies is_part(r@.0, r@.1, i, #[trigger] parts@[i]@) by {
                    if i < k {
                        assert(is_part(before.0, before.1, i, parts@[i]@));
                        lemma_offsets_bounded(before.0, before.1, i + 1);
                        assert(r@.1[i] == before.1[i] && r@.1[i + 1] == before.1[i + 1]);
                        assert(r@.0.subrange(r@.1[i] as int, r@.1[i + 1] as int) =~= before.0.subrange(
                            before.1[i] as int,
                            before.1[i + 1] as int,
                        ));
                    } else {
                        assert(r@.1[i] == before.0.len());
                        assert(r@.0.subrange(r@.1[i] as int, r@.1[i + 1] as int) =~= part@);
                    }
                }
                assert(forall|i: int| 0 <= i < before.1.len() ==> r@.1[i] == before.1[i]);
            }
            k = k + 1;
        }
        r
    }

    /// Keeps the samples whose flag is set (`keep[k]` for `samples[k]`) and
    /// recomputes every part's span from what survives, so a part that loses
    /// all its samples becomes empty rather than disappearing.
    ///
    /// Fails with [`GeodistError::EmptyPointSet`] only when no sample at all
    /// survives.
    pub fn clip(&self, keep: &Vec<bool>) -> (r: Result<Self, GeodistError>)
        requires
            self.wf(),
            keep@.len() == self@.0.len(),
        ensures
            r is Err <==> count_kept(keep@, keep@.len() as int) == 0,
            r is Err ==> r == Err::<Self, GeodistError>(GeodistError::EmptyPointSet),
            r matches Ok(c) ==> {
                &&& c.wf()
                &&& c@.0 == kept_values(self@.0, keep@, keep@.len() as int)
                &&& c@.1 == kept_offsets(self@.1, keep@)
            },
    {
        let ghost samples = self@.0;
        let ghost offsets = self@.1;
        let mut filtered: Vec<P> = Vec::new();
        let mut new_offsets: Vec<usize> = Vec::with_capacity(self.part_offsets.len());
        new_offsets.push(0);
        let mut running_total: usize = 0;
        let mut part: usize = 0;
        let n_parts: usize = self.part_offsets.len() - 1;
        while part < n_parts
            invariant
                is_layout(samples, offsets),
                samples == self@.0,
                offsets == self@.1,
                keep@.len() == samples.len(),
                n_parts == offsets.len() - 1,
                part <= n_parts,
                filtered@ == kept_values(samples, keep@, offsets[part as int] as int),
                running_total == count_kept(keep@, offsets[part as int] as int),
                new_offsets@ == kept_offsets(offsets, keep@).take(part + 1),
            decreases offsets.len() - part,
        {
            let start = self.part_offsets[part];
            let end = self.part_offsets[part + 1];
            proof {
                lemma_offsets_bounded(samples, offsets, part as int + 1);
            }
            keep_span(&self.samples, keep, start, end, &mut filtered, &mut running_total);
            new_offsets.push(running_total);
            part = part + 1;
            assert(new_offsets@ =~= kept_offsets(offsets, keep@).take(part + 1));
        }
        assert(new_offsets@ =~= kept_offsets(offsets, keep@));
        if filtered.len() == 0 {
            proof {
                lemma_kept_values_len(samples, keep@, samples.len() as int);
            }
            return Err(GeodistError::EmptyPointSet);
        }
        proof {
            lemma_kept_values_len(samples, keep@, samples.len() as int);
            assert forall|i: int| 0 <= i < new_offsets@.len() - 1 implies #[trigger] new_offsets@[i]
                <= new_offsets@[i + 1] by {
                assert(offsets[i] <= offsets[i + 1]);
                lemma_count_kept_bounded(keep@, offsets[i] as int);
                lemma_count_kept_bounded(keep@, offsets[i + 1] as int);
                lemma_count_kept_monotone(keep@, offsets[i] as int, offsets[i + 1] as int);
            }
        }
        Ok(FlattenedPolyline { samples: filtered, part_offsets: new_offsets })
    }
}

/// Clipping to a region that holds every sample changes nothing: the
/// survivors are all samples, in order, and every offset stays where it was.
pub proof fn lemma_clip_keeping_all_is_identity<P>(samples: Seq<P>, offsets: Seq<usize>, keep: Seq<bool>)
    requires
        is_layout(samples, offsets),
        keep.len() == samples.len(),
        forall|k: int| 0 <= k < keep.len() ==> keep[k],
    ensures
        kept_values(samples, keep, samples.len() as int) == samples,
        kept_offsets(offsets, keep) == offsets,
        samples.len() > 0 ==> count_kept(keep, keep.len() as int) > 0,
{
    lemma_keep_all_prefix(samples, keep, samples.len() as int);
    assert(samples.take(samples.len() as int) =~= samples);
    assert forall|k: int| 0 <= k < offsets.len() implies #[trigger] kept_offsets(offsets, keep)[k]
        == offsets[k] by {
        lemma_offsets_bounded(samples, offsets, k);
        lemma_keep_all_prefix(samples, keep, offsets[k] as int);
    }
    assert(kept_offsets(offsets, keep) =~= offsets);
}

/// With every flag set, a prefix keeps all its samples.
pub proof fn lemma_keep_all_prefix<P>(samples: Seq<P>, keep: Seq<bool>, n: int)
    requires
        0 <= n <= keep.len(),
        keep.len() == samples.len(),
        forall|k: int| 0 <= k < keep.len() ==> keep[k],
    ensures
        kept_values(samples, keep, n) == samples.take(n),
        count_kept(keep, n) == n,
    decreases n,
{
    if n > 0 {
        lemma_keep_all_prefix(samples, keep, n - 1);
        assert(samples.take(n) =~= samples.take(n - 1).push(samples[n - 1]));
    }
}

/// `part` is the first part whose end lies past `flat_index`.
pub open spec fn is_owning_part(offsets: Seq<usize>, flat_index: usize, part: int) -> bool {
    &&& 0 <= part < offsets.len() - 1
    &&& flat_index < offsets[part + 1]
    &&& forall|q: int| 0 <= q < part ==> #[trigger] offsets[q + 1] <= flat_index
}

/// Offsets start at zero and never decrease.
pub open spec fn is_monotone_offsets(offsets: Seq<usize>) -> bool {
    &&& offsets.len() >= 1 ==> offsets[0] == 0
    &&& forall|i: int| 0 <= i < offsets.len() - 1 ==> #[trigger] offsets[i] <= offsets[i + 1]
}

/// Maps an index into flattened samples to `(part, index within the part)`.
///
/// Fails with [`GeodistError::FlatIndexOutOfRange`] when the index lies past
/// the last part.
pub fn map_flat_index(offsets: &[usize], flat_index: usize) -> (r: Result<(usize, usize), GeodistError>)
    requires
        is_monotone_offsets(offsets@),
    ensures
        r is Err <==> offsets@.len() < 2 || offsets@.last() <= flat_index,
        r is Err ==> r == Err::<(usize, usize), GeodistError>(
            GeodistError::FlatIndexOutOfRange { flat_index },
        ),
        r matches Ok((part, local)) ==> {
            &&& is_owning_part(offsets@, flat_index, part as int)
            &&& offsets@[part as int] <= flat_index
            &&& local == flat_index - offsets@[part as int]
        },
{
    let n: usize = offsets.len();
    if n < 2 {
        return Err(GeodistError::FlatIndexOutOfRange { flat_index });
    }
    let mut part: usize = 0;
    while part < n - 1
        invariant
            n == offsets@.len(),
            n >= 2,
            is_monotone_offsets(offsets@),
            part <= n - 1,
            part == 0 || offsets@[part as int] <= flat_index,
            forall|q: int| 0 <= q < part ==> #[trigger] offsets@[q + 1] <= flat_index,
        decreases n - part,
    {
        let start = offsets[part];
        let end = offsets[part + 1];
        if flat_index < end {
            proof {
                lemma_offset_below_last(offsets@, part as int + 1);
            }
            return Ok((part, flat_index - start));
        }
        part = part + 1;
    }
    proof {
        assert(offsets@.last() == offsets@[(n - 2) as int + 1]);
    }
    Err(GeodistError::FlatIndexOutOfRange { flat_index })
}

/// No offset exceeds the last one.
pub proof fn lemma_offset_below_last(offsets: Seq<usize>, i: int)
    requires
        is_monotone_offsets(offsets),
        0 <= i < offsets.len(),
    ensures
        offsets[i] <= offsets.last(),
    decreases offsets.len() - i,
{
    if i < offsets.len() - 1 {
        assert(offsets[i] <= offsets[i + 1]);
        lemma_offset_below_last(offsets, i + 1);
    }
}

/// Sum of a sequence of counts.
pub open spec fn sum_counts(s: Seq<usize>) -> int
    decreases s.len(),
{
    if s.len() == 0 {
        0
    } else {
        sum_counts(s.drop_last()) + s.last()
    }
}

/// Samples planned after a part with these split counts: those already
/// emitted, its first vertex, and one per split.
pub open spec fn planned_samples(emitted: usize, split_counts: Seq<usize>) -> int {
    emitted + 1 + sum_counts(split_counts)
}

/// Pre-flight check of the sample cap, made before a part's samples are
/// allocated. Returns the total once the part is emitted.
///
/// Fails with [`GeodistError::SampleCapExceeded`] when that total exceeds
/// `cap`; `expected` then saturates at `usize::MAX`.
pub fn sample_budget(
    emitted: usize,
    split_counts: &Vec<usize>,
    cap: usize,
    part_index: Option<usize>,
) -> (r: Result<usize, GeodistError>)
    ensures
        planned_samples(emitted, split_counts@) <= cap ==> r == Ok::<usize, GeodistError>(
            planned_samples(emitted, split_counts@) as usize,
        ),
        planned_samples(emitted, split_counts@) > cap ==> r == Err::<usize, GeodistError>(
            GeodistError::SampleCapExceeded {
                expected: vstd::math::min(
                    planned_samples(emitted, split_counts@),
                    usize::MAX as int,
                ) as usize,
                cap,
                part_index,
            },
        ),
{
    let mut total: usize = if emitted < usize::MAX { emitted + 1 } else { usize::MAX };
    let mut saturated: bool = emitted == usize::MAX;
    let mut k: usize = 0;
    while k < split_counts.len()
        invariant
            k <= split_counts@.len(),
            !saturated ==> total == emitted + 1 + sum_counts(split_counts@.take(k as int)),
            saturated ==> total == usize::MAX && emitted + 1 + sum_counts(split_counts@.take(k as int)) > usize::MAX,
        decreases split_counts@.len() - k,
    {
        assert(split_counts@.take(k as int + 1).drop_last() =~= split_counts@.take(k as int));
        let count = split_counts[k];
        if saturated || count > usize::MAX - total {
            saturated = true;
            total = usize::MAX;
        } else {
            total = total + count;
        }
        k = k + 1;
    }
    assert(split_counts@.take(k as int) =~= split_counts@);
    if saturated || total > cap {
        return Err(GeodistError::SampleCapExceeded { expected: total, cap, part_index });
    }
    Ok(total)
}

/// Fails with [`GeodistError::DegeneratePolyline`] when fewer than two
/// distinct vertices remain.
pub fn check_distinct_vertices(count: usize, part_index: Option<usize>) -> (r: Result<(), GeodistError>)
    ensures
        r is Err <==> count < 2,
        r is Err ==> r == Err::<(), GeodistError>(GeodistError::DegeneratePolyline { part_index }),
{
    if count < 2 {
        return Err(GeodistError::DegeneratePolyline { part_index });
    }
    Ok(())
}

/// The first vertex whose check failed, if any.
pub open spec fn is_first_fault(faults: Seq<Option<CoordinateAxis>>, k: int) -> bool {
    &&& 0 <= k < faults.len()
    &&& faults[k] is Some
    &&& forall|i: int| 0 <= i < k ==> faults[i] is None
}

/// Reports vertex failures with the part they belong to.
pub struct VertexValidator {
    pub part_index: Option<usize>,
}

impl VertexValidator {
    /// A validator for the given part (`None` for a single polyline).
    pub fn new(part_index: Option<usize>) -> (r: Self)
        ensures
            r.part_index == part_index,
    {
        VertexValidator { part_index }
    }

    /// Moves on to another part.
    pub fn set_part_index(&mut self, part_index: usize)
        ensures
            final(self).part_index == Some(part_index),
    {
        self.part_index = Some(part_index);
    }

    /// Fails on the first vertex whose coordinate check failed
    /// (`faults[k]` names the failing axis of vertex `k`, latitude first).
    pub fn check_vertices(&self, faults: &Vec<Option<CoordinateAxis>>) -> (r: Result<(), GeodistError>)
        ensures
            r is Ok <==> forall|i: int| 0 <= i < faults@.len() ==> faults@[i] is None,
            r matches Err(e) ==> exists|k: int|
                is_first_fault(faults@, k) && e == (GeodistError::InvalidVertex {
                    part_index: self.part_index,
                    vertex_index: k as usize,
                    axis: faults@[k]->Some_0,
                }),
    {
        let mut k: usize = 0;
        while k < faults.len()
            invariant
                k <= faults@.len(),
                forall|i: int| 0 <= i < k ==> faults@[i] is None,
            decreases faults@.len() - k,
        {
            if let Some(axis) = faults[k] {
                assert(is_first_fault(faults@, k as int));
                return Err(
                    GeodistError::InvalidVertex { part_index: self.part_index, vertex_index: k, axis },
                );
            }
            k = k + 1;
        }
        Ok(())
    }
}

/// Appends the flagged samples of `samples[start..end]` and counts them.
fn keep_span<P: Copy>(
    samples: &Vec<P>,
    keep: &Vec<bool>,
    start: usize,
    end: usize,
    filtered: &mut Vec<P>,
    running_total: &mut usize,
)
    requires
        start <= end <= samples@.len(),
        keep@.len() == samples@.len(),
        old(filtered)@ == kept_values(samples@, keep@, start as int),
        *old(running_total) == count_kept(keep@, start as int),
    ensures
        final(filtered)@ == kept_values(samples@, keep@, end as int),
        *final(running_total) == count_kept(keep@, end as int),
{
    let mut k: usize = start;
    while k < end
        invariant
            start <= k <= end <= samples@.len(),
            keep@.len() == samples@.len(),
            filtered@ == kept_values(samples@, keep@, k as int),
            *running_total == count_kept(keep@, k as int),
        decreases end - k,
    {
        proof {
            lemma_count_kept_bounded(keep@, k as int + 1);
        }
        if keep[k] {
            filtered.push(samples[k]);
            *running_total = *running_total + 1;
        }
        k = k + 1;
    }
}

/// Every offset of a layout is at most the number of samples.
pub proof fn lemma_offsets_bounded<P>(samples: Seq<P>, offsets: Seq<usize>, i: int)
    requires
        is_layout(samples, offsets),
        0 <= i < offsets.len(),
    ensures
        offsets[i] <= samples.len(),
    decreases offsets.len() - i,
{
    if i < offsets.len() - 1 {
        lemma_offsets_bounded(samples, offsets, i + 1);
    }
}

/// At most `n` of the first `n` flags are set.
pub proof fn lemma_count_kept_bounded(keep: Seq<bool>, n: int)
    requires
        0 <= n,
    ensures
        count_kept(keep, n) <= n,
    decreases n,
{
    if n > 0 {
        lemma_count_kept_bounded(keep, n - 1);
    }
}

/// Counting over a longer prefix never gives less.
pub proof fn lemma_count_kept_monotone(keep: Seq<bool>, m: int, n: int)
    requires
        0 <= m <= n,
    ensures
        count_kept(keep, m) <= count_kept(keep, n),
    decreases n - m,
{
    if m < n {
        lemma_count_kept_monotone(keep, m, n - 1);
    }
}

/// The survivors are as many as the set flags.
pub proof fn lemma_kept_values_len<P>(samples: Seq<P>, keep: Seq<bool>, n: int)
    requires
        0 <= n,
    ensures
        kept_values(samples, keep, n).len() == count_kept(keep, n),
    decreases n,
{
    if n > 0 {
        lemma_kept_values_len(samples, keep, n - 1);
    }
}

} // verus!
