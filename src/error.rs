//! Failures of the index and layout logic.

use vstd::prelude::*;

verus! {

/// Which coordinate of a vertex failed its range check.
#[derive(Debug, Clone, Copy, PartialEq, Eq, Structural)]
pub enum CoordinateAxis {
    Latitude,
    Longitude,
}

/// Error raised by the bookkeeping around distance evaluation and
/// densification.
///
/// Every variant carries integers only, so it can cross a language boundary
/// as a flat record.
#[derive(Debug, Clone, Copy, PartialEq, Eq, Structural)]
pub enum GeodistError {
    /// A point set is empty, before or after filtering.
    EmptyPointSet,
    /// Neither a maximum segment length nor a maximum segment angle was given.
    MissingDensificationKnob,
    /// A polyline has fewer than two distinct vertices; `part_index` is `None`
    /// for single-polyline calls.
    DegeneratePolyline { part_index: Option<usize> },
    /// A vertex failed its coordinate check.
    InvalidVertex { part_index: Option<usize>, vertex_index: usize, axis: CoordinateAxis },
    /// The projected number of samples exceeds the configured cap.
    SampleCapExceeded { expected: usize, cap: usize, part_index: Option<usize> },
    /// A flat sample index lies past the last part.
    FlatIndexOutOfRange { flat_index: usize },
}

/// Fails with [`GeodistError::EmptyPointSet`] exactly when `points` is empty.
pub fn ensure_non_empty<T>(points: &[T]) -> (r: Result<(), GeodistError>)
    ensures
        r is Err <==> points@.len() == 0,
        r is Err ==> r == Err::<(), GeodistError>(GeodistError::EmptyPointSet),
{
    if points.len() == 0 {
        return Err(GeodistError::EmptyPointSet);
    }
    Ok(())
}

} // verus!
