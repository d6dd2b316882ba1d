//! Error values returned by the addressing, construction and view operations.
//!
//! All of these are plain, locally returned values: nothing is retried and
//! nothing panics. `SourceTooSmall` carries the rejected storage back to the
//! caller so it can be reused.

use vstd::prelude::*;

verus! {

/// A linear index was rejected: it either lands in the padding columns of a
/// row, or lies past the last valid index.
#[derive(Debug, Clone, Copy, PartialEq, Eq)]
pub struct IndexOutOfRange {
    /// The rejected linear index.
    pub value: usize,
    /// Why the index was rejected.
    pub reason: IndexOutOfRangeReason,
}

/// The two ways a linear index can be invalid.
#[derive(Debug, Clone, Copy, PartialEq, Eq)]
pub enum IndexOutOfRangeReason {
    /// The index is greater than the last valid index (or the image is empty).
    PastEnd,
    /// The index lands in the padding columns `[width, stride)` of its row.
    OutsideStride,
}

/// A `(x, y)` position was rejected because one or both coordinates exceed
/// the image extent.
#[derive(Debug, Clone, Copy, PartialEq, Eq)]
pub struct PositionOutOfRange {
    /// The rejected position, as `[x, y]`.
    pub pos: [usize; 2],
    /// Which coordinate axes were out of range.
    pub which_axes: WhichAxes,
}

/// Which coordinate axes of a rejected position were out of range.
#[derive(Debug, Clone, Copy, PartialEq, Eq)]
pub enum WhichAxes {
    /// Only `x >= width`.
    X,
    /// Only `y >= height`.
    Y,
    /// Both `x >= width` and `y >= height`.
    Both,
}

/// A constructor rejected its storage: the storage holds fewer than
/// `stride * height` elements. The storage travels back inside the error so
/// the caller can reuse or free it without loss.
#[derive(Debug, PartialEq, Eq)]
pub struct SourceTooSmall<Pixel> {
    /// The rejected storage, returned to the caller unchanged.
    pub source: Vec<Pixel>,
    /// The width the caller asked for.
    pub width: usize,
    /// The height the caller asked for.
    pub height: usize,
    /// The stride the caller asked for.
    pub stride: usize,
}

impl<Pixel> SourceTooSmall<Pixel> {
    /// Packs a rejected storage together with the geometry that rejected it.
    pub fn new(source: Vec<Pixel>, width: usize, height: usize, stride: usize) -> (r: Self)
        ensures
            r == (SourceTooSmall { source, width, height, stride }),
    {
        SourceTooSmall { source, width, height, stride }
    }
}

/// The union of every error the library returns.
#[derive(Debug, PartialEq, Eq)]
pub enum Error<Pixel> {
    /// See [`IndexOutOfRange`].
    IndexOutOfRange(IndexOutOfRange),
    /// See [`PositionOutOfRange`].
    PositionOutOfRange(PositionOutOfRange),
    /// See [`SourceTooSmall`].
    SourceTooSmall(SourceTooSmall<Pixel>),
}

} // verus!
