//! Coordinate-like values that can address a pixel of an image: a linear
//! index, an `(x, y)` pair, or an `[x, y]` array. Each form resolves both to
//! a position and to a linear index through the image's addressing
//! arithmetic.

use vstd::prelude::*;

use crate::error::{IndexOutOfRange, PositionOutOfRange, WhichAxes};
use crate::image::{lemma_index_position_round_trip, Image};

verus! {

/// A value that designates a pixel of an image, either natively as a
/// position or natively as a linear index.
///
/// `pos` validates values that are natively linear indices and passes
/// positions through unchecked, while `index` validates native positions and
/// passes linear indices through unchecked. Region carving calls both on
/// each endpoint, so every endpoint form is validated exactly once.
pub trait ImageIndex<Pixel>: Sized {
    /// The x coordinate this value designates on `image`.
    spec fn pos_x(self, image: Image<Pixel>) -> int;

    /// The y coordinate this value designates on `image`.
    spec fn pos_y(self, image: Image<Pixel>) -> int;

    /// Whether `pos` succeeds on `image`.
    spec fn pos_ok(self, image: Image<Pixel>) -> bool;

    /// The error `pos` returns when it fails.
    spec fn pos_fail(self, image: Image<Pixel>) -> IndexOutOfRange;

    /// The linear index this value designates on `image`.
    spec fn lin_index(self, image: Image<Pixel>) -> int;

    /// Whether `index` succeeds on `image`.
    spec fn index_ok(self, image: Image<Pixel>) -> bool;

    /// The error `index` returns when it fails.
    spec fn index_fail(self, image: Image<Pixel>) -> PositionOutOfRange;

    /// When both resolutions succeed, the value designates a real pixel of
    /// the image and the two resolutions agree through the addressing
    /// arithmetic.
    proof fn lemma_resolves(self, image: Image<Pixel>)
        requires
            image.wf(),
            self.pos_ok(image),
            self.index_ok(image),
        ensures
            image.is_pos(self.pos_x(image), self.pos_y(image)),
            self.lin_index(image) == image.index_of(self.pos_x(image), self.pos_y(image)),
    ;

    /// Resolves this value to the position `[x, y]` it designates.
    fn pos(&self, image: &Image<Pixel>) -> (r: Result<[usize; 2], IndexOutOfRange>)
        requires
            image.wf(),
        ensures
            self.pos_ok(*image) ==> (r matches Ok(p) && p[0] == self.pos_x(*image) && p[1]
                == self.pos_y(*image)),
            !self.pos_ok(*image) ==> (r matches Err(e) && e == self.pos_fail(*image)),
    ;

    /// Resolves this value to the linear index it designates.
    fn index(&self, image: &Image<Pixel>) -> (r: Result<usize, PositionOutOfRange>)
        requires
            image.wf(),
        ensures
            self.index_ok(*image) ==> (r matches Ok(i) && i == self.lin_index(*image)),
            !self.index_ok(*image) ==> (r matches Err(e) && e == self.index_fail(*image)),
    ;
}

impl<Pixel> ImageIndex<Pixel> for usize {
    open spec fn pos_x(self, image: Image<Pixel>) -> int {
        self as int % (image.stride as int)
    }

    open spec fn pos_y(self, image: Image<Pixel>) -> int {
        self as int / (image.stride as int)
    }

    open spec fn pos_ok(self, image: Image<Pixel>) -> bool {
        image.is_index(self as int)
    }

    open spec fn pos_fail(self, image: Image<Pixel>) -> IndexOutOfRange {
        IndexOutOfRange { value: self, reason: image.index_reason(self as int) }
    }

    open spec fn lin_index(self, image: Image<Pixel>) -> int {
        self as int
    }

    open spec fn index_ok(self, image: Image<Pixel>) -> bool {
        true
    }

    open spec fn index_fail(self, image: Image<Pixel>) -> PositionOutOfRange {
        PositionOutOfRange { pos: [0, 0], which_axes: WhichAxes::Both }
    }

    proof fn lemma_resolves(self, image: Image<Pixel>) {
        lemma_index_position_round_trip(image, self as int);
    }

    fn pos(&self, image: &Image<Pixel>) -> (r: Result<[usize; 2], IndexOutOfRange>) {
        image.index_to_pos(*self)
    }

    fn index(&self, image: &Image<Pixel>) -> (r: Result<usize, PositionOutOfRange>) {
        Ok(*self)
    }
}

impl<Pixel> ImageIndex<Pixel> for (usize, usize) {
    open spec fn pos_x(self, image: Image<Pixel>) -> int {
        self.0 as int
    }

    open spec fn pos_y(self, image: Image<Pixel>) -> int {
        self.1 as int
    }

    open spec fn pos_ok(self, image: Image<Pixel>) -> bool {
        true
    }

    open spec fn pos_fail(self, image: Image<Pixel>) -> IndexOutOfRange {
        IndexOutOfRange { value: 0, reason: crate::error::IndexOutOfRangeReason::PastEnd }
    }

    open spec fn lin_index(self, image: Image<Pixel>) -> int {
        image.index_of(self.0 as int, self.1 as int)
    }

    open spec fn index_ok(self, image: Image<Pixel>) -> bool {
        image.is_pos(self.0 as int, self.1 as int)
    }

    open spec fn index_fail(self, image: Image<Pixel>) -> PositionOutOfRange {
        PositionOutOfRange {
            pos: [self.0, self.1],
            which_axes: image.axes_of(self.0 as int, self.1 as int),
        }
    }

    proof fn lemma_resolves(self, image: Image<Pixel>) {
    }

    fn pos(&self, image: &Image<Pixel>) -> (r: Result<[usize; 2], IndexOutOfRange>) {
        Ok([self.0, self.1])
    }

    fn index(&self, image: &Image<Pixel>) -> (r: Result<usize, PositionOutOfRange>) {
        image.pos_to_index(self.0, self.1)
    }
}

impl<Pixel> ImageIndex<Pixel> for [usize; 2] {
    open spec fn pos_x(self, image: Image<Pixel>) -> int {
        self[0] as int
    }

    open spec fn pos_y(self, image: Image<Pixel>) -> int {
        self[1] as int
    }

    open spec fn pos_ok(self, image: Image<Pixel>) -> bool {
        true
    }

    open spec fn pos_fail(self, image: Image<Pixel>) -> IndexOutOfRange {
        IndexOutOfRange { value: 0, reason: crate::error::IndexOutOfRangeReason::PastEnd }
    }

    open spec fn lin_index(self, image: Image<Pixel>) -> int {
        image.index_of(self[0] as int, self[1] as int)
    }

    open spec fn index_ok(self, image: Image<Pixel>) -> bool {
        image.is_pos(self[0] as int, self[1] as int)
    }

    open spec fn index_fail(self, image: Image<Pixel>) -> PositionOutOfRange {
        PositionOutOfRange {
            pos: [self[0], self[1]],
            which_axes: image.axes_of(self[0] as int, self[1] as int),
        }
    }

    proof fn lemma_resolves(self, image: Image<Pixel>) {
    }

    fn pos(&self, image: &Image<Pixel>) -> (r: Result<[usize; 2], IndexOutOfRange>) {
        Ok([self[0], self[1]])
    }

    fn index(&self, image: &Image<Pixel>) -> (r: Result<usize, PositionOutOfRange>) {
        image.pos_to_index(self[0], self[1])
    }
}

} // verus!
