//! Rectangular sub-views of an image. A region borrows a slice of the
//! parent's storage and keeps the parent's stride, so carving copies
//! nothing; the region's own width and height mask out the padding and the
//! surrounding pixels on every read.

use vstd::prelude::*;
use vstd::slice::{slice_index_get, slice_subrange};

use crate::error::{Error, PositionOutOfRange, WhichAxes};
use crate::image::{lemma_cell_in_storage, Image};
use crate::index::ImageIndex;

verus! {

/// A read-only rectangular view into a parent image's storage, sharing the
/// parent's stride. Rows are generally not contiguous from the region's own
/// point of view: consecutive rows are `stride` elements apart in the
/// borrowed slice.
#[derive(Debug)]
pub struct Region<'a, Pixel> {
    /// Logical extent in pixels along a row of the view.
    pub width: usize,
    /// Number of rows of the view.
    pub height: usize,
    /// Storage elements per row; the parent's stride.
    pub stride: usize,
    /// The borrowed slice of the parent's storage, starting at the view's
    /// top-left pixel.
    pub source: &'a [Pixel],
}

impl<'a, Pixel> Region<'a, Pixel> {
    /// Well-formedness: the stride covers the width and the slice covers
    /// every row.
    pub open spec fn wf(self) -> bool {
        self.width <= self.stride && self.stride * self.height <= self.source@.len()
    }

    /// `(x, y)` names a pixel of the view.
    pub open spec fn is_pos(self, x: int, y: int) -> bool {
        0 <= x < self.width && 0 <= y < self.height
    }

    /// The linear slice index of position `(x, y)`.
    pub open spec fn index_of(self, x: int, y: int) -> int {
        x + y * self.stride
    }

    /// The pixel visible at position `(x, y)` of the view.
    pub open spec fn pixel(self, x: int, y: int) -> Pixel {
        self.source@[self.index_of(x, y)]
    }

    /// The logical width in pixels.
    pub fn width(&self) -> (r: usize)
        ensures
            r == self.width,
    {
        self.width
    }

    /// The number of rows.
    pub fn height(&self) -> (r: usize)
        ensures
            r == self.height,
    {
        self.height
    }

    /// The storage elements per row.
    pub fn stride(&self) -> (r: usize)
        ensures
            r == self.stride,
    {
        self.stride
    }

    /// The `[0, width)` pixels of row `y`, as a borrowed slice of the
    /// parent's storage.
    pub fn row(&self, y: usize) -> (r: &'a [Pixel])
        requires
            self.wf(),
            y < self.height,
        ensures
            r@.len() == self.width,
            forall|x: int| #![auto] 0 <= x < self.width ==> r@[x] == self.pixel(x, y as int),
    {
        proof {
            vstd::slice::axiom_spec_len(self.source);
            assert(y * self.stride + self.width <= self.stride * self.height) by (nonlinear_arith)
                requires
                    (y as int) < self.height as int,
                    self.width <= self.stride,
            ;
        }
        let start: usize = y * self.stride;
        let end: usize = start + self.width;
        slice_subrange(self.source, start, end)
    }
}

impl<'a, Pixel: Copy> Region<'a, Pixel> {
    /// Reads the pixel at position `(x, y)` of the view.
    pub fn get(&self, x: usize, y: usize) -> (r: Pixel)
        requires
            self.wf(),
            self.is_pos(x as int, y as int),
        ensures
            r == self.pixel(x as int, y as int),
    {
        proof {
            vstd::slice::axiom_spec_len(self.source);
            lemma_cell_in_storage(
                self.width as int,
                self.height as int,
                self.stride as int,
                x as int,
                y as int,
            );
        }
        *slice_index_get(self.source, x + y * self.stride)
    }
}

/// A validated rectangular window over an image, for mutation. It records
/// where the window sits on its parent; the mutating operations take the
/// parent image and stay inside the window.
#[derive(Clone, Copy, PartialEq, Eq, Structural, Debug)]
pub struct RegionMut {
    /// The x coordinate of the window's top-left pixel on the parent.
    pub x0: usize,
    /// The y coordinate of the window's top-left pixel on the parent.
    pub y0: usize,
    /// Logical extent of the window along a row.
    pub width: usize,
    /// Number of rows of the window.
    pub height: usize,
}

impl RegionMut {
    /// The window lies inside `image`.
    pub open spec fn fits<Pixel>(self, image: Image<Pixel>) -> bool {
        self.x0 + self.width <= image.width && self.y0 + self.height <= image.height
    }

    /// Reads the pixel at window position `(x, y)` from the parent.
    pub fn get<Pixel: Copy>(&self, image: &Image<Pixel>, x: usize, y: usize) -> (r: Pixel)
        requires
            image.wf(),
            self.fits(*image),
            x < self.width,
            y < self.height,
        ensures
            r == image.pixel(self.x0 + x as int, self.y0 + y as int),
    {
        image.get(self.x0 + x, self.y0 + y)
    }

    /// Writes `pixel` at window position `(x, y)` on the parent; every other
    /// storage element is unchanged.
    pub fn set<Pixel: Copy>(&self, image: &mut Image<Pixel>, x: usize, y: usize, pixel: Pixel)
        requires
            old(image).wf(),
            self.fits(*old(image)),
            x < self.width,
            y < self.height,
        ensures
            final(image).width == old(image).width,
            final(image).height == old(image).height,
            final(image).stride == old(image).stride,
            final(image).wf(),
            final(image).source@ == old(image).source@.update(
                old(image).index_of(self.x0 + x as int, self.y0 + y as int),
                pixel,
            ),
    {
        image.set(self.x0 + x, self.y0 + y, pixel);
    }

    /// Sets every pixel inside the window to `pixel`; every storage element
    /// outside the window, padding included, is unchanged.
    pub fn fill<Pixel: Copy>(&self, image: &mut Image<Pixel>, pixel: Pixel)
        requires
            old(image).wf(),
            self.fits(*old(image)),
        ensures
            final(image).width == old(image).width,
            final(image).height == old(image).height,
            final(image).stride == old(image).stride,
            final(image).source@.len() == old(image).source@.len(),
            final(image).wf(),
            forall|x: int, y: int| #![auto]
                self.x0 <= x < self.x0 + self.width && self.y0 <= y < self.y0 + self.height
                    ==> final(image).pixel(x, y) == pixel,
            forall|k: int| #![auto]
                0 <= k < old(image).source@.len() && (forall|x: int, y: int|
                    self.x0 <= x < self.x0 + self.width && self.y0 <= y < self.y0 + self.height
                        ==> k != old(image).index_of(x, y)) ==> final(image).source@[k] == old(
                    image,
                ).source@[k],
    {
        let ghost orig = *image;
        let mut y: usize = 0;
        while y < self.height
            invariant
                orig.wf(),
                self.fits(orig),
                y <= self.height,
                image.width == orig.width,
                image.height == orig.height,
                image.stride == orig.stride,
                image.source@.len() == orig.source@.len(),
                forall|a: int, b: int| #![auto]
                    self.x0 <= a < self.x0 + self.width && self.y0 <= b < self.y0 + y
                        ==> image.source@[orig.index_of(a, b)] == pixel,
                forall|k: int| #![auto]
                    0 <= k < orig.source@.len() && (forall|a: int, b: int|
                        self.x0 <= a < self.x0 + self.width && self.y0 <= b < self.y0 + y ==> k
                            != orig.index_of(a, b)) ==> image.source@[k] == orig.source@[k],
            decreases self.height - y,
        {
            let mut x: usize = 0;
            while x < self.width
                invariant
                    orig.wf(),
                    self.fits(orig),
                    y < self.height,
                    x <= self.width,
                    image.width == orig.width,
                    image.height == orig.height,
                    image.stride == orig.stride,
                    image.source@.len() == orig.source@.len(),
                    forall|a: int, b: int| #![auto]
                        self.x0 <= a < self.x0 + self.width && (self.y0 <= b < self.y0 + y || (b
                            == self.y0 + y && a < self.x0 + x)) ==> image.source@[orig.index_of(
                            a,
                            b,
                        )] == pixel,
                    forall|k: int| #![auto]
                        0 <= k < orig.source@.len() && (forall|a: int, b: int|
                            self.x0 <= a < self.x0 + self.width && (self.y0 <= b < self.y0 + y || (
                            b == self.y0 + y && a < self.x0 + x)) ==> k != orig.index_of(a, b))
                            ==> image.source@[k] == orig.source@[k],
                decreases self.width - x,
            {
                let ghost before = image.source@;
                let ghost target = orig.index_of(self.x0 + x as int, self.y0 + y as int);
                proof {
                    crate::image::lemma_position_index_round_trip(
                        orig,
                        self.x0 + x as int,
                        self.y0 + y as int,
                    );
                    lemma_cell_in_storage(
                        orig.width as int,
                        orig.height as int,
                        orig.stride as int,
                        self.x0 + x as int,
                        self.y0 + y as int,
                    );
                }
                image.set(self.x0 + x, self.y0 + y, pixel);
                proof {
                    assert forall|a: int, b: int|
                        self.x0 <= a < self.x0 + self.width && (self.y0 <= b < self.y0 + y || (b
                            == self.y0 + y && a < self.x0 + x + 1)) implies image.source@[orig.index_of(a, b)] == pixel by {
                        crate::image::lemma_position_index_round_trip(orig, a, b);
                        lemma_cell_in_storage(
                            orig.width as int,
                            orig.height as int,
                            orig.stride as int,
                            a,
                            b,
                        );
                        if orig.index_of(a, b) != target {
                            assert(image.source@[orig.index_of(a, b)] == before[orig.index_of(
                                a,
                                b,
                            )]);
                        }
                    }
                    assert forall|k: int|
                        0 <= k < orig.source@.len() && (forall|a: int, b: int|
                            self.x0 <= a < self.x0 + self.width && (self.y0 <= b < self.y0 + y || (
                            b == self.y0 + y && a < self.x0 + x + 1)) ==> k != orig.index_of(a, b))
                        implies image.source@[k] == orig.source@[k] by {
                        assert(k != target);
                        assert(image.source@[k] == before[k]);
                    }
                }
                x = x + 1;
            }
            y = y + 1;
        }
        proof {
            assert forall|x: int, y: int|
                self.x0 <= x < self.x0 + self.width && self.y0 <= y < self.y0
                    + self.height implies image.pixel(x, y) == pixel by {
                assert(image.source@[orig.index_of(x, y)] == pixel);
            }
        }
    }
}

impl<Pixel> Image<Pixel> {
    /// Carving succeeds: both endpoints resolve both to a position and to a
    /// linear index, and `start` does not exceed `end` on either axis.
    pub open spec fn carve_ok<I: ImageIndex<Pixel>>(self, start: I, end: I) -> bool {
        &&& start.pos_ok(self) && end.pos_ok(self)
        &&& start.index_ok(self) && end.index_ok(self)
        &&& start.pos_x(self) <= end.pos_x(self)
        &&& start.pos_y(self) <= end.pos_y(self)
    }

    /// Which axes are reversed when `end` precedes `start`; meaningful only
    /// when at least one is.
    pub open spec fn reversed_axes<I: ImageIndex<Pixel>>(self, start: I, end: I) -> WhichAxes {
        if end.pos_x(self) < start.pos_x(self) && end.pos_y(self) < start.pos_y(self) {
            WhichAxes::Both
        } else if end.pos_x(self) < start.pos_x(self) {
            WhichAxes::X
        } else {
            WhichAxes::Y
        }
    }

    /// Validates the rectangle `start..end` and returns it as a mutation
    /// window. The endpoints resolve through [`ImageIndex`]; `end` must not
    /// precede `start` on either axis.
    pub fn region_mut<I: ImageIndex<Pixel>>(&self, start: I, end: I) -> (r: Result<
        RegionMut,
        Error<Pixel>,
    >)
        requires
            self.wf(),
        ensures
            !start.pos_ok(*self) ==> (r matches Err(e) && e == Error::<Pixel>::IndexOutOfRange(
                start.pos_fail(*self),
            )),
            start.pos_ok(*self) && !end.pos_ok(*self) ==> (r matches Err(e) && e
                == Error::<Pixel>::IndexOutOfRange(end.pos_fail(*self))),
            start.pos_ok(*self) && end.pos_ok(*self) && !start.index_ok(*self) ==> (r matches Err(e)
                && e == Error::<Pixel>::PositionOutOfRange(start.index_fail(*self))),
            start.pos_ok(*self) && end.pos_ok(*self) && start.index_ok(*self) && !end.index_ok(
                *self,
            ) ==> (r matches Err(e) && e == Error::<Pixel>::PositionOutOfRange(
                end.index_fail(*self),
            )),
            start.pos_ok(*self) && end.pos_ok(*self) && start.index_ok(*self) && end.index_ok(
                *self,
            ) && !(start.pos_x(*self) <= end.pos_x(*self) && start.pos_y(*self) <= end.pos_y(
                *self,
            )) ==> (r matches Err(e) && e == Error::<Pixel>::PositionOutOfRange(
                (PositionOutOfRange {
                    pos: [end.pos_x(*self) as usize, end.pos_y(*self) as usize],
                    which_axes: self.reversed_axes(start, end),
                }),
            )),
            self.carve_ok(start, end) ==> (r matches Ok(rm) && rm == (RegionMut {
                x0: start.pos_x(*self) as usize,
                y0: start.pos_y(*self) as usize,
                width: (end.pos_x(*self) - start.pos_x(*self)) as usize,
                height: (end.pos_y(*self) - start.pos_y(*self)) as usize,
            }) && rm.fits(*self)),
    {
        let start_pos: [usize; 2] = match start.pos(self) {
            Ok(p) => p,
            Err(e) => {
                return Err(Error::IndexOutOfRange(e));
            },
        };
        let end_pos: [usize; 2] = match end.pos(self) {
            Ok(p) => p,
            Err(e) => {
                return Err(Error::IndexOutOfRange(e));
            },
        };
        let _start_i: usize = match start.index(self) {
            Ok(i) => i,
            Err(e) => {
                return Err(Error::PositionOutOfRange(e));
            },
        };
        let _end_i: usize = match end.index(self) {
            Ok(i) => i,
            Err(e) => {
                return Err(Error::PositionOutOfRange(e));
            },
        };
        let x_rev: bool = end_pos[0] < start_pos[0];
        let y_rev: bool = end_pos[1] < start_pos[1];
        if x_rev || y_rev {
            let which_axes: WhichAxes = if x_rev && y_rev {
                WhichAxes::Both
            } else if x_rev {
                WhichAxes::X
            } else {
                WhichAxes::Y
            };
            return Err(
                Error::PositionOutOfRange(PositionOutOfRange { pos: [end_pos[0], end_pos[1]], which_axes }),
            );
        }
        proof {
            start.lemma_resolves(*self);
            end.lemma_resolves(*self);
        }
        Ok(
            RegionMut {
                x0: start_pos[0],
                y0: start_pos[1],
                width: end_pos[0] - start_pos[0],
                height: end_pos[1] - start_pos[1],
            },
        )
    }

    /// Carves the rectangle `start..end` out of the image as a borrowed,
    /// zero-copy view sharing this image's stride. The endpoints resolve
    /// through [`ImageIndex`]; `end` must not precede `start` on either
    /// axis, and every pixel of the view is the parent's pixel at the
    /// start-offset position.
    pub fn region<'a, I: ImageIndex<Pixel>>(&'a self, start: I, end: I) -> (r: Result<
        Region<'a, Pixel>,
        Error<Pixel>,
    >)
        requires
            self.wf(),
        ensures
            !start.pos_ok(*self) ==> (r matches Err(e) && e == Error::<Pixel>::IndexOutOfRange(
                start.pos_fail(*self),
            )),
            start.pos_ok(*self) && !end.pos_ok(*self) ==> (r matches Err(e) && e
                == Error::<Pixel>::IndexOutOfRange(end.pos_fail(*self))),
            start.pos_ok(*self) && end.pos_ok(*self) && !start.index_ok(*self) ==> (r matches Err(e)
                && e == Error::<Pixel>::PositionOutOfRange(start.index_fail(*self))),
            start.pos_ok(*self) && end.pos_ok(*self) && start.index_ok(*self) && !end.index_ok(
                *self,
            ) ==> (r matches Err(e) && e == Error::<Pixel>::PositionOutOfRange(
                end.index_fail(*self),
            )),
            start.pos_ok(*self) && end.pos_ok(*self) && start.index_ok(*self) && end.index_ok(
                *self,
            ) && !(start.pos_x(*self) <= end.pos_x(*self) && start.pos_y(*self) <= end.pos_y(
                *self,
            )) ==> (r matches Err(e) && e == Error::<Pixel>::PositionOutOfRange(
                (PositionOutOfRange {
                    pos: [end.pos_x(*self) as usize, end.pos_y(*self) as usize],
                    which_axes: self.reversed_axes(start, end),
                }),
            )),
            self.carve_ok(start, end) ==> (r matches Ok(reg) && reg.width == end.pos_x(*self)
                - start.pos_x(*self) && reg.height == end.pos_y(*self) - start.pos_y(*self)
                && reg.stride == self.stride && reg.wf() && forall|dx: int, dy: int|
                #![auto]
                reg.is_pos(dx, dy) ==> reg.pixel(dx, dy) == self.pixel(
                    start.pos_x(*self) + dx,
                    start.pos_y(*self) + dy,
                )),
    {
        let start_pos: [usize; 2] = match start.pos(self) {
            Ok(p) => p,
            Err(e) => {
                return Err(Error::IndexOutOfRange(e));
            },
        };
        let end_pos: [usize; 2] = match end.pos(self) {
            Ok(p) => p,
            Err(e) => {
                return Err(Error::IndexOutOfRange(e));
            },
        };
        let start_i: usize = match start.index(self) {
            Ok(i) => i,
            Err(e) => {
                return Err(Error::PositionOutOfRange(e));
            },
        };
        let end_i: usize = match end.index(self) {
            Ok(i) => i,
            Err(e) => {
                return Err(Error::PositionOutOfRange(e));
            },
        };
        let x_rev: bool = end_pos[0] < start_pos[0];
        let y_rev: bool = end_pos[1] < start_pos[1];
        if x_rev || y_rev {
            let which_axes: WhichAxes = if x_rev && y_rev {
                WhichAxes::Both
            } else if x_rev {
                WhichAxes::X
            } else {
                WhichAxes::Y
            };
            return Err(
                Error::PositionOutOfRange(PositionOutOfRange { pos: [end_pos[0], end_pos[1]], which_axes }),
            );
        }
        let ghost x0 = start.pos_x(*self);
        let ghost y0 = start.pos_y(*self);
        let ghost x1 = end.pos_x(*self);
        let ghost y1 = end.pos_y(*self);
        let ghost st = self.stride as int;
        proof {
            start.lemma_resolves(*self);
            end.lemma_resolves(*self);
            lemma_cell_in_storage(self.width as int, self.height as int, st, x1, y1);
            assert(x0 + y0 * st <= x1 + y1 * st) by (nonlinear_arith)
                requires
                    x0 <= x1,
                    y0 <= y1,
                    0 <= st,
            ;
        }
        let rw: usize = end_pos[0] - start_pos[0];
        let rh: usize = end_pos[1] - start_pos[1];
        let slice: &[Pixel] = slice_subrange(self.source.as_slice(), start_i, end_i);
        let reg = Region { width: rw, height: rh, stride: self.stride, source: slice };
        proof {
            assert((x1 + y1 * st) - (x0 + y0 * st) == (x1 - x0) + (y1 - y0)
                * st) by (nonlinear_arith);
            assert(st * (y1 - y0) <= (x1 - x0) + (y1 - y0) * st) by (nonlinear_arith)
                requires
                    x0 <= x1,
                    y0 <= y1,
                    0 <= st,
            ;
            assert(reg.wf());
            assert forall|dx: int, dy: int| reg.is_pos(dx, dy) implies reg.pixel(dx, dy)
                == self.pixel(x0 + dx, y0 + dy) by {
                assert(0 <= dx + dy * st && dx + dy * st < (x1 - x0) + (y1 - y0)
                    * st) by (nonlinear_arith)
                    requires
                        0 <= dx < x1 - x0,
                        0 <= dy < y1 - y0,
                        x1 - x0 <= st,
                ;
                assert((x0 + dx) + (y0 + dy) * st == (x0 + y0 * st) + (dx + dy
                    * st)) by (nonlinear_arith);
                assert(slice@[dx + dy * st] == self.source@[(x0 + y0 * st) + (dx + dy * st)]);
                assert(reg.pixel(dx, dy) == self.source@[(x0 + y0 * st) + (dx + dy * st)]);
            }
        }
        Ok(reg)
    }
}

} // verus!
