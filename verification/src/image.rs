//! The central buffer type: width, height, stride and a contiguous storage
//! of pixel elements, addressed row-major with a stride that may exceed the
//! width. Elements of a row at columns `[width, stride)` are padding: they
//! are never part of the logical image and pixel-level operations never read
//! or write them.

use vstd::arithmetic::div_mod::{
    lemma_fundamental_div_mod, lemma_fundamental_div_mod_converse_div,
    lemma_fundamental_div_mod_converse_mod, lemma_mod_bound,
};
use vstd::arithmetic::mul::{lemma_mul_inequality, lemma_mul_is_distributive_add};
use vstd::prelude::*;
use vstd::std_specs::cmp::PartialEqSpec;

use crate::error::{
    IndexOutOfRange, IndexOutOfRangeReason, PositionOutOfRange, SourceTooSmall, WhichAxes,
};

verus! {

/// A rectangular pixel buffer over owned contiguous storage.
///
/// Invariants (see [`Image::wf`]): `width <= stride` and
/// `stride * height <= source.len()`. Every operation requires
/// well-formedness; the checked constructors establish it.
#[derive(Debug)]
pub struct Image<Pixel> {
    /// Logical extent in pixels along a row.
    pub width: usize,
    /// Number of rows.
    pub height: usize,
    /// Storage elements per row; at least `width`.
    pub stride: usize,
    /// The backing storage, holding at least `stride * height` elements.
    pub source: Vec<Pixel>,
}

impl<Pixel> Image<Pixel> {
    /// Well-formedness: the stride covers the width and the storage covers
    /// every row.
    pub open spec fn wf(self) -> bool {
        self.width <= self.stride && self.stride * self.height <= self.source@.len()
    }

    /// An image with no logical pixels at all.
    pub open spec fn is_empty_image(self) -> bool {
        self.width == 0 || self.height == 0
    }

    /// `(x, y)` names a pixel of the image.
    pub open spec fn is_pos(self, x: int, y: int) -> bool {
        0 <= x < self.width && 0 <= y < self.height
    }

    /// The linear storage index of position `(x, y)`.
    pub open spec fn index_of(self, x: int, y: int) -> int {
        x + y * self.stride
    }

    /// The last valid linear index, `(height-1)*stride + (width-1)`.
    pub open spec fn spec_max_index(self) -> int {
        (self.height - 1) * self.stride + (self.width - 1)
    }

    /// `i` lands in the padding columns of its row.
    pub open spec fn in_padding(self, i: int) -> bool {
        i % (self.stride as int) >= self.width
    }

    /// `i` is a valid linear index: it addresses a pixel of the image.
    pub open spec fn is_index(self, i: int) -> bool {
        !self.is_empty_image() && 0 <= i <= self.spec_max_index() && !self.in_padding(i)
    }

    /// The pixel stored at position `(x, y)`.
    pub open spec fn pixel(self, x: int, y: int) -> Pixel {
        self.source@[self.index_of(x, y)]
    }

    /// How many valid indices precede `i` in row-major order.
    pub open spec fn rank(self, i: int) -> int {
        (i / self.stride as int) * self.width + i % (self.stride as int)
    }

    /// Which axes of `(x, y)` lie outside the image; meaningful only when at
    /// least one does.
    pub open spec fn axes_of(self, x: int, y: int) -> WhichAxes {
        if x >= self.width && y >= self.height {
            WhichAxes::Both
        } else if x >= self.width {
            WhichAxes::X
        } else {
            WhichAxes::Y
        }
    }

    /// Why `i` is not a valid linear index; meaningful only when it is not.
    pub open spec fn index_reason(self, i: int) -> IndexOutOfRangeReason {
        if !self.is_empty_image() && self.in_padding(i) {
            IndexOutOfRangeReason::OutsideStride
        } else {
            IndexOutOfRangeReason::PastEnd
        }
    }

    /// `i` clamped to the last valid index and, if it then lands in padding,
    /// advanced to the start of the next row.
    pub open spec fn spec_normalize(self, i: int) -> int {
        let c = if i >= self.spec_max_index() {
            self.spec_max_index()
        } else {
            i
        };
        if c % (self.stride as int) >= self.width {
            c - c % (self.stride as int) + self.stride
        } else {
            c
        }
    }

    /// The next valid index after `i` in row-major order, skipping padding,
    /// or `None` at the last index.
    pub open spec fn spec_next(self, i: int) -> Option<int> {
        if i == self.spec_max_index() {
            None
        } else {
            Some(self.spec_normalize(i + 1))
        }
    }
}

/// Every pixel cell of a well-formed nonempty image lies inside the storage:
/// `x + y*stride` stays below `stride * height` and below the row-major
/// maximum index bound.
pub proof fn lemma_cell_in_storage(w: int, h: int, st: int, x: int, y: int)
    requires
        0 <= x < w,
        w <= st,
        0 <= y < h,
    ensures
        0 <= x + y * st,
        x + y * st <= (h - 1) * st + (w - 1),
        (h - 1) * st + (w - 1) < st * h,
{
    assert(0 <= x + y * st && x + y * st <= (h - 1) * st + (w - 1) && (h - 1) * st + (w - 1) < st
        * h) by (nonlinear_arith)
        requires
            0 <= x < w,
            w <= st,
            0 <= y < h,
    ;
}

impl<Pixel> Image<Pixel> {
    /// Builds an image over `source` with an explicit stride, validating that
    /// the storage holds at least `stride * height` elements; on failure the
    /// storage travels back inside the error.
    pub fn from_source_with_stride(
        width: usize,
        height: usize,
        stride: usize,
        source: Vec<Pixel>,
    ) -> (r: Result<Self, SourceTooSmall<Pixel>>)
        requires
            width <= stride,
        ensures
            source@.len() >= stride * height ==> (r matches Ok(img) && img == (Image {
                width,
                height,
                stride,
                source,
            }) && img.wf()),
            source@.len() < stride * height ==> (r matches Err(e) && e == (SourceTooSmall {
                source,
                width,
                height,
                stride,
            })),
    {
        match stride.checked_mul(height) {
            Some(n) => {
                if source.len() < n {
                    Err(SourceTooSmall::new(source, width, height, stride))
                } else {
                    Ok(Image { width, height, stride, source })
                }
            },
            None => {
                proof {
                    vstd::std_specs::vec::axiom_spec_len(&source);
                }
                Err(SourceTooSmall::new(source, width, height, stride))
            },
        }
    }

    /// Builds a dense image (`stride == width`) over `source`, validating the
    /// storage length. A zero width or height is accepted and yields an
    /// image with no pixels.
    pub fn from_source(width: usize, height: usize, source: Vec<Pixel>) -> (r: Result<
        Self,
        SourceTooSmall<Pixel>,
    >)
        ensures
            source@.len() >= width * height ==> (r matches Ok(img) && img == (Image {
                width,
                height,
                stride: width,
                source,
            }) && img.wf()),
            source@.len() < width * height ==> (r matches Err(e) && e == (SourceTooSmall {
                source,
                width,
                height,
                stride: width,
            })),
    {
        Self::from_source_with_stride(width, height, width, source)
    }

    /// The logical width in pixels.
    pub fn width(&self) -> (r: usize)
        ensures
            r == self.width,
    {
        self.width
    }

    /// The number of rows.
    pub fn height(&self) -> (r: usize)
        ensures
            r == self.height,
    {
        self.height
    }

    /// The storage elements per row.
    pub fn stride(&self) -> (r: usize)
        ensures
            r == self.stride,
    {
        self.stride
    }

    /// A shared view of the backing storage.
    pub fn source(&self) -> (r: &Vec<Pixel>)
        ensures
            r == &self.source,
    {
        &self.source
    }

    /// Consumes the image and hands the backing storage back.
    pub fn into_source(self) -> (r: Vec<Pixel>)
        ensures
            r == self.source,
    {
        self.source
    }

    /// The last valid linear index.
    pub fn max_index(&self) -> (r: usize)
        requires
            self.wf(),
            !self.is_empty_image(),
        ensures
            r == self.spec_max_index(),
    {
        proof {
            vstd::std_specs::vec::axiom_spec_len(&self.source);
            lemma_cell_in_storage(
                self.width as int,
                self.height as int,
                self.stride as int,
                self.width - 1,
                self.height - 1,
            );
        }
        (self.height - 1) * self.stride + (self.width - 1)
    }

    /// Maps a position to its linear index; rejects positions outside the
    /// image, telling which axes failed.
    pub fn pos_to_index(&self, x: usize, y: usize) -> (r: Result<usize, PositionOutOfRange>)
        requires
            self.wf(),
        ensures
            self.is_pos(x as int, y as int) ==> (r matches Ok(i) && i == self.index_of(
                x as int,
                y as int,
            )),
            !self.is_pos(x as int, y as int) ==> (r matches Err(e) && e == (PositionOutOfRange {
                pos: [x, y],
                which_axes: self.axes_of(x as int, y as int),
            })),
    {
        let x_out: bool = x >= self.width;
        let y_out: bool = y >= self.height;
        if x_out && y_out {
            Err(PositionOutOfRange { pos: [x, y], which_axes: WhichAxes::Both })
        } else if x_out {
            Err(PositionOutOfRange { pos: [x, y], which_axes: WhichAxes::X })
        } else if y_out {
            Err(PositionOutOfRange { pos: [x, y], which_axes: WhichAxes::Y })
        } else {
            proof {
                vstd::std_specs::vec::axiom_spec_len(&self.source);
                lemma_cell_in_storage(
                    self.width as int,
                    self.height as int,
                    self.stride as int,
                    x as int,
                    y as int,
                );
            }
            Ok(x + y * self.stride)
        }
    }

    /// Maps a linear index back to its position `[x, y]`; rejects indices
    /// that land in padding or lie past the last valid index.
    pub fn index_to_pos(&self, i: usize) -> (r: Result<[usize; 2], IndexOutOfRange>)
        requires
            self.wf(),
        ensures
            self.is_index(i as int) ==> (r matches Ok(p) && p[0] == i as int % (
            self.stride as int) && p[1] == i as int / (self.stride as int)),
            !self.is_index(i as int) ==> (r matches Err(e) && e == (IndexOutOfRange {
                value: i,
                reason: self.index_reason(i as int),
            })),
    {
        if self.width == 0 || self.height == 0 {
            return Err(IndexOutOfRange { value: i, reason: IndexOutOfRangeReason::PastEnd });
        }
        if i % self.stride >= self.width {
            Err(IndexOutOfRange { value: i, reason: IndexOutOfRangeReason::OutsideStride })
        } else if i > self.max_index() {
            Err(IndexOutOfRange { value: i, reason: IndexOutOfRangeReason::PastEnd })
        } else {
            Ok([i % self.stride, i / self.stride])
        }
    }

    /// Clamps `idx` to the last valid index, then advances it past the
    /// padding columns to the start of the next row if it landed in them.
    /// The result is always a valid index.
    pub fn normalize_index(&self, idx: usize) -> (r: usize)
        requires
            self.wf(),
            !self.is_empty_image(),
        ensures
            r == self.spec_normalize(idx as int),
            self.is_index(r as int),
            idx as int <= self.spec_max_index() ==> r >= idx,
    {
        proof {
            lemma_normalize_is_index(*self, idx as int);
        }
        let max: usize = self.max_index();
        let mut c: usize = idx;
        if c >= max {
            c = max;
        }
        let inc: usize = c % self.stride;
        if inc >= self.width {
            proof {
                vstd::std_specs::vec::axiom_spec_len(&self.source);
                lemma_mod_bound(c as int, self.stride as int);
                if (c as int) < self.stride as int {
                    vstd::arithmetic::div_mod::lemma_small_mod(c as nat, self.stride as nat);
                }
            }
            (c - inc) + self.stride
        } else {
            c
        }
    }

    /// The next valid index after `idx` in row-major order, skipping the
    /// padding gap at the end of a row, or `None` once `idx` is the last
    /// valid index.
    pub fn next_index(&self, idx: usize) -> (r: Option<usize>)
        requires
            self.wf(),
            !self.is_empty_image(),
        ensures
            idx as int == self.spec_max_index() ==> r is None,
            idx as int != self.spec_max_index() ==> (r matches Some(j) && j == self.spec_normalize(
                idx as int + 1,
            )),
            r matches Some(j) ==> self.is_index(j as int),
            self.is_index(idx as int) && idx as int != self.spec_max_index() ==> (r matches Some(j)
                && j > idx),
    {
        let max: usize = self.max_index();
        if idx == max {
            None
        } else if idx >= max {
            proof {
                lemma_normalize_is_index(*self, idx as int + 1);
            }
            Some(max)
        } else {
            Some(self.normalize_index(idx + 1))
        }
    }
}

impl<Pixel: Copy> Image<Pixel> {
    /// Builds a dense image whose every pixel is `pixel`.
    pub fn filled(width: usize, height: usize, pixel: Pixel) -> (r: Self)
        requires
            width * height <= usize::MAX,
        ensures
            r.width == width,
            r.height == height,
            r.stride == width,
            r.wf(),
            r.source@.len() == width * height,
            forall|x: int, y: int| r.is_pos(x, y) ==> r.pixel(x, y) == pixel,
    {
        let n: usize = width * height;
        let mut source: Vec<Pixel> = Vec::new();
        let mut i: usize = 0;
        while i < n
            invariant
                i <= n,
                source@.len() == i,
                forall|k: int| 0 <= k < i ==> source@[k] == pixel,
            decreases n - i,
        {
            source.push(pixel);
            i = i + 1;
        }
        let r = Image { width, height, stride: width, source };
        proof {
            assert forall|x: int, y: int| r.is_pos(x, y) implies r.pixel(x, y) == pixel by {
                lemma_cell_in_storage(width as int, height as int, width as int, x, y);
            }
        }
        r
    }

    /// Reads the pixel at position `(x, y)`.
    pub fn get(&self, x: usize, y: usize) -> (r: Pixel)
        requires
            self.wf(),
            self.is_pos(x as int, y as int),
        ensures
            r == self.pixel(x as int, y as int),
    {
        proof {
            vstd::std_specs::vec::axiom_spec_len(&self.source);
            lemma_cell_in_storage(
                self.width as int,
                self.height as int,
                self.stride as int,
                x as int,
                y as int,
            );
        }
        self.source[x + y * self.stride]
    }

    /// Reads the pixel at valid linear index `i`.
    pub fn get_index(&self, i: usize) -> (r: Pixel)
        requires
            self.wf(),
            self.is_index(i as int),
        ensures
            r == self.source@[i as int],
    {
        proof {
            lemma_cell_in_storage(
                self.width as int,
                self.height as int,
                self.stride as int,
                self.width - 1,
                self.height - 1,
            );
        }
        self.source[i]
    }

    /// Writes `pixel` at position `(x, y)`; every other storage element is
    /// unchanged.
    pub fn set(&mut self, x: usize, y: usize, pixel: Pixel)
        requires
            old(self).wf(),
            old(self).is_pos(x as int, y as int),
        ensures
            final(self).width == old(self).width,
            final(self).height == old(self).height,
            final(self).stride == old(self).stride,
            final(self).source@ == old(self).source@.update(
                old(self).index_of(x as int, y as int),
                pixel,
            ),
            final(self).wf(),
    {
        proof {
            vstd::std_specs::vec::axiom_spec_len(&self.source);
            lemma_cell_in_storage(
                self.width as int,
                self.height as int,
                self.stride as int,
                x as int,
                y as int,
            );
        }
        let i: usize = x + y * self.stride;
        self.source.set(i, pixel);
    }

    /// Writes `pixel` at valid linear index `i`; every other storage element
    /// is unchanged.
    pub fn set_index(&mut self, i: usize, pixel: Pixel)
        requires
            old(self).wf(),
            old(self).is_index(i as int),
        ensures
            final(self).width == old(self).width,
            final(self).height == old(self).height,
            final(self).stride == old(self).stride,
            final(self).source@ == old(self).source@.update(i as int, pixel),
            final(self).wf(),
    {
        proof {
            lemma_cell_in_storage(
                self.width as int,
                self.height as int,
                self.stride as int,
                self.width - 1,
                self.height - 1,
            );
        }
        self.source.set(i, pixel);
    }

    /// Sets every logical pixel to `pixel`. On a dense image
    /// (`stride == width`) the whole backing storage is overwritten in one
    /// sweep; on a strided image only the `[0, width)` columns of each row
    /// are written and every padding element keeps its old value.
    pub fn fill(&mut self, pixel: Pixel)
        requires
            old(self).wf(),
        ensures
            final(self).width == old(self).width,
            final(self).height == old(self).height,
            final(self).stride == old(self).stride,
            final(self).source@.len() == old(self).source@.len(),
            final(self).wf(),
            forall|x: int, y: int| #![auto] old(self).is_pos(x, y) ==> final(self).pixel(x, y)
                == pixel,
            forall|k: int| #![auto] old(self).is_index(k) ==> final(self).source@[k] == pixel,
            old(self).width == old(self).stride ==> (forall|k: int|
                #![auto]
                0 <= k < old(self).source@.len() ==> final(self).source@[k] == pixel),
            old(self).width != old(self).stride ==> (forall|k: int|
                #![auto]
                0 <= k < old(self).source@.len() && !old(self).is_index(k)
                    ==> final(self).source@[k] == old(self).source@[k]),
    {
        let ghost orig = *self;
        if self.width == self.stride {
            let n: usize = self.source.len();
            let mut i: usize = 0;
            while i < n
                invariant
                    i <= n,
                    self.width == orig.width,
                    self.height == orig.height,
                    self.stride == orig.stride,
                    self.source@.len() == n,
                    n == orig.source@.len(),
                    forall|k: int| #![auto] 0 <= k < i ==> self.source@[k] == pixel,
                    forall|k: int| #![auto] i <= k < n ==> self.source@[k] == orig.source@[k],
                decreases n - i,
            {
                self.source.set(i, pixel);
                i = i + 1;
            }
            proof {
                assert forall|x: int, y: int| orig.is_pos(x, y) implies self.pixel(x, y)
                    == pixel by {
                    lemma_cell_in_storage(
                        orig.width as int,
                        orig.height as int,
                        orig.stride as int,
                        x,
                        y,
                    );
                }
            }
        } else {
            let ghost st = orig.stride as int;
            let mut y: usize = 0;
            while y < self.height
                invariant
                    st == orig.stride as int,
                    orig.wf(),
                    orig.width < orig.stride,
                    y <= orig.height,
                    self.width == orig.width,
                    self.height == orig.height,
                    self.stride == orig.stride,
                    self.source@.len() == orig.source@.len(),
                    forall|a: int, b: int| #![auto]
                        orig.is_pos(a, b) && b < y ==> self.source@[orig.index_of(a, b)] == pixel,
                    forall|a: int, b: int| #![auto]
                        orig.is_pos(a, b) && b >= y ==> self.source@[orig.index_of(a, b)]
                            == orig.source@[orig.index_of(a, b)],
                    forall|k: int| #![auto]
                        0 <= k < orig.source@.len() && !orig.is_index(k) ==> self.source@[k]
                            == orig.source@[k],
                decreases orig.height - y,
            {
                let mut x: usize = 0;
                while x < self.width
                    invariant
                        st == orig.stride as int,
                        orig.wf(),
                        orig.width < orig.stride,
                        y < orig.height,
                        x <= orig.width,
                        self.width == orig.width,
                        self.height == orig.height,
                        self.stride == orig.stride,
                        self.source@.len() == orig.source@.len(),
                        forall|a: int, b: int| #![auto]
                            orig.is_pos(a, b) && (b < y || (b == y && a < x)) ==> self.source@[orig.index_of(a, b)] == pixel,
                        forall|a: int, b: int| #![auto]
                            orig.is_pos(a, b) && (b > y || (b == y && a >= x)) ==> self.source@[orig.index_of(a, b)] == orig.source@[orig.index_of(a, b)],
                        forall|k: int| #![auto]
                            0 <= k < orig.source@.len() && !orig.is_index(k) ==> self.source@[k]
                                == orig.source@[k],
                    decreases orig.width - x,
                {
                    proof {
                        vstd::std_specs::vec::axiom_spec_len(&self.source);
                        lemma_cell_in_storage(
                            orig.width as int,
                            orig.height as int,
                            orig.stride as int,
                            x as int,
                            y as int,
                        );
                        lemma_position_index_round_trip(orig, x as int, y as int);
                    }
                    let ghost before = self.source@;
                    let ghost target = orig.index_of(x as int, y as int);
                    let i: usize = x + y * self.stride;
                    self.source.set(i, pixel);
                    proof {
                        assert forall|a: int, b: int|
                            orig.is_pos(a, b) && (b < y || (b == y && a < x + 1)) implies self.source@[orig.index_of(a, b)] == pixel by {
                            lemma_position_index_round_trip(orig, a, b);
                            if orig.index_of(a, b) != target {
                                assert(self.source@[orig.index_of(a, b)] == before[orig.index_of(
                                    a,
                                    b,
                                )]);
                            }
                        }
                        assert forall|a: int, b: int|
                            orig.is_pos(a, b) && (b > y || (b == y && a >= x + 1)) implies self.source@[orig.index_of(a, b)] == orig.source@[orig.index_of(a, b)] by {
                            lemma_position_index_round_trip(orig, a, b);
                            assert(target / st == y as int && target % st == x as int);
                            assert(orig.index_of(a, b) != target);
                            assert(self.source@[orig.index_of(a, b)] == before[orig.index_of(
                                a,
                                b,
                            )]);
                        }
                    }
                    x = x + 1;
                }
                y = y + 1;
            }
            proof {
                assert forall|x: int, y: int| orig.is_pos(x, y) implies self.pixel(x, y)
                    == pixel by {
                    lemma_position_index_round_trip(orig, x, y);
                }
            }
        }
        proof {
            assert forall|k: int| orig.is_index(k) implies self.source@[k] == pixel by {
                lemma_index_position_round_trip(orig, k);
            }
        }
    }

    /// A new dense (`stride == width`) owned copy of the image: each row's
    /// `width` elements are copied from their strided offsets to packed
    /// offsets, dropping every padding column.
    pub fn reallocated(&self) -> (r: Image<Pixel>)
        requires
            self.wf(),
        ensures
            r.width == self.width,
            r.height == self.height,
            r.stride == self.width,
            r.wf(),
            r.source@.len() == self.width * self.height,
            forall|x: int, y: int| #![auto] self.is_pos(x, y) ==> r.pixel(x, y) == self.pixel(
                x,
                y,
            ),
    {
        let w: usize = self.width;
        let mut buf: Vec<Pixel> = Vec::new();
        let mut y: usize = 0;
        while y < self.height
            invariant
                self.wf(),
                w == self.width,
                y <= self.height,
                buf@.len() == y * w,
                forall|a: int, b: int| #![auto]
                    self.is_pos(a, b) && b < y ==> buf@[b * w + a] == self.pixel(a, b),
            decreases self.height - y,
        {
            let mut x: usize = 0;
            while x < w
                invariant
                    self.wf(),
                    w == self.width,
                    y < self.height,
                    x <= w,
                    buf@.len() == y * w + x,
                    forall|a: int, b: int| #![auto]
                        self.is_pos(a, b) && b < y ==> buf@[b * w + a] == self.pixel(a, b),
                    forall|a: int| #![auto] 0 <= a < x ==> buf@[y * w + a] == self.pixel(a, y as int),
                decreases w - x,
            {
                let p: Pixel = self.get(x, y);
                buf.push(p);
                proof {
                    assert forall|a: int, b: int| self.is_pos(a, b) && b < y implies buf@[b * w + a]
                        == self.pixel(a, b) by {
                        assert(0 <= b * w + a && b * w + a < y * w) by (nonlinear_arith)
                            requires
                                0 <= a < w,
                                0 <= b,
                                b < y,
                        ;
                    }
                }
                x = x + 1;
            }
            proof {
                assert((y + 1) * w == y * w + w) by (nonlinear_arith);
            }
            y = y + 1;
        }
        let r = Image { width: self.width, height: self.height, stride: self.width, source: buf };
        proof {
            assert(self.height * w == w * self.height) by (nonlinear_arith);
            assert forall|x: int, y: int| self.is_pos(x, y) implies r.pixel(x, y) == self.pixel(
                x,
                y,
            ) by {
                lemma_cell_in_storage(w as int, self.height as int, w as int, x, y);
            }
        }
        r
    }

    /// A new dense owned image built by applying `f` to every pixel in
    /// row-major order.
    pub fn map<T, F: Fn(&Pixel) -> T>(&self, f: F) -> (r: Image<T>)
        requires
            self.wf(),
            forall|p: Pixel| #![auto] f.requires((&p,)),
        ensures
            r.width == self.width,
            r.height == self.height,
            r.stride == self.width,
            r.wf(),
            r.source@.len() == self.width * self.height,
            forall|x: int, y: int| #![auto]
                self.is_pos(x, y) ==> f.ensures((&self.pixel(x, y),), r.pixel(x, y)),
    {
        let w: usize = self.width;
        let mut buf: Vec<T> = Vec::new();
        let mut y: usize = 0;
        while y < self.height
            invariant
                self.wf(),
                w == self.width,
                y <= self.height,
                buf@.len() == y * w,
                forall|p: Pixel| #![auto] f.requires((&p,)),
                forall|a: int, b: int| #![auto]
                    self.is_pos(a, b) && b < y ==> f.ensures((&self.pixel(a, b),), buf@[b * w + a]),
            decreases self.height - y,
        {
            let mut x: usize = 0;
            while x < w
                invariant
                    self.wf(),
                    w == self.width,
                    y < self.height,
                    x <= w,
                    buf@.len() == y * w + x,
                    forall|p: Pixel| #![auto] f.requires((&p,)),
                    forall|a: int, b: int| #![auto]
                        self.is_pos(a, b) && b < y ==> f.ensures(
                            (&self.pixel(a, b),),
                            buf@[b * w + a],
                        ),
                    forall|a: int| #![auto]
                        0 <= a < x ==> f.ensures((&self.pixel(a, y as int),), buf@[y * w + a]),
                decreases w - x,
            {
                let px: Pixel = self.get(x, y);
                let t: T = f(&px);
                buf.push(t);
                proof {
                    assert forall|a: int, b: int| self.is_pos(a, b) && b < y implies f.ensures(
                        (&self.pixel(a, b),),
                        buf@[b * w + a],
                    ) by {
                        assert(0 <= b * w + a && b * w + a < y * w) by (nonlinear_arith)
                            requires
                                0 <= a < w,
                                0 <= b,
                                b < y,
                        ;
                    }
                }
                x = x + 1;
            }
            proof {
                assert((y + 1) * w == y * w + w) by (nonlinear_arith);
            }
            y = y + 1;
        }
        let r = Image { width: self.width, height: self.height, stride: self.width, source: buf };
        proof {
            assert(self.height * w == w * self.height) by (nonlinear_arith);
            assert forall|x: int, y: int| self.is_pos(x, y) implies f.ensures(
                (&self.pixel(x, y),),
                r.pixel(x, y),
            ) by {
                lemma_cell_in_storage(w as int, self.height as int, w as int, x, y);
            }
        }
        r
    }
}

impl<Pixel: Copy + PartialEq> Image<Pixel> {
    /// Whether this image and `other` hold identical pixel sequences, row by
    /// row over `[0, width)`. Stride, storage kind and trailing storage are
    /// irrelevant; two images with no rows are equal whatever their widths.
    pub fn eq_image(&self, other: &Image<Pixel>) -> (r: bool)
        requires
            self.wf(),
            other.wf(),
            Pixel::obeys_eq_spec(),
        ensures
            r <==> (self.height == other.height && (self.height > 0 ==> self.width == other.width)
                && (forall|x: int, y: int|
                #![auto]
                self.is_pos(x, y) ==> self.pixel(x, y).eq_spec(&other.pixel(x, y)))),
    {
        if self.height != other.height {
            return false;
        }
        if self.height == 0 {
            return true;
        }
        if self.width != other.width {
            return false;
        }
        let mut y: usize = 0;
        while y < self.height
            invariant
                self.wf(),
                other.wf(),
                Pixel::obeys_eq_spec(),
                y <= self.height,
                self.height == other.height,
                self.width == other.width,
                forall|a: int, b: int| #![auto]
                    self.is_pos(a, b) && b < y ==> self.pixel(a, b).eq_spec(&other.pixel(a, b)),
            decreases self.height - y,
        {
            let mut x: usize = 0;
            while x < self.width
                invariant
                    self.wf(),
                    other.wf(),
                    Pixel::obeys_eq_spec(),
                    y < self.height,
                    x <= self.width,
                    self.height == other.height,
                    self.width == other.width,
                    forall|a: int, b: int| #![auto]
                        self.is_pos(a, b) && b < y ==> self.pixel(a, b).eq_spec(&other.pixel(a, b)),
                    forall|a: int| #![auto]
                        0 <= a < x ==> self.pixel(a, y as int).eq_spec(&other.pixel(a, y as int)),
                decreases self.width - x,
            {
                let left: Pixel = self.get(x, y);
                let right: Pixel = other.get(x, y);
                if !(left == right) {
                    proof {
                        assert(exists|a: int, b: int|
                            #![auto]
                            self.is_pos(a, b) && !self.pixel(a, b).eq_spec(&other.pixel(a, b))) by {
                            assert(self.is_pos(x as int, y as int) && !self.pixel(
                                x as int,
                                y as int,
                            ).eq_spec(&other.pixel(x as int, y as int)));
                        }
                    }
                    return false;
                }
                x = x + 1;
            }
            y = y + 1;
        }
        true
    }
}

/// `spec_normalize` always yields a valid index of a nonempty well-formed
/// image, and never moves an index that is not past the end backwards.
pub proof fn lemma_normalize_is_index<Pixel>(img: Image<Pixel>, i: int)
    requires
        img.wf(),
        !img.is_empty_image(),
        0 <= i,
    ensures
        img.is_index(img.spec_normalize(i)),
        i <= img.spec_max_index() ==> img.spec_normalize(i) >= i,
{
    let st = img.stride as int;
    let w = img.width as int;
    let h = img.height as int;
    let max = img.spec_max_index();
    lemma_cell_in_storage(w, h, st, w - 1, h - 1);
    lemma_fundamental_div_mod_converse_mod(max, st, h - 1, w - 1);
    lemma_fundamental_div_mod_converse_div(max, st, h - 1, w - 1);
    let c = if i >= max {
        max
    } else {
        i
    };
    let m = c % st;
    lemma_mod_bound(c, st);
    lemma_fundamental_div_mod(c, st);
    let q = c / st;
    if m >= w {
        // c lands in padding, so it is not the last valid index and not in
        // the last row.
        assert(c < max);
        assert(q <= h - 2) by {
            if q >= h - 1 {
                lemma_mul_inequality(h - 1, q, st);
                assert((h - 1) * st <= q * st);
                assert(c == st * q + m);
                assert(c >= (h - 1) * st + w);
            }
        }
        let r = c - m + st;
        assert(r == (q + 1) * st) by {
            lemma_mul_is_distributive_add(st, q, 1);
        }
        lemma_fundamental_div_mod_converse_mod(r, st, q + 1, 0);
        assert(r % st == 0);
        lemma_mul_inequality(q + 1, h - 1, st);
        assert((q + 1) * st <= (h - 1) * st);
        assert(r <= max);
    }
}

/// Law: converting a valid position to its linear index and back yields the
/// same position, for every valid `(x, y)`.
pub proof fn lemma_position_index_round_trip<Pixel>(img: Image<Pixel>, x: int, y: int)
    requires
        img.wf(),
        img.is_pos(x, y),
    ensures
        img.is_index(img.index_of(x, y)),
        img.index_of(x, y) % (img.stride as int) == x,
        img.index_of(x, y) / (img.stride as int) == y,
{
    let st = img.stride as int;
    lemma_cell_in_storage(img.width as int, img.height as int, st, x, y);
    lemma_fundamental_div_mod_converse_mod(x + y * st, st, y, x);
    lemma_fundamental_div_mod_converse_div(x + y * st, st, y, x);
}

/// Law: converting a valid linear index to its position and back yields the
/// same index, for every `i` in `[0, max_index]` that does not land in
/// padding.
pub proof fn lemma_index_position_round_trip<Pixel>(img: Image<Pixel>, i: int)
    requires
        img.wf(),
        img.is_index(i),
    ensures
        img.is_pos(i % (img.stride as int), i / (img.stride as int)),
        img.index_of(i % (img.stride as int), i / (img.stride as int)) == i,
{
    let st = img.stride as int;
    let w = img.width as int;
    let h = img.height as int;
    let x = i % st;
    let y = i / st;
    lemma_fundamental_div_mod(i, st);
    lemma_mod_bound(i, st);
    assert(0 <= y < h && y * st + x == i) by (nonlinear_arith)
        requires
            st * y + x == i,
            0 <= x < st,
            0 <= i,
            i <= (h - 1) * st + (w - 1),
            0 < w <= st,
            0 < h,
    ;
}

/// Law: `next_index` never yields an index that lands in padding, and
/// iterating from index 0 by repeated `next_index` visits exactly
/// `width * height` valid indices and terminates. Index 0 is valid with rank
/// 0, the last valid index has rank `width*height - 1` and is the only index
/// from which `next_index` yields nothing, and every step yields a strictly
/// larger valid index whose rank is exactly one greater.
pub proof fn lemma_next_index_counts<Pixel>(img: Image<Pixel>, i: int)
    requires
        img.wf(),
        img.is_index(i),
    ensures
        img.is_index(0),
        img.rank(0) == 0,
        0 <= img.rank(i) < img.width * img.height,
        img.rank(i) == img.width * img.height - 1 <==> i == img.spec_max_index(),
        img.spec_next(i) is None <==> i == img.spec_max_index(),
        img.spec_next(i) matches Some(j) ==> img.is_index(j) && i < j && img.rank(j) == img.rank(i)
            + 1,
{
    let st = img.stride as int;
    let w = img.width as int;
    let h = img.height as int;
    let max = img.spec_max_index();
    let x = i % st;
    let y = i / st;
    lemma_fundamental_div_mod(i, st);
    lemma_mod_bound(i, st);
    lemma_index_position_round_trip(img, i);
    lemma_cell_in_storage(w, h, st, w - 1, h - 1);
    lemma_fundamental_div_mod_converse_mod(max, st, h - 1, w - 1);
    lemma_fundamental_div_mod_converse_div(max, st, h - 1, w - 1);
    // Index 0 is valid and has rank 0.
    vstd::arithmetic::div_mod::lemma_small_mod(0, st as nat);
    vstd::arithmetic::div_mod::lemma_basic_div(0, st);
    // Rank bounds and the characterization of the last index.
    assert(0 <= y * w + x < w * h) by (nonlinear_arith)
        requires
            0 <= x < w,
            0 <= y < h,
    ;
    assert(y * w + x == w * h - 1 <==> (x == w - 1 && y == h - 1)) by (nonlinear_arith)
        requires
            0 <= x < w,
            0 <= y < h,
    ;
    assert((x == w - 1 && y == h - 1) ==> i == max) by {
        assert(y * st == st * y) by (nonlinear_arith);
    }
    assert(i == max ==> (x == w - 1 && y == h - 1));
    if i != max {
        // One step: i + 1 either stays in the row or skips the padding gap
        // to the start of the next row.
        assert(i + 1 <= max);
        let j = img.spec_normalize(i + 1);
        lemma_normalize_is_index(img, i + 1);
        if x + 1 < w {
            // Next pixel in the same row.
            lemma_fundamental_div_mod_converse_mod(i + 1, st, y, x + 1);
            lemma_fundamental_div_mod_converse_div(i + 1, st, y, x + 1);
            assert(j == i + 1);
            assert(img.rank(j) == img.rank(i) + 1);
        } else {
            // End of a row: the next valid index is the start of row y + 1.
            assert(x == w - 1);
            assert(y < h - 1) by {
                if y == h - 1 {
                    assert(i == max);
                }
            }
            if w == st {
                assert(i + 1 == st * (y + 1) + 0) by (nonlinear_arith)
                    requires
                        i == st * y + x,
                        x == st - 1,
                ;
                lemma_fundamental_div_mod_converse_mod(i + 1, st, y + 1, 0);
                lemma_fundamental_div_mod_converse_div(i + 1, st, y + 1, 0);
                assert(j == i + 1);
                assert(img.rank(j) == (y + 1) * w) by {
                    assert((i + 1) / st == y + 1 && (i + 1) % st == 0);
                }
                assert((y + 1) * w == y * w + w) by (nonlinear_arith);
            } else {
                // i + 1 lands in the padding column `w` of row y.
                lemma_fundamental_div_mod_converse_mod(i + 1, st, y, w);
                lemma_fundamental_div_mod_converse_div(i + 1, st, y, w);
                assert((i + 1) % st == w);
                assert(i + 1 < max) by {
                    assert(y + 1 <= h - 1);
                    assert((y + 1) * st <= (h - 1) * st) by {
                        lemma_mul_inequality(y + 1, h - 1, st);
                    }
                    assert(st * y + st <= (h - 1) * st) by {
                        lemma_mul_is_distributive_add(st, y, 1);
                        assert((y + 1) * st == y * st + st) by (nonlinear_arith);
                    }
                }
                assert(j == i + 1 - w + st);
                assert(j == st * (y + 1)) by (nonlinear_arith)
                    requires
                        j == i + 1 - w + st,
                        i == st * y + x,
                        x == w - 1,
                ;
                lemma_fundamental_div_mod_converse_mod(j, st, y + 1, 0);
                lemma_fundamental_div_mod_converse_div(j, st, y + 1, 0);
                assert(img.rank(j) == (y + 1) * w);
                assert((y + 1) * w == y * w + w) by (nonlinear_arith);
            }
        }
    }
}

} // verus!
