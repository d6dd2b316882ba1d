//! Iteration helpers, all direct derivatives of the addressing arithmetic:
//! a pixel iterator driven by `next_index`, a row iterator handing out
//! borrowed row slices, and their mutation-oriented counterparts, which
//! yield positions and row ranges for the caller to write through the
//! image's own accessors.

use vstd::prelude::*;
use vstd::slice::slice_subrange;

use crate::image::{lemma_normalize_is_index, Image};

verus! {

/// Walks every valid linear index of an image in row-major order, skipping
/// padding, and hands out each position together with its pixel.
pub struct Iter<'a, Pixel> {
    /// The image being walked.
    pub image: &'a Image<Pixel>,
    /// The next index to visit, or `None` once the walk is done.
    pub idx: Option<usize>,
}

impl<'a, Pixel> Iter<'a, Pixel> {
    /// Well-formedness: the image is well formed and any pending index is
    /// valid.
    pub open spec fn wf(self) -> bool {
        self.image.wf() && match self.idx {
            Some(i) => self.image.is_index(i as int),
            None => true,
        }
    }

    /// Starts a walk at index 0, or already done for an image with no
    /// pixels.
    pub fn new(image: &'a Image<Pixel>) -> (r: Self)
        requires
            image.wf(),
        ensures
            r.image == image,
            r.wf(),
            image.is_empty_image() ==> r.idx is None,
            !image.is_empty_image() ==> r.idx == Some(0usize),
    {
        if image.width() == 0 || image.height() == 0 {
            Iter { image, idx: None }
        } else {
            proof {
                lemma_normalize_is_index(*image, 0);
                vstd::arithmetic::div_mod::lemma_small_mod(0, image.stride as nat);
            }
            Iter { image, idx: Some(0) }
        }
    }
}

impl<'a, Pixel: Copy> Iter<'a, Pixel> {
    /// The next position and its pixel, or `None` when every pixel has been
    /// visited.
    pub fn next(&mut self) -> (r: Option<([usize; 2], Pixel)>)
        requires
            old(self).wf(),
        ensures
            final(self).image == old(self).image,
            final(self).wf(),
            old(self).idx is None ==> r is None && *final(self) == *old(self),
            old(self).idx matches Some(i) ==> (r matches Some(pr) && pr.0[0] == i as int % (
            old(self).image.stride as int) && pr.0[1] == i as int / (old(self).image.stride as int)
                && pr.1 == old(self).image.source@[i as int] && (i as int
                == old(self).image.spec_max_index() ==> final(self).idx is None) && (i as int
                != old(self).image.spec_max_index() ==> (final(self).idx matches Some(j) && j
                == old(self).image.spec_normalize(i as int + 1)))),
    {
        match self.idx {
            None => None,
            Some(i) => {
                let pos: [usize; 2] = match self.image.index_to_pos(i) {
                    Ok(p) => p,
                    Err(_) => [0, 0],
                };
                let px: Pixel = self.image.get_index(i);
                self.idx = self.image.next_index(i);
                Some((pos, px))
            },
        }
    }
}

/// Walks the rows of an image from top to bottom, handing out each row's
/// `[0, width)` pixels as a borrowed slice.
pub struct IterRows<'a, Pixel> {
    /// The image being walked.
    pub image: &'a Image<Pixel>,
    /// The next row to hand out.
    pub row: usize,
}

impl<'a, Pixel> IterRows<'a, Pixel> {
    /// Starts at row 0.
    pub fn new(image: &'a Image<Pixel>) -> (r: Self)
        ensures
            r.image == image,
            r.row == 0,
    {
        IterRows { image, row: 0 }
    }

    /// The next row as a slice, or `None` once all `height` rows have been
    /// handed out.
    pub fn next(&mut self) -> (r: Option<&'a [Pixel]>)
        requires
            old(self).image.wf(),
        ensures
            final(self).image == old(self).image,
            old(self).row >= old(self).image.height ==> r is None && *final(self) == *old(self),
            old(self).row < old(self).image.height ==> (r matches Some(s) && s@.len()
                == old(self).image.width && (forall|x: int|
                #![auto]
                0 <= x < old(self).image.width ==> s@[x] == old(self).image.pixel(
                    x,
                    old(self).row as int,
                )) && final(self).row == old(self).row + 1),
    {
        if self.row >= self.image.height() {
            None
        } else {
            proof {
                vstd::std_specs::vec::axiom_spec_len(&self.image.source);
                assert((self.row as int) * self.image.stride + self.image.width <= self.image.stride
                    * self.image.height) by (nonlinear_arith)
                    requires
                        (self.row as int) < self.image.height as int,
                        self.image.width <= self.image.stride,
                ;
            }
            let start: usize = self.row * self.image.stride();
            let end: usize = start + self.image.width();
            let s: &'a [Pixel] = slice_subrange(self.image.source.as_slice(), start, end);
            self.row = self.row + 1;
            Some(s)
        }
    }
}

/// Walks every position of an image in row-major order, for callers that
/// mutate pixels one by one through [`Image::set`].
pub struct IterMut {
    /// The next column to visit.
    pub x: usize,
    /// The next row to visit.
    pub y: usize,
    /// The image's width when the walk started.
    pub width: usize,
    /// The image's height when the walk started.
    pub height: usize,
}

impl IterMut {
    /// Well-formedness of the walk state.
    pub open spec fn wf(self) -> bool {
        (self.x < self.width || (self.x == 0 && self.width == 0)) && self.y <= self.height
    }

    /// Starts a walk over `image`'s positions at `(0, 0)`.
    pub fn new<Pixel>(image: &Image<Pixel>) -> (r: Self)
        ensures
            r == (IterMut { x: 0, y: 0, width: image.width, height: image.height }),
            r.wf(),
    {
        IterMut { x: 0, y: 0, width: image.width(), height: image.height() }
    }

    /// The next position `[x, y]` in row-major order, or `None` once every
    /// position has been visited.
    pub fn next(&mut self) -> (r: Option<[usize; 2]>)
        requires
            old(self).wf(),
        ensures
            final(self).wf(),
            final(self).width == old(self).width,
            final(self).height == old(self).height,
            (old(self).width == 0 || old(self).y >= old(self).height) ==> r is None && *final(self)
                == *old(self),
            !(old(self).width == 0 || old(self).y >= old(self).height) ==> (r == Some(
                [old(self).x, old(self).y],
            ) && (old(self).x + 1 < old(self).width ==> final(self).x == old(self).x + 1
                && final(self).y == old(self).y) && (old(self).x + 1 >= old(self).width
                ==> final(self).x == 0 && final(self).y == old(self).y + 1)),
    {
        if self.width == 0 || self.y >= self.height {
            None
        } else {
            let r: [usize; 2] = [self.x, self.y];
            if self.x + 1 < self.width {
                self.x = self.x + 1;
            } else {
                self.x = 0;
                self.y = self.y + 1;
            }
            Some(r)
        }
    }
}

/// Walks the rows of an image from top to bottom, yielding each row's
/// `[start, end)` element range in the backing storage, for callers that
/// mutate a row's pixels through [`Image::set_index`].
pub struct IterRowsMut {
    /// The next row to yield.
    pub row: usize,
    /// The image's width when the walk started.
    pub width: usize,
    /// The image's height when the walk started.
    pub height: usize,
    /// The image's stride when the walk started.
    pub stride: usize,
}

impl IterRowsMut {
    /// Well-formedness: the geometry came from a well-formed image, so each
    /// row range fits in `usize`.
    pub open spec fn wf(self) -> bool {
        self.width <= self.stride && self.stride * self.height <= usize::MAX
    }

    /// Starts at row 0 over `image`'s geometry.
    pub fn new<Pixel>(image: &Image<Pixel>) -> (r: Self)
        requires
            image.wf(),
        ensures
            r == (IterRowsMut {
                row: 0,
                width: image.width,
                height: image.height,
                stride: image.stride,
            }),
            r.wf(),
    {
        proof {
            vstd::std_specs::vec::axiom_spec_len(&image.source);
        }
        IterRowsMut { row: 0, width: image.width(), height: image.height(), stride: image.stride() }
    }

    /// The next row's element range `(start, end)` with
    /// `start == row * stride` and `end == start + width`, or `None` once
    /// all rows have been yielded.
    pub fn next(&mut self) -> (r: Option<(usize, usize)>)
        requires
            old(self).wf(),
        ensures
            final(self).wf(),
            final(self).width == old(self).width,
            final(self).height == old(self).height,
            final(self).stride == old(self).stride,
            old(self).row >= old(self).height ==> r is None && *final(self) == *old(self),
            old(self).row < old(self).height ==> (r == Some(
                ((old(self).row * old(self).stride) as usize, (old(self).row * old(self).stride
                    + old(self).width) as usize),
            ) && final(self).row == old(self).row + 1),
    {
        if self.row >= self.height {
            None
        } else {
            proof {
                assert((self.row as int) * self.stride + self.width <= self.stride
                    * self.height) by (nonlinear_arith)
                    requires
                        (self.row as int) < self.height as int,
                        self.width <= self.stride,
                ;
            }
            let start: usize = self.row * self.stride;
            let end: usize = start + self.width;
            self.row = self.row + 1;
            Some((start, end))
        }
    }
}

impl<Pixel> Image<Pixel> {
    /// A pixel iterator over this image; see [`Iter`].
    pub fn iter(&self) -> (r: Iter<'_, Pixel>)
        requires
            self.wf(),
        ensures
            r.image == self,
            r.wf(),
            self.is_empty_image() ==> r.idx is None,
            !self.is_empty_image() ==> r.idx == Some(0usize),
    {
        Iter::new(self)
    }

    /// A row iterator over this image; see [`IterRows`].
    pub fn iter_rows(&self) -> (r: IterRows<'_, Pixel>)
        ensures
            r.image == self,
            r.row == 0,
    {
        IterRows::new(self)
    }

    /// A position walk over this image for pixel-by-pixel mutation; see
    /// [`IterMut`].
    pub fn iter_mut(&self) -> (r: IterMut)
        ensures
            r == (IterMut { x: 0, y: 0, width: self.width, height: self.height }),
    {
        IterMut::new(self)
    }

    /// A row-range walk over this image for row-by-row mutation; see
    /// [`IterRowsMut`].
    pub fn iter_rows_mut(&self) -> (r: IterRowsMut)
        requires
            self.wf(),
        ensures
            r == (IterRowsMut {
                row: 0,
                width: self.width,
                height: self.height,
                stride: self.stride,
            }),
            r.wf(),
    {
        IterRowsMut::new(self)
    }
}

} // verus!
