//! A byte-stream cursor over an image. The cursor holds a byte offset into
//! the storage-as-bytes view of the buffer and offers linear read, write and
//! seek operations that respect row boundaries: a read or write never copies
//! past the end of a row's `width` pixels, and advancing past a row end
//! skips the padding gap to the start of the next row, mirroring the
//! index-level padding-skip rule at byte granularity.

use vstd::arithmetic::div_mod::{
    lemma_fundamental_div_mod, lemma_fundamental_div_mod_converse_div,
    lemma_fundamental_div_mod_converse_mod, lemma_mod_bound,
};
use vstd::prelude::*;

use crate::image::Image;
use crate::pixel::PixelBytes;

verus! {

/// The flat byte stream of an image's whole storage: byte `o` is byte
/// `o % size` of storage element `o / size`.
pub open spec fn storage_byte<Pixel: PixelBytes>(image: Image<Pixel>, o: int) -> u8 {
    image.source@[o / (Pixel::spec_size() as int)].bytes()[o % (Pixel::spec_size() as int)]
}

/// Whether stream byte `o` belongs to a padding column: its storage element
/// sits at a column in `[width, stride)` of its row.
pub open spec fn is_padding_byte<Pixel: PixelBytes>(image: Image<Pixel>, o: int) -> bool {
    (o / (Pixel::spec_size() as int)) % (image.stride as int) >= image.width
}

/// The byte offset just past the last row: `stride * height * size`.
pub open spec fn stream_end<Pixel: PixelBytes>(image: Image<Pixel>) -> int {
    image.stride * image.height * (Pixel::spec_size() as int)
}

/// The number of logical (non-padding) bytes: `width * height * size`.
pub open spec fn logical_size<Pixel: PixelBytes>(image: Image<Pixel>) -> int {
    image.width * image.height * (Pixel::spec_size() as int)
}

/// The logical byte stream of an image: the bytes of its `width * height`
/// pixels in row-major order, with every padding column skipped.
pub open spec fn logical_bytes<Pixel: PixelBytes>(image: Image<Pixel>) -> Seq<u8> {
    Seq::new(
        logical_size(image) as nat,
        |k: int|
            {
                let sz = Pixel::spec_size() as int;
                let p = k / sz;
                let e = (p / (image.width as int)) * image.stride + p % (image.width as int);
                image.source@[e].bytes()[k % sz]
            },
    )
}

/// Replacing byte `j` of the pixel element `e` changes exactly logical byte
/// `k` of the stream, where `(e, j)` is where logical byte `k` lives, and
/// leaves every other logical byte as it was.
proof fn lemma_write_one_logical_byte<Pixel: PixelBytes>(
    before: Image<Pixel>,
    after: Image<Pixel>,
    k: int,
    e: int,
    j: int,
    b: u8,
)
    requires
        before.wf(),
        1 <= before.width,
        1 <= before.height,
        after.width == before.width,
        after.height == before.height,
        after.stride == before.stride,
        0 <= k < logical_size(before),
        e == ((k / (Pixel::spec_size() as int)) / (before.width as int)) * before.stride + (k / (
        Pixel::spec_size() as int)) % (before.width as int),
        j == k % (Pixel::spec_size() as int),
        0 <= e < before.source@.len(),
        after.source@ == before.source@.update(e, after.source@[e]),
        after.source@[e].bytes() == before.source@[e].bytes().update(j, b),
    ensures
        logical_bytes(after)[k] == b,
        forall|m: int| #![auto]
            0 <= m < logical_size(before) && m != k ==> logical_bytes(after)[m] == logical_bytes(
                before,
            )[m],
{
    let sz = Pixel::spec_size() as int;
    let w = before.width as int;
    let h = before.height as int;
    let st = before.stride as int;
    Pixel::lemma_size_positive();
    Pixel::lemma_bytes_len(before.source@[e]);
    Pixel::lemma_bytes_len(after.source@[e]);
    let p = k / sz;
    let y = p / w;
    let x = p % w;
    lemma_fundamental_div_mod(k, sz);
    lemma_mod_bound(k, sz);
    lemma_fundamental_div_mod(p, w);
    lemma_mod_bound(p, w);
    assert(p < w * h) by (nonlinear_arith)
        requires
            k == sz * p + k % sz,
            0 <= k % sz < sz,
            k < w * h * sz,
            1 <= sz,
    ;
    assert(y < h) by (nonlinear_arith)
        requires
            p == w * y + x,
            0 <= x < w,
            p < w * h,
            1 <= w,
    ;
    crate::image::lemma_position_index_round_trip(before, x, y);
    assert(logical_bytes(after)[k] == after.source@[e].bytes()[j]);
    assert(after.source@[e].bytes()[j] == b);
    assert forall|m: int| 0 <= m < logical_size(before) && m != k implies logical_bytes(after)[m]
        == logical_bytes(before)[m] by {
        let p2 = m / sz;
        let j2 = m % sz;
        let y2 = p2 / w;
        let x2 = p2 % w;
        lemma_fundamental_div_mod(m, sz);
        lemma_mod_bound(m, sz);
        lemma_fundamental_div_mod(p2, w);
        lemma_mod_bound(p2, w);
        assert(p2 < w * h) by (nonlinear_arith)
            requires
                m == sz * p2 + j2,
                0 <= j2 < sz,
                m < w * h * sz,
                1 <= sz,
        ;
        assert(y2 < h) by (nonlinear_arith)
            requires
                p2 == w * y2 + x2,
                0 <= x2 < w,
                p2 < w * h,
                1 <= w,
        ;
        let e2 = y2 * st + x2;
        crate::image::lemma_cell_in_storage(w, h, st, x2, y2);
        assert(logical_bytes(after)[m] == after.source@[e2].bytes()[j2]);
        assert(logical_bytes(before)[m] == before.source@[e2].bytes()[j2]);
        if e2 == e {
            crate::image::lemma_position_index_round_trip(before, x2, y2);
            assert(x2 == x && y2 == y);
            assert(p2 == p);
            assert(j2 != j);
            assert(after.source@[e].bytes()[j2] == before.source@[e].bytes()[j2]);
        } else {
            assert(after.source@[e2] == before.source@[e2]);
        }
    }
}

/// A byte-stream cursor over an owned image.
pub struct ImageCursor<Pixel> {
    /// The image the cursor streams.
    pub image: Image<Pixel>,
    /// The current byte offset into the storage-as-bytes view.
    pub index: usize,
}

impl<Pixel: PixelBytes> ImageCursor<Pixel> {
    /// Well-formedness: the image is well formed and its storage's byte
    /// count is representable.
    pub open spec fn wf(self) -> bool {
        self.image.wf() && self.image.source@.len() * (Pixel::spec_size() as int) <= usize::MAX
    }

    /// The row that stream byte `o` belongs to.
    pub open spec fn row_of(self, o: int) -> int {
        o / (self.image.stride * Pixel::spec_size())
    }

    /// The end of the readable byte range of the row that `o` belongs to:
    /// the bytes of the row's pixels stop `width` pixels after the row
    /// start even though the storage continues into padding.
    pub open spec fn row_readable_end(self, o: int) -> int {
        (self.row_of(o) * self.image.stride + self.image.width) * (Pixel::spec_size() as int)
    }

    /// The byte offset of the start of the row after the one `o` belongs
    /// to.
    pub open spec fn next_row_start(self, o: int) -> int {
        (self.row_of(o) + 1) * self.image.stride * (Pixel::spec_size() as int)
    }

    /// Wraps an image in a cursor positioned at byte offset 0.
    pub fn new(image: Image<Pixel>) -> (r: Self)
        ensures
            r.image == image,
            r.index == 0,
    {
        ImageCursor { image, index: 0 }
    }

    /// A shared view of the wrapped image.
    pub fn image(&self) -> (r: &Image<Pixel>)
        ensures
            r == &self.image,
    {
        &self.image
    }

    /// The current byte offset.
    pub fn index(&self) -> (r: usize)
        ensures
            r == self.index,
    {
        self.index
    }

    /// Consumes the cursor and hands the image back.
    pub fn into_image(self) -> (r: Image<Pixel>)
        ensures
            r == self.image,
    {
        self.image
    }

    /// Does nothing: the cursor buffers nothing.
    pub fn flush(&mut self)
        ensures
            *final(self) == *old(self),
    {
    }

    /// Moves the byte offset. `Start(n)` seeks to `n`; `End(d)` seeks to
    /// `width*height*size + d`; `Current(d)` seeks to `index + d`. Fails,
    /// and leaves the cursor unchanged, exactly when the requested offset is
    /// negative or not representable.
    pub fn seek(&mut self, pos: SeekFrom) -> (r: Result<usize, SeekOutOfRange>)
        requires
            old(self).wf(),
        ensures
            final(self).image == old(self).image,
            r matches Ok(i) ==> final(self).index == i && i == seek_target(*old(self), pos),
            r matches Err(e) ==> *final(self) == *old(self) && e.offset == seek_target(
                *old(self),
                pos,
            ),
            r is Ok <==> 0 <= seek_target(*old(self), pos) <= usize::MAX,
    {
        let target: i128 = match pos {
            SeekFrom::Start(n) => n as i128,
            SeekFrom::End(d) => {
                let logical: usize = self.logical_len();
                logical as i128 + d as i128
            },
            SeekFrom::Current(d) => self.index as i128 + d as i128,
        };
        if target < 0 || target > usize::MAX as i128 {
            Err(SeekOutOfRange { offset: target })
        } else {
            self.index = target as usize;
            Ok(self.index)
        }
    }

    /// Reads bytes from the stream into the front of `buf`, returning how
    /// many were copied. A read stops at the readable end of the current
    /// row, `row_start + width * size`, and never hands out a padding byte;
    /// a read that reaches the row end advances the offset past the padding
    /// gap to the start of the next row. Past `stride * height * size`, or
    /// on an image with no pixels, a read returns 0 and moves nothing.
    pub fn read(&mut self, buf: &mut Vec<u8>) -> (n: usize)
        requires
            old(self).wf(),
        ensures
            final(self).image == old(self).image,
            final(buf)@.len() == old(buf)@.len(),
            n <= final(buf)@.len(),
            forall|k: int| #![auto] n <= k < final(buf)@.len() ==> final(buf)@[k] == old(buf)@[k],
            (old(self).image.is_empty_image() || old(self).index >= stream_end(old(self).image))
                ==> n == 0 && *final(self) == *old(self) && final(buf)@ == old(buf)@,
            (!old(self).image.is_empty_image() && old(self).index < stream_end(old(self).image)
                && old(self).index >= old(self).row_readable_end(old(self).index as int)) ==> n == 0
                && final(self).index == old(self).next_row_start(old(self).index as int) && final(buf)@
                == old(buf)@,
            (!old(self).image.is_empty_image() && old(self).index < stream_end(old(self).image)
                && old(self).index < old(self).row_readable_end(old(self).index as int)) ==> ({
                let rem = old(self).row_readable_end(old(self).index as int) - old(self).index;
                &&& n == vstd::math::min(final(buf)@.len() as int, rem)
                &&& (forall|k: int| #![auto]
                    0 <= k < n ==> final(buf)@[k] == storage_byte(
                        old(self).image,
                        old(self).index + k,
                    ))
                &&& (forall|o: int| #![auto]
                    old(self).index <= o < old(self).index + n ==> !is_padding_byte(
                        old(self).image,
                        o,
                    ))
                &&& final(self).index == if final(buf)@.len() < rem {
                    old(self).index + final(buf)@.len()
                } else {
                    old(self).next_row_start(old(self).index as int)
                }
            }),
    {
        let ghost orig = *self;
        let ghost obuf = buf@;
        let s: usize = Pixel::size();
        let w: usize = self.image.width();
        let h: usize = self.image.height();
        let st: usize = self.image.stride();
        if w == 0 || h == 0 {
            return 0;
        }
        proof {
            vstd::std_specs::vec::axiom_spec_len(&self.image.source);
            assert(st * h * s <= self.image.source@.len() * s && st * s <= st * h * s && 1 <= st
                * s) by (nonlinear_arith)
                requires
                    st * h <= self.image.source@.len(),
                    1 <= s,
                    1 <= h,
                    1 <= w <= st,
            ;
        }
        let row_bytes: usize = st * s;
        let limit: usize = st * h * s;
        if self.index >= limit {
            return 0;
        }
        let row: usize = self.index / row_bytes;
        proof {
            lemma_fundamental_div_mod(self.index as int, row_bytes as int);
            lemma_mod_bound(self.index as int, row_bytes as int);
            assert(row < h && row * st + w <= st * h && (row + 1) * st <= st * h && (row * st + w)
                * s <= st * h * s && (row + 1) * st * s <= st * h * s && (row * st + w) * s <= (row
                + 1) * st * s) by (nonlinear_arith)
                requires
                    self.index as int == (st * s) * (row as int) + self.index as int % (st
                        * s as int),
                    0 <= self.index as int % (st * s as int) < st * s,
                    (self.index as int) < st * h * s,
                    1 <= w <= st,
                    1 <= h,
                    1 <= s,
            ;
        }
        let rend: usize = (row * st + w) * s;
        if self.index >= rend {
            let next: usize = (row + 1) * st * s;
            self.index = next;
            return 0;
        }
        let rem: usize = rend - self.index;
        let count: usize = if buf.len() < rem {
            buf.len()
        } else {
            rem
        };
        let start: usize = self.index;
        let mut k: usize = 0;
        while k < count
            invariant
                self.wf(),
                *self == orig,
                s == Pixel::spec_size(),
                1 <= s,
                k <= count,
                count <= buf@.len(),
                buf@.len() == obuf.len(),
                start + count <= rend,
                rend <= st * h * s,
                st == self.image.stride,
                h == self.image.height,
                st * h * s <= self.image.source@.len() * s,
                forall|j: int| #![auto] 0 <= j < k ==> buf@[j] == storage_byte(
                    orig.image,
                    start + j,
                ),
                forall|j: int| #![auto] k <= j < buf@.len() ==> buf@[j] == obuf[j],
            decreases count - k,
        {
            let o: usize = start + k;
            let e: usize = o / s;
            let j: usize = o % s;
            proof {
                lemma_fundamental_div_mod(o as int, s as int);
                lemma_mod_bound(o as int, s as int);
                assert((e as int) < self.image.source@.len()) by (nonlinear_arith)
                    requires
                        o as int == (s as int) * (e as int) + (j as int),
                        0 <= j < s,
                        (o as int) < self.image.source@.len() * s,
                        1 <= s,
                ;
            }
            let px: Pixel = self.image.source[e];
            let b: u8 = px.byte_at(j);
            buf.set(k, b);
            k = k + 1;
        }
        if count == rem {
            self.index = (row + 1) * st * s;
        } else {
            self.index = start + count;
        }
        proof {
            assert forall|o: int| start <= o < start + count implies !is_padding_byte(
                orig.image,
                o,
            ) by {
                let sz = s as int;
                let e = o / sz;
                lemma_fundamental_div_mod(o, sz);
                lemma_mod_bound(o, sz);
                lemma_fundamental_div_mod(start as int, (st * s) as int);
                lemma_mod_bound(start as int, (st * s) as int);
                assert((row as int) * st <= e && e < (row as int) * st + w) by (nonlinear_arith)
                    requires
                        o == sz * e + o % sz,
                        0 <= o % sz < sz,
                        start as int == (st * sz) * (row as int) + start as int % (st * sz),
                        0 <= start as int % (st * sz),
                        start <= o,
                        o < (row as int * st + w) * sz,
                        1 <= sz,
                        1 <= w <= st,
                ;
                lemma_fundamental_div_mod_converse_mod(
                    e,
                    st as int,
                    row as int,
                    e - (row as int) * st,
                );
            }
        }
        count
    }

    /// Writes bytes from the front of `buf` into the stream, returning how
    /// many were copied. A write stops at the readable end of the current
    /// row and never touches a padding byte; a write that reaches the row
    /// end advances the offset past the padding gap to the start of the
    /// next row. Past `stride * height * size`, or on an image with no
    /// pixels, a write returns 0 and moves nothing.
    pub fn write(&mut self, buf: &Vec<u8>) -> (n: usize)
        requires
            old(self).wf(),
        ensures
            final(self).image.width == old(self).image.width,
            final(self).image.height == old(self).image.height,
            final(self).image.stride == old(self).image.stride,
            final(self).image.source@.len() == old(self).image.source@.len(),
            final(self).wf(),
            n <= buf@.len(),
            (old(self).image.is_empty_image() || old(self).index >= stream_end(old(self).image))
                ==> n == 0 && *final(self) == *old(self),
            (!old(self).image.is_empty_image() && old(self).index < stream_end(old(self).image)
                && old(self).index >= old(self).row_readable_end(old(self).index as int)) ==> n == 0
                && final(self).index == old(self).next_row_start(old(self).index as int)
                && final(self).image == old(self).image,
            (!old(self).image.is_empty_image() && old(self).index < stream_end(old(self).image)
                && old(self).index < old(self).row_readable_end(old(self).index as int)) ==> ({
                let rem = old(self).row_readable_end(old(self).index as int) - old(self).index;
                &&& n == vstd::math::min(buf@.len() as int, rem)
                &&& final(self).index == if buf@.len() < rem {
                    old(self).index + buf@.len()
                } else {
                    old(self).next_row_start(old(self).index as int)
                }
                &&& (forall|p: int| #![auto]
                    old(self).index <= p < old(self).index + n ==> storage_byte(
                        final(self).image,
                        p,
                    ) == buf@[p - old(self).index])
                &&& (forall|p: int| #![auto]
                    0 <= p < old(self).image.source@.len() * (Pixel::spec_size() as int) && !(old(
                        self,
                    ).index <= p < old(self).index + n) ==> storage_byte(final(self).image, p)
                        == storage_byte(old(self).image, p))
                &&& (forall|p: int| #![auto]
                    old(self).index <= p < old(self).index + n ==> !is_padding_byte(
                        old(self).image,
                        p,
                    ))
            }),
    {
        let ghost orig = *self;
        let s: usize = Pixel::size();
        let w: usize = self.image.width();
        let h: usize = self.image.height();
        let st: usize = self.image.stride();
        if w == 0 || h == 0 {
            return 0;
        }
        proof {
            vstd::std_specs::vec::axiom_spec_len(&self.image.source);
            assert(st * h * s <= self.image.source@.len() * s && st * s <= st * h * s && 1 <= st
                * s) by (nonlinear_arith)
                requires
                    st * h <= self.image.source@.len(),
                    1 <= s,
                    1 <= h,
                    1 <= w <= st,
            ;
        }
        let row_bytes: usize = st * s;
        let limit: usize = st * h * s;
        if self.index >= limit {
            return 0;
        }
        let row: usize = self.index / row_bytes;
        proof {
            lemma_fundamental_div_mod(self.index as int, row_bytes as int);
            lemma_mod_bound(self.index as int, row_bytes as int);
            assert(row < h && row * st + w <= st * h && (row + 1) * st <= st * h && (row * st + w)
                * s <= st * h * s && (row + 1) * st * s <= st * h * s && (row * st + w) * s <= (row
                + 1) * st * s) by (nonlinear_arith)
                requires
                    self.index as int == (st * s) * (row as int) + self.index as int % (st
                        * s as int),
                    0 <= self.index as int % (st * s as int) < st * s,
                    (self.index as int) < st * h * s,
                    1 <= w <= st,
                    1 <= h,
                    1 <= s,
            ;
        }
        let rend: usize = (row * st + w) * s;
        if self.index >= rend {
            let next: usize = (row + 1) * st * s;
            self.index = next;
            return 0;
        }
        let rem: usize = rend - self.index;
        let count: usize = if buf.len() < rem {
            buf.len()
        } else {
            rem
        };
        let start: usize = self.index;
        let ghost total = orig.image.source@.len() * (Pixel::spec_size() as int);
        let mut k: usize = 0;
        while k < count
            invariant
                self.wf(),
                self.index == orig.index,
                self.image.width == orig.image.width,
                self.image.height == orig.image.height,
                self.image.stride == orig.image.stride,
                self.image.source@.len() == orig.image.source@.len(),
                total == orig.image.source@.len() * (Pixel::spec_size() as int),
                s == Pixel::spec_size(),
                1 <= s,
                k <= count,
                count <= buf@.len(),
                start + count <= rend,
                rend <= st * h * s,
                st == self.image.stride,
                h == self.image.height,
                st * h * s <= self.image.source@.len() * s,
                forall|p: int| #![auto] start <= p < start + k ==> storage_byte(self.image, p)
                    == buf@[p - start],
                forall|p: int| #![auto]
                    0 <= p < total && !(start <= p < start + k) ==> storage_byte(self.image, p)
                        == storage_byte(orig.image, p),
            decreases count - k,
        {
            let ghost before_img = self.image;
            let ghost before = self.image.source@;
            let o: usize = start + k;
            let e: usize = o / s;
            let j: usize = o % s;
            proof {
                lemma_fundamental_div_mod(o as int, s as int);
                lemma_mod_bound(o as int, s as int);
                assert((e as int) < self.image.source@.len()) by (nonlinear_arith)
                    requires
                        o as int == (s as int) * (e as int) + (j as int),
                        0 <= j < s,
                        (o as int) < self.image.source@.len() * s,
                        1 <= s,
                ;
            }
            let px: Pixel = self.image.source[e];
            let px2: Pixel = px.with_byte(j, buf[k]);
            self.image.source.set(e, px2);
            proof {
                Pixel::lemma_bytes_len(px);
                let sz = s as int;
                assert forall|p: int| 0 <= p < total && p != o implies storage_byte(self.image, p)
                    == before[p / sz].bytes()[p % sz] by {
                    lemma_fundamental_div_mod(p, sz);
                    lemma_mod_bound(p, sz);
                    assert(0 <= p / sz && p / sz < before.len()) by (nonlinear_arith)
                        requires
                            p == sz * (p / sz) + p % sz,
                            0 <= p % sz < sz,
                            0 <= p,
                            p < before.len() * sz,
                            1 <= sz,
                    ;
                    if p / sz == e {
                        assert(p == sz * e + p % sz && o == sz * e + j as int);
                        assert(p % sz != j as int);
                        assert(self.image.source@[e as int].bytes() == before[e as int].bytes()
                            .update(j as int, buf@[k as int]));
                    } else {
                        assert(self.image.source@[p / sz] == before[p / sz]);
                    }
                }
                assert(storage_byte(self.image, o as int) == buf@[k as int]);
                assert forall|p: int| start <= p < start + k + 1 implies storage_byte(
                    self.image,
                    p,
                ) == buf@[p - start] by {
                    if p == o as int {
                        assert(storage_byte(self.image, p) == buf@[k as int]);
                    } else {
                        assert(0 <= p && p < total);
                        assert(storage_byte(self.image, p) == before[p / (s as int)].bytes()[p % (
                        s as int)]);
                        assert(storage_byte(before_img, p) == before[p / (s as int)].bytes()[p % (
                        s as int)]);
                        assert(storage_byte(before_img, p) == buf@[p - start]);
                    }
                }
                assert forall|p: int|
                    0 <= p < total && !(start <= p < start + k + 1) implies storage_byte(
                    self.image,
                    p,
                ) == storage_byte(orig.image, p) by {
                    assert(storage_byte(self.image, p) == before[p / (s as int)].bytes()[p % (
                    s as int)]);
                }
            }
            k = k + 1;
        }
        if count == rem {
            self.index = (row + 1) * st * s;
        } else {
            self.index = start + count;
        }
        proof {
            assert forall|o: int| start <= o < start + count implies !is_padding_byte(
                orig.image,
                o,
            ) by {
                let sz = s as int;
                let e = o / sz;
                lemma_fundamental_div_mod(o, sz);
                lemma_mod_bound(o, sz);
                lemma_fundamental_div_mod(start as int, (st * s) as int);
                lemma_mod_bound(start as int, (st * s) as int);
                assert((row as int) * st <= e && e < (row as int) * st + w) by (nonlinear_arith)
                    requires
                        o == sz * e + o % sz,
                        0 <= o % sz < sz,
                        start as int == (st * sz) * (row as int) + start as int % (st * sz),
                        0 <= start as int % (st * sz),
                        start <= o,
                        o < (row as int * st + w) * sz,
                        1 <= sz,
                        1 <= w <= st,
                ;
                lemma_fundamental_div_mod_converse_mod(
                    e,
                    st as int,
                    row as int,
                    e - (row as int) * st,
                );
            }
        }
        count
    }

    /// Reads the whole logical byte stream from offset 0: every pixel's
    /// bytes in row-major order, with every padding column skipped, exactly
    /// as repeated row-bounded reads would produce them. The cursor ends at
    /// the stream end.
    pub fn read_into_vec(&mut self) -> (r: Vec<u8>)
        requires
            old(self).wf(),
            old(self).index == 0,
        ensures
            final(self).image == old(self).image,
            final(self).index == stream_end(old(self).image),
            r@ == logical_bytes(old(self).image),
    {
        let ghost orig = *self;
        let s: usize = Pixel::size();
        let w: usize = self.image.width();
        let h: usize = self.image.height();
        let st: usize = self.image.stride();
        proof {
            vstd::std_specs::vec::axiom_spec_len(&self.image.source);
            assert(st * h * s <= self.image.source@.len() * s && w * h <= st * h && w * h * s <= st
                * h * s) by (nonlinear_arith)
                requires
                    st * h <= self.image.source@.len(),
                    1 <= s,
                    0 <= h,
                    0 <= w <= st,
            ;
        }
        let mut out: Vec<u8> = Vec::new();
        if w == 0 || h == 0 {
            proof {
                assert(w * h * s == 0) by (nonlinear_arith)
                    requires
                        w == 0 || h == 0,
                ;
                assert(out@ =~= logical_bytes(orig.image));
            }
            self.index = st * h * s;
            return out;
        }
        let total: usize = w * h * s;
        let mut k: usize = 0;
        while k < total
            invariant
                *self == orig,
                self.wf(),
                s == Pixel::spec_size(),
                1 <= s,
                w == self.image.width,
                h == self.image.height,
                st == self.image.stride,
                1 <= w,
                1 <= h,
                k <= total,
                total == w * h * s,
                total <= self.image.source@.len() * s,
                out@.len() == k,
                forall|m: int| #![auto] 0 <= m < k ==> out@[m] == logical_bytes(orig.image)[m],
            decreases total - k,
        {
            let p: usize = k / s;
            let j: usize = k % s;
            let y: usize = p / w;
            let x: usize = p % w;
            proof {
                lemma_fundamental_div_mod(k as int, s as int);
                lemma_mod_bound(k as int, s as int);
                assert((p as int) < w * h) by (nonlinear_arith)
                    requires
                        k as int == (s as int) * (p as int) + (j as int),
                        0 <= j < s,
                        (k as int) < w * h * s,
                        1 <= s,
                ;
                lemma_fundamental_div_mod(p as int, w as int);
                lemma_mod_bound(p as int, w as int);
                assert((y as int) < h) by (nonlinear_arith)
                    requires
                        p as int == (w as int) * (y as int) + (x as int),
                        0 <= x < w,
                        (p as int) < w * h,
                        1 <= w,
                ;
                crate::image::lemma_cell_in_storage(w as int, h as int, st as int, x as int, y as int);
                vstd::std_specs::vec::axiom_spec_len(&self.image.source);
            }
            let e: usize = y * st + x;
            let px: Pixel = self.image.source[e];
            out.push(px.byte_at(j));
            k = k + 1;
        }
        self.index = st * h * s;
        proof {
            assert(out@ =~= logical_bytes(orig.image));
        }
        out
    }

    /// Writes `data`, a full logical byte stream, into the image from
    /// offset 0: the bytes land on the pixels in row-major order and every
    /// padding element keeps its old value. The cursor ends at the stream
    /// end.
    pub fn write_from_vec(&mut self, data: &Vec<u8>)
        requires
            old(self).wf(),
            old(self).index == 0,
            data@.len() == logical_size(old(self).image),
        ensures
            final(self).image.width == old(self).image.width,
            final(self).image.height == old(self).image.height,
            final(self).image.stride == old(self).image.stride,
            final(self).image.source@.len() == old(self).image.source@.len(),
            final(self).wf(),
            final(self).index == stream_end(old(self).image),
            logical_bytes(final(self).image) == data@,
            forall|e: int| #![auto]
                0 <= e < old(self).image.source@.len() && !old(self).image.is_index(e)
                    ==> final(self).image.source@[e] == old(self).image.source@[e],
    {
        let ghost orig = *self;
        let s: usize = Pixel::size();
        let w: usize = self.image.width();
        let h: usize = self.image.height();
        let st: usize = self.image.stride();
        proof {
            vstd::std_specs::vec::axiom_spec_len(&self.image.source);
            assert(st * h * s <= self.image.source@.len() * s && w * h <= st * h && w * h * s <= st
                * h * s) by (nonlinear_arith)
                requires
                    st * h <= self.image.source@.len(),
                    1 <= s,
                    0 <= h,
                    0 <= w <= st,
            ;
        }
        if w == 0 || h == 0 {
            proof {
                assert(w * h * s == 0) by (nonlinear_arith)
                    requires
                        w == 0 || h == 0,
                ;
                assert(logical_bytes(self.image) =~= data@);
            }
            self.index = st * h * s;
            return ;
        }
        let total: usize = w * h * s;
        let mut k: usize = 0;
        while k < total
            invariant
                self.index == orig.index,
                self.wf(),
                self.image.width == orig.image.width,
                self.image.height == orig.image.height,
                self.image.stride == orig.image.stride,
                self.image.source@.len() == orig.image.source@.len(),
                s == Pixel::spec_size(),
                1 <= s,
                w == self.image.width,
                h == self.image.height,
                st == self.image.stride,
                1 <= w,
                1 <= h,
                k <= total,
                total == w * h * s,
                total == data@.len(),
                total <= self.image.source@.len() * s,
                forall|m: int| #![auto] 0 <= m < k ==> logical_bytes(self.image)[m] == data@[m],
                forall|m: int| #![auto]
                    k <= m < total ==> logical_bytes(self.image)[m] == logical_bytes(orig.image)[m],
                forall|e: int| #![auto]
                    0 <= e < orig.image.source@.len() && !orig.image.is_index(e)
                        ==> self.image.source@[e] == orig.image.source@[e],
            decreases total - k,
        {
            let ghost before_img = self.image;
            let ghost before = self.image.source@;
            let p: usize = k / s;
            let j: usize = k % s;
            let y: usize = p / w;
            let x: usize = p % w;
            proof {
                lemma_fundamental_div_mod(k as int, s as int);
                lemma_mod_bound(k as int, s as int);
                assert((p as int) < w * h) by (nonlinear_arith)
                    requires
                        k as int == (s as int) * (p as int) + (j as int),
                        0 <= j < s,
                        (k as int) < w * h * s,
                        1 <= s,
                ;
                lemma_fundamental_div_mod(p as int, w as int);
                lemma_mod_bound(p as int, w as int);
                assert((y as int) < h) by (nonlinear_arith)
                    requires
                        p as int == (w as int) * (y as int) + (x as int),
                        0 <= x < w,
                        (p as int) < w * h,
                        1 <= w,
                ;
                crate::image::lemma_cell_in_storage(w as int, h as int, st as int, x as int, y as int);
                crate::image::lemma_position_index_round_trip(self.image, x as int, y as int);
                vstd::std_specs::vec::axiom_spec_len(&self.image.source);
            }
            let e: usize = y * st + x;
            let px: Pixel = self.image.source[e];
            let px2: Pixel = px.with_byte(j, data[k]);
            self.image.source.set(e, px2);
            proof {
                Pixel::lemma_bytes_len(px);
                lemma_write_one_logical_byte(
                    before_img,
                    self.image,
                    k as int,
                    e as int,
                    j as int,
                    data@[k as int],
                );
                assert forall|m: int| 0 <= m < k + 1 implies logical_bytes(self.image)[m]
                    == data@[m] by {
                    if m < k {
                        assert(logical_bytes(self.image)[m] == logical_bytes(before_img)[m]);
                        assert(logical_bytes(before_img)[m] == data@[m]);
                    }
                }
                assert forall|m: int| k + 1 <= m < total implies logical_bytes(self.image)[m]
                    == logical_bytes(orig.image)[m] by {
                    assert(logical_bytes(self.image)[m] == logical_bytes(before_img)[m]);
                    assert(logical_bytes(before_img)[m] == logical_bytes(orig.image)[m]);
                }
                assert forall|ee: int|
                    0 <= ee < orig.image.source@.len() && !orig.image.is_index(
                        ee,
                    ) implies self.image.source@[ee] == orig.image.source@[ee] by {
                    assert(orig.image.is_index(e as int));
                    assert(ee != e);
                    assert(self.image.source@[ee] == before[ee]);
                }
            }
            k = k + 1;
        }
        self.index = st * h * s;
        proof {
            assert(logical_bytes(self.image) =~= data@);
        }
    }

    /// The number of logical bytes of the wrapped image,
    /// `width * height * size`.
    pub fn logical_len(&self) -> (r: usize)
        requires
            self.wf(),
        ensures
            r == logical_size(self.image),
    {
        proof {
            Pixel::lemma_size_positive();
            vstd::std_specs::vec::axiom_spec_len(&self.image.source);
            let w = self.image.width as int;
            let h = self.image.height as int;
            let st = self.image.stride as int;
            let sz = Pixel::spec_size() as int;
            let len = self.image.source@.len() as int;
            assert(w * h * sz <= len * sz && 0 <= w * h && w * h <= len) by (nonlinear_arith)
                requires
                    0 <= w <= st,
                    0 <= h,
                    st * h <= len,
                    1 <= sz,
            ;
        }
        let s: usize = Pixel::size();
        self.image.width() * self.image.height() * s
    }
}

/// Where a seek starts from: the stream start, the logical end, or the
/// current offset.
#[derive(Clone, Copy, PartialEq, Eq, Debug)]
pub enum SeekFrom {
    /// An absolute byte offset from the start of the stream.
    Start(u64),
    /// A signed displacement from the logical end, `width*height*size`.
    End(i64),
    /// A signed displacement from the current offset.
    Current(i64),
}

/// A seek asked for an offset that is negative or not representable; the
/// requested offset travels inside the error as the numeric cause.
#[derive(Clone, Copy, PartialEq, Eq, Debug)]
pub struct SeekOutOfRange {
    /// The offset the caller asked for.
    pub offset: i128,
}

/// The byte offset a seek request resolves to, before the representability
/// check.
pub open spec fn seek_target<Pixel: PixelBytes>(cursor: ImageCursor<Pixel>, pos: SeekFrom) -> int {
    match pos {
        SeekFrom::Start(n) => n as int,
        SeekFrom::End(d) => logical_size(cursor.image) + d,
        SeekFrom::Current(d) => cursor.index + d,
    }
}

impl<Pixel: PixelBytes> Image<Pixel> {
    /// Consumes the image and wraps it in a byte-stream cursor positioned at
    /// offset 0.
    pub fn into_cursor(self) -> (r: ImageCursor<Pixel>)
        ensures
            r.image == self,
            r.index == 0,
    {
        ImageCursor::new(self)
    }
}

/// Law: two well-formed images of equal width and height whose logical byte
/// streams are equal hold exactly the same pixels. Reading a buffer's
/// stream out through a cursor and writing it back into a fresh buffer of
/// the same dimensions therefore reproduces that buffer, pixel for pixel.
pub proof fn lemma_stream_round_trip<Pixel: PixelBytes>(a: Image<Pixel>, b: Image<Pixel>)
    requires
        a.wf(),
        b.wf(),
        a.width == b.width,
        a.height == b.height,
        logical_bytes(a) == logical_bytes(b),
    ensures
        forall|x: int, y: int| #![auto] a.is_pos(x, y) ==> a.pixel(x, y) == b.pixel(x, y),
{
    let sz = Pixel::spec_size() as int;
    let w = a.width as int;
    let h = a.height as int;
    Pixel::lemma_size_positive();
    assert forall|x: int, y: int| a.is_pos(x, y) implies a.pixel(x, y) == b.pixel(x, y) by {
        crate::image::lemma_cell_in_storage(w, h, a.stride as int, x, y);
        crate::image::lemma_cell_in_storage(w, h, b.stride as int, x, y);
        let pa = a.pixel(x, y);
        let pb = b.pixel(x, y);
        Pixel::lemma_bytes_len(pa);
        Pixel::lemma_bytes_len(pb);
        let p = y * w + x;
        assert(0 <= p && p < w * h) by (nonlinear_arith)
            requires
                p == y * w + x,
                0 <= x < w,
                0 <= y < h,
        ;
        lemma_fundamental_div_mod_converse_div(p, w, y, x);
        lemma_fundamental_div_mod_converse_mod(p, w, y, x);
        assert forall|j: int| 0 <= j < sz implies pa.bytes()[j] == pb.bytes()[j] by {
            let k = p * sz + j;
            assert(0 <= k && k < w * h * sz) by (nonlinear_arith)
                requires
                    k == p * sz + j,
                    0 <= p < w * h,
                    0 <= j < sz,
                    1 <= sz,
            ;
            lemma_fundamental_div_mod_converse_div(k, sz, p, j);
            lemma_fundamental_div_mod_converse_mod(k, sz, p, j);
            assert(logical_bytes(a)[k] == a.source@[(p / w) * a.stride + p % w].bytes()[k % sz]);
            assert(logical_bytes(b)[k] == b.source@[(p / w) * b.stride + p % w].bytes()[k % sz]);
            assert(logical_bytes(a)[k] == pa.bytes()[j]);
            assert(logical_bytes(b)[k] == pb.bytes()[j]);
        }
        assert(pa.bytes() =~= pb.bytes());
        Pixel::lemma_bytes_injective(pa, pb);
    }
}

} // verus!
