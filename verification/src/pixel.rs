//! Fixed-size pixel values with a stable byte representation. The byte
//! cursor treats a pixel buffer as a flat byte stream: the stream is the
//! concatenation of each element's bytes. A type implementing [`PixelBytes`]
//! supplies that representation explicitly, one byte at a time, which is
//! only sound for types whose in-memory size is fixed and fully determined
//! by their value.

use vstd::prelude::*;

verus! {

/// A fixed-size pixel value that can be read and written byte by byte.
pub trait PixelBytes: Sized + Copy {
    /// The number of bytes of one pixel.
    spec fn spec_size() -> nat;

    /// The byte representation of this pixel.
    spec fn bytes(self) -> Seq<u8>;

    /// A pixel occupies at least one byte.
    proof fn lemma_size_positive()
        ensures
            Self::spec_size() >= 1,
    ;

    /// One pixel occupies exactly `spec_size()` bytes.
    proof fn lemma_bytes_len(self)
        ensures
            self.bytes().len() == Self::spec_size(),
    ;

    /// The byte representation determines the pixel: equal bytes mean equal
    /// pixels.
    proof fn lemma_bytes_injective(a: Self, b: Self)
        ensures
            a.bytes() == b.bytes() ==> a == b,
    ;

    /// The size in bytes of one pixel.
    fn size() -> (n: usize)
        ensures
            n == Self::spec_size(),
            1 <= n,
    ;

    /// The byte at offset `k` of this pixel's representation.
    fn byte_at(self, k: usize) -> (b: u8)
        requires
            k < Self::spec_size(),
        ensures
            b == self.bytes()[k as int],
    ;

    /// This pixel with byte `k` of its representation replaced by `b`.
    fn with_byte(self, k: usize, b: u8) -> (r: Self)
        requires
            k < Self::spec_size(),
        ensures
            r.bytes() == self.bytes().update(k as int, b),
    ;
}

impl PixelBytes for u8 {
    open spec fn spec_size() -> nat {
        1
    }

    open spec fn bytes(self) -> Seq<u8> {
        seq![self]
    }

    proof fn lemma_size_positive() {
    }

    proof fn lemma_bytes_len(self) {
    }

    proof fn lemma_bytes_injective(a: Self, b: Self) {
        if a.bytes() == b.bytes() {
            assert(a.bytes()[0] == b.bytes()[0]);
        }
    }

    fn size() -> (n: usize) {
        1
    }

    fn byte_at(self, k: usize) -> (b: u8) {
        self
    }

    fn with_byte(self, k: usize, b: u8) -> (r: Self) {
        proof {
            assert(self.bytes().update(k as int, b) =~= seq![b]);
        }
        b
    }
}

/// A three-channel, three-byte pixel: red, green, blue.
#[derive(Clone, Copy, PartialEq, Eq, Structural, Debug)]
pub struct Rgb {
    /// The red channel.
    pub r: u8,
    /// The green channel.
    pub g: u8,
    /// The blue channel.
    pub b: u8,
}

impl Rgb {
    /// Packs three channel values into a pixel.
    pub fn new(r: u8, g: u8, b: u8) -> (p: Rgb)
        ensures
            p == (Rgb { r, g, b }),
    {
        Rgb { r, g, b }
    }
}

impl PixelBytes for Rgb {
    open spec fn spec_size() -> nat {
        3
    }

    open spec fn bytes(self) -> Seq<u8> {
        seq![self.r, self.g, self.b]
    }

    proof fn lemma_size_positive() {
    }

    proof fn lemma_bytes_len(self) {
    }

    proof fn lemma_bytes_injective(a: Self, b: Self) {
        if a.bytes() == b.bytes() {
            assert(a.bytes()[0] == b.bytes()[0]);
            assert(a.bytes()[1] == b.bytes()[1]);
            assert(a.bytes()[2] == b.bytes()[2]);
        }
    }

    fn size() -> (n: usize) {
        3
    }

    fn byte_at(self, k: usize) -> (b: u8) {
        if k == 0 {
            self.r
        } else if k == 1 {
            self.g
        } else {
            self.b
        }
    }

    fn with_byte(self, k: usize, b: u8) -> (r: Self) {
        let p: Rgb = if k == 0 {
            Rgb { r: b, g: self.g, b: self.b }
        } else if k == 1 {
            Rgb { r: self.r, g: b, b: self.b }
        } else {
            Rgb { r: self.r, g: self.g, b }
        };
        proof {
            assert(p.bytes() =~= self.bytes().update(k as int, b));
        }
        p
    }
}

} // verus!
