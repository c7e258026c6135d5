use vstd::prelude::*;

verus! {

/// Rectangular bounds defined by a width and height, in pixels.
#[derive(Copy, Clone, Debug)]
pub struct Size {
    pub w: usize,
    pub h: usize,
}

impl Size {
    /// The number of bytes that an image of this size occupies at `stride` bytes per pixel.
    pub open spec fn bytes(&self, stride: int) -> int {
        self.w * self.h * stride
    }

    /// The smaller of two extents.
    pub open spec fn lesser(a: usize, b: usize) -> usize {
        if a <= b {
            a
        } else {
            b
        }
    }

    /// The size of the image, `w` pixels wide, that `len` bytes hold at `stride`
    /// bytes per pixel: its height is the number of whole rows.
    pub open spec fn of_len(len: int, w: int, stride: int) -> Size {
        Size { w: w as usize, h: ((len / stride) / w) as usize }
    }

    /// Derive the size of an image from its raw bytes, its width and its stride.
    /// The height is the number of whole rows that `buffer` holds, so the
    /// returned size never describes more bytes than `buffer` has.
    pub fn new(buffer: &[u8], w: usize, stride: usize) -> (size: Self)
        requires
            w > 0,
            stride > 0,
        ensures
            size == Self::of_len(buffer@.len() as int, w as int, stride as int),
            size.w == w,
            size.h == (buffer@.len() as int / stride as int) / w as int,
            size.bytes(stride as int) <= buffer@.len(),
    {
        Self::from_len(buffer.len(), w, stride)
    }

    /// Derive the size of an image from the length of its raw bytes, its width
    /// and its stride.
    pub fn from_len(len: usize, w: usize, stride: usize) -> (size: Self)
        requires
            w > 0,
            stride > 0,
        ensures
            size == Self::of_len(len as int, w as int, stride as int),
            size.w == w,
            size.h == (len as int / stride as int) / w as int,
            size.bytes(stride as int) <= len,
    {
        let pixels: usize = len / stride;
        let h: usize = pixels / w;
        proof {
            lemma_rows_fit(len as int, w as int, stride as int);
        }
        Self { w, h }
    }

    /// Clip the width and height to be within the bounds of `other`.
    pub fn clip(&mut self, other: &Self)
        ensures
            final(self).w == Self::lesser(old(self).w, other.w),
            final(self).h == Self::lesser(old(self).h, other.h),
    {
        if other.w < self.w {
            self.w = other.w;
        }
        if other.h < self.h {
            self.h = other.h;
        }
    }
}

impl Default for Size {
    fn default() -> (size: Self)
        ensures
            size.w == 0,
            size.h == 0,
    {
        Size { w: 0, h: 0 }
    }
}

/// A buffer that holds exactly `h` rows of `w` pixels has the size `w` by `h`.
pub proof fn lemma_of_len_exact(w: usize, h: usize, stride: usize)
    requires
        w > 0,
        stride > 0,
    ensures
        Size::of_len(w * h * stride, w as int, stride as int) == (Size { w, h }),
{
    let pixels = w * h;
    assert(0 <= pixels && w * h * stride == pixels * stride && pixels == h * w) by (nonlinear_arith)
        requires
            pixels == w * h,
    ;
    vstd::arithmetic::div_mod::lemma_fundamental_div_mod_converse(
        pixels * stride,
        stride as int,
        pixels as int,
        0,
    );
    vstd::arithmetic::div_mod::lemma_fundamental_div_mod_converse(
        pixels as int,
        w as int,
        h as int,
        0,
    );
}

/// The whole rows of whole pixels counted out of `len` bytes never need more than `len` bytes.
pub proof fn lemma_rows_fit(len: int, w: int, stride: int)
    requires
        0 <= len,
        0 < w,
        0 < stride,
    ensures
        0 <= (len / stride) / w,
        w * ((len / stride) / w) * stride <= len,
{
    let pixels = len / stride;
    let h = pixels / w;
    vstd::arithmetic::div_mod::lemma_fundamental_div_mod(len, stride);
    vstd::arithmetic::div_mod::lemma_fundamental_div_mod(pixels, w);
    vstd::arithmetic::div_mod::lemma_mod_bound(len, stride);
    vstd::arithmetic::div_mod::lemma_mod_bound(pixels, w);
    assert(0 <= pixels && pixels * stride <= len) by (nonlinear_arith)
        requires
            len == stride * pixels + len % stride,
            0 <= len % stride < stride,
            0 <= len,
            0 < stride,
    ;
    assert(0 <= h && w * h <= pixels) by (nonlinear_arith)
        requires
            pixels == w * h + pixels % w,
            0 <= pixels % w < w,
            0 <= pixels,
            0 < w,
    ;
    assert(w * h * stride <= len) by (nonlinear_arith)
        requires
            w * h <= pixels,
            pixels * stride <= len,
            0 < stride,
    ;
}

} // verus!
