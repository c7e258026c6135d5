use crate::index_of;
use vstd::prelude::*;

verus! {

/// A destination rect.
/// `(x, y)` is the top-left position of the `Rect`.
#[derive(Copy, Clone, Debug)]
pub struct Rect {
    pub x: usize,
    pub y: usize,
    pub w: usize,
    pub h: usize,
}

impl Rect {
    /// The byte offset at which the line of pixels that starts at `(x, y)` starts,
    /// in an image that is as wide as this rect.
    pub open spec fn line_start(&self, stride: int) -> int {
        index_of(self.x as int, self.y as int, self.w as int, stride)
    }

    /// The byte offset at which that line ends, one rect width later.
    pub open spec fn line_end(&self, stride: int) -> int {
        self.line_start(stride) + self.w * stride
    }

    /// Converts `(x, y)` to the start index and the end index of a line of pixels.
    /// `stride` is the number of bytes per pixel.
    /// For example, an RGB24 pixel (3 channels, 1 byte per channel) has a stride of 3.
    /// See `crate::stride` for some stride constants.
    pub fn get_line_indices(&self, stride: usize) -> (range: (usize, usize))
        requires
            self.line_end(stride as int) <= usize::MAX,
        ensures
            range.0 == self.line_start(stride as int),
            range.1 == self.line_end(stride as int),
    {
        if stride == 0 {
            assert(self.line_start(0) == 0 && self.w * 0 == 0) by (nonlinear_arith)
                requires
                    self.line_start(0) == (self.x + self.y * self.w) * 0,
            ;
            return (0, 0);
        }
        let ghost x = self.x as int;
        let ghost y = self.y as int;
        let ghost w = self.w as int;
        let ghost s = stride as int;
        assert(0 <= y * w && x + y * w <= (x + y * w) * s && 0 <= w * s && (x + y * w) * s <= (x
            + y * w) * s + w * s) by (nonlinear_arith)
            requires
                0 <= x,
                0 <= y,
                0 <= w,
                1 <= s,
        ;
        let start: usize = (self.x + self.y * self.w) * stride;
        let end: usize = start + self.w * stride;
        (start, end)
    }
}

} // verus!
