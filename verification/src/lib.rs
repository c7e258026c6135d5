//! Copy a rectangle of pixels into a larger pixel buffer, row by row.
//!
//! Images are flat, row-major byte buffers; `stride` is the number of bytes per
//! pixel. [`clip`] cuts a source down to what lies within the destination,
//! [`DstSlices`] decomposes a placement into one row slot per source row, and
//! [`blit`] copies each source row into its slot. [`blit_thread_ex`] makes the
//! same copy with the rows handed out to threads in chunks.
//!
//! No function here writes outside a buffer, or panics on arguments that meet
//! its `requires`: a placement that does not fit, or a buffer that is shorter
//! than its size says, is refused before any byte moves.
use vstd::prelude::*;

pub mod dst_slices;
pub mod lemmas;
pub mod multi_threaded;
pub mod pixels;
pub mod position;
pub mod rect;
pub mod rows;
pub mod size;
pub mod stride;

pub use dst_slices::DstSlices;
pub use multi_threaded::{blit_multi_threaded, blit_thread_ex, ThreadedBlitParams};
pub use position::{PositionI, PositionU};
pub use rect::Rect;
pub use size::Size;

use dst_slices::{decomposable, row_len, slot_starts};
use pixels::{blit_image, lemma_copied_is_blit_image};
use rows::{copied, lemma_copied_nothing};

verus! {

/// The byte offset of pixel `(x, y)` in a row-major image that is `w` pixels wide.
pub open spec fn index_of(x: int, y: int, w: int, stride: int) -> int {
    (x + y * w) * stride
}

/// Converts a position, width, and stride to an index in a 1D byte slice.
pub fn get_index(x: usize, y: usize, w: usize, stride: usize) -> (index: usize)
    requires
        index_of(x as int, y as int, w as int, stride as int) <= usize::MAX,
    ensures
        index == index_of(x as int, y as int, w as int, stride as int),
{
    if stride == 0 {
        assert(index_of(x as int, y as int, w as int, 0) == 0) by (nonlinear_arith);
        return 0;
    }
    assert(x + y * w <= (x + y * w) * stride && 0 <= y * w) by (nonlinear_arith)
        requires
            stride >= 1,
    ;
    (x + y * w) * stride
}

/// Whether a blit goes ahead: the placement is decomposable into row slots and
/// the source buffer holds the whole source image.
pub open spec fn blittable(
    src_len: nat,
    src_size: Size,
    dst_len: nat,
    position: PositionU,
    dst_size: Size,
    stride: usize,
) -> bool {
    &&& decomposable(dst_len as usize, position, dst_size, src_size, stride)
    &&& src_size.bytes(stride as int) <= src_len
}

/// Blit `src` onto `dst`.
///
/// - `src` and `dst` are flat byte slices of images.
/// - `dst_position` is the top-left position of the region that `src` will blit onto.
/// - `dst_size` and `src_size` are the [`Size`]s of the destination and source images, respectively.
/// - `stride` is the per-pixel stride length. See `crate::stride` for some common stride values.
///
/// Returns true where the copy was made: each source row then lies in its row
/// slot of `dst`, and every other byte of `dst` is as it was. Pixel by pixel,
/// `dst` is then the [`blit_image`] of `src`. Returns false, and
/// leaves `dst` untouched, where the placement is out of bounds, the source
/// overhangs the destination, or a buffer is shorter than its size says.
pub fn blit(
    src: &[u8],
    src_size: &Size,
    dst: &mut [u8],
    dst_position: &PositionU,
    dst_size: &Size,
    stride: usize,
) -> (done: bool)
    ensures
        done == blittable(
            src@.len(),
            *src_size,
            old(dst)@.len(),
            *dst_position,
            *dst_size,
            stride,
        ),
        done ==> copied(
            old(dst)@,
            final(dst)@,
            src@,
            slot_starts(*dst_position, dst_size.w, stride, src_size.h),
            row_len(*src_size, stride),
        ),
        done ==> final(dst)@ == blit_image(
            old(dst)@,
            src@,
            *dst_position,
            dst_size.w,
            *src_size,
            stride,
        ),
        !done ==> final(dst)@ == old(dst)@,
        src_size.w == 0 || src_size.h == 0 ==> final(dst)@ == old(dst)@,
{
    match DstSlices::decompose(dst.len(), dst_position, dst_size, src_size, stride) {
        Some(slots) => {
            proof {
                lemma_row_bytes(*src_size, stride);
            }
            let ghost before = dst@;
            let done = slots.copy(src, dst);
            proof {
                if done {
                    lemma_copied_is_blit_image(
                        before,
                        dst@,
                        src@,
                        *dst_position,
                        *dst_size,
                        *src_size,
                        stride,
                    );
                    if src_size.w == 0 || src_size.h == 0 {
                        lemma_copied_nothing(before, dst@, src@, slots.starts(), slots.row_bytes());
                    }
                }
            }
            done
        },
        None => false,
    }
}

/// The rows of a source, taken together, are the bytes of the source.
pub proof fn lemma_row_bytes(src_size: Size, stride: usize)
    ensures
        src_size.h * row_len(src_size, stride) == src_size.bytes(stride as int),
        src_size.w == 0 ==> row_len(src_size, stride) == 0,
{
    let w = src_size.w as int;
    let h = src_size.h as int;
    let s = stride as int;
    assert(h * (w * s) == w * h * s) by (nonlinear_arith);
    assert(w == 0 ==> w * s == 0) by (nonlinear_arith);
}

/// Whether a source of size `src` placed at `pos` lies wholly beyond the left
/// or the top edge of the destination.
pub open spec fn misses(pos: PositionI, src: Size) -> bool {
    pos.x + src.w < 0 || pos.y + src.h < 0
}

/// Where a placement coordinate lands once the part before the edge is cut off.
pub open spec fn clipped_origin(p: int) -> int {
    if p < 0 {
        0
    } else {
        p
    }
}

/// What is left of `extent` once the part before the edge is cut off.
pub open spec fn clipped_lead(p: int, extent: int) -> int {
    if p >= 0 {
        extent
    } else if extent + p < 0 {
        0
    } else {
        extent + p
    }
}

/// What is left of `extent`, starting at `origin`, once the part beyond `bound` is cut off.
pub open spec fn clipped_trail(origin: int, extent: int, bound: int) -> int {
    if extent <= bound - origin {
        extent
    } else {
        bound - origin
    }
}

/// Whether a source of size `src` placed at `pos` does not lie wholly beyond
/// the left or the top edge, and its placement, once moved to those edges, is
/// a pixel of the destination.
pub open spec fn reaches(pos: PositionI, dst: Size, src: Size) -> bool {
    &&& !misses(pos, src)
    &&& clipped_origin(pos.x as int) < dst.w
    &&& clipped_origin(pos.y as int) < dst.h
}

/// The placement and the source size that clipping a source of size `src`,
/// placed at `pos`, against a destination of size `dst` gives.
///
/// A source that does not reach the destination collapses to an empty size at
/// the origin. Any other source keeps its placement, moved to the edge on an
/// axis where it was negative, and loses what overhangs each of the four edges.
pub open spec fn clipped(pos: PositionI, dst: Size, src: Size) -> (PositionU, Size) {
    let x = clipped_origin(pos.x as int);
    let y = clipped_origin(pos.y as int);
    let w = clipped_lead(pos.x as int, src.w as int);
    let h = clipped_lead(pos.y as int, src.h as int);
    if reaches(pos, dst, src) {
        (
            PositionU { x: x as usize, y: y as usize },
            Size {
                w: clipped_trail(x, w, dst.w as int) as usize,
                h: clipped_trail(y, h, dst.h as int) as usize,
            },
        )
    } else {
        (PositionU { x: 0, y: 0 }, Size { w: 0, h: 0 })
    }
}

/// The distance of a negative coordinate from zero.
fn magnitude(p: isize) -> (m: usize)
    requires
        p < 0,
    ensures
        m == -p,
{
    let below: isize = -(p + 1);
    (below as usize) + 1
}

/// Clip `src_size` such that it fits within the rectangle defined by `dst_position` and `dst_size`.
/// Returns `dst_position` as a clipped `PositionU` that can be used in [`blit`].
pub fn clip(dst_position: &PositionI, dst_size: &Size, src_size: &mut Size) -> (position: PositionU)
    ensures
        (position, *final(src_size)) == clipped(*dst_position, *dst_size, *old(src_size)),
{
    let mut x: usize = 0;
    let mut w: usize = src_size.w;
    let mut gone: bool = false;
    if dst_position.x < 0 {
        let cut: usize = magnitude(dst_position.x);
        if cut > w {
            gone = true;
        } else {
            w = w - cut;
        }
    } else {
        x = dst_position.x as usize;
    }
    let mut y: usize = 0;
    let mut h: usize = src_size.h;
    if dst_position.y < 0 {
        let cut: usize = magnitude(dst_position.y);
        if cut > h {
            gone = true;
        } else {
            h = h - cut;
        }
    } else {
        y = dst_position.y as usize;
    }
    if !gone && x < dst_size.w && y < dst_size.h {
        if dst_size.w - x < w {
            w = dst_size.w - x;
        }
        if dst_size.h - y < h {
            h = dst_size.h - y;
        }
        src_size.w = w;
        src_size.h = h;
        PositionU { x, y }
    } else {
        src_size.w = 0;
        src_size.h = 0;
        PositionU { x: 0, y: 0 }
    }
}

} // verus!
