//! A blit, pixel by pixel: which byte of the source each byte of the destination takes.
use crate::dst_slices::{decomposable, row_len, slot_start, slot_starts};
use crate::position::PositionU;
use crate::rows::{copied, covered, source_row};
use crate::size::Size;
use vstd::arithmetic::div_mod::{
    lemma_fundamental_div_mod, lemma_fundamental_div_mod_converse, lemma_mod_bound,
};
use vstd::prelude::*;

verus! {

/// The column of the pixel that byte `k` belongs to, in an image `dst_w` pixels wide.
pub open spec fn column_of(k: int, dst_w: int, stride: int) -> int {
    (k / stride) % dst_w
}

/// The row of the pixel that byte `k` belongs to, in an image `dst_w` pixels wide.
pub open spec fn line_of(k: int, dst_w: int, stride: int) -> int {
    (k / stride) / dst_w
}

/// Whether byte `k` of the destination belongs to a pixel that the source,
/// placed at `position`, lies over.
pub open spec fn under_source(
    k: int,
    position: PositionU,
    dst_w: usize,
    src_size: Size,
    stride: usize,
) -> bool {
    let px = column_of(k, dst_w as int, stride as int);
    let py = line_of(k, dst_w as int, stride as int);
    &&& position.x <= px < position.x + src_size.w
    &&& position.y <= py < position.y + src_size.h
}

/// The index in the source of the byte that lands on byte `k` of the destination.
pub open spec fn source_index(
    k: int,
    position: PositionU,
    dst_w: usize,
    src_size: Size,
    stride: usize,
) -> int {
    let px = column_of(k, dst_w as int, stride as int);
    let py = line_of(k, dst_w as int, stride as int);
    ((px - position.x) + (py - position.y) * src_size.w) * stride + k % (stride as int)
}

/// The destination after a blit: each pixel that the source lies over is the
/// source pixel at the same place relative to `position`, and every other byte
/// is as it was.
pub open spec fn blit_image(
    before: Seq<u8>,
    src: Seq<u8>,
    position: PositionU,
    dst_w: usize,
    src_size: Size,
    stride: usize,
) -> Seq<u8> {
    Seq::new(
        before.len(),
        |k: int|
            if under_source(k, position, dst_w, src_size, stride) {
                src[source_index(k, position, dst_w, src_size, stride)]
            } else {
                before[k]
            },
    )
}

/// A byte in the row slot of source row `r`, `j` bytes from its start, belongs
/// to the pixel in column `position.x + j / stride` of line `position.y + r`.
pub proof fn lemma_slot_pixel(
    position: PositionU,
    dst_w: usize,
    src_size: Size,
    stride: usize,
    r: int,
    j: int,
)
    requires
        stride > 0,
        position.x + src_size.w <= dst_w,
        0 <= r,
        0 <= j < row_len(src_size, stride),
    ensures
        ({
            let k = slot_start(position, dst_w, stride, r) + j;
            &&& 0 <= k
            &&& column_of(k, dst_w as int, stride as int) == position.x + j / (stride as int)
            &&& line_of(k, dst_w as int, stride as int) == position.y + r
            &&& k % (stride as int) == j % (stride as int)
            &&& 0 <= j / (stride as int) < src_size.w
        }),
{
    let s = stride as int;
    let w = dst_w as int;
    let x = position.x as int;
    let y = position.y as int;
    let k = slot_start(position, dst_w, stride, r) + j;
    let jx = j / s;
    let jc = j % s;
    lemma_fundamental_div_mod(j, s);
    lemma_mod_bound(j, s);
    assert(0 <= jx < src_size.w) by (nonlinear_arith)
        requires
            j == s * jx + jc,
            0 <= jc < s,
            0 <= j < src_size.w * s,
    ;
    let p = x + jx + (y + r) * w;
    assert(k == p * s + jc && 0 <= p && 0 <= (y + r) * w) by (nonlinear_arith)
        requires
            k == (x + (y + r) * w) * s + j,
            j == s * jx + jc,
            p == x + jx + (y + r) * w,
            0 <= x,
            0 <= jx,
            0 <= y + r,
            0 <= w,
    ;
    lemma_fundamental_div_mod_converse(k, s, p, jc);
    lemma_fundamental_div_mod_converse(p, w, y + r, x + jx);
}

/// A byte under the source lies in the row slot of the source row that covers its line.
pub proof fn lemma_pixel_slot(k: int, position: PositionU, dst_w: usize, src_size: Size, stride: usize)
    requires
        stride > 0,
        dst_w > 0,
        0 <= k,
        under_source(k, position, dst_w, src_size, stride),
    ensures
        ({
            let r = line_of(k, dst_w as int, stride as int) - position.y;
            let j = k - slot_start(position, dst_w, stride, r);
            &&& 0 <= r < src_size.h
            &&& 0 <= j < row_len(src_size, stride)
            &&& r * row_len(src_size, stride) + j == source_index(
                k,
                position,
                dst_w,
                src_size,
                stride,
            )
        }),
{
    let s = stride as int;
    let w = dst_w as int;
    let x = position.x as int;
    let y = position.y as int;
    let sw = src_size.w as int;
    let p = k / s;
    let c = k % s;
    let px = p % w;
    let py = p / w;
    lemma_fundamental_div_mod(k, s);
    lemma_mod_bound(k, s);
    lemma_fundamental_div_mod(p, w);
    lemma_mod_bound(p, w);
    let r = py - y;
    let j = k - slot_start(position, dst_w, stride, r);
    assert(j == (px - x) * s + c && 0 <= j < sw * s && r * (sw * s) + j == ((px - x) + (py - y)
        * sw) * s + c) by (nonlinear_arith)
        requires
            j == k - (x + (y + r) * w) * s,
            k == s * p + c,
            p == w * py + px,
            r == py - y,
            0 <= c < s,
            x <= px < x + sw,
    ;
}

/// A copy of the rows of a source into the row slots of a decomposable
/// placement is the blit of the source at that placement, pixel by pixel.
pub proof fn lemma_copied_is_blit_image(
    before: Seq<u8>,
    after: Seq<u8>,
    src: Seq<u8>,
    position: PositionU,
    dst_size: Size,
    src_size: Size,
    stride: usize,
)
    requires
        before.len() <= usize::MAX,
        decomposable(before.len() as usize, position, dst_size, src_size, stride),
        src_size.bytes(stride as int) <= src.len(),
        copied(
            before,
            after,
            src,
            slot_starts(position, dst_size.w, stride, src_size.h),
            row_len(src_size, stride),
        ),
    ensures
        after == blit_image(before, src, position, dst_size.w, src_size, stride),
{
    let starts = slot_starts(position, dst_size.w, stride, src_size.h);
    let rb = row_len(src_size, stride);
    let image = blit_image(before, src, position, dst_size.w, src_size, stride);
    let h = src_size.h as int;
    assert(src_size.bytes(stride as int) == h * rb) by (nonlinear_arith)
        requires
            src_size.bytes(stride as int) == src_size.w * src_size.h * stride,
            rb == src_size.w * stride,
            h == src_size.h,
    ;
    crate::dst_slices::lemma_decomposition_disjoint(
        before.len() as usize,
        position,
        dst_size,
        src_size,
        stride,
    );
    assert forall|k: int| 0 <= k < after.len() implies after[k] == image[k] by {
        if under_source(k, position, dst_size.w, src_size, stride) {
            lemma_pixel_slot(k, position, dst_size.w, src_size, stride);
            let r = line_of(k, dst_size.w as int, stride as int) - position.y;
            let j = k - slot_start(position, dst_size.w, stride, r);
            assert(r * rb + rb <= h * rb && 0 <= r * rb) by (nonlinear_arith)
                requires
                    0 <= r < h,
                    0 <= rb,
            ;
            assert(starts[r] == slot_start(position, dst_size.w, stride, r));
            let slot = after.subrange(starts[r], starts[r] + rb);
            assert(slot == source_row(src, r, rb));
            assert(after[k] == slot[j]);
            assert(source_row(src, r, rb)[j] == src[r * rb + j]);
        } else {
            if covered(starts, rb, starts.len() as int, k) {
                let r = choose|r: int|
                    0 <= r < starts.len() && (#[trigger] starts[r]) <= k && k < starts[r] + rb;
                lemma_slot_pixel(position, dst_size.w, src_size, stride, r, k - starts[r]);
            }
            assert(after[k] == before[k]);
        }
    }
    assert(after =~= image);
}

} // verus!
