//! What holds of clipping, of decomposing and of copying, for all inputs.
use crate::clipped;
use crate::dst_slices::{
    decomposable, lemma_decomposition_disjoint, row_len, slot_start, slot_starts, DstSlices,
};
use crate::misses;
use crate::reaches;
use crate::position::{PositionI, PositionU};
use crate::rows::{
    copied, lemma_copied_again, lemma_copied_nothing, lemma_copied_unique, source_row,
};
use crate::size::Size;
use vstd::prelude::*;

verus! {

/// Clipping changes neither the placement nor the size of a source that is
/// placed at a pixel of the destination and fits within it.
pub proof fn lemma_clip_keeps_fitting(pos: PositionI, dst: Size, src: Size)
    requires
        0 <= pos.x < dst.w,
        0 <= pos.y < dst.h,
        pos.x + src.w <= dst.w,
        pos.y + src.h <= dst.h,
    ensures
        clipped(pos, dst, src) == (PositionU { x: pos.x as usize, y: pos.y as usize }, src),
{
}

/// Clipping never increases an extent, and the clipped source lies within the destination.
pub proof fn lemma_clip_contained(pos: PositionI, dst: Size, src: Size)
    ensures
        clipped(pos, dst, src).1.w <= src.w,
        clipped(pos, dst, src).1.h <= src.h,
        clipped(pos, dst, src).0.x + clipped(pos, dst, src).1.w <= dst.w,
        clipped(pos, dst, src).0.y + clipped(pos, dst, src).1.h <= dst.h,
        clipped(pos, dst, src).0.x <= isize::MAX,
        clipped(pos, dst, src).0.y <= isize::MAX,
{
}

/// Clipping a clipped source against the same destination changes nothing.
pub proof fn lemma_clip_idempotent(pos: PositionI, dst: Size, src: Size)
    ensures
        ({
            let (p, s) = clipped(pos, dst, src);
            clipped(PositionI { x: p.x as isize, y: p.y as isize }, dst, s) == (p, s)
        }),
{
}

/// A source that hangs over the left edge and still reaches into the
/// destination is placed at the edge and loses the columns before it; one
/// that hangs over the top edge loses the rows above it.
pub proof fn lemma_clip_negative(pos: PositionI, dst: Size, src: Size)
    requires
        reaches(pos, dst, src),
    ensures
        pos.x < 0 ==> clipped(pos, dst, src).0.x == 0 && clipped(pos, dst, src).1.w == Size::lesser(
            (src.w + pos.x) as usize,
            dst.w,
        ),
        pos.y < 0 ==> clipped(pos, dst, src).0.y == 0 && clipped(pos, dst, src).1.h == Size::lesser(
            (src.h + pos.y) as usize,
            dst.h,
        ),
{
}

/// A source that is placed at a pixel of the destination and hangs over the
/// right or the bottom edge keeps its placement and shrinks to what is left
/// up to that edge.
pub proof fn lemma_clip_overhang(pos: PositionI, dst: Size, src: Size)
    requires
        0 <= pos.x < dst.w,
        0 <= pos.y < dst.h,
    ensures
        clipped(pos, dst, src).0 == (PositionU { x: pos.x as usize, y: pos.y as usize }),
        pos.x + src.w > dst.w ==> clipped(pos, dst, src).1.w == dst.w - pos.x,
        pos.y + src.h > dst.h ==> clipped(pos, dst, src).1.h == dst.h - pos.y,
{
}

/// The clipped source of a source that reaches the destination is what the
/// source and the destination have in common: it starts at the greater of the
/// two left edges and of the two top edges, and ends at the lesser of the two
/// right edges and of the two bottom edges.
pub proof fn lemma_clip_is_overlap(pos: PositionI, dst: Size, src: Size)
    requires
        reaches(pos, dst, src),
    ensures
        ({
            let (p, s) = clipped(pos, dst, src);
            &&& p.x == if pos.x < 0 { 0 } else { pos.x as int }
            &&& p.y == if pos.y < 0 { 0 } else { pos.y as int }
            &&& p.x + s.w == if pos.x + src.w <= dst.w { pos.x + src.w } else { dst.w as int }
            &&& p.y + s.h == if pos.y + src.h <= dst.h { pos.y + src.h } else { dst.h as int }
        }),
{
}

/// A source that lies wholly beyond the left or the top edge, or that starts
/// beyond the right or the bottom edge, is clipped to nothing.
pub proof fn lemma_clip_missed(pos: PositionI, dst: Size, src: Size)
    requires
        misses(pos, src) || pos.x >= dst.w || pos.y >= dst.h,
    ensures
        clipped(pos, dst, src) == (PositionU { x: 0, y: 0 }, Size { w: 0, h: 0 }),
{
}

/// A clipped source can be decomposed in any destination that has a pixel
/// and whose buffer holds the whole destination image.
pub proof fn lemma_clipped_decomposable(
    pos: PositionI,
    dst: Size,
    src: Size,
    dst_len: usize,
    stride: usize,
)
    requires
        stride > 0,
        dst.w > 0,
        dst.h > 0,
        dst.bytes(stride as int) <= dst_len,
    ensures
        decomposable(dst_len, clipped(pos, dst, src).0, dst, clipped(pos, dst, src).1, stride),
{
}

/// A source of the size of the destination, copied to the origin, makes the
/// destination equal to the source, byte for byte.
pub proof fn lemma_identity(
    before: Seq<u8>,
    after: Seq<u8>,
    src: Seq<u8>,
    size: Size,
    stride: usize,
)
    requires
        src.len() == size.bytes(stride as int),
        before.len() == src.len(),
        copied(
            before,
            after,
            src,
            slot_starts(PositionU { x: 0, y: 0 }, size.w, stride, size.h),
            row_len(size, stride),
        ),
    ensures
        after == src,
{
    let origin = PositionU { x: 0, y: 0 };
    let starts = slot_starts(origin, size.w, stride, size.h);
    let rb = row_len(size, stride);
    let h = size.h as int;
    assert(size.bytes(stride as int) == h * rb && 0 <= rb) by (nonlinear_arith)
        requires
            size.bytes(stride as int) == size.w * size.h * stride,
            rb == size.w * stride,
            h == size.h,
    ;
    assert forall|k: int| 0 <= k < after.len() implies after[k] == src[k] by {
        assert(rb > 0) by (nonlinear_arith)
            requires
                0 <= k < h * rb,
                0 <= rb,
                0 <= h,
        ;
        let r = k / rb;
        let j = k % rb;
        vstd::arithmetic::div_mod::lemma_fundamental_div_mod(k, rb);
        vstd::arithmetic::div_mod::lemma_mod_bound(k, rb);
        assert(0 <= r < h) by (nonlinear_arith)
            requires
                k == rb * r + j,
                0 <= j < rb,
                0 <= k < h * rb,
        ;
        assert(slot_start(origin, size.w, stride, r) == r * rb && r * rb == rb * r
            && r * rb + rb <= h * rb) by (nonlinear_arith)
            requires
                slot_start(origin, size.w, stride, r) == (0 + (0 + r) * size.w) * stride,
                rb == size.w * stride,
                0 <= r < h,
                0 <= rb,
        ;
        assert(starts[r] == r * rb);
        let slot = after.subrange(starts[r], starts[r] + rb);
        assert(slot == source_row(src, r, rb));
        assert(after[k] == slot[j]);
        assert(src[k] == source_row(src, r, rb)[j]);
    }
    assert(after =~= src);
}

/// A source without a pixel, copied into its row slots at any placement and
/// at any stride, leaves the destination as it was: it has no row, or its
/// rows are empty.
pub proof fn lemma_empty_source_unchanged(
    before: Seq<u8>,
    after: Seq<u8>,
    src: Seq<u8>,
    position: PositionU,
    dst_w: usize,
    src_size: Size,
    stride: usize,
)
    requires
        src_size.w == 0 || src_size.h == 0,
        copied(
            before,
            after,
            src,
            slot_starts(position, dst_w, stride, src_size.h),
            row_len(src_size, stride),
        ),
    ensures
        slot_starts(position, dst_w, stride, src_size.h).len() == src_size.h,
        src_size.w == 0 ==> row_len(src_size, stride) == 0,
        after == before,
{
    assert(src_size.w == 0 ==> src_size.w * stride == 0) by (nonlinear_arith);
    lemma_copied_nothing(
        before,
        after,
        src,
        slot_starts(position, dst_w, stride, src_size.h),
        row_len(src_size, stride),
    );
}

/// Copying a source twice into the row slots of one decomposition that is
/// kept leaves the destination as decomposing afresh for each of the two
/// copies does, and as the first copy left it.
pub proof fn lemma_reuse(
    kept: DstSlices,
    first: DstSlices,
    second: DstSlices,
    before: Seq<u8>,
    kept_once: Seq<u8>,
    kept_twice: Seq<u8>,
    fresh_once: Seq<u8>,
    fresh_twice: Seq<u8>,
    src: Seq<u8>,
    position: PositionU,
    dst_size: Size,
    src_size: Size,
    stride: usize,
)
    requires
        before.len() <= usize::MAX,
        decomposable(before.len() as usize, position, dst_size, src_size, stride),
        kept.starts() == slot_starts(position, dst_size.w, stride, src_size.h),
        first.starts() == kept.starts(),
        second.starts() == kept.starts(),
        kept.row_bytes() == row_len(src_size, stride),
        first.row_bytes() == kept.row_bytes(),
        second.row_bytes() == kept.row_bytes(),
        copied(before, kept_once, src, kept.starts(), kept.row_bytes()),
        copied(kept_once, kept_twice, src, kept.starts(), kept.row_bytes()),
        copied(before, fresh_once, src, first.starts(), first.row_bytes()),
        copied(fresh_once, fresh_twice, src, second.starts(), second.row_bytes()),
    ensures
        kept_twice == fresh_twice,
        kept_twice == kept_once,
{
    lemma_decomposition_disjoint(before.len() as usize, position, dst_size, src_size, stride);
    let starts = kept.starts();
    let rb = kept.row_bytes();
    lemma_copied_unique(before, kept_once, fresh_once, src, starts, rb);
    lemma_copied_again(before, kept_once, kept_twice, src, starts, rb);
    lemma_copied_again(before, fresh_once, fresh_twice, src, starts, rb);
}

} // verus!
