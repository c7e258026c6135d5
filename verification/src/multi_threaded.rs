//! Blitting with the rows handed out to threads in chunks.
use vstd::prelude::*;

pub mod threaded_blit_params;

pub use threaded_blit_params::ThreadedBlitParams;

use crate::blittable;
use crate::dst_slices::{decomposable, lemma_decomposition_disjoint, row_len, slot_starts, DstSlices};
use crate::lemma_row_bytes;
use crate::pixels::{blit_image, lemma_copied_is_blit_image};
use crate::position::PositionU;
use crate::rows::{copied, lemma_copied_nothing, lemma_copied_unique};
use crate::size::Size;
use rayon::iter::IndexedParallelIterator;
use rayon::iter::IntoParallelIterator;
use rayon::iter::ParallelIterator;

verus! {

/// Copy each source row of `rows` into the row slot that it is paired with, in order.
pub fn copy_rows(rows: Vec<(&[u8], &mut [u8])>)
    requires
        forall|i: int|
            0 <= i < rows@.len() ==> (#[trigger] rows@[i]).0@.len() == rows@[i].1@.len(),
    ensures
        forall|i: int| 0 <= i < rows@.len() ==> final((#[trigger] rows@[i]).1)@ == rows@[i].0@,
{
    for pair in it: rows
        invariant
            it.seq() == rows@,
            forall|i: int|
                0 <= i < rows@.len() ==> (#[trigger] rows@[i]).0@.len() == rows@[i].1@.len(),
            forall|i: int| 0 <= i < it.index() ==> final((#[trigger] rows@[i]).1)@ == rows@[i].0@,
    {
        let (row, slot) = pair;
        slot.copy_from_slice(row);
    }
}

/// Rayon's `into_par_iter`, `chunks` and `for_each` on a `Vec`: the rows are
/// split, in order, into chunks of `chunk_size` rows (the last may be shorter),
/// and `copy_rows` runs once on every chunk, the chunks in parallel. So every
/// row slot ends up holding the source row that it is paired with. `chunks`
/// panics on a chunk size of zero, which is left out.
#[verifier::external_body]
pub(crate) fn copy_in_chunks(rows: Vec<(&[u8], &mut [u8])>, chunk_size: usize)
    requires
        chunk_size > 0,
        forall|i: int|
            0 <= i < rows@.len() ==> (#[trigger] rows@[i]).0@.len() == rows@[i].1@.len(),
    ensures
        forall|i: int| 0 <= i < rows@.len() ==> final((#[trigger] rows@[i]).1)@ == rows@[i].0@,
{
    rows.into_par_iter().chunks(chunk_size).for_each(|chunk| copy_rows(chunk));
}

/// Blit `src` onto `dst` as [`crate::blit`] does, with the rows handed out to
/// threads in chunks whose size `params` gives. A chunk holds one row at least.
/// For a source without a pixel nothing is copied, whatever `params` holds.
///
/// This can be either slower or faster than `blit` depending on the size of
/// `src` and on the chunk size. The outcome is that of `blit`.
pub fn blit_thread_ex(
    src: &[u8],
    src_size: &Size,
    dst: &mut [u8],
    dst_position: &PositionU,
    dst_size: &Size,
    stride: usize,
    params: &ThreadedBlitParams,
) -> (done: bool)
    requires
        src_size.w == 0 || src_size.h == 0 || params.valid(),
    ensures
        done == blittable(
            src@.len(),
            *src_size,
            old(dst)@.len(),
            *dst_position,
            *dst_size,
            stride,
        ),
        done ==> copied(
            old(dst)@,
            final(dst)@,
            src@,
            slot_starts(*dst_position, dst_size.w, stride, src_size.h),
            row_len(*src_size, stride),
        ),
        done ==> final(dst)@ == blit_image(
            old(dst)@,
            src@,
            *dst_position,
            dst_size.w,
            *src_size,
            stride,
        ),
        !done ==> final(dst)@ == old(dst)@,
        src_size.w == 0 || src_size.h == 0 ==> final(dst)@ == old(dst)@,
{
    match DstSlices::decompose(dst.len(), dst_position, dst_size, src_size, stride) {
        Some(slots) => {
            proof {
                lemma_row_bytes(*src_size, stride);
            }
            let ghost before = dst@;
            let done = slots.copy_with(src, dst, true, params);
            proof {
                if done {
                    lemma_copied_is_blit_image(
                        before,
                        dst@,
                        src@,
                        *dst_position,
                        *dst_size,
                        *src_size,
                        stride,
                    );
                    if src_size.w == 0 || src_size.h == 0 {
                        lemma_copied_nothing(before, dst@, src@, slots.starts(), slots.row_bytes());
                    }
                }
            }
            done
        },
        None => false,
    }
}

/// Blit using multiple threads by dividing the rows of `src` into chunks and
/// blitting each in parallel, with up to `num_threads` threads.
///
/// - For a source without a pixel nothing is copied, whatever `num_threads` is.
/// - You don't want `num_threads` to be more than the number of threads available.
/// - If you use too many threads for small images, this function can be slower
///   than `blit` due to the overhead of spawning and joining threads.
pub fn blit_multi_threaded(
    src: &[u8],
    src_size: &Size,
    dst: &mut [u8],
    dst_position: &PositionU,
    dst_size: &Size,
    stride: usize,
    num_threads: usize,
) -> (done: bool)
    requires
        src_size.w == 0 || src_size.h == 0 || num_threads > 0,
    ensures
        done == blittable(
            src@.len(),
            *src_size,
            old(dst)@.len(),
            *dst_position,
            *dst_size,
            stride,
        ),
        done ==> copied(
            old(dst)@,
            final(dst)@,
            src@,
            slot_starts(*dst_position, dst_size.w, stride, src_size.h),
            row_len(*src_size, stride),
        ),
        done ==> final(dst)@ == blit_image(
            old(dst)@,
            src@,
            *dst_position,
            dst_size.w,
            *src_size,
            stride,
        ),
        !done ==> final(dst)@ == old(dst)@,
        src_size.w == 0 || src_size.h == 0 ==> final(dst)@ == old(dst)@,
{
    let params = ThreadedBlitParams::NumThreads(num_threads);
    blit_thread_ex(src, src_size, dst, dst_position, dst_size, stride, &params)
}

/// A blit in one pass and a blit in parallel chunks, of the same source at the
/// same placement into equal destinations, leave equal destinations.
pub proof fn lemma_threaded_as_sequential(
    before: Seq<u8>,
    sequential: Seq<u8>,
    threaded: Seq<u8>,
    src: Seq<u8>,
    position: PositionU,
    dst_size: Size,
    src_size: Size,
    stride: usize,
)
    requires
        before.len() <= usize::MAX,
        decomposable(before.len() as usize, position, dst_size, src_size, stride),
        copied(
            before,
            sequential,
            src,
            slot_starts(position, dst_size.w, stride, src_size.h),
            row_len(src_size, stride),
        ),
        copied(
            before,
            threaded,
            src,
            slot_starts(position, dst_size.w, stride, src_size.h),
            row_len(src_size, stride),
        ),
    ensures
        sequential == threaded,
{
    lemma_decomposition_disjoint(before.len() as usize, position, dst_size, src_size, stride);
    lemma_copied_unique(
        before,
        sequential,
        threaded,
        src,
        slot_starts(position, dst_size.w, stride, src_size.h),
        row_len(src_size, stride),
    );
}

} // verus!
