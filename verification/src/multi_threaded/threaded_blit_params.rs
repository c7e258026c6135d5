use vstd::prelude::*;

verus! {

/// Parameters for multi-threaded blitting: how many rows make one chunk of work.
#[derive(Copy, Clone, Debug)]
pub enum ThreadedBlitParams {
    /// The number of pixel rows per threaded chunk.
    ChunkSize(usize),
    /// Use up to this many threads to parallelize chunks.
    /// The chunk size is the image height divided by the lesser of this number
    /// and the greatest number of threads that a thread pool supports.
    NumThreads(usize),
    /// The number of chunks.
    /// The chunk size is the image height divided by this number.
    NumChunks(usize),
}

/// `rayon::max_num_threads` returns the greatest number of threads that a
/// thread pool supports. The number differs between targets: it is all ones
/// in 8 bits (255) where pointers are 32 bits wide, and all ones in 16 bits
/// (65535) where they are 64 bits wide; rayon builds for no other width.
#[verifier::external_body]
fn max_num_threads() -> (n: usize)
    ensures
        n == 255 || n == 65535,
{
    rayon::max_num_threads()
}

impl ThreadedBlitParams {
    /// A count of threads or of chunks is positive.
    pub open spec fn valid(&self) -> bool {
        match *self {
            ThreadedBlitParams::ChunkSize(_) => true,
            ThreadedBlitParams::NumThreads(threads) => threads > 0,
            ThreadedBlitParams::NumChunks(chunks) => chunks > 0,
        }
    }

    /// The number of rows per chunk for an image of `height` rows, where a
    /// thread pool supports up to `max_threads` threads.
    pub open spec fn chunk_size(&self, height: usize, max_threads: usize) -> int {
        match *self {
            ThreadedBlitParams::ChunkSize(size) => size as int,
            ThreadedBlitParams::NumThreads(threads) => if threads <= max_threads {
                height as int / threads as int
            } else {
                height as int / max_threads as int
            },
            ThreadedBlitParams::NumChunks(chunks) => height as int / chunks as int,
        }
    }

    /// Whether a count of threads or of chunks is positive, so that a chunk size follows from it.
    pub fn is_valid(&self) -> (valid: bool)
        ensures
            valid == self.valid(),
    {
        match *self {
            ThreadedBlitParams::ChunkSize(_) => true,
            ThreadedBlitParams::NumThreads(threads) => threads > 0,
            ThreadedBlitParams::NumChunks(chunks) => chunks > 0,
        }
    }

    /// The number of rows per chunk for an image of `height` rows, where a
    /// thread pool supports up to `max_threads` threads.
    pub fn chunk_size_for(self, height: usize, max_threads: usize) -> (size: usize)
        requires
            self.valid(),
            max_threads > 0,
        ensures
            size == self.chunk_size(height, max_threads),
    {
        match self {
            ThreadedBlitParams::ChunkSize(size) => size,
            ThreadedBlitParams::NumThreads(threads) => if threads <= max_threads {
                height / threads
            } else {
                height / max_threads
            },
            ThreadedBlitParams::NumChunks(chunks) => height / chunks,
        }
    }

    /// The number of rows per chunk for an image of `height` rows. A count of
    /// threads is capped by the greatest number of threads that a thread pool
    /// supports, which is 255 or 65535.
    pub fn get_chunk_size(self, height: usize) -> (size: usize)
        requires
            self.valid(),
        ensures
            size == self.chunk_size(height, 255) || size == self.chunk_size(height, 65535),
            self matches ThreadedBlitParams::ChunkSize(rows) ==> size == rows,
            self matches ThreadedBlitParams::NumChunks(chunks) ==> size == height as int
                / chunks as int,
            self matches ThreadedBlitParams::NumThreads(threads) ==> height as int / threads as int
                <= size <= height,
            self matches ThreadedBlitParams::NumThreads(threads) ==> threads <= 255 ==> size
                == height as int / threads as int,
    {
        let max_threads: usize = max_num_threads();
        let size: usize = self.chunk_size_for(height, max_threads);
        proof {
            if let ThreadedBlitParams::NumThreads(threads) = self {
                lemma_fewer_threads(height as int, threads as int, max_threads as int);
            }
        }
        size
    }
}

impl Default for ThreadedBlitParams {
    /// Chunks of 128 rows.
    fn default() -> (params: Self)
        ensures
            params == ThreadedBlitParams::ChunkSize(128),
    {
        ThreadedBlitParams::ChunkSize(128)
    }
}

/// Fewer threads get larger chunks, and no chunk is larger than the image.
pub proof fn lemma_fewer_threads(height: int, threads: int, max_threads: int)
    requires
        0 <= height,
        0 < threads,
        0 < max_threads,
    ensures
        height / threads <= height,
        height / max_threads <= height,
        max_threads <= threads ==> height / threads <= height / max_threads,
{
    vstd::arithmetic::div_mod::lemma_div_is_ordered_by_denominator(height, 1, threads);
    vstd::arithmetic::div_mod::lemma_div_is_ordered_by_denominator(height, 1, max_threads);
    if max_threads <= threads {
        vstd::arithmetic::div_mod::lemma_div_is_ordered_by_denominator(
            height,
            max_threads,
            threads,
        );
    }
}

} // verus!
