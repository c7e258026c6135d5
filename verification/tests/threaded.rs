use blittle::stride::{GRAYSCALE, RGB, RGBA, RGBA_F32, RGB_F32};
use blittle::{blit, blit_multi_threaded, blit_thread_ex, DstSlices, PositionU, Size, ThreadedBlitParams};

fn pattern(len: usize, seed: usize) -> Vec<u8> {
    (0..len).map(|i| ((i * 13 + seed) % 255) as u8).collect()
}

fn policies() -> Vec<ThreadedBlitParams> {
    vec![
        ThreadedBlitParams::default(),
        ThreadedBlitParams::ChunkSize(0),
        ThreadedBlitParams::ChunkSize(1),
        ThreadedBlitParams::ChunkSize(3),
        ThreadedBlitParams::ChunkSize(1000),
        ThreadedBlitParams::NumThreads(1),
        ThreadedBlitParams::NumThreads(4),
        ThreadedBlitParams::NumThreads(usize::MAX),
        ThreadedBlitParams::NumChunks(1),
        ThreadedBlitParams::NumChunks(5),
        ThreadedBlitParams::NumChunks(1000),
    ]
}

#[test]
fn chunk_size_of_each_policy() {
    assert_eq!(ThreadedBlitParams::ChunkSize(128).get_chunk_size(1080), 128);
    assert_eq!(ThreadedBlitParams::ChunkSize(0).get_chunk_size(1080), 0);
    assert_eq!(ThreadedBlitParams::NumChunks(8).get_chunk_size(1080), 135);
    assert_eq!(ThreadedBlitParams::NumChunks(7).get_chunk_size(1080), 154);
    assert_eq!(ThreadedBlitParams::NumChunks(2000).get_chunk_size(1080), 0);
    assert_eq!(ThreadedBlitParams::NumThreads(8).chunk_size_for(1080, 16), 135);
    assert_eq!(ThreadedBlitParams::NumThreads(32).chunk_size_for(1080, 16), 67);
    assert_eq!(ThreadedBlitParams::NumThreads(16).chunk_size_for(1080, 16), 67);
    assert_eq!(ThreadedBlitParams::ChunkSize(9).chunk_size_for(1080, 16), 9);
    assert_eq!(ThreadedBlitParams::NumChunks(8).chunk_size_for(1080, 16), 135);
}

#[test]
fn chunk_size_for_threads_is_capped_by_the_pool() {
    let most = rayon::max_num_threads();
    assert!(most == 255 || most == 65535);
    assert_eq!(ThreadedBlitParams::NumThreads(8).get_chunk_size(1080), 135);
    assert_eq!(ThreadedBlitParams::NumThreads(255).get_chunk_size(1080), 4);
    let height = 10_000_000;
    assert_eq!(ThreadedBlitParams::NumThreads(4).get_chunk_size(height), height / 4usize.min(most));
    assert_eq!(ThreadedBlitParams::NumThreads(usize::MAX).get_chunk_size(height), height / most);
    // Had the cap been the request itself, the chunk would be empty.
    assert_ne!(ThreadedBlitParams::NumThreads(usize::MAX).get_chunk_size(height), height / usize::MAX);
}

#[test]
fn default_policy_is_chunks_of_128_rows() {
    assert!(matches!(ThreadedBlitParams::default(), ThreadedBlitParams::ChunkSize(128)));
    assert_eq!(ThreadedBlitParams::default().get_chunk_size(7), 128);
}

#[test]
fn validity_of_policies() {
    assert!(ThreadedBlitParams::ChunkSize(0).is_valid());
    assert!(ThreadedBlitParams::NumThreads(1).is_valid());
    assert!(ThreadedBlitParams::NumChunks(1).is_valid());
    assert!(!ThreadedBlitParams::NumThreads(0).is_valid());
    assert!(!ThreadedBlitParams::NumChunks(0).is_valid());
}

#[test]
fn threaded_blit_is_the_sequential_blit() {
    for stride in [GRAYSCALE, RGB, RGBA, RGB_F32, RGBA_F32] {
        let dst_size = Size { w: 40, h: 37 };
        let src_size = Size { w: 17, h: 23 };
        let position = PositionU { x: 9, y: 11 };
        let src = pattern(17 * 23 * stride, 5);
        let before = pattern(40 * 37 * stride, 77);
        let mut sequential = before.clone();
        assert!(blit(&src, &src_size, &mut sequential, &position, &dst_size, stride));
        assert_ne!(sequential, before);
        for params in policies() {
            let mut threaded = before.clone();
            assert!(blit_thread_ex(&src, &src_size, &mut threaded, &position, &dst_size, stride, &params));
            assert_eq!(threaded, sequential);
        }
        for num_threads in [1, 2, 3, 8, 64] {
            let mut threaded = before.clone();
            assert!(blit_multi_threaded(&src, &src_size, &mut threaded, &position, &dst_size, stride, num_threads));
            assert_eq!(threaded, sequential);
        }
    }
}

#[test]
fn threaded_blit_refuses_what_blit_refuses() {
    let src = pattern(4 * 4 * RGB, 1);
    let before = pattern(8 * 8 * RGB, 2);
    let params = ThreadedBlitParams::ChunkSize(2);
    let size = Size { w: 4, h: 4 };
    let dst_size = Size { w: 8, h: 8 };
    for (x, y) in [(8, 0), (0, 8), (5, 0), (0, 5)] {
        let mut dst = before.clone();
        assert!(!blit_thread_ex(&src, &size, &mut dst, &PositionU { x, y }, &dst_size, RGB, &params));
        assert_eq!(dst, before);
        assert!(!blit_multi_threaded(&src, &size, &mut dst, &PositionU { x, y }, &dst_size, RGB, 2));
        assert_eq!(dst, before);
    }
    let mut dst = before.clone();
    assert!(!blit_thread_ex(&src[1..], &size, &mut dst, &PositionU { x: 0, y: 0 }, &dst_size, RGB, &params));
    assert_eq!(dst, before);
    let mut short = before[1..].to_vec();
    assert!(!blit_thread_ex(&src, &size, &mut short, &PositionU { x: 0, y: 0 }, &dst_size, RGB, &params));
    assert_eq!(short, before[1..].to_vec());
}

#[test]
fn threaded_blit_of_an_empty_source_changes_nothing() {
    let src = pattern(10, 1);
    let before = pattern(8 * 8 * RGB, 2);
    for (w, h) in [(0, 0), (0, 4), (4, 0)] {
        for params in policies() {
            let mut dst = before.clone();
            assert!(blit_thread_ex(&src, &Size { w, h }, &mut dst, &PositionU { x: 1, y: 1 }, &Size { w: 8, h: 8 }, RGB, &params));
            assert_eq!(dst, before);
        }
    }
}

#[test]
fn threaded_blit_of_an_empty_source_takes_any_count() {
    let src = pattern(10, 1);
    let before = pattern(8 * 8 * RGB, 2);
    let dst_size = Size { w: 8, h: 8 };
    for (w, h) in [(0, 0), (0, 4), (4, 0)] {
        let size = Size { w, h };
        for position in [PositionU { x: 1, y: 1 }, PositionU { x: 8, y: 8 }] {
            let inside = position.is_inside(&dst_size);
            let mut dst = before.clone();
            assert_eq!(blit_multi_threaded(&src, &size, &mut dst, &position, &dst_size, RGB, 0), inside);
            assert_eq!(dst, before);
            for params in [ThreadedBlitParams::NumThreads(0), ThreadedBlitParams::NumChunks(0)] {
                assert_eq!(blit_thread_ex(&src, &size, &mut dst, &position, &dst_size, RGB, &params), inside);
                assert_eq!(dst, before);
                assert_eq!(blit(&src, &size, &mut dst, &position, &dst_size, RGB), inside);
                assert_eq!(dst, before);
            }
        }
        let slots = DstSlices::new(&before, 1, 1, 8, w, h, RGB).unwrap();
        let mut dst = before.clone();
        assert!(slots.copy_with(&src, &mut dst, true, &ThreadedBlitParams::NumChunks(0)));
        assert_eq!(dst, before);
    }
}

#[test]
fn chunked_copy_is_the_copy_in_one_pass() {
    let before = pattern(64 * 64 * RGB, 9);
    let src = pattern(32 * 17 * RGB, 4);
    let slots = DstSlices::new(&before, 2, 12, 64, 32, 17, RGB).unwrap();
    let mut one_pass = before.clone();
    assert!(slots.copy(&src, &mut one_pass));
    assert_ne!(one_pass, before);
    for chunk_size in [1, 2, 5, 16, 17, 18, usize::MAX] {
        let mut chunked = before.clone();
        assert!(slots.copy_chunked(&src, &mut chunked, chunk_size));
        assert_eq!(chunked, one_pass);
        // A second copy through the same slots leaves the same bytes.
        assert!(slots.copy_chunked(&src, &mut chunked, chunk_size));
        assert_eq!(chunked, one_pass);
    }
    for params in policies() {
        for parallel in [false, true] {
            let mut dst = before.clone();
            assert!(slots.copy_with(&src, &mut dst, parallel, &params));
            assert_eq!(dst, one_pass);
        }
    }
}

#[test]
fn copy_rows_fills_each_slot_from_its_row() {
    let a = [1u8, 2, 3];
    let b = [4u8, 5, 6];
    let mut first = [0u8; 3];
    let mut second = [0u8; 3];
    let rows: Vec<(&[u8], &mut [u8])> = vec![(&a[..], &mut first[..]), (&b[..], &mut second[..])];
    blittle::multi_threaded::copy_rows(rows);
    assert_eq!(first, a);
    assert_eq!(second, b);
    let mut dst = [9u8; 6];
    blittle::dst_slices::copy_row(&mut dst, 2, &a);
    assert_eq!(dst, [9, 9, 1, 2, 3, 9]);
}
