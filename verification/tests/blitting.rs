use blittle::stride::{GRAYSCALE, RGB, RGBA, RGBA_F32, RGB_F32};
use blittle::{blit, PositionU, Size};

const SRC_W: usize = 32;
const SRC_H: usize = 17;
const DST_W: usize = 64;
const DST_H: usize = 64;

fn numbered(len: usize) -> Vec<u8> {
    (0..len).map(|i| (i % 251) as u8 + 1).collect()
}

/// What a blit must leave, computed pixel by pixel.
fn expected(
    src: &[u8],
    src_size: (usize, usize),
    dst: &[u8],
    position: (usize, usize),
    dst_w: usize,
    stride: usize,
) -> Vec<u8> {
    let mut out = dst.to_vec();
    for y in 0..src_size.1 {
        for x in 0..src_size.0 {
            for c in 0..stride {
                out[((position.0 + x) + (position.1 + y) * dst_w) * stride + c] =
                    src[(x + y * src_size.0) * stride + c];
            }
        }
    }
    out
}

#[test]
fn test_blit() {
    let src = [255u8; SRC_W * SRC_H * RGB];
    let mut dst = [0u8; DST_W * DST_H * RGB];

    let dst_position = PositionU { x: 2, y: 12 };
    let dst_size = Size { w: DST_W, h: DST_H };
    let src_size = Size { w: SRC_W, h: SRC_H };

    let done = blit(&src, &src_size, &mut dst, &dst_position, &dst_size, RGB);
    assert!(done, "blit.png");
    for py in 0..DST_H {
        for px in 0..DST_W {
            let inside = 2 <= px && px < 2 + SRC_W && 12 <= py && py < 12 + SRC_H;
            for c in 0..RGB {
                assert_eq!(dst[(px + py * DST_W) * RGB + c], if inside { 255 } else { 0 });
            }
        }
    }
}

#[test]
fn blit_places_each_source_pixel() {
    for stride in [GRAYSCALE, RGB, RGBA, RGB_F32, RGBA_F32] {
        let src = numbered(5 * 3 * stride);
        let before = vec![0u8; 9 * 7 * stride];
        let mut dst = before.clone();
        let done = blit(
            &src,
            &Size { w: 5, h: 3 },
            &mut dst,
            &PositionU { x: 4, y: 2 },
            &Size { w: 9, h: 7 },
            stride,
        );
        assert!(done);
        assert_eq!(dst, expected(&src, (5, 3), &before, (4, 2), 9, stride));
        // The first byte of source row 1 lands at the index of pixel (4, 3).
        assert_eq!(dst[(4 + 3 * 9) * stride], src[5 * stride]);
    }
}

#[test]
fn blit_of_a_source_as_large_as_the_destination_is_the_source() {
    for stride in [GRAYSCALE, RGB, RGBA, RGB_F32, RGBA_F32] {
        let size = Size { w: 13, h: 7 };
        let src = numbered(13 * 7 * stride);
        let mut dst = vec![0u8; 13 * 7 * stride];
        assert!(blit(&src, &size, &mut dst, &PositionU { x: 0, y: 0 }, &size, stride));
        assert_eq!(dst, src);
    }
}

#[test]
fn blit_of_an_empty_source_changes_nothing() {
    let src = numbered(100);
    let before = numbered(8 * 8 * RGB);
    for (w, h) in [(0, 0), (0, 5), (5, 0)] {
        let mut dst = before.clone();
        let done = blit(
            &src,
            &Size { w, h },
            &mut dst,
            &PositionU { x: 3, y: 3 },
            &Size { w: 8, h: 8 },
            RGB,
        );
        assert!(done);
        assert_eq!(dst, before);
    }
}

#[test]
fn blit_outside_the_destination_is_refused() {
    let src = numbered(2 * 2 * RGB);
    let before = numbered(8 * 8 * RGB);
    for (x, y) in [(8, 0), (0, 8), (8, 8), (100, 100)] {
        let mut dst = before.clone();
        let done = blit(
            &src,
            &Size { w: 2, h: 2 },
            &mut dst,
            &PositionU { x, y },
            &Size { w: 8, h: 8 },
            RGB,
        );
        assert!(!done);
        assert_eq!(dst, before);
    }
}

#[test]
fn blit_of_an_overhanging_source_is_refused() {
    let src = numbered(4 * 4 * RGB);
    let before = numbered(8 * 8 * RGB);
    for (x, y) in [(5, 0), (0, 5), (7, 7)] {
        let mut dst = before.clone();
        let done = blit(
            &src,
            &Size { w: 4, h: 4 },
            &mut dst,
            &PositionU { x, y },
            &Size { w: 8, h: 8 },
            RGB,
        );
        assert!(!done);
        assert_eq!(dst, before);
    }
    // Up to the edge it goes ahead.
    let mut dst = before.clone();
    assert!(blit(
        &src,
        &Size { w: 4, h: 4 },
        &mut dst,
        &PositionU { x: 4, y: 4 },
        &Size { w: 8, h: 8 },
        RGB
    ));
    assert_eq!(dst, expected(&src, (4, 4), &before, (4, 4), 8, RGB));
}

#[test]
fn blit_with_a_short_buffer_is_refused() {
    let src = numbered(4 * 4 * RGB);
    let position = PositionU { x: 0, y: 0 };
    // The destination buffer is one byte short of its size.
    let before = numbered(8 * 8 * RGB - 1);
    let mut dst = before.clone();
    assert!(!blit(&src, &Size { w: 4, h: 4 }, &mut dst, &position, &Size { w: 8, h: 8 }, RGB));
    assert_eq!(dst, before);
    // The source buffer is one byte short of its size.
    let before = numbered(8 * 8 * RGB);
    let mut dst = before.clone();
    assert!(!blit(&src[1..], &Size { w: 4, h: 4 }, &mut dst, &position, &Size { w: 8, h: 8 }, RGB));
    assert_eq!(dst, before);
    // A size whose byte count does not fit the machine's integers.
    let mut dst = before.clone();
    assert!(!blit(&src, &Size { w: 4, h: 4 }, &mut dst, &position, &Size { w: usize::MAX, h: usize::MAX }, RGB));
    assert_eq!(dst, before);
    // A stride of zero.
    let mut dst = before.clone();
    assert!(!blit(&src, &Size { w: 4, h: 4 }, &mut dst, &position, &Size { w: 8, h: 8 }, 0));
    assert_eq!(dst, before);
}

#[test]
fn blit_into_a_longer_buffer_leaves_the_tail() {
    let src = numbered(2 * 2);
    let before = vec![9u8; 4 * 4 + 5];
    let mut dst = before.clone();
    assert!(blit(&src, &Size { w: 2, h: 2 }, &mut dst, &PositionU { x: 1, y: 1 }, &Size { w: 4, h: 4 }, 1));
    let mut want = before.clone();
    want[5] = src[0];
    want[6] = src[1];
    want[9] = src[2];
    want[10] = src[3];
    assert_eq!(dst, want);
}
