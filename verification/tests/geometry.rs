use blittle::stride::{GRAYSCALE, RGB, RGBA, RGBA_F32, RGB_F32};
use blittle::{get_index, PositionU, Rect, Size};

#[test]
fn test_rect_start() {
    let mut r = Rect { x: 0, y: 0, w: 64, h: 32 };
    let (start, end) = r.get_line_indices(GRAYSCALE);
    assert_eq!(start, 0);
    assert_eq!(end, r.w);
    let (start, end) = r.get_line_indices(RGB);
    assert_eq!(start, 0);
    assert_eq!(end, r.w * 3);

    r.x = 1;
    let (start, end) = r.get_line_indices(GRAYSCALE);
    assert_eq!(start, 1);
    assert_eq!(end, r.w + 1);
    let (start, end) = r.get_line_indices(RGB);
    assert_eq!(start, 3);
    assert_eq!(end, (r.w + 1) * 3);

    r.x = 3;
    r.y = 2;
    let (start, end) = r.get_line_indices(GRAYSCALE);
    assert_eq!(start, 131);
    assert_eq!(end, 131 + r.w);
    let (start, end) = r.get_line_indices(RGB);
    assert_eq!(start, 393);
    assert_eq!(end, 393 + r.w * 3);
}

#[test]
fn rect_line_with_zero_stride_is_empty() {
    let r = Rect { x: 5, y: 7, w: 9, h: 2 };
    assert_eq!(r.get_line_indices(0), (0, 0));
}

#[test]
fn stride_constants() {
    assert_eq!(GRAYSCALE, 1);
    assert_eq!(RGB, 3);
    assert_eq!(RGBA, 4);
    assert_eq!(RGB_F32, 12);
    assert_eq!(RGBA_F32, 16);
}

#[test]
fn index_is_pixel_number_times_stride() {
    assert_eq!(get_index(0, 0, 64, RGB), 0);
    assert_eq!(get_index(2, 12, 64, RGB), (2 + 12 * 64) * 3);
    assert_eq!(get_index(2, 12, 64, RGB), 2310);
    assert_eq!(get_index(3, 2, 64, GRAYSCALE), 131);
    assert_eq!(get_index(7, 5, 10, RGBA_F32), 912);
    assert_eq!(get_index(7, 5, 10, 0), 0);
}

#[test]
fn size_from_buffer() {
    let buffer = vec![0u8; 64 * 64 * 3];
    let size = Size::new(&buffer, 64, RGB);
    assert_eq!((size.w, size.h), (64, 64));
    // A partial row and a partial pixel at the end do not count.
    let buffer = vec![0u8; 64 * 10 * 4 + 7];
    let size = Size::new(&buffer, 64, RGBA);
    assert_eq!((size.w, size.h), (64, 10));
    let size = Size::new(&[], 5, 1);
    assert_eq!((size.w, size.h), (5, 0));
    let size = Size::from_len(100, 7, 3);
    assert_eq!((size.w, size.h), (7, 4));
    assert!(size.w * size.h * 3 <= 100);
}

#[test]
fn size_clip_takes_the_lesser_extents() {
    let mut size = Size { w: 32, h: 17 };
    size.clip(&Size { w: 20, h: 40 });
    assert_eq!((size.w, size.h), (20, 17));
    size.clip(&Size { w: 64, h: 64 });
    assert_eq!((size.w, size.h), (20, 17));
    size.clip(&Size { w: 0, h: 3 });
    assert_eq!((size.w, size.h), (0, 3));
}

#[test]
fn size_and_position_defaults_are_zero() {
    let size = Size::default();
    assert_eq!((size.w, size.h), (0, 0));
    let position = PositionU::default();
    assert_eq!((position.x, position.y), (0, 0));
}

#[test]
fn position_is_inside() {
    let size = Size { w: 64, h: 32 };
    assert!(PositionU { x: 0, y: 0 }.is_inside(&size));
    assert!(PositionU { x: 63, y: 31 }.is_inside(&size));
    assert!(!PositionU { x: 64, y: 0 }.is_inside(&size));
    assert!(!PositionU { x: 0, y: 32 }.is_inside(&size));
    assert!(!PositionU { x: 0, y: 0 }.is_inside(&Size { w: 0, h: 0 }));
}
