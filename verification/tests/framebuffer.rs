use ruvnc_viewer::framebuffer::{CursorData, FrameBuffer, Screen, ScreenLayout};

#[test]
fn types_test_framebuffer_new() {
    let fb = FrameBuffer::new(100, 50);
    assert_eq!(fb.width, 100);
    assert_eq!(fb.height, 50);
    assert_eq!(fb.stride, 100);
    assert_eq!(fb.data.len(), 100 * 50 * 4);
}

#[test]
fn types_test_framebuffer_new_zero() {
    let fb = FrameBuffer::new(0, 0);
    assert_eq!(fb.width, 0);
    assert_eq!(fb.data.len(), 0);
}

#[test]
fn types_test_pixel_at_default_is_zero() {
    let fb = FrameBuffer::new(10, 10);
    assert_eq!(fb.pixel_at(0, 0), [0, 0, 0, 0]);
    assert_eq!(fb.pixel_at(9, 9), [0, 0, 0, 0]);
}

#[test]
fn types_test_pixel_at_out_of_bounds() {
    let fb = FrameBuffer::new(10, 10);
    assert_eq!(fb.pixel_at(100, 100), [0, 0, 0, 255]);
}

#[test]
fn types_test_set_pixel_and_read_back() {
    let mut fb = FrameBuffer::new(10, 10);
    fb.set_pixel(5, 5, [255, 128, 64, 32]);
    assert_eq!(fb.pixel_at(5, 5), [255, 128, 64, 32]);
}

#[test]
fn types_test_set_pixel_corners() {
    let mut fb = FrameBuffer::new(10, 10);
    fb.set_pixel(0, 0, [1, 2, 3, 4]);
    fb.set_pixel(9, 0, [5, 6, 7, 8]);
    fb.set_pixel(0, 9, [9, 10, 11, 12]);
    fb.set_pixel(9, 9, [13, 14, 15, 16]);
    assert_eq!(fb.pixel_at(0, 0), [1, 2, 3, 4]);
    assert_eq!(fb.pixel_at(9, 0), [5, 6, 7, 8]);
    assert_eq!(fb.pixel_at(0, 9), [9, 10, 11, 12]);
    assert_eq!(fb.pixel_at(9, 9), [13, 14, 15, 16]);
}

#[test]
fn types_test_set_pixel_out_of_bounds_is_noop() {
    let mut fb = FrameBuffer::new(10, 10);
    fb.set_pixel(100, 100, [255, 255, 255, 255]);
    assert_eq!(fb.pixel_at(0, 0), [0, 0, 0, 0]);
}

#[test]
fn types_test_from_raw_ptr_null() {
    let fb = FrameBuffer::from_raw_ptr(100, 100, 100, None);
    assert_eq!(fb.width, 100);
    assert_eq!(fb.data.len(), 100 * 100 * 4);
    assert_eq!(fb.pixel_at(0, 0), [0, 0, 0, 0]);
}

#[test]
fn types_test_from_raw_ptr_valid() {
    let src = vec![0xAAu8; 4 * 4 * 4];
    let fb = FrameBuffer::from_raw_ptr(4, 4, 4, Some(&src));
    assert_eq!(fb.width, 4);
    assert_eq!(fb.height, 4);
    assert_eq!(fb.pixel_at(0, 0), [0xAA, 0xAA, 0xAA, 0xAA]);
}

#[test]
fn types_test_copy_region_from_ptr_null_is_noop() {
    let mut fb = FrameBuffer::new(10, 10);
    fb.copy_region_from_ptr(0, 0, 5, 5, None, 10);
    assert_eq!(fb.pixel_at(0, 0), [0, 0, 0, 0]);
}

#[test]
fn types_test_copy_region_from_ptr_valid() {
    let mut fb = FrameBuffer::new(10, 10);
    let src = vec![0xBBu8; 10 * 10 * 4];
    fb.copy_region_from_ptr(0, 0, 3, 3, Some(&src), 10);
    assert_eq!(fb.pixel_at(0, 0), [0xBB, 0xBB, 0xBB, 0xBB]);
    assert_eq!(fb.pixel_at(2, 2), [0xBB, 0xBB, 0xBB, 0xBB]);
    assert_eq!(fb.pixel_at(5, 5), [0, 0, 0, 0]);
}

#[test]
fn types_test_cursor_data_fields() {
    let cursor = CursorData {
        width: 16,
        height: 16,
        hotspot_x: 8,
        hotspot_y: 8,
        pixels: vec![0u8; 16 * 16 * 4],
    };
    assert_eq!(cursor.width, 16);
    assert_eq!(cursor.hotspot_x, 8);
    assert_eq!(cursor.pixels.len(), 16 * 16 * 4);
}

#[test]
fn types_test_large_framebuffer() {
    let fb = FrameBuffer::new(1920, 1080);
    assert_eq!(fb.data.len(), 1920 * 1080 * 4);
    assert_eq!(fb.pixel_at(1919, 1079), [0, 0, 0, 0]);
}

#[test]
fn test_screen_layout_default_empty() {
    let layout = ScreenLayout::default();
    assert_eq!(layout.screen_count(), 0);
    assert!(!layout.is_multi_monitor());
}

#[test]
fn test_screen_layout_single() {
    let layout = ScreenLayout::single(1920, 1080);
    assert_eq!(layout.screen_count(), 1);
    assert!(!layout.is_multi_monitor());
    assert_eq!(layout.bounding_box(), (0, 0, 1920, 1080));
}

#[test]
fn test_screen_layout_multi_monitor() {
    let layout = ScreenLayout {
        screens: vec![
            Screen { id: 0, x: 0, y: 0, width: 1920, height: 1080 },
            Screen { id: 1, x: 1920, y: 0, width: 1920, height: 1080 },
        ],
    };
    assert_eq!(layout.screen_count(), 2);
    assert!(layout.is_multi_monitor());
    assert_eq!(layout.bounding_box(), (0, 0, 3840, 1080));
}

#[test]
fn test_screen_layout_bounding_box_offset() {
    let layout = ScreenLayout {
        screens: vec![
            Screen { id: 0, x: 0, y: 0, width: 1920, height: 1080 },
            Screen { id: 1, x: 1920, y: 200, width: 1280, height: 720 },
        ],
    };
    let (x, y, w, h) = layout.bounding_box();
    assert_eq!(x, 0);
    assert_eq!(y, 0);
    assert_eq!(w, 3200);
    assert_eq!(h, 1080);
}

#[test]
fn test_screen_layout_empty_bounding_box() {
    let layout = ScreenLayout::default();
    assert_eq!(layout.bounding_box(), (0, 0, 0, 0));
}

#[test]
fn bounding_box_with_negative_origin() {
    let layout = ScreenLayout {
        screens: vec![
            Screen { id: 0, x: -100, y: -50, width: 100, height: 50 },
            Screen { id: 1, x: 0, y: 0, width: 200, height: 100 },
        ],
    };
    assert_eq!(layout.bounding_box(), (-100, -50, 300, 150));
}

#[test]
fn copy_region_stops_at_the_bottom_and_clips_the_row() {
    let mut fb = FrameBuffer::new(4, 2);
    let src: Vec<u8> = (0..64u8).collect();
    fb.copy_region_from_ptr(2, 1, 5, 9, Some(&src), 4);
    assert_eq!(fb.pixel_at(1, 1), [0, 0, 0, 0]);
    assert_eq!(fb.pixel_at(2, 1), [24, 25, 26, 27]);
    assert_eq!(fb.pixel_at(3, 1), [28, 29, 30, 31]);
    assert_eq!(fb.pixel_at(0, 0), [0, 0, 0, 0]);
}

#[test]
fn copy_region_with_negative_row_copies_nothing() {
    let mut fb = FrameBuffer::new(2, 2);
    let src = vec![7u8; 16];
    fb.copy_region_from_ptr(0, -1, 2, 2, Some(&src), 2);
    assert_eq!(fb.data, vec![0u8; 16]);
}

#[test]
fn from_raw_ptr_takes_stride_rows() {
    let src: Vec<u8> = (0..48u8).collect();
    let fb = FrameBuffer::from_raw_ptr(2, 2, 3, Some(&src));
    assert_eq!(fb.data.len(), 24);
    assert_eq!(fb.pixel_at(0, 1), [12, 13, 14, 15]);
}
