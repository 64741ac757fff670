use ruvnc_viewer::framebuffer::{CursorData, FrameBuffer};
use ruvnc_viewer::render::{cursor_overlay, texture_rows, GpuRenderer, Renderer, SoftwareRenderer};

#[test]
fn test_gpu_renderer_init() {
    let r = GpuRenderer::new();
    assert_eq!(r.framebuffer_size(), (0, 0));
}

#[test]
fn test_software_renderer_init() {
    let r = SoftwareRenderer::new();
    assert_eq!(r.framebuffer_size(), (0, 0));
    assert!(r.state.dirty);
}

#[test]
fn software_renderer_test_set_framebuffer() {
    let mut r = SoftwareRenderer::new();
    r.set_framebuffer(FrameBuffer::new(1920, 1080));
    assert_eq!(r.framebuffer_size(), (1920, 1080));
    assert!(r.state.dirty);
}

#[test]
fn test_renderer_creation() {
    let renderer = Renderer::new();
    assert_eq!(renderer.framebuffer_size(), (0, 0));
}

#[test]
fn test_software_renderer_framebuffer() {
    let mut renderer = SoftwareRenderer::new();
    let fb = FrameBuffer {
        width: 800,
        height: 600,
        stride: 800,
        data: vec![0u8; 800 * 600 * 4],
    };
    renderer.set_framebuffer(fb);
    assert_eq!(renderer.framebuffer_size(), (800, 600));
}

#[test]
fn renderer_backend_names() {
    let r = Renderer::new();
    assert_eq!(r.backend_name(), "softbuffer/tiny-skia");
    let g = Renderer::Gpu(GpuRenderer::new());
    assert_eq!(g.backend_name(), "wgpu");
}

#[test]
fn renderer_tracks_framebuffer_cursor_and_dirty() {
    let mut r = Renderer::Gpu(GpuRenderer::new());
    r.set_framebuffer(FrameBuffer::new(3, 2));
    assert_eq!(r.framebuffer_size(), (3, 2));
    r.update_region(0, 0, 1, 1);
    r.set_cursor(CursorData { width: 1, height: 1, hotspot_x: 0, hotspot_y: 0, pixels: vec![1, 2, 3, 4] });
    match &r {
        Renderer::Gpu(g) => {
            assert!(g.state.dirty);
            assert!(g.state.cursor.is_some());
        }
        Renderer::Software(_) => panic!("expected the GPU renderer"),
    }
}

#[test]
fn texture_rows_swap_bgrx_to_rgb() {
    let mut fb = FrameBuffer::new(2, 1);
    fb.set_pixel(0, 0, [10, 20, 30, 0]);
    fb.set_pixel(1, 0, [1, 2, 3, 0]);
    let rows = texture_rows(&fb);
    assert_eq!(rows.len(), 1);
    assert_eq!(rows[0], vec![(30, 20, 10), (3, 2, 1)]);
}

#[test]
fn cursor_overlay_skips_transparent_and_offscreen_cells() {
    let cursor = CursorData {
        width: 2,
        height: 2,
        hotspot_x: 0,
        hotspot_y: 0,
        pixels: vec![255, 0, 0, 255, 0, 255, 0, 255, 0, 0, 255, 0, 255, 255, 255, 128],
    };
    let out = cursor_overlay(&cursor, 10, 10, 100);
    assert_eq!(out.len(), 3);
    assert_eq!((out[0].index, out[0].r, out[0].g, out[0].b, out[0].alpha), (0, 255, 0, 0, 255));
    assert_eq!((out[1].index, out[1].r, out[1].g, out[1].b), (1, 0, 255, 0));
    assert_eq!((out[2].index, out[2].alpha), (11, 128));

    let shifted = CursorData { hotspot_x: 1, hotspot_y: 1, ..cursor };
    let out = cursor_overlay(&shifted, 10, 10, 100);
    assert_eq!(out.len(), 1);
    assert_eq!(out[0].index, 0);
}
