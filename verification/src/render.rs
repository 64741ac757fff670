//! What the renderers keep besides their textures: the latest framebuffer and
//! cursor and whether the texture must be rebuilt; and the pixel work of a
//! rebuild: turning the server's BGRX pixels into RGB rows, and working out
//! which screen pixels the cursor covers.
use vstd::prelude::*;
use crate::framebuffer::{
    CursorData, FrameBuffer, law_set_then_get, pixel_offset, pixel_value, with_pixel,
};

verus! {

/// The state a renderer keeps between frames.
pub struct RenderState {
    pub framebuffer: Option<FrameBuffer>,
    pub cursor: Option<CursorData>,
    pub dirty: bool,
}

impl RenderState {
    /// Nothing to show yet; the first frame must build the texture.
    pub fn new() -> (r: Self)
        ensures
            r.framebuffer is None,
            r.cursor is None,
            r.dirty,
    {
        RenderState { framebuffer: None, cursor: None, dirty: true }
    }

    /// Shows a new framebuffer.
    pub fn set_framebuffer(&mut self, fb: FrameBuffer)
        ensures
            final(self).framebuffer == Some(fb),
            final(self).cursor == old(self).cursor,
            final(self).dirty,
    {
        self.framebuffer = Some(fb);
        self.dirty = true;
    }

    /// A region changed: the whole texture is rebuilt on the next frame.
    pub fn update_region(&mut self, x: i32, y: i32, w: i32, h: i32)
        ensures
            final(self).framebuffer == old(self).framebuffer,
            final(self).cursor == old(self).cursor,
            final(self).dirty,
    {
        self.dirty = true;
    }

    /// Shows a new cursor shape.
    pub fn set_cursor(&mut self, cursor: CursorData)
        ensures
            final(self).framebuffer == old(self).framebuffer,
            final(self).cursor == Some(cursor),
            final(self).dirty,
    {
        self.cursor = Some(cursor);
        self.dirty = true;
    }

    /// The texture was rebuilt.
    pub fn mark_clean(&mut self)
        ensures
            final(self).framebuffer == old(self).framebuffer,
            final(self).cursor == old(self).cursor,
            !final(self).dirty,
    {
        self.dirty = false;
    }

    /// The framebuffer's width and height, (0, 0) when there is none.
    pub fn framebuffer_size(&self) -> (r: (u32, u32))
        ensures
            r == (match self.framebuffer {
                Some(fb) => (fb.width, fb.height),
                None => (0u32, 0u32),
            }),
    {
        match &self.framebuffer {
            Some(fb) => (fb.width, fb.height),
            None => (0, 0),
        }
    }
}

/// The renderer that uploads the framebuffer to the GPU as a texture.
pub struct GpuRenderer {
    pub state: RenderState,
}

/// The renderer that composites framebuffer and cursor on the CPU.
pub struct SoftwareRenderer {
    pub state: RenderState,
}

impl GpuRenderer {
    /// A renderer with nothing to show.
    pub fn new() -> (r: Self)
        ensures
            r.state.framebuffer is None,
            r.state.cursor is None,
            r.state.dirty,
    {
        GpuRenderer { state: RenderState::new() }
    }

    /// The framebuffer's width and height, (0, 0) when there is none.
    pub fn framebuffer_size(&self) -> (r: (u32, u32))
        ensures
            r == (match self.state.framebuffer {
                Some(fb) => (fb.width, fb.height),
                None => (0u32, 0u32),
            }),
    {
        self.state.framebuffer_size()
    }

    /// Shows a new framebuffer.
    pub fn set_framebuffer(&mut self, fb: FrameBuffer)
        ensures
            final(self).state.framebuffer == Some(fb),
            final(self).state.cursor == old(self).state.cursor,
            final(self).state.dirty,
    {
        self.state.set_framebuffer(fb);
    }

    /// A region changed: the texture is rebuilt on the next frame.
    pub fn update_region(&mut self, x: i32, y: i32, w: i32, h: i32)
        ensures
            final(self).state.framebuffer == old(self).state.framebuffer,
            final(self).state.cursor == old(self).state.cursor,
            final(self).state.dirty,
    {
        self.state.update_region(x, y, w, h);
    }

    /// Shows a new cursor shape.
    pub fn set_cursor(&mut self, cursor: CursorData)
        ensures
            final(self).state.framebuffer == old(self).state.framebuffer,
            final(self).state.cursor == Some(cursor),
            final(self).state.dirty,
    {
        self.state.set_cursor(cursor);
    }
}

impl SoftwareRenderer {
    /// A renderer with nothing to show.
    pub fn new() -> (r: Self)
        ensures
            r.state.framebuffer is None,
            r.state.cursor is None,
            r.state.dirty,
    {
        SoftwareRenderer { state: RenderState::new() }
    }

    /// The framebuffer's width and height, (0, 0) when there is none.
    pub fn framebuffer_size(&self) -> (r: (u32, u32))
        ensures
            r == (match self.state.framebuffer {
                Some(fb) => (fb.width, fb.height),
                None => (0u32, 0u32),
            }),
    {
        self.state.framebuffer_size()
    }

    /// Shows a new framebuffer.
    pub fn set_framebuffer(&mut self, fb: FrameBuffer)
        ensures
            final(self).state.framebuffer == Some(fb),
            final(self).state.cursor == old(self).state.cursor,
            final(self).state.dirty,
    {
        self.state.set_framebuffer(fb);
    }

    /// A region changed: the texture is rebuilt on the next frame.
    pub fn update_region(&mut self, x: i32, y: i32, w: i32, h: i32)
        ensures
            final(self).state.framebuffer == old(self).state.framebuffer,
            final(self).state.cursor == old(self).state.cursor,
            final(self).state.dirty,
    {
        self.state.update_region(x, y, w, h);
    }

    /// Shows a new cursor shape.
    pub fn set_cursor(&mut self, cursor: CursorData)
        ensures
            final(self).state.framebuffer == old(self).state.framebuffer,
            final(self).state.cursor == Some(cursor),
            final(self).state.dirty,
    {
        self.state.set_cursor(cursor);
    }
}

/// One of the two renderers.
pub enum Renderer {
    Gpu(GpuRenderer),
    Software(SoftwareRenderer),
}

impl Renderer {
    /// The renderer used until a window context allows the GPU one: the
    /// software renderer.
    pub fn new() -> (r: Self)
        ensures
            r matches Renderer::Software(s) && s.state.framebuffer is None && s.state.cursor is None
                && s.state.dirty,
    {
        Renderer::Software(SoftwareRenderer::new())
    }

    /// The state of whichever renderer this is.
    pub open spec fn state_of(&self) -> RenderState {
        match self {
            Renderer::Gpu(g) => g.state,
            Renderer::Software(s) => s.state,
        }
    }

    /// Shows a new framebuffer.
    pub fn set_framebuffer(&mut self, fb: FrameBuffer)
        ensures
            final(self).state_of().framebuffer == Some(fb),
            final(self).state_of().cursor == old(self).state_of().cursor,
            final(self).state_of().dirty,
            (*final(self) is Gpu) <==> (*old(self) is Gpu),
    {
        match self {
            Renderer::Gpu(g) => g.state.set_framebuffer(fb),
            Renderer::Software(s) => s.state.set_framebuffer(fb),
        }
    }

    /// A region changed.
    pub fn update_region(&mut self, x: i32, y: i32, w: i32, h: i32)
        ensures
            final(self).state_of().framebuffer == old(self).state_of().framebuffer,
            final(self).state_of().cursor == old(self).state_of().cursor,
            final(self).state_of().dirty,
            (*final(self) is Gpu) <==> (*old(self) is Gpu),
    {
        match self {
            Renderer::Gpu(g) => g.state.update_region(x, y, w, h),
            Renderer::Software(s) => s.state.update_region(x, y, w, h),
        }
    }

    /// Shows a new cursor shape.
    pub fn set_cursor(&mut self, cursor: CursorData)
        ensures
            final(self).state_of().framebuffer == old(self).state_of().framebuffer,
            final(self).state_of().cursor == Some(cursor),
            final(self).state_of().dirty,
            (*final(self) is Gpu) <==> (*old(self) is Gpu),
    {
        match self {
            Renderer::Gpu(g) => g.state.set_cursor(cursor),
            Renderer::Software(s) => s.state.set_cursor(cursor),
        }
    }

    /// The framebuffer's width and height, (0, 0) when there is none.
    pub fn framebuffer_size(&self) -> (r: (u32, u32))
        ensures
            r == (match self.state_of().framebuffer {
                Some(fb) => (fb.width, fb.height),
                None => (0u32, 0u32),
            }),
    {
        match self {
            Renderer::Gpu(g) => g.state.framebuffer_size(),
            Renderer::Software(s) => s.state.framebuffer_size(),
        }
    }

    /// The name of the rendering backend.
    pub fn backend_name(&self) -> (r: &'static str)
        ensures
            self is Gpu ==> r@ == "wgpu"@,
            self is Software ==> r@ == "softbuffer/tiny-skia"@,
    {
        match self {
            Renderer::Gpu(_) => "wgpu",
            Renderer::Software(_) => "softbuffer/tiny-skia",
        }
    }
}


/// The RGB colour of pixel (`x`, `y`) of BGRX data with this stride: bytes
/// 2, 1, 0 of the pixel, or black when the pixel's bytes run past the data.
pub open spec fn rgb_at(data: Seq<u8>, stride: u32, x: int, y: int) -> (u8, u8, u8) {
    let off = (y * stride + x) * 4;
    if off + 3 < data.len() {
        (data[off + 2], data[off + 1], data[off])
    } else {
        (0u8, 0u8, 0u8)
    }
}

/// The framebuffer as rows of RGB colours, `height` rows of `width` pixels,
/// for a texture upload.
pub fn texture_rows(fb: &FrameBuffer) -> (r: Vec<Vec<(u8, u8, u8)>>)
    requires
        (fb.height as int * fb.stride as int + fb.width as int) * 4 <= u64::MAX,
    ensures
        r@.len() == fb.height,
        forall|y: int|
            0 <= y < fb.height ==> {
                &&& (#[trigger] r@[y])@.len() == fb.width
                &&& forall|x: int|
                    0 <= x < fb.width ==> (#[trigger] r@[y]@[x]) == rgb_at(
                        fb.data@,
                        fb.stride,
                        x,
                        y,
                    )
            },
{
    let mut rows: Vec<Vec<(u8, u8, u8)>> = Vec::new();
    let mut y: u32 = 0;
    while y < fb.height
        invariant
            y <= fb.height,
            (fb.height as int * fb.stride as int + fb.width as int) * 4 <= u64::MAX,
            rows@.len() == y,
            forall|yy: int|
                0 <= yy < y ==> {
                    &&& (#[trigger] rows@[yy])@.len() == fb.width
                    &&& forall|x: int|
                        0 <= x < fb.width ==> (#[trigger] rows@[yy]@[x]) == rgb_at(
                            fb.data@,
                            fb.stride,
                            x,
                            yy,
                        )
                },
        decreases fb.height - y,
    {
        let mut row: Vec<(u8, u8, u8)> = Vec::new();
        let mut x: u32 = 0;
        while x < fb.width
            invariant
                x <= fb.width,
                y < fb.height,
                (fb.height as int * fb.stride as int + fb.width as int) * 4 <= u64::MAX,
                row@.len() == x,
                forall|xx: int|
                    0 <= xx < x ==> (#[trigger] row@[xx]) == rgb_at(fb.data@, fb.stride, xx, y as int),
            decreases fb.width - x,
        {
            assert((y as int) * (fb.stride as int) <= (fb.height as int) * (fb.stride as int))
                by (nonlinear_arith)
                requires
                    y < fb.height,
            ;
            let off: u64 = ((y as u64) * (fb.stride as u64) + (x as u64)) * 4;
            let px: (u8, u8, u8) = if off + 3 < fb.data.len() as u64 {
                let o: usize = off as usize;
                (fb.data[o + 2], fb.data[o + 1], fb.data[o])
            } else {
                (0, 0, 0)
            };
            row.push(px);
            x = x + 1;
        }
        rows.push(row);
        y = y + 1;
    }
    rows
}

/// A cursor pixel to draw over the screen image: which screen pixel, the
/// cursor's colour, and its opacity (255 covers, anything less blends).
#[derive(Debug, Clone, Copy, PartialEq, Eq, Structural)]
pub struct CursorPixel {
    pub index: usize,
    pub r: u8,
    pub g: u8,
    pub b: u8,
    pub alpha: u8,
}

/// What cell (`cx`, `cy`) of the cursor draws on a `fb_w` by `fb_h` image of
/// `n` pixels: nothing when its bytes run past the cursor data, when it is
/// fully transparent, when it falls outside the image once the hotspot is
/// put on the origin, or when its index is past the image; else its colour at
/// that index.
pub open spec fn cell_pixel(
    pixels: Seq<u8>,
    cw: int,
    hx: i32,
    hy: i32,
    fb_w: usize,
    fb_h: usize,
    n: usize,
    cx: int,
    cy: int,
) -> Option<CursorPixel> {
    let off = (cy * cw + cx) * 4;
    let dx = cx - hx;
    let dy = cy - hy;
    if off + 3 >= pixels.len() {
        None
    } else if pixels[off + 3] == 0 {
        None
    } else if dx < 0 || dy < 0 || dx >= (fb_w as i32) || dy >= (fb_h as i32) {
        None
    } else if dy * fb_w + dx >= n {
        None
    } else {
        Some(
            CursorPixel {
                index: (dy * fb_w + dx) as usize,
                r: pixels[off],
                g: pixels[off + 1],
                b: pixels[off + 2],
                alpha: pixels[off + 3],
            },
        )
    }
}

/// The drawn pixels of the first `k` cells of cursor row `cy`, in order.
pub open spec fn row_pixels(
    pixels: Seq<u8>,
    cw: int,
    hx: i32,
    hy: i32,
    fb_w: usize,
    fb_h: usize,
    n: usize,
    cy: int,
    k: int,
) -> Seq<CursorPixel>
    decreases k,
{
    if k <= 0 {
        Seq::empty()
    } else {
        let rest = row_pixels(pixels, cw, hx, hy, fb_w, fb_h, n, cy, k - 1);
        match cell_pixel(pixels, cw, hx, hy, fb_w, fb_h, n, k - 1, cy) {
            Some(p) => rest.push(p),
            None => rest,
        }
    }
}

/// The drawn pixels of the first `k` cursor rows, row after row.
pub open spec fn cursor_pixels(
    pixels: Seq<u8>,
    cw: int,
    hx: i32,
    hy: i32,
    fb_w: usize,
    fb_h: usize,
    n: usize,
    k: int,
) -> Seq<CursorPixel>
    decreases k,
{
    if k <= 0 {
        Seq::empty()
    } else {
        cursor_pixels(pixels, cw, hx, hy, fb_w, fb_h, n, k - 1) + row_pixels(
            pixels,
            cw,
            hx,
            hy,
            fb_w,
            fb_h,
            n,
            k - 1,
            cw,
        )
    }
}

/// Whether the cell's offset from the hotspot fits in `i32` for every cell
/// that has visible cursor data.
pub open spec fn hotspot_offsets_fit(c: CursorData) -> bool {
    forall|cx: int, cy: int|
        0 <= cx < c.width && 0 <= cy < c.height && (cy * c.width + cx) * 4 + 3 < c.pixels@.len()
            && #[trigger] c.pixels@[(cy * c.width + cx) * 4 + 3] != 0 ==> {
            &&& i32::MIN <= cx - c.hotspot_x <= i32::MAX
            &&& i32::MIN <= cy - c.hotspot_y <= i32::MAX
        }
}

/// The cursor pixels to draw over a `fb_w` by `fb_h` image of `n` pixels,
/// row after row of the cursor; see [`cell_pixel`].
pub fn cursor_overlay(cursor: &CursorData, fb_w: usize, fb_h: usize, n: usize) -> (r: Vec<
    CursorPixel,
>)
    requires
        (cursor.height as int * cursor.width as int) * 4 + 4 <= usize::MAX,
        cursor.width <= i32::MAX,
        cursor.height <= i32::MAX,
        fb_w as int * fb_h as int <= usize::MAX,
        hotspot_offsets_fit(*cursor),
    ensures
        r@ == cursor_pixels(
            cursor.pixels@,
            cursor.width as int,
            cursor.hotspot_x,
            cursor.hotspot_y,
            fb_w,
            fb_h,
            n,
            cursor.height as int,
        ),
{
    let ghost px = cursor.pixels@;
    let ghost cwi = cursor.width as int;
    let cw: usize = cursor.width as usize;
    let ch: usize = cursor.height as usize;
    let mut out: Vec<CursorPixel> = Vec::new();
    let mut cy: usize = 0;
    while cy < ch
        invariant
            cy <= ch,
            ch == cursor.height,
            cw == cursor.width,
            px == cursor.pixels@,
            cwi == cw,
            (cursor.height as int * cursor.width as int) * 4 + 4 <= usize::MAX,
            cursor.width <= i32::MAX,
            cursor.height <= i32::MAX,
            fb_w as int * fb_h as int <= usize::MAX,
            hotspot_offsets_fit(*cursor),
            out@ == cursor_pixels(px, cwi, cursor.hotspot_x, cursor.hotspot_y, fb_w, fb_h, n, cy as int),
        decreases ch - cy,
    {
        let ghost before = out@;
        let mut cx: usize = 0;
        while cx < cw
            invariant
                cx <= cw,
                cy < ch,
                ch == cursor.height,
                cw == cursor.width,
                px == cursor.pixels@,
                cwi == cw,
                (cursor.height as int * cursor.width as int) * 4 + 4 <= usize::MAX,
                cursor.width <= i32::MAX,
                cursor.height <= i32::MAX,
                fb_w as int * fb_h as int <= usize::MAX,
                hotspot_offsets_fit(*cursor),
                out@ == before + row_pixels(
                    px,
                    cwi,
                    cursor.hotspot_x,
                    cursor.hotspot_y,
                    fb_w,
                    fb_h,
                    n,
                    cy as int,
                    cx as int,
                ),
            decreases cw - cx,
        {
            assert((cy as int) * (cw as int) + (cx as int) < (ch as int) * (cw as int))
                by (nonlinear_arith)
                requires
                    cy < ch,
                    cx < cw,
            ;
            let src_offset: usize = (cy * cw + cx) * 4;
            let ghost cell = cell_pixel(
                px,
                cwi,
                cursor.hotspot_x,
                cursor.hotspot_y,
                fb_w,
                fb_h,
                n,
                cx as int,
                cy as int,
            );
            let ghost prev = out@;
            if src_offset + 3 < cursor.pixels.len() {
                let alpha = cursor.pixels[src_offset + 3];
                if alpha != 0 {
                    assert(cursor.pixels@[(cy * cw + cx) * 4 + 3] != 0);
                    let dx: i32 = (cx as i32) - cursor.hotspot_x;
                    let dy: i32 = (cy as i32) - cursor.hotspot_y;
                    if !(dx < 0 || dy < 0 || dx >= (fb_w as i32) || dy >= (fb_h as i32)) {
                        let ghost tw = fb_w as i32;
                        let ghost th = fb_h as i32;
                        assert(tw > 0 ==> (tw as u64) <= (fb_w as u64)) by (bit_vector)
                            requires
                                tw == fb_w as i32,
                        ;
                        assert(th > 0 ==> (th as u64) <= (fb_h as u64)) by (bit_vector)
                            requires
                                th == fb_h as i32,
                        ;
                        assert(dx < fb_w);
                        assert(dy < fb_h);
                        assert((dy as int) * (fb_w as int) + (dx as int) < (fb_w as int) * (
                        fb_h as int)) by (nonlinear_arith)
                            requires
                                0 <= dy < fb_h,
                                0 <= dx < fb_w,
                        ;
                        assert(0 <= (dy as int) * (fb_w as int)) by (nonlinear_arith)
                            requires
                                0 <= dy,
                                0 <= fb_w,
                        ;
                        let dst_idx: usize = (dy as usize) * fb_w + (dx as usize);
                        if dst_idx < n {
                            out.push(
                                CursorPixel {
                                    index: dst_idx,
                                    r: cursor.pixels[src_offset],
                                    g: cursor.pixels[src_offset + 1],
                                    b: cursor.pixels[src_offset + 2],
                                    alpha,
                                },
                            );
                        }
                    }
                }
            }
            assert(out@ == prev + match cell {
                Some(p) => seq![p],
                None => Seq::<CursorPixel>::empty(),
            });
            cx = cx + 1;
            assert(before + row_pixels(
                px,
                cwi,
                cursor.hotspot_x,
                cursor.hotspot_y,
                fb_w,
                fb_h,
                n,
                cy as int,
                cx as int,
            ) =~= out@);
        }
        cy = cy + 1;
    }
    out
}

/// Every cursor pixel to draw is visible and lies in the image.
pub proof fn law_cursor_pixels_in_image(
    pixels: Seq<u8>,
    cw: int,
    hx: i32,
    hy: i32,
    fb_w: usize,
    fb_h: usize,
    n: usize,
    k: int,
)
    ensures
        forall|i: int|
            0 <= i < cursor_pixels(pixels, cw, hx, hy, fb_w, fb_h, n, k).len() ==> {
                &&& (#[trigger] cursor_pixels(pixels, cw, hx, hy, fb_w, fb_h, n, k)[i]).index < n
                &&& cursor_pixels(pixels, cw, hx, hy, fb_w, fb_h, n, k)[i].alpha != 0
            },
    decreases k,
{
    if k > 0 {
        law_cursor_pixels_in_image(pixels, cw, hx, hy, fb_w, fb_h, n, k - 1);
        lemma_row_pixels_in_image(pixels, cw, hx, hy, fb_w, fb_h, n, k - 1, cw);
        let a = cursor_pixels(pixels, cw, hx, hy, fb_w, fb_h, n, k - 1);
        let b = row_pixels(pixels, cw, hx, hy, fb_w, fb_h, n, k - 1, cw);
        assert forall|i: int| 0 <= i < (a + b).len() implies {
            &&& (#[trigger] (a + b)[i]).index < n
            &&& (a + b)[i].alpha != 0
        } by {
            if i < a.len() {
                assert((a + b)[i] == a[i]);
            } else {
                assert((a + b)[i] == b[i - a.len()]);
            }
        }
    }
}

/// Every drawn pixel of a cursor row is visible and lies in the image.
pub proof fn lemma_row_pixels_in_image(
    pixels: Seq<u8>,
    cw: int,
    hx: i32,
    hy: i32,
    fb_w: usize,
    fb_h: usize,
    n: usize,
    cy: int,
    k: int,
)
    ensures
        forall|i: int|
            0 <= i < row_pixels(pixels, cw, hx, hy, fb_w, fb_h, n, cy, k).len() ==> {
                &&& (#[trigger] row_pixels(pixels, cw, hx, hy, fb_w, fb_h, n, cy, k)[i]).index < n
                &&& row_pixels(pixels, cw, hx, hy, fb_w, fb_h, n, cy, k)[i].alpha != 0
            },
    decreases k,
{
    if k > 0 {
        lemma_row_pixels_in_image(pixels, cw, hx, hy, fb_w, fb_h, n, cy, k - 1);
        let cx = k - 1;
        let dx = cx - hx;
        let dy = cy - hy;
        if dx >= 0 && dy >= 0 {
            assert(dy * fb_w + dx >= 0) by (nonlinear_arith)
                requires
                    dx >= 0,
                    dy >= 0,
                    fb_w >= 0,
            ;
        }
        let rest = row_pixels(pixels, cw, hx, hy, fb_w, fb_h, n, cy, k - 1);
        let all = row_pixels(pixels, cw, hx, hy, fb_w, fb_h, n, cy, k);
        assert forall|i: int| 0 <= i < all.len() implies {
            &&& (#[trigger] all[i]).index < n
            &&& all[i].alpha != 0
        } by {
            if i < rest.len() {
                assert(all[i] == rest[i]);
            }
        }
    }
}

/// A texture pixel is the framebuffer pixel at the same place, as
/// `FrameBuffer::pixel_at` reads it (4 bytes at `(y * stride + x) * 4`,
/// stride in pixels), with its bytes 2, 1, 0 as red, green and blue.
pub proof fn law_texture_reads_pixel(data: Seq<u8>, stride: u32, x: u32, y: u32)
    requires
        pixel_offset(x, y, stride) + 4 <= data.len(),
    ensures
        ({
            let p = pixel_value(data, pixel_offset(x, y, stride));
            rgb_at(data, stride, x as int, y as int) == (p[2], p[1], p[0])
        }),
{
    assert(pixel_offset(x, y, stride) >= 0) by (nonlinear_arith)
        requires
            x >= 0,
            y >= 0,
            stride >= 0,
    ;
}

/// A pixel set with `FrameBuffer::set_pixel` shows in the texture with the
/// colour it was given: bytes 2, 1, 0 as red, green and blue.
pub proof fn law_texture_shows_set_pixel(data: Seq<u8>, stride: u32, x: u32, y: u32, rgba: Seq<u8>)
    requires
        pixel_offset(x, y, stride) + 4 <= data.len(),
        rgba.len() == 4,
    ensures
        rgb_at(with_pixel(data, pixel_offset(x, y, stride), rgba), stride, x as int, y as int) == (
            rgba[2],
            rgba[1],
            rgba[0],
        ),
{
    let off = pixel_offset(x, y, stride);
    let d = with_pixel(data, off, rgba);
    assert(off >= 0) by (nonlinear_arith)
        requires
            off == (y * stride + x) * 4,
            x >= 0,
            y >= 0,
            stride >= 0,
    ;
    law_set_then_get(data, off, rgba);
    law_texture_reads_pixel(d, stride, x, y);
}

} // verus!
