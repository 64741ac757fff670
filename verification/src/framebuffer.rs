//! The framebuffer copy (4 bytes per pixel, row-major with a stride), the
//! cursor shape, and the server's screen layout.
use vstd::prelude::*;

verus! {

/// The pixels of a remote desktop: `stride` pixels per row, 4 bytes each.
pub struct FrameBuffer {
    pub width: u32,
    pub height: u32,
    pub stride: u32,
    pub data: Vec<u8>,
}

/// The byte offset of pixel (`x`, `y`) in a buffer with this stride.
pub open spec fn pixel_offset(x: u32, y: u32, stride: u32) -> int {
    (y * stride + x) * 4
}

/// The 4 bytes of the pixel at byte offset `off`, or opaque black
/// `[0, 0, 0, 255]` when they do not all lie in `data`.
pub open spec fn pixel_value(data: Seq<u8>, off: int) -> Seq<u8> {
    if 0 <= off && off + 4 <= data.len() {
        data.subrange(off, off + 4)
    } else {
        seq![0u8, 0u8, 0u8, 255u8]
    }
}

/// `data` with the 4 bytes at `off` set to `rgba`, when they all lie in it.
pub open spec fn with_pixel(data: Seq<u8>, off: int, rgba: Seq<u8>) -> Seq<u8> {
    if 0 <= off && off + 4 <= data.len() {
        data.subrange(0, off) + rgba + data.subrange(off + 4, data.len() as int)
    } else {
        data
    }
}

impl FrameBuffer {
    /// A black (all-zero) buffer of this size whose stride is its width.
    pub fn new(width: u32, height: u32) -> (r: Self)
        requires
            width * height * 4 <= u32::MAX,
        ensures
            r.width == width,
            r.height == height,
            r.stride == width,
            r.data@ == Seq::new((width * height * 4) as nat, |i: int| 0u8),
    {
        assert(width * height * 4 == (width * height) * 4) by (nonlinear_arith);
        let wh: u32 = width * height;
        let n: u32 = wh * 4;
        let data: Vec<u8> = vec![0u8; n as usize];
        assert(data@ =~= Seq::new((width * height * 4) as nat, |i: int| 0u8));
        FrameBuffer { width, height, stride: width, data }
    }

    /// The 4 bytes of pixel (`x`, `y`); opaque black when they lie outside the
    /// data.
    pub fn pixel_at(&self, x: u32, y: u32) -> (r: [u8; 4])
        requires
            pixel_offset(x, y, self.stride) <= u32::MAX,
        ensures
            r@ == pixel_value(self.data@, pixel_offset(x, y, self.stride)),
    {
        assert(y * self.stride <= (y * self.stride + x) * 4) by (nonlinear_arith);
        let row: u32 = y * self.stride;
        let off: u32 = (row + x) * 4;
        if (off as u64) + 4 <= self.data.len() as u64 {
            let offset: usize = off as usize;
            let r = [
                self.data[offset],
                self.data[offset + 1],
                self.data[offset + 2],
                self.data[offset + 3],
            ];
            assert(r@ =~= self.data@.subrange(offset as int, offset + 4));
            r
        } else {
            let r = [0u8, 0u8, 0u8, 255u8];
            assert(r@ =~= seq![0u8, 0u8, 0u8, 255u8]);
            r
        }
    }

    /// Sets the 4 bytes of pixel (`x`, `y`); nothing changes when they lie
    /// outside the data.
    pub fn set_pixel(&mut self, x: u32, y: u32, rgba: [u8; 4])
        requires
            pixel_offset(x, y, old(self).stride) <= u32::MAX,
        ensures
            final(self).data@ == with_pixel(
                old(self).data@,
                pixel_offset(x, y, old(self).stride),
                rgba@,
            ),
            final(self).width == old(self).width,
            final(self).height == old(self).height,
            final(self).stride == old(self).stride,
    {
        assert(y * self.stride <= (y * self.stride + x) * 4) by (nonlinear_arith);
        let row: u32 = y * self.stride;
        let off: u32 = (row + x) * 4;
        if (off as u64) + 4 <= self.data.len() as u64 {
            let offset: usize = off as usize;
            self.data.set(offset, rgba[0]);
            self.data.set(offset + 1, rgba[1]);
            self.data.set(offset + 2, rgba[2]);
            self.data.set(offset + 3, rgba[3]);
            assert(self.data@ =~= with_pixel(old(self).data@, offset as int, rgba@));
        }
    }
}

/// How many rows a region copy reaches: rows from `y` downwards, at most
/// `h`, stopping at the first row that is not above `height` (a negative `y`
/// reaches none).
pub open spec fn rows_reached(y: int, h: int, height: int) -> int {
    if y < 0 || h <= 0 || y >= height {
        0
    } else if y + h <= height {
        h
    } else {
        height - y
    }
}

/// The byte offset of column `x` of row `row` with this stride in pixels.
pub open spec fn row_offset(row: int, x: int, stride: int) -> int {
    row * (stride * 4) + x * 4
}

/// How many bytes of a row of `w` pixels fit in `len` bytes from `dst`.
pub open spec fn row_len(len: int, dst: int, w: int) -> int {
    let room = if dst < len {
        len - dst
    } else {
        0
    };
    if w * 4 < room {
        w * 4
    } else {
        room
    }
}

/// `data` with `len` bytes from `dst` on replaced by those of `src` from
/// `from` on.
pub open spec fn with_bytes(data: Seq<u8>, dst: int, src: Seq<u8>, from: int, len: int) -> Seq<
    u8,
> {
    Seq::new(
        data.len(),
        |i: int|
            if dst <= i < dst + len {
                src[from + i - dst]
            } else {
                data[i]
            },
    )
}

/// `data` after the first `n` rows of a region copy from `src`: row `r` puts
/// the bytes of row `y + r` of the source, from column `x`, at the same row
/// and column of the data, as many as fit, one row after the other.
pub open spec fn rows_copied(
    data: Seq<u8>,
    src: Seq<u8>,
    x: int,
    y: int,
    w: int,
    stride: int,
    src_stride: int,
    n: int,
) -> Seq<u8>
    decreases n,
{
    if n <= 0 {
        data
    } else {
        let d = rows_copied(data, src, x, y, w, stride, src_stride, n - 1);
        let row = y + n - 1;
        let dst = row_offset(row, x, stride);
        with_bytes(d, dst, src, row_offset(row, x, src_stride), row_len(d.len() as int, dst, w))
    }
}

/// Whether the source holds every byte that the first `n` rows of a region
/// copy read.
pub open spec fn source_covers(
    len: int,
    src_len: int,
    x: int,
    y: int,
    w: int,
    stride: int,
    src_stride: int,
    n: int,
) -> bool {
    forall|r: int|
        0 <= r < n ==> #[trigger] row_source_end(len, x, y + r, w, stride, src_stride) <= src_len
}

/// Where the bytes that a region copy reads for row `row` end in the source.
pub open spec fn row_source_end(len: int, x: int, row: int, w: int, stride: int, src_stride: int) -> int {
    row_offset(row, x, src_stride) + row_len(len, row_offset(row, x, stride), w)
}

/// Copying rows leaves the length of the data as it was.
proof fn lemma_rows_copied_len(
    data: Seq<u8>,
    src: Seq<u8>,
    x: int,
    y: int,
    w: int,
    stride: int,
    src_stride: int,
    n: int,
)
    ensures
        rows_copied(data, src, x, y, w, stride, src_stride, n).len() == data.len(),
    decreases n,
{
    if n > 0 {
        lemma_rows_copied_len(data, src, x, y, w, stride, src_stride, n - 1);
    }
}

impl FrameBuffer {
    /// A buffer over pixels read from `src`: `height` rows of `stride` pixels,
    /// taken from the start of `src`. Without a source, or with no bytes to
    /// take, a black buffer of `width` by `height` pixels.
    pub fn from_raw_ptr(width: u32, height: u32, stride: u32, src: Option<&[u8]>) -> (r: Self)
        requires
            height * stride * 4 <= u32::MAX,
            (src is None || height * stride == 0) ==> width * height * 4 <= u32::MAX,
            src matches Some(s) ==> height * stride * 4 <= s@.len(),
        ensures
            r.width == width,
            r.height == height,
            r.stride == stride,
            src matches Some(s) ==> (height * stride > 0 ==> r.data@ == s@.take(
                (height * stride * 4) as int,
            )),
            (src is None || height * stride == 0) ==> r.data@ == Seq::new(
                (width * height * 4) as nat,
                |i: int| 0u8,
            ),
    {
        assert(height * stride * 4 == (height * stride) * 4) by (nonlinear_arith);
        let hs: u32 = height * stride;
        let byte_len: u32 = hs * 4;
        let data: Vec<u8> = match src {
            Some(s) if byte_len > 0 => {
                let mut out: Vec<u8> = Vec::new();
                let mut i: usize = 0;
                while i < byte_len as usize
                    invariant
                        i <= byte_len <= s@.len(),
                        out@ == s@.take(i as int),
                    decreases byte_len - i,
                {
                    out.push(s[i]);
                    i = i + 1;
                    assert(out@ =~= s@.take(i as int));
                }
                out
            },
            _ => {
                assert(width * height * 4 == (width * height) * 4) by (nonlinear_arith);
                let wh: u32 = width * height;
                let n: u32 = wh * 4;
                let zeros: Vec<u8> = vec![0u8; n as usize];
                assert(zeros@ =~= Seq::new((width * height * 4) as nat, |i: int| 0u8));
                zeros
            },
        };
        FrameBuffer { width, height, stride, data }
    }

    /// Copies a region of `w` by `h` pixels at (`x`, `y`) from a source of
    /// `src_stride` pixels per row laid out like this buffer: see
    /// [`rows_copied`] and [`rows_reached`]. Without a source nothing
    /// changes.
    pub fn copy_region_from_ptr(
        &mut self,
        x: i32,
        y: i32,
        w: i32,
        h: i32,
        src: Option<&[u8]>,
        src_stride: u32,
    )
        requires
            src is Some ==> {
                &&& src_stride * 4 <= u32::MAX
                &&& old(self).stride * 4 <= u32::MAX
                &&& y < 0 || h <= 0 || y + h - 1 <= i32::MAX || old(self).height <= i32::MAX
                &&& rows_reached(y as int, h as int, old(self).height as int) > 0 ==> x >= 0
                    && w >= 0
            },
            src matches Some(s) ==> source_covers(
                old(self).data@.len() as int,
                s@.len() as int,
                x as int,
                y as int,
                w as int,
                old(self).stride as int,
                src_stride as int,
                rows_reached(y as int, h as int, old(self).height as int),
            ),
        ensures
            final(self).width == old(self).width,
            final(self).height == old(self).height,
            final(self).stride == old(self).stride,
            src is None ==> final(self).data@ == old(self).data@,
            src matches Some(s) ==> final(self).data@ == rows_copied(
                old(self).data@,
                s@,
                x as int,
                y as int,
                w as int,
                old(self).stride as int,
                src_stride as int,
                rows_reached(y as int, h as int, old(self).height as int),
            ),
    {
        let s = match src {
            Some(s) => s,
            None => {
                return;
            },
        };
        let src_stride_bytes: u64 = (src_stride * 4) as u64;
        let dst_stride_bytes: u64 = (self.stride * 4) as u64;
        let height: i64 = self.height as i64;
        let n_rows: i64 = if y < 0 || h <= 0 || (y as i64) >= height {
            0
        } else if (y as i64) + (h as i64) <= height {
            h as i64
        } else {
            height - (y as i64)
        };
        let ghost n = rows_reached(y as int, h as int, self.height as int);
        assert(n == n_rows);
        let ghost d0 = self.data@;
        let ghost len = d0.len();
        let mut row: i64 = 0;
        while row < n_rows
            invariant
                0 <= row <= n_rows,
                n == n_rows,
                n_rows <= h || n_rows == 0,
                n_rows > 0 ==> y >= 0 && y + n_rows <= self.height,
                self.data@ == rows_copied(
                    d0,
                    s@,
                    x as int,
                    y as int,
                    w as int,
                    self.stride as int,
                    src_stride as int,
                    row as int,
                ),
                self.data@.len() == len,
                self.width == old(self).width,
                self.height == old(self).height,
                self.stride == old(self).stride,
                src_stride_bytes == src_stride * 4,
                dst_stride_bytes == self.stride * 4,
                src_stride * 4 <= u32::MAX,
                self.stride * 4 <= u32::MAX,
                n > 0 ==> x >= 0 && w >= 0,
                source_covers(
                    len as int,
                    s@.len() as int,
                    x as int,
                    y as int,
                    w as int,
                    self.stride as int,
                    src_stride as int,
                    n,
                ),
                d0.len() == len,
            decreases n_rows - row,
        {
            let sy: u64 = ((y as i64) + row) as u64;
            let sx: u64 = x as u64;
            assert(sy * src_stride_bytes <= u32::MAX * u32::MAX) by (nonlinear_arith)
                requires
                    sy <= u32::MAX,
                    src_stride_bytes <= u32::MAX,
            ;
            assert(sy * dst_stride_bytes <= u32::MAX * u32::MAX) by (nonlinear_arith)
                requires
                    sy <= u32::MAX,
                    dst_stride_bytes <= u32::MAX,
            ;
            let src_offset: u64 = sy * src_stride_bytes + sx * 4;
            let dst_offset: u64 = sy * dst_stride_bytes + sx * 4;
            let data_len: u64 = self.data.len() as u64;
            let room: u64 = if dst_offset < data_len {
                data_len - dst_offset
            } else {
                0
            };
            let want: u64 = (w as u64) * 4;
            let copy_len: u64 = if want < room {
                want
            } else {
                room
            };
            proof {
                assert(row < n);
                assert(row_offset(y + row, x as int, src_stride as int) == src_offset) by (
                nonlinear_arith)
                    requires
                        sy == y + row,
                        src_stride_bytes == src_stride * 4,
                        src_offset == sy * src_stride_bytes + sx * 4,
                        sx == x,
                ;
                assert(row_offset(y + row, x as int, self.stride as int) == dst_offset) by (
                nonlinear_arith)
                    requires
                        sy == y + row,
                        dst_stride_bytes == self.stride * 4,
                        dst_offset == sy * dst_stride_bytes + sx * 4,
                        sx == x,
                ;
                assert(row_len(len as int, dst_offset as int, w as int) == copy_len);
                assert(row_source_end(len as int, x as int, y + row, w as int, self.stride as int, src_stride as int) <= s@.len());
                assert(src_offset + copy_len <= s@.len());
            }
            let ghost before = self.data@;
            if copy_len > 0 {
                let slen: usize = s.len();
                let dlen: usize = self.data.len();
                assert(src_offset + copy_len <= slen);
                assert(dst_offset + copy_len <= dlen);
                let so: usize = src_offset as usize;
                let dof: usize = dst_offset as usize;
                let cl: usize = copy_len as usize;
                let mut k: usize = 0;
                while k < cl
                    invariant
                        k <= cl,
                        dof + cl <= dlen,
                        dlen == len,
                        so + cl <= slen,
                        slen == s@.len(),
                        so == src_offset,
                        dof == dst_offset,
                        self.data@.len() == len,
                        self.data@ == with_bytes(before, dof as int, s@, so as int, k as int),
                        before.len() == len,
                        self.width == old(self).width,
                        self.height == old(self).height,
                        self.stride == old(self).stride,
                    decreases cl - k,
                {
                    let b = s[so + k];
                    self.data.set(dof + k, b);
                    k = k + 1;
                    assert(self.data@ =~= with_bytes(before, dof as int, s@, so as int, k as int));
                }
            } else {
                assert(self.data@ =~= with_bytes(before, dst_offset as int, s@, src_offset as int, 0));
            }
            proof {
                lemma_rows_copied_len(d0, s@, x as int, y as int, w as int, self.stride as int, src_stride as int, row as int);
            }
            row = row + 1;
        }
    }
}

/// A pixel that was set reads back as what it was set to.
pub proof fn law_set_then_get(data: Seq<u8>, off: int, rgba: Seq<u8>)
    requires
        0 <= off,
        off + 4 <= data.len(),
        rgba.len() == 4,
    ensures
        pixel_value(with_pixel(data, off, rgba), off) == rgba,
{
    let d = with_pixel(data, off, rgba);
    assert(d.subrange(off, off + 4) =~= rgba);
}

/// Setting a pixel leaves every other pixel as it was (pixel offsets are
/// multiples of 4, so different pixels never share a byte).
pub proof fn law_set_keeps_other_pixels(data: Seq<u8>, off: int, other: int, rgba: Seq<u8>)
    requires
        rgba.len() == 4,
        off % 4 == 0,
        other % 4 == 0,
        off != other,
    ensures
        pixel_value(with_pixel(data, off, rgba), other) == pixel_value(data, other),
{
    let d = with_pixel(data, off, rgba);
    if 0 <= off && off + 4 <= data.len() && 0 <= other && other + 4 <= data.len() {
        assert(other + 4 <= off || off + 4 <= other);
        assert(d.subrange(other, other + 4) =~= data.subrange(other, other + 4));
    }
}

/// Setting a pixel that lies outside the data changes nothing.
pub proof fn law_set_outside_is_noop(data: Seq<u8>, off: int, rgba: Seq<u8>)
    requires
        off + 4 > data.len(),
    ensures
        with_pixel(data, off, rgba) == data,
{
}

/// A cursor shape: RGBA pixels, row-major, `width` per row, and the hotspot
/// that marks the pointer position within it.
pub struct CursorData {
    pub width: u32,
    pub height: u32,
    pub hotspot_x: i32,
    pub hotspot_y: i32,
    pub pixels: Vec<u8>,
}

/// One monitor of a multi-monitor session.
#[derive(Debug, Clone)]
pub struct Screen {
    pub id: u32,
    pub x: i32,
    pub y: i32,
    pub width: u32,
    pub height: u32,
}

/// The right edge of a screen, as `x + width as i32` computes it.
pub open spec fn right_edge(s: Screen) -> int {
    s.x + (s.width as i32)
}

/// The bottom edge of a screen, as `y + height as i32` computes it.
pub open spec fn bottom_edge(s: Screen) -> int {
    s.y + (s.height as i32)
}

/// Whether the edges of every screen fit in `i32`.
pub open spec fn edges_fit(ss: Seq<Screen>) -> bool {
    forall|i: int|
        0 <= i < ss.len() ==> i32::MIN <= right_edge(#[trigger] ss[i]) <= i32::MAX && i32::MIN
            <= bottom_edge(ss[i]) <= i32::MAX
}

/// The smallest left edge (0 for no screens).
pub open spec fn min_left(ss: Seq<Screen>) -> int
    decreases ss.len(),
{
    if ss.len() == 0 {
        0
    } else if ss.len() == 1 {
        ss[0].x as int
    } else {
        let m = min_left(ss.drop_last());
        if ss.last().x < m {
            ss.last().x as int
        } else {
            m
        }
    }
}

/// The smallest top edge (0 for no screens).
pub open spec fn min_top(ss: Seq<Screen>) -> int
    decreases ss.len(),
{
    if ss.len() == 0 {
        0
    } else if ss.len() == 1 {
        ss[0].y as int
    } else {
        let m = min_top(ss.drop_last());
        if ss.last().y < m {
            ss.last().y as int
        } else {
            m
        }
    }
}

/// The largest right edge (0 for no screens).
pub open spec fn max_right(ss: Seq<Screen>) -> int
    decreases ss.len(),
{
    if ss.len() == 0 {
        0
    } else if ss.len() == 1 {
        right_edge(ss[0])
    } else {
        let m = max_right(ss.drop_last());
        if right_edge(ss.last()) > m {
            right_edge(ss.last())
        } else {
            m
        }
    }
}

/// The largest bottom edge (0 for no screens).
pub open spec fn max_bottom(ss: Seq<Screen>) -> int
    decreases ss.len(),
{
    if ss.len() == 0 {
        0
    } else if ss.len() == 1 {
        bottom_edge(ss[0])
    } else {
        let m = max_bottom(ss.drop_last());
        if bottom_edge(ss.last()) > m {
            bottom_edge(ss.last())
        } else {
            m
        }
    }
}

/// The server's screens.
#[derive(Debug, Clone)]
pub struct ScreenLayout {
    pub screens: Vec<Screen>,
}

impl Default for ScreenLayout {
    /// No screens.
    fn default() -> (r: Self)
        ensures
            r.screens@.len() == 0,
    {
        ScreenLayout { screens: Vec::new() }
    }
}

impl ScreenLayout {
    /// One screen with id 0 at the origin, of this size.
    pub fn single(width: u32, height: u32) -> (r: Self)
        ensures
            r.screens@.len() == 1,
            r.screens@[0] == (Screen { id: 0, x: 0, y: 0, width, height }),
    {
        let mut screens: Vec<Screen> = Vec::new();
        screens.push(Screen { id: 0, x: 0, y: 0, width, height });
        ScreenLayout { screens }
    }

    /// The number of screens.
    pub fn screen_count(&self) -> (r: usize)
        ensures
            r == self.screens@.len(),
    {
        self.screens.len()
    }

    /// Whether there is more than one screen.
    pub fn is_multi_monitor(&self) -> (r: bool)
        ensures
            r == (self.screens@.len() > 1),
    {
        self.screens.len() > 1
    }

    /// The box around all screens: left, top, width and height; all zero for
    /// no screens.
    pub fn bounding_box(&self) -> (r: (i32, i32, u32, u32))
        requires
            edges_fit(self.screens@),
            i32::MIN <= max_right(self.screens@) - min_left(self.screens@) <= i32::MAX,
            i32::MIN <= max_bottom(self.screens@) - min_top(self.screens@) <= i32::MAX,
        ensures
            self.screens@.len() == 0 ==> r == (0i32, 0i32, 0u32, 0u32),
            self.screens@.len() > 0 ==> {
                &&& r.0 == min_left(self.screens@)
                &&& r.1 == min_top(self.screens@)
                &&& r.2 == ((max_right(self.screens@) - min_left(self.screens@)) as i32) as u32
                &&& r.3 == ((max_bottom(self.screens@) - min_top(self.screens@)) as i32) as u32
            },
    {
        let ss = &self.screens;
        if ss.len() == 0 {
            return (0, 0, 0, 0);
        }
        let mut min_x: i32 = ss[0].x;
        let mut min_y: i32 = ss[0].y;
        let mut max_x: i32 = ss[0].x + ss[0].width as i32;
        let mut max_y: i32 = ss[0].y + ss[0].height as i32;
        assert(ss@.take(1) =~= seq![ss@[0]]);
        let mut i: usize = 1;
        while i < ss.len()
            invariant
                1 <= i <= ss@.len(),
                edges_fit(ss@),
                min_x == min_left(ss@.take(i as int)),
                min_y == min_top(ss@.take(i as int)),
                max_x == max_right(ss@.take(i as int)),
                max_y == max_bottom(ss@.take(i as int)),
            decreases ss@.len() - i,
        {
            let s = &ss[i];
            assert(ss@.take(i + 1).drop_last() =~= ss@.take(i as int));
            assert(ss@.take(i + 1).last() == ss@[i as int]);
            assert(right_edge(ss@[i as int]) <= i32::MAX);
            assert(bottom_edge(ss@[i as int]) <= i32::MAX);
            if s.x < min_x {
                min_x = s.x;
            }
            if s.y < min_y {
                min_y = s.y;
            }
            let rx: i32 = s.x + s.width as i32;
            let by: i32 = s.y + s.height as i32;
            if rx > max_x {
                max_x = rx;
            }
            if by > max_y {
                max_y = by;
            }
            i = i + 1;
        }
        assert(ss@.take(ss@.len() as int) =~= ss@);
        let w: i32 = max_x - min_x;
        let h: i32 = max_y - min_y;
        (min_x, min_y, w as u32, h as u32)
    }
}

/// The smallest left edge is at most every screen's left edge, and so on:
/// the bounding box holds every screen.
pub proof fn law_bounding_box_contains_screens(ss: Seq<Screen>)
    ensures
        forall|i: int|
            0 <= i < ss.len() ==> {
                &&& min_left(ss) <= (#[trigger] ss[i]).x
                &&& min_top(ss) <= ss[i].y
                &&& right_edge(ss[i]) <= max_right(ss)
                &&& bottom_edge(ss[i]) <= max_bottom(ss)
            },
    decreases ss.len(),
{
    if ss.len() > 1 {
        let t = ss.drop_last();
        law_bounding_box_contains_screens(t);
        assert forall|i: int| 0 <= i < ss.len() implies {
            &&& min_left(ss) <= (#[trigger] ss[i]).x
            &&& min_top(ss) <= ss[i].y
            &&& right_edge(ss[i]) <= max_right(ss)
            &&& bottom_edge(ss[i]) <= max_bottom(ss)
        } by {
            if i < ss.len() - 1 {
                assert(ss[i] == t[i]);
            }
        }
    }
}

} // verus!
