//! Software renderer for the Punk Science "build" bubbles.
//!
//! Three acid-green circles on Hardcore Black. The framebuffer has no alpha, so
//! brand opacity (100 / 60 / 30 %) is precomputed by blending the acid onto the
//! background. A loading animation walks the full-opacity "leader" across the
//! three dots.
//!
//! Frames are drawn into an off-screen canvas and copied to the framebuffer
//! rows that changed in one pass (double buffering).
use vstd::prelude::*;
use crate::framebuffer::{
    FrameBufferInfo,
    PixelFormat,
    pixel_bytes,
    pixel_width,
    put_pixel_at,
    filled,
    clear,
    lemma_pixel_position,
};
use crate::framebuffer::color::{BUILD_ACID, HARDCORE_BLACK};

verus! {

/// Opacity steps for the 100 / 60 / 30 % brand stagger, as 0..=255.
pub open spec fn spec_stagger(step: int) -> u16 {
    if step == 0 {
        255
    } else if step == 1 {
        153
    } else {
        76
    }
}

/// Opacity of the dot `step` places behind the leader.
pub fn stagger(step: usize) -> (o: u16)
    requires
        step < 3,
    ensures
        o == spec_stagger(step as int),
{
    if step == 0 {
        255
    } else if step == 1 {
        153
    } else {
        76
    }
}

/// One channel of `fg` over `bg` at `opacity` out of 255.
pub open spec fn mix(a: u8, b: u8, opacity: u16) -> u8 {
    ((a * opacity + b * (255 - opacity)) / 255) as u8
}

/// `fg` blended onto `bg` at `opacity` out of 255, channel by channel.
pub open spec fn spec_blend(fg: (u8, u8, u8), bg: (u8, u8, u8), opacity: u16) -> (u8, u8, u8) {
    (mix(fg.0, bg.0, opacity), mix(fg.1, bg.1, opacity), mix(fg.2, bg.2, opacity))
}

fn mix_channel(a: u8, b: u8, opacity: u16) -> (m: u8)
    requires
        opacity <= 255,
    ensures
        m == mix(a, b, opacity),
{
    proof {
        assert(a as int * opacity as int <= 255 * opacity as int) by (nonlinear_arith)
            requires a <= 255, opacity >= 0;
        assert(b as int * (255 - opacity) as int <= 255 * (255 - opacity) as int) by (nonlinear_arith)
            requires b <= 255, opacity <= 255;
    }
    let sum = a as u16 * opacity + b as u16 * (255 - opacity);
    (sum / 255) as u8
}

/// Blend a foreground colour onto a background at `opacity` (0..=255).
pub fn blend(fg: (u8, u8, u8), bg: (u8, u8, u8), opacity: u16) -> (c: (u8, u8, u8))
    requires
        opacity <= 255,
    ensures
        c == spec_blend(fg, bg, opacity),
{
    (mix_channel(fg.0, bg.0, opacity), mix_channel(fg.1, bg.1, opacity), mix_channel(fg.2, bg.2, opacity))
}

/// An off-screen drawing surface matching the framebuffer's layout.
pub struct Canvas {
    pub buf: Vec<u8>,
    pub w: usize,
    pub h: usize,
    pub stride: usize,
    pub bpp: usize,
    pub fmt: PixelFormat,
}

/// Pixel `(x, y)` is on screen and on the disc of radius `r` around `(cx, cy)`
/// (within the disc's bounding box).
pub open spec fn on_disc(w: int, h: int, x: int, y: int, cx: int, cy: int, r: int) -> bool {
    &&& 0 <= x < w
    &&& 0 <= y < h
    &&& cx - r <= x <= cx + r
    &&& cy - r <= y <= cy + r
    &&& (x - cx) * (x - cx) + (y - cy) * (y - cy) <= r * r
}

impl Canvas {
    /// The pixel grid fits the buffer: rows of `stride` pixels of `bpp` bytes,
    /// at least as wide as the visible width, each pixel wide enough for its
    /// encoding, and every coordinate representable as `isize`.
    pub open spec fn geometry_ok(&self) -> bool {
        &&& self.bpp > 0
        &&& self.bpp >= pixel_width(self.fmt)
        &&& self.w <= self.stride
        &&& self.h * self.stride * self.bpp <= self.buf@.len()
        &&& self.w <= isize::MAX
        &&& self.h <= isize::MAX
    }

    /// Byte `k` belongs to a visible pixel on the disc, within the pixel's
    /// encoding.
    pub open spec fn disc_byte(&self, k: int, cx: int, cy: int, r: int) -> bool {
        let p = k / (self.bpp as int);
        &&& k % (self.bpp as int) < pixel_width(self.fmt)
        &&& on_disc(
            self.w as int,
            self.h as int,
            p % (self.stride as int),
            p / (self.stride as int),
            cx,
            cy,
            r,
        )
    }

    /// `bytes` after the disc of radius `r` around `(cx, cy)` is painted `rgb`.
    pub open spec fn painted(
        &self,
        bytes: Seq<u8>,
        cx: int,
        cy: int,
        r: int,
        rgb: (u8, u8, u8),
    ) -> Seq<u8> {
        Seq::new(
            bytes.len(),
            |k: int|
                if self.disc_byte(k, cx, cy, r) {
                    pixel_bytes(self.fmt, rgb)[k % (self.bpp as int)]
                } else {
                    bytes[k]
                },
        )
    }

    /// A zeroed canvas with the framebuffer's geometry.
    pub fn new(info: &FrameBufferInfo) -> (c: Self)
        ensures
            c.buf@ == Seq::new(info.byte_len as nat, |i: int| 0u8),
            c.w == info.width,
            c.h == info.height,
            c.stride == info.stride,
            c.bpp == info.bytes_per_pixel,
            c.fmt == info.pixel_format,
    {
        let c = Canvas {
            buf: vec![0u8; info.byte_len],
            w: info.width,
            h: info.height,
            stride: info.stride,
            bpp: info.bytes_per_pixel,
            fmt: info.pixel_format,
        };
        assert(c.buf@ =~= Seq::new(info.byte_len as nat, |i: int| 0u8));
        c
    }

    /// Fill every whole pixel of the canvas with one colour.
    pub fn clear(&mut self, rgb: (u8, u8, u8))
        requires
            old(self).bpp > 0,
            old(self).buf@.len() >= old(self).bpp ==> old(self).bpp >= pixel_width(old(self).fmt),
        ensures
            final(self).buf@ == filled(
                old(self).buf@,
                old(self).bpp as nat,
                old(self).buf@.len() / (old(self).bpp as nat),
                old(self).fmt,
                rgb,
            ),
            final(self).w == old(self).w,
            final(self).h == old(self).h,
            final(self).stride == old(self).stride,
            final(self).bpp == old(self).bpp,
            final(self).fmt == old(self).fmt,
    {
        let info = FrameBufferInfo {
            byte_len: self.buf.len(),
            width: self.w,
            height: self.h,
            pixel_format: self.fmt,
            bytes_per_pixel: self.bpp,
            stride: self.stride,
        };
        clear(self.buf.as_mut_slice(), &info, rgb);
    }

    /// Column and row of the pixel that byte `k` belongs to.
    pub open spec fn pixel_of(&self, k: int) -> (int, int) {
        let p = k / (self.bpp as int);
        (p % (self.stride as int), p / (self.stride as int))
    }

    /// `bytes` with the disc painted on the pixels that come before pixel
    /// `(col, row)` in row-major order.
    pub open spec fn painted_upto(
        &self,
        bytes: Seq<u8>,
        cx: int,
        cy: int,
        r: int,
        rgb: (u8, u8, u8),
        row: int,
        col: int,
    ) -> Seq<u8> {
        Seq::new(
            bytes.len(),
            |k: int|
                if self.disc_byte(k, cx, cy, r) && (self.pixel_of(k).1 < row || (self.pixel_of(k).1
                    == row && self.pixel_of(k).0 < col)) {
                    pixel_bytes(self.fmt, rgb)[k % (self.bpp as int)]
                } else {
                    bytes[k]
                },
        )
    }

    /// Paint the disc of radius `r` around `(cx, cy)`, clipped to the visible
    /// area, in colour `rgb`.
    pub fn fill_circle(&mut self, cx: isize, cy: isize, r: isize, rgb: (u8, u8, u8))
        requires
            old(self).geometry_ok(),
            circle_in_range(cx as int, cy as int, r as int),
        ensures
            final(self).buf@ == old(self).painted(old(self).buf@, cx as int, cy as int, r as int, rgb),
            final(self).w == old(self).w,
            final(self).h == old(self).h,
            final(self).stride == old(self).stride,
            final(self).bpp == old(self).bpp,
            final(self).fmt == old(self).fmt,
    {
        let (w, h) = (self.w as isize, self.h as isize);
        let (stride, bpp, fmt) = (self.stride, self.bpp, self.fmt);
        let ghost orig = self.buf@;
        let ghost g = *self;
        let len = self.buf.len();
        proof {
            assert(r * r >= 0) by (nonlinear_arith);
        }
        let r2 = r * r;
        let y0 = if cy - r > 0 { cy - r } else { 0 };
        let y1 = if cy + r < h - 1 { cy + r } else { h - 1 };
        let mut y = y0;
        assert(g.painted_upto(orig, cx as int, cy as int, r as int, rgb, y as int, 0) =~= orig);
        while y <= y1
            invariant
                g.geometry_ok(),
                w == g.w,
                h == g.h,
                stride == g.stride,
                bpp == g.bpp,
                fmt == g.fmt,
                self.w == g.w,
                self.h == g.h,
                self.stride == g.stride,
                self.bpp == g.bpp,
                self.fmt == g.fmt,
                self.buf@.len() == orig.len(),
                orig.len() == len,
                orig == g.buf@,
                circle_in_range(cx as int, cy as int, r as int),
                r2 == r * r,
                y0 <= y,
                y0 == if cy - r > 0 { cy - r } else { 0 },
                y1 == if cy + r < h - 1 { cy + r } else { h - 1 },
                y <= y1 + 1 || y == y0,
                self.buf@ == g.painted_upto(orig, cx as int, cy as int, r as int, rgb, y as int, 0),
            decreases y1 + 1 - y,
        {
            let dy = y - cy;
            let x0 = if cx - r > 0 { cx - r } else { 0 };
            let x1 = if cx + r < w - 1 { cx + r } else { w - 1 };
            let mut x = x0;
            assert(g.painted_upto(orig, cx as int, cy as int, r as int, rgb, y as int, x as int)
                =~= g.painted_upto(orig, cx as int, cy as int, r as int, rgb, y as int, 0));
            while x <= x1
                invariant
                    g.geometry_ok(),
                    w == g.w,
                    h == g.h,
                    stride == g.stride,
                    bpp == g.bpp,
                    fmt == g.fmt,
                    self.w == g.w,
                    self.h == g.h,
                    self.stride == g.stride,
                    self.bpp == g.bpp,
                    self.fmt == g.fmt,
                    self.buf@.len() == orig.len(),
                    orig.len() == len,
                    orig == g.buf@,
                    circle_in_range(cx as int, cy as int, r as int),
                    r2 == r * r,
                    0 <= y0 <= y <= y1,
                    y1 <= h - 1,
                    dy == y - cy,
                    cy - r <= y <= cy + r,
                    x0 == if cx - r > 0 { cx - r } else { 0 },
                    x1 == if cx + r < w - 1 { cx + r } else { w - 1 },
                    x0 <= x,
                    x <= x1 + 1 || x == x0,
                    self.buf@ == g.painted_upto(orig, cx as int, cy as int, r as int, rgb, y as int, x as int),
                decreases x1 + 1 - x,
            {
                let dx = x - cx;
                proof {
                    lemma_square_bound(dx as int, r as int);
                    lemma_square_bound(dy as int, r as int);
                    lemma_pixel_in_buffer(x as int, y as int, g);
                }
                if dx * dx + dy * dy <= r2 {
                    let off = (y as usize * stride + x as usize) * bpp;
                    put_pixel_at(self.buf.as_mut_slice(), off, fmt, rgb);
                }
                proof {
                    assert forall|k: int| 0 <= k < orig.len() implies #[trigger] self.buf@[k]
                        == g.painted_upto(orig, cx as int, cy as int, r as int, rgb, y as int, x + 1)[k] by {
                        lemma_byte_step(k, x as int, y as int, g);
                    }
                    assert(self.buf@ =~= g.painted_upto(orig, cx as int, cy as int, r as int, rgb, y as int, x + 1));
                }
                x += 1;
            }
            assert(g.painted_upto(orig, cx as int, cy as int, r as int, rgb, y as int, x as int)
                =~= g.painted_upto(orig, cx as int, cy as int, r as int, rgb, y + 1, 0));
            y += 1;
        }
        assert(self.buf@ =~= g.painted(orig, cx as int, cy as int, r as int, rgb));
    }
}

/// Coordinates of the disc's bounding box and the squared distances fit `isize`.
pub open spec fn circle_in_range(cx: int, cy: int, r: int) -> bool {
    &&& isize::MIN <= cx - r <= isize::MAX
    &&& isize::MIN <= cx + r <= isize::MAX
    &&& isize::MIN <= cy - r <= isize::MAX
    &&& isize::MIN <= cy + r <= isize::MAX
    &&& r * r + r * r <= isize::MAX
}

/// `d * d <= r * r` when `|d| <= |r|`.
proof fn lemma_square_bound(d: int, r: int)
    requires
        -r <= d <= r || r <= d <= -r,
    ensures
        d * d <= r * r,
        d * d >= 0,
{
    assert(d * d <= r * r && d * d >= 0) by (nonlinear_arith)
        requires -r <= d <= r || r <= d <= -r;
}

/// A visible pixel's bytes lie inside the canvas buffer.
proof fn lemma_pixel_in_buffer(x: int, y: int, g: Canvas)
    requires
        g.geometry_ok(),
        0 <= x < g.w,
        0 <= y < g.h,
    ensures
        0 <= y * g.stride + x < g.h * g.stride,
        0 <= y * g.stride,
        (y * g.stride + x) * g.bpp + g.bpp <= g.buf@.len(),
        y * g.stride + x <= (y * g.stride + x) * g.bpp,
{
    let s = g.stride as int;
    let b = g.bpp as int;
    let h = g.h as int;
    assert(0 <= y * s && y * s + x < h * s) by (nonlinear_arith)
        requires 0 <= x < s, 0 <= y < h;
    let p = y * s + x;
    assert((p + 1) * b <= h * s * b) by (nonlinear_arith)
        requires p + 1 <= h * s, b > 0;
    assert((p + 1) * b == p * b + b) by (nonlinear_arith);
    assert(p <= p * b) by (nonlinear_arith)
        requires p >= 0, b >= 1;
}

/// The bytes written for pixel `(x, y)` are exactly the encoding bytes of the
/// pixel at that column and row.
proof fn lemma_byte_step(k: int, x: int, y: int, g: Canvas)
    requires
        g.geometry_ok(),
        0 <= x < g.w,
        0 <= y < g.h,
        0 <= k,
    ensures
        ({
            let off = (y * g.stride + x) * g.bpp;
            &&& (off <= k < off + pixel_width(g.fmt)) == (g.pixel_of(k) == (x, y) && k % (g.bpp as int)
                < pixel_width(g.fmt))
            &&& (off <= k < off + pixel_width(g.fmt)) ==> k % (g.bpp as int) == k - off
        }),
{
    let s = g.stride as int;
    let b = g.bpp as int;
    let cur = y * s + x;
    let off = cur * b;
    assert(0 <= cur && y * s <= cur < y * s + s) by (nonlinear_arith)
        requires 0 <= x < s, 0 <= y, cur == y * s + x;
    lemma_pixel_position(cur, y, s);
    vstd::arithmetic::div_mod::lemma_fundamental_div_mod(k, b);
    vstd::arithmetic::div_mod::lemma_mod_bound(k, b);
    vstd::arithmetic::div_mod::lemma_div_pos_is_pos(k, b);
    let p = k / b;
    assert(b * p == p * b) by (nonlinear_arith);
    if off <= k < off + b {
        assert(cur * b <= k < cur * b + b);
        lemma_pixel_position(k, cur, b);
    }
    if p == cur {
        assert(k == cur * b + k % b);
    }
    if g.pixel_of(k) == (x, y) {
        vstd::arithmetic::div_mod::lemma_fundamental_div_mod(p, s);
        assert(s * (p / s) == (p / s) * s) by (nonlinear_arith);
        assert(p == cur);
    }
    if p == cur {
        assert(g.pixel_of(k) == (x, y));
    }
}

/// Geometry of the three-bubble mark.
#[derive(Clone, Copy, Debug)]
pub struct Layout {
    pub centers: [isize; 3],
    pub cy: isize,
    pub r: isize,
}

/// Bubble radius for a screen of height `h`: a twelfth of it.
pub open spec fn spec_radius(h: int) -> int {
    h / 12
}

/// Distance between bubble centres: 13/5 of the radius (lightly spaced).
pub open spec fn spec_gap(r: int) -> int {
    (r * 13) / 5
}

/// Place the mark in the middle of the screen: three bubbles in a row,
/// centred horizontally and vertically.
pub fn layout(info: &FrameBufferInfo) -> (l: Layout)
    requires
        info.width <= isize::MAX,
        info.height <= isize::MAX,
        spec_radius(info.height as int) * 13 <= isize::MAX,
    ensures
        l.r == spec_radius(info.height as int),
        l.cy == info.height as int / 2,
        l.centers@ == seq![
            info.width as int / 2 - spec_gap(l.r as int),
            info.width as int / 2,
            info.width as int / 2 + spec_gap(l.r as int),
        ].map_values(|c: int| c as isize),
        0 <= l.r,
{
    let (w, h) = (info.width as isize, info.height as isize);
    let r = h / 12;
    assert(0 <= r * 13 <= 2 * h) by (nonlinear_arith)
        requires r == h / 12, h >= 0;
    let gap = (r * 13) / 5;
    let cx = w / 2;
    let cy = h / 2;
    let l = Layout { centers: [cx - gap, cx, cx + gap], cy, r };
    assert(l.centers@ =~= seq![
        info.width as int / 2 - spec_gap(l.r as int),
        info.width as int / 2,
        info.width as int / 2 + spec_gap(l.r as int),
    ].map_values(|c: int| c as isize));
    l
}

/// Colour of bubble `i` when the leader is bubble `lead`: the acid blended
/// onto the background at the stagger step `i` is behind the leader.
pub open spec fn bubble_color(i: int, lead: int) -> (u8, u8, u8) {
    spec_blend(BUILD_ACID, HARDCORE_BLACK, spec_stagger((3 + i - lead) % 3))
}

/// All three bubbles can be painted on the canvas.
pub open spec fn layout_fits(l: Layout) -> bool {
    forall|i: int| 0 <= i < 3 ==> circle_in_range(#[trigger] l.centers[i] as int, l.cy as int, l.r as int)
}

impl Canvas {
    /// `bytes` after the first `n` bubbles are painted, leader at `lead`.
    pub open spec fn bubbles(&self, bytes: Seq<u8>, l: Layout, lead: int, n: nat) -> Seq<u8>
        decreases n,
    {
        if n == 0 {
            bytes
        } else {
            let i = (n - 1) as int;
            self.painted(
                self.bubbles(bytes, l, lead, (n - 1) as nat),
                l.centers[i] as int,
                l.cy as int,
                l.r as int,
                bubble_color(i, lead),
            )
        }
    }
}

/// Draw the three bubbles into the canvas with the leader at index `lead`.
pub fn draw(canvas: &mut Canvas, l: &Layout, lead: usize)
    requires
        old(canvas).geometry_ok(),
        layout_fits(*l),
        lead <= 3,
    ensures
        final(canvas).buf@ == old(canvas).bubbles(old(canvas).buf@, *l, lead as int, 3),
        final(canvas).w == old(canvas).w,
        final(canvas).h == old(canvas).h,
        final(canvas).stride == old(canvas).stride,
        final(canvas).bpp == old(canvas).bpp,
        final(canvas).fmt == old(canvas).fmt,
{
    let ghost g = *canvas;
    let ghost orig = canvas.buf@;
    let mut i: usize = 0;
    while i < 3
        invariant
            g.geometry_ok(),
            layout_fits(*l),
            lead <= 3,
            i <= 3,
            canvas.w == g.w,
            canvas.h == g.h,
            canvas.stride == g.stride,
            canvas.bpp == g.bpp,
            canvas.fmt == g.fmt,
            canvas.buf@.len() == g.buf@.len(),
            orig == g.buf@,
            canvas.buf@ == g.bubbles(orig, *l, lead as int, i as nat),
        decreases 3 - i,
    {
        let bx = l.centers[i];
        let step = (3 + i - lead) % 3;
        let rgb = blend(BUILD_ACID, HARDCORE_BLACK, stagger(step));
        assert(circle_in_range(l.centers[i as int] as int, l.cy as int, l.r as int));
        canvas.fill_circle(bx, l.cy, l.r, rgb);
        proof {
            assert(canvas.buf@ == g.painted(
                g.bubbles(orig, *l, lead as int, i as nat),
                bx as int,
                l.cy as int,
                l.r as int,
                rgb,
            ));
            assert(g.painted(g.bubbles(orig, *l, lead as int, i as nat), bx as int, l.cy as int, l.r as int, rgb)
                =~= g.bubbles(orig, *l, lead as int, (i + 1) as nat));
        }
        i += 1;
    }
}

/// Byte range `[start, end)` of rows `y0..=y1` in a buffer with rows of
/// `stride` pixels of `bpp` bytes.
pub open spec fn spec_row_span(stride: int, bpp: int, y0: int, y1: int) -> (int, int) {
    (y0 * (stride * bpp), (y1 + 1) * (stride * bpp))
}

impl Canvas {
    /// Copy rows `y0..=y1` of the back buffer to `fb`, which has the same layout.
    pub fn present_rows(&self, fb: &mut [u8], y0: usize, y1: usize)
        requires
            self.stride * self.bpp <= usize::MAX,
            y1 < usize::MAX,
            (y1 + 1) * (self.stride * self.bpp) <= usize::MAX,
            spec_row_span(self.stride as int, self.bpp as int, y0 as int, y1 as int).0
                <= spec_row_span(self.stride as int, self.bpp as int, y0 as int, y1 as int).1,
            spec_row_span(self.stride as int, self.bpp as int, y0 as int, y1 as int).1 <= old(fb)@.len(),
            spec_row_span(self.stride as int, self.bpp as int, y0 as int, y1 as int).1 <= self.buf@.len(),
        ensures
            ({
                let (start, end) = spec_row_span(self.stride as int, self.bpp as int, y0 as int, y1 as int);
                final(fb)@ == old(fb)@.subrange(0, start) + self.buf@.subrange(start, end) + old(
                    fb,
                )@.subrange(end, old(fb)@.len() as int)
            }),
    {
        let row_bytes = self.stride * self.bpp;
        proof {
            assert(y0 * row_bytes <= (y1 + 1) * row_bytes);
        }
        let start = y0 * row_bytes;
        let end = (y1 + 1) * row_bytes;
        let ghost orig = fb@;
        let mut k = start;
        while k < end
            invariant
                start <= k <= end,
                end <= orig.len(),
                end <= self.buf@.len(),
                fb@.len() == orig.len(),
                forall|j: int| 0 <= j < start ==> #[trigger] fb@[j] == orig[j],
                forall|j: int| start <= j < k ==> #[trigger] fb@[j] == self.buf@[j],
                forall|j: int| k <= j < orig.len() ==> #[trigger] fb@[j] == orig[j],
            decreases end - k,
        {
            fb[k] = self.buf[k];
            k += 1;
        }
        assert(fb@ =~= orig.subrange(0, start as int) + self.buf@.subrange(start as int, end as int)
            + orig.subrange(end as int, orig.len() as int));
    }
}

/// Rows the bubbles occupy on a screen of `height` rows: only these get
/// copied each frame.
pub fn band(l: &Layout, height: usize) -> (b: (usize, usize))
    requires
        height <= isize::MAX,
        isize::MIN <= l.cy - l.r <= isize::MAX,
        isize::MIN <= l.cy + l.r <= isize::MAX,
    ensures
        b.0 == (if l.cy - l.r > 0 { l.cy - l.r } else { 0 }) as usize,
        b.1 == #[verifier::truncate] ((if l.cy + l.r < height - 1 { l.cy + l.r } else { height - 1 }) as isize as usize),
{
    let top = l.cy - l.r;
    let bottom = l.cy + l.r;
    let h = height as isize;
    let b0 = if top > 0 { top } else { 0 };
    let b1 = if bottom < h - 1 { bottom } else { h - 1 };
    (b0 as usize, #[verifier::truncate] (b1 as usize))
}

/// Ticks per animation step: about 120 ms at 100 Hz.
pub const TICKS_PER_FRAME: u64 = 12;

/// The animation step due at tick count `ticks`, with its leader, when it
/// differs from the step last drawn.
pub fn animation_step(ticks: u64, last_frame: u64) -> (s: Option<(u64, usize)>)
    ensures
        ticks / 12 == last_frame ==> s == None::<(u64, usize)>,
        ticks / 12 != last_frame ==> s == Some(((ticks / 12) as u64, ((ticks / 12) % 3) as usize)),
{
    let frame = ticks / TICKS_PER_FRAME;
    if frame != last_frame {
        Some((frame, (frame % 3) as usize))
    } else {
        None
    }
}

/// Blending at full opacity gives the foreground, at zero the background,
/// and every channel lies between the two inputs' channels.
pub proof fn lemma_blend_bounds(fg: (u8, u8, u8), bg: (u8, u8, u8), opacity: u16)
    requires
        opacity <= 255,
    ensures
        spec_blend(fg, bg, 255) == fg,
        spec_blend(fg, bg, 0) == bg,
        ({
            let c = spec_blend(fg, bg, opacity);
            &&& (fg.0 <= c.0 <= bg.0 || bg.0 <= c.0 <= fg.0)
            &&& (fg.1 <= c.1 <= bg.1 || bg.1 <= c.1 <= fg.1)
            &&& (fg.2 <= c.2 <= bg.2 || bg.2 <= c.2 <= fg.2)
        }),
{
    lemma_mix_bounds(fg.0, bg.0, opacity);
    lemma_mix_bounds(fg.1, bg.1, opacity);
    lemma_mix_bounds(fg.2, bg.2, opacity);
}

proof fn lemma_mix_bounds(a: u8, b: u8, opacity: u16)
    requires
        opacity <= 255,
    ensures
        mix(a, b, 255) == a,
        mix(a, b, 0) == b,
        a <= mix(a, b, opacity) <= b || b <= mix(a, b, opacity) <= a,
{
    let o = opacity as int;
    let s = a * o + b * (255 - o);
    assert(a * 255 + b * 0 == a * 255) by (nonlinear_arith);
    assert((a * 255) / 255 == a as int) by (nonlinear_arith);
    assert(a * 0 + b * 255 == b * 255) by (nonlinear_arith);
    assert((b * 255) / 255 == b as int) by (nonlinear_arith);
    if a <= b {
        assert(a * 255 <= s <= b * 255) by (nonlinear_arith)
            requires s == a * o + b * (255 - o), 0 <= o <= 255, a <= b, a >= 0;
        assert(a <= s / 255 <= b) by (nonlinear_arith)
            requires a * 255 <= s <= b * 255, a >= 0;
    } else {
        assert(b * 255 <= s <= a * 255) by (nonlinear_arith)
            requires s == a * o + b * (255 - o), 0 <= o <= 255, b <= a, b >= 0;
        assert(b <= s / 255 <= a) by (nonlinear_arith)
            requires b * 255 <= s <= a * 255, b >= 0;
    }
}

/// The opacity steps are 100 %, 60 % and 30 % of full opacity (255),
/// rounded down.
pub proof fn lemma_stagger_percentages(step: int)
    requires
        0 <= step < 3,
    ensures
        spec_stagger(step) == 255 * seq![100int, 60, 30][step] / 100,
{
}

/// Blending rounds down: each channel is the largest value whose 255-fold
/// does not exceed the foreground channel weighted by `opacity` plus the
/// background channel weighted by `255 - opacity`.
pub proof fn lemma_mix_rounds_down(a: u8, b: u8, opacity: u16)
    requires
        opacity <= 255,
    ensures
        mix(a, b, opacity) * 255 <= a * opacity + b * (255 - opacity) < (mix(a, b, opacity) + 1) * 255,
{
    let o = opacity as int;
    let s = a * o + b * (255 - o);
    assert(0 <= s <= 255 * 255) by (nonlinear_arith)
        requires s == a * o + b * (255 - o), 0 <= o <= 255, 0 <= a <= 255, 0 <= b <= 255;
    assert(0 <= s / 255 <= 255 && (s / 255) * 255 <= s < (s / 255 + 1) * 255) by (nonlinear_arith)
        requires 0 <= s <= 255 * 255;
}

/// The leader is drawn in the full acid colour, the bubble after it (to its
/// right, wrapping) at the 60 % step and the one after that at 30 %.
pub proof fn lemma_leader_full_acid(lead: int)
    requires
        0 <= lead < 3,
    ensures
        bubble_color(lead, lead) == BUILD_ACID,
        bubble_color((lead + 1) % 3, lead) == spec_blend(BUILD_ACID, HARDCORE_BLACK, 153),
        bubble_color((lead + 2) % 3, lead) == spec_blend(BUILD_ACID, HARDCORE_BLACK, 76),
{
    lemma_blend_bounds(BUILD_ACID, HARDCORE_BLACK, 255);
}

/// The leader walks left to right, one bubble per animation step, wrapping
/// from the last bubble to the first.
pub proof fn lemma_leader_walks(ticks: u64, later: u64)
    requires
        later / 12 == ticks / 12 + 1,
    ensures
        (later / 12) % 3 == ((ticks / 12) % 3 + 1) % 3,
{
}

} // verus!
