//! Linear-framebuffer pixel encoding.
//!
//! The framebuffer is an array of pixels in RAM; each pixel takes
//! `bytes_per_pixel` bytes in the byte order that its pixel format names. The
//! framebuffer has no alpha channel, so brand "opacity" is precomputed by
//! blending onto the Hardcore Black background elsewhere.
use vstd::prelude::*;

pub mod color;

verus! {

/// Colour format of the pixels in a framebuffer.
#[derive(Clone, Copy, Debug, PartialEq, Eq, Structural)]
pub enum PixelFormat {
    /// One byte red, then one byte green, then one byte blue.
    Rgb,
    /// One byte blue, then one byte green, then one byte red.
    Bgr,
    /// A single byte of grayscale intensity.
    U8,
    /// A format with the given byte positions of the three channels; written
    /// as BGR.
    Unknown { red_position: u8, green_position: u8, blue_position: u8 },
}

/// Geometry and format of a framebuffer.
#[derive(Clone, Copy, Debug, PartialEq, Eq, Structural)]
pub struct FrameBufferInfo {
    /// The total size in bytes.
    pub byte_len: usize,
    /// The width in pixels.
    pub width: usize,
    /// The height in pixels.
    pub height: usize,
    /// The colour format of each pixel.
    pub pixel_format: PixelFormat,
    /// The number of bytes per pixel.
    pub bytes_per_pixel: usize,
    /// Number of pixels between the start of a line and the start of the next.
    pub stride: usize,
}

/// Grayscale luminance approximation of an RGB colour (weights 54/183/19 of 256).
pub open spec fn luminance(rgb: (u8, u8, u8)) -> u8 {
    ((rgb.0 * 54 + rgb.1 * 183 + rgb.2 * 19) / 256) as u8
}

/// The bytes that encode `rgb` in format `fmt`.
pub open spec fn pixel_bytes(fmt: PixelFormat, rgb: (u8, u8, u8)) -> Seq<u8> {
    match fmt {
        PixelFormat::Rgb => seq![rgb.0, rgb.1, rgb.2],
        PixelFormat::U8 => seq![luminance(rgb)],
        _ => seq![rgb.2, rgb.1, rgb.0],
    }
}

/// Byte order of a pixel: RGB stores red, green, blue; BGR and a format of
/// another layout store blue, green, red; grayscale stores one byte, in which
/// a gray colour keeps its level, black is 0 and white 255.
pub proof fn lemma_pixel_byte_order(rgb: (u8, u8, u8), v: u8)
    ensures
        pixel_bytes(PixelFormat::Rgb, rgb) == seq![rgb.0, rgb.1, rgb.2],
        pixel_bytes(PixelFormat::Bgr, rgb) == seq![rgb.2, rgb.1, rgb.0],
        pixel_bytes(PixelFormat::U8, rgb).len() == 1,
        pixel_bytes(PixelFormat::U8, (v, v, v)) == seq![v],
        luminance((0, 0, 0)) == 0,
        luminance((255, 255, 255)) == 255,
{
    assert(v * 54 + v * 183 + v * 19 == v * 256) by (nonlinear_arith);
    assert((v * 256) / 256 == v as int) by (nonlinear_arith);
}

/// Number of bytes a pixel of format `fmt` occupies at the least.
pub open spec fn pixel_width(fmt: PixelFormat) -> nat {
    match fmt {
        PixelFormat::U8 => 1,
        _ => 3,
    }
}

/// `bytes` with its first bytes replaced by the encoding of `rgb`.
pub open spec fn with_pixel(bytes: Seq<u8>, fmt: PixelFormat, rgb: (u8, u8, u8)) -> Seq<u8> {
    pixel_bytes(fmt, rgb) + bytes.subrange(pixel_width(fmt) as int, bytes.len() as int)
}

/// Write one pixel honouring the framebuffer's byte order.
pub fn write_pixel(px: &mut [u8], fmt: PixelFormat, rgb: (u8, u8, u8))
    requires
        old(px)@.len() >= pixel_width(fmt),
    ensures
        final(px)@ == with_pixel(old(px)@, fmt, rgb),
{
    let (r, g, b) = rgb;
    match fmt {
        PixelFormat::Rgb => {
            px[0] = r;
            px[1] = g;
            px[2] = b;
        },
        PixelFormat::Bgr => {
            px[0] = b;
            px[1] = g;
            px[2] = r;
        },
        PixelFormat::U8 => {
            let sum: u16 = r as u16 * 54 + g as u16 * 183 + b as u16 * 19;
            let l = (sum >> 8u16) as u8;
            assert((sum >> 8u16) as u8 == (sum / 256) as u8) by (bit_vector);
            px[0] = l;
        },
        _ => {
            px[0] = b;
            px[1] = g;
            px[2] = r;
        },
    }
    assert(px@ =~= with_pixel(old(px)@, fmt, rgb));
}

/// `bytes` with the encoding of `rgb` written at byte offset `off`.
pub open spec fn put_at(bytes: Seq<u8>, off: int, fmt: PixelFormat, rgb: (u8, u8, u8)) -> Seq<u8> {
    Seq::new(
        bytes.len(),
        |k: int|
            if off <= k < off + pixel_width(fmt) {
                pixel_bytes(fmt, rgb)[k - off]
            } else {
                bytes[k]
            },
    )
}

/// Write the encoding of `rgb` at byte offset `off` of `buf`.
pub(crate) fn put_pixel_at(buf: &mut [u8], off: usize, fmt: PixelFormat, rgb: (u8, u8, u8))
    requires
        off + pixel_width(fmt) <= old(buf)@.len(),
    ensures
        final(buf)@ == put_at(old(buf)@, off as int, fmt, rgb),
{
    let (r, g, b) = rgb;
    match fmt {
        PixelFormat::Rgb => {
            buf[off] = r;
            buf[off + 1] = g;
            buf[off + 2] = b;
        },
        PixelFormat::U8 => {
            let sum: u16 = r as u16 * 54 + g as u16 * 183 + b as u16 * 19;
            let l = (sum >> 8u16) as u8;
            assert((sum >> 8u16) as u8 == (sum / 256) as u8) by (bit_vector);
            buf[off] = l;
        },
        _ => {
            buf[off] = b;
            buf[off + 1] = g;
            buf[off + 2] = r;
        },
    }
    assert(buf@ =~= put_at(old(buf)@, off as int, fmt, rgb));
}

/// `bytes` with the first `n` whole pixels of `bpp` bytes each set to `rgb`
/// (the bytes of a pixel past its encoding are left as they were).
pub open spec fn filled(
    bytes: Seq<u8>,
    bpp: nat,
    n: nat,
    fmt: PixelFormat,
    rgb: (u8, u8, u8),
) -> Seq<u8> {
    Seq::new(
        bytes.len(),
        |k: int|
            if k < n * bpp && k % (bpp as int) < pixel_width(fmt) {
                pixel_bytes(fmt, rgb)[k % (bpp as int)]
            } else {
                bytes[k]
            },
    )
}

/// Byte `k` lies in pixel `i` of `bpp` bytes exactly when `k / bpp == i`, at
/// position `k - i * bpp` within it.
pub proof fn lemma_pixel_position(k: int, i: int, bpp: int)
    requires
        bpp > 0,
        i >= 0,
        i * bpp <= k < i * bpp + bpp,
    ensures
        k / bpp == i,
        k % bpp == k - i * bpp,
{
    vstd::arithmetic::div_mod::lemma_fundamental_div_mod_converse(k, bpp, i, k - i * bpp);
}

/// A byte lies before pixel `n` exactly when its pixel index is below `n`.
pub proof fn lemma_before_pixel(k: int, n: int, bpp: int)
    requires
        bpp > 0,
        n >= 0,
        k >= 0,
    ensures
        (k < n * bpp) == (k / bpp < n),
{
    vstd::arithmetic::div_mod::lemma_fundamental_div_mod(k, bpp);
    let q = k / bpp;
    vstd::arithmetic::div_mod::lemma_mod_bound(k, bpp);
    if q < n {
        vstd::arithmetic::mul::lemma_mul_inequality(q + 1, n, bpp);
        vstd::arithmetic::mul::lemma_mul_is_distributive_add_other_way(bpp, q, 1);
    } else {
        vstd::arithmetic::mul::lemma_mul_inequality(n, q, bpp);
        assert(q * bpp == bpp * q) by (nonlinear_arith);
    }
    assert(q * bpp == bpp * q) by (nonlinear_arith);
}

/// Fill every whole pixel of `buf` with one colour, in the framebuffer's
/// layout `info` (bytes after the last whole pixel are left untouched).
pub fn clear(buf: &mut [u8], info: &FrameBufferInfo, rgb: (u8, u8, u8))
    requires
        info.bytes_per_pixel > 0,
        old(buf)@.len() >= info.bytes_per_pixel ==> info.bytes_per_pixel >= pixel_width(
            info.pixel_format,
        ),
    ensures
        final(buf)@ == filled(
            old(buf)@,
            info.bytes_per_pixel as nat,
            old(buf)@.len() / (info.bytes_per_pixel as nat),
            info.pixel_format,
            rgb,
        ),
{
    let bpp = info.bytes_per_pixel;
    let fmt = info.pixel_format;
    let len = buf.len();
    let n = len / bpp;
    let ghost orig = buf@;
    let ghost w = pixel_width(fmt) as int;
    proof {
        vstd::arithmetic::div_mod::lemma_fundamental_div_mod(orig.len() as int, bpp as int);
        vstd::arithmetic::div_mod::lemma_mod_bound(orig.len() as int, bpp as int);
        assert(n * bpp == bpp * n) by (nonlinear_arith);
        if n > 0 {
            vstd::arithmetic::mul::lemma_mul_inequality(1, n as int, bpp as int);
        }
    }
    let mut i: usize = 0;
    while i < n
        invariant
            bpp == info.bytes_per_pixel,
            fmt == info.pixel_format,
            bpp > 0,
            n == orig.len() / (bpp as nat),
            n * bpp <= orig.len(),
            orig.len() == len,
            n > 0 ==> bpp >= pixel_width(fmt),
            w == pixel_width(fmt),
            i <= n,
            buf@ == filled(orig, bpp as nat, i as nat, fmt, rgb),
        decreases n - i,
    {
        proof {
            vstd::arithmetic::mul::lemma_mul_inequality(i as int + 1, n as int, bpp as int);
            vstd::arithmetic::mul::lemma_mul_is_distributive_add_other_way(bpp as int, i as int, 1);
            assert(i * bpp + bpp <= n * bpp);
        }
        let off = i * bpp;
        let ghost before = buf@;
        put_pixel_at(buf, off, fmt, rgb);
        proof {
            assert forall|k: int| 0 <= k < orig.len() implies #[trigger] buf@[k] == filled(
                orig,
                bpp as nat,
                (i + 1) as nat,
                fmt,
                rgb,
            )[k] by {
                lemma_before_pixel(k, i as int, bpp as int);
                lemma_before_pixel(k, i as int + 1, bpp as int);
                if off <= k < off + bpp {
                    lemma_pixel_position(k, i as int, bpp as int);
                } else {
                    vstd::arithmetic::div_mod::lemma_fundamental_div_mod(k, bpp as int);
                    if k / (bpp as int) == i as int {
                        assert((k / (bpp as int)) * (bpp as int) == i * bpp);
                        vstd::arithmetic::div_mod::lemma_mod_bound(k, bpp as int);
                        assert(bpp * (k / (bpp as int)) == (k / (bpp as int)) * bpp) by (nonlinear_arith);
                    }
                }
            }
            assert(buf@ =~= filled(orig, bpp as nat, (i + 1) as nat, fmt, rgb));
        }
        i = i + 1;
    }
}

} // verus!
