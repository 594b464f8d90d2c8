//! Pixels, channel layouts and the integer alpha-over blend.
use vstd::prelude::*;

verus! {

/// Byte layout of one pixel in an image buffer.
#[derive(Clone, Copy, PartialEq, Eq, Debug, Structural)]
pub enum PixelLayout {
    Rgb8,
    Rgba8,
}

/// How a transform reads the source at a non-integer point.
#[derive(Clone, Copy, PartialEq, Eq, Debug, Structural)]
pub enum Resampler {
    /// The pixel nearest to the point.
    Nearest,
    /// Linear interpolation between the four pixels around the point.
    Bilinear,
}

impl Resampler {
    /// The resampler with the given numeric code: 1 is bilinear, anything
    /// else nearest.
    pub fn from_code(code: u8) -> (r: Resampler)
        ensures
            r == (if code == 1 {
                Resampler::Bilinear
            } else {
                Resampler::Nearest
            }),
    {
        if code == 1 {
            Resampler::Bilinear
        } else {
            Resampler::Nearest
        }
    }
}

/// One pixel with straight (non-premultiplied) alpha.
#[derive(Clone, Copy, PartialEq, Eq, Debug, Structural)]
pub struct Rgba {
    pub r: u8,
    pub g: u8,
    pub b: u8,
    pub a: u8,
}

/// Bytes per pixel of a layout.
pub open spec fn bpp(layout: PixelLayout) -> nat {
    match layout {
        PixelLayout::Rgb8 => 3,
        PixelLayout::Rgba8 => 4,
    }
}

/// Channel `c` of a pixel (0 red, 1 green, 2 blue, 3 alpha).
pub open spec fn channel(p: Rgba, c: int) -> u8 {
    if c == 0 {
        p.r
    } else if c == 1 {
        p.g
    } else if c == 2 {
        p.b
    } else {
        p.a
    }
}

/// What a pixel reads back as once stored in a buffer of the given layout:
/// an RGB buffer keeps no alpha and reads back as opaque.
pub open spec fn stored(layout: PixelLayout, p: Rgba) -> Rgba {
    match layout {
        PixelLayout::Rgb8 => Rgba { a: 255, ..p },
        PixelLayout::Rgba8 => p,
    }
}

/// `(a + a / 256) / 256`: the shift-based approximation of `a / 255` that
/// the blend divides with.
pub open spec fn div255(a: int) -> int {
    (a / 256 + a) / 256
}

pub open spec fn clamp255(v: int) -> u8 {
    if v > 255 {
        255
    } else if v < 0 {
        0
    } else {
        v as u8
    }
}

/// Weight of the source colour, in units of `1 / (255 * 64)`.
pub open spec fn src_coef(n: int, bg_a: int) -> int {
    n * 255 * 255 * 64 / (n * 255 + bg_a * (255 - n))
}

/// One colour channel of a partial-alpha blend.
pub open spec fn blend_channel(s: int, d: int, coef1: int) -> u8 {
    clamp255(div255(s * coef1 + d * (255 * 64 - coef1) + 0x80 * 64) / 64)
}

/// Alpha-over composite of `src` onto `dst`: an opaque source replaces the
/// destination, a fully transparent one leaves it, anything else is mixed
/// with 16-bit fixed-point weights and a rounding bias of `0x80`.
pub open spec fn blend(src: Rgba, dst: Rgba) -> Rgba {
    let n = src.a as int;
    if n == 255 {
        src
    } else if n == 0 {
        dst
    } else {
        let coef1 = src_coef(n, dst.a as int);
        Rgba {
            r: blend_channel(src.r as int, dst.r as int, coef1),
            g: blend_channel(src.g as int, dst.g as int, coef1),
            b: blend_channel(src.b as int, dst.b as int, coef1),
            a: clamp255(div255(n * 255 + dst.a as int * (255 - n) + 0x80)),
        }
    }
}

fn clamp_u32(v: u32) -> (r: u8)
    ensures
        r == clamp255(v as int),
{
    if v > 255 {
        255
    } else {
        v as u8
    }
}

fn blend_channel_exec(s: u8, d: u8, coef1: u32) -> (r: u8)
    requires
        coef1 <= 255 * 64,
    ensures
        r == blend_channel(s as int, d as int, coef1 as int),
{
    let coef2: u32 = 255 * 64 - coef1;
    assert((s as u32) * coef1 <= 255 * (255 * 64)) by (nonlinear_arith)
        requires
            s <= 255,
            coef1 <= 255 * 64,
    ;
    assert((d as u32) * coef2 <= 255 * (255 * 64)) by (nonlinear_arith)
        requires
            d <= 255,
            coef2 <= 255 * 64,
    ;
    let tmp: u32 = (s as u32) * coef1 + (d as u32) * coef2 + 0x80 * 64;
    clamp_u32(((tmp / 256 + tmp) / 256) / 64)
}

/// Blends `src` over `dst`.
pub fn blend_pixel(src: Rgba, dst: Rgba) -> (r: Rgba)
    ensures
        r == blend(src, dst),
{
    if src.a == 255 {
        src
    } else if src.a == 0 {
        dst
    } else {
        let n: u32 = src.a as u32;
        let bg: u32 = dst.a as u32;
        assert(bg * (255 - n) <= 255 * 255) by (nonlinear_arith)
            requires
                bg <= 255,
                n <= 255,
        ;
        let outa255: u32 = n * 255 + bg * (255 - n);
        assert(n * 255 <= outa255);
        assert(n * 255 * 255 * 64 <= 255 * 255 * 255 * 64) by (nonlinear_arith)
            requires
                n <= 255,
        ;
        let num: u32 = n * 255 * 255 * 64;
        let coef1: u32 = num / outa255;
        assert(coef1 <= 255 * 64) by (nonlinear_arith)
            requires
                coef1 == num / outa255,
                num == n * 255 * 255 * 64,
                n * 255 <= outa255,
                outa255 > 0,
        ;
        let a: u32 = ((outa255 + 0x80) / 256 + (outa255 + 0x80)) / 256;
        Rgba {
            r: blend_channel_exec(src.r, dst.r, coef1),
            g: blend_channel_exec(src.g, dst.g, coef1),
            b: blend_channel_exec(src.b, dst.b, coef1),
            a: clamp_u32(a),
        }
    }
}

} // verus!
