//! Conversion between 8-bit sRGB pixels and the fixed-point perceptual
//! space: gamma expansion, the chromaticity matrix and the cube-root
//! lightness transform, together with the exact inverse direction, each
//! pinned to a spec-level mirror of the same integer arithmetic.

use vstd::prelude::*;
use crate::fixmath::{
    pow5, spec_isqrt, spec_icbrt, spec_iroot5, lemma_isqrt_unique, lemma_icbrt_unique,
    lemma_iroot5_unique, tdiv, sdiv, isqrt, icbrt, iroot5, lemma_div_le_bound,
    lemma_div_lt_bound, lemma_mul_le,
};
use crate::color::{Pixel, PerceptualColor, wf_color, wf_color_wide};

verus! {

/// Gamma expansion of one 8-bit sRGB channel to a linear-light value in
/// `[0, 100_000]`: the standard piecewise curve, with the power 2.4 computed
/// as the square times the fifth root of the square.
pub open spec fn spec_linear_of_srgb(c: u8) -> int {
    let n = (c as int) * 100_000 / 255;
    if n <= 4045 {
        n * 100 / 1292
    } else {
        let g = (n + 5500) * 1000 / 1055;
        let g2 = g * g / 100_000;
        let r5 = spec_iroot5(g2 * 100_000_000_000_000_000_000);
        g2 * r5 / 100_000
    }
}

fn srgb_to_linear(c: u8) -> (r: u64)
    ensures
        r as int == spec_linear_of_srgb(c),
        r <= 100_000,
{
    let n: u64 = c as u64 * 100_000 / 255;
    proof {
        lemma_div_le_bound(c as int * 100_000, 255, 100_000);
    }
    if n <= 4045 {
        let r = n * 100 / 1292;
        proof {
            lemma_div_le_bound(n as int * 100, 1292, 100_000);
        }
        r
    } else {
        let g: u64 = (n + 5500) * 1000 / 1055;
        proof {
            lemma_div_le_bound((n as int + 5500) * 1000, 1055, 100_000);
            lemma_mul_le(g as int, g as int, 100_000, 100_000);
        }
        let g2: u64 = g * g / 100_000;
        proof {
            lemma_div_le_bound(g as int * g as int, 100_000, 100_000);
        }
        let r5: u64 = iroot5(g2 as u128 * 100_000_000_000_000_000_000);
        proof {
            lemma_iroot5_unique(r5 as int, g2 as int * 100_000_000_000_000_000_000);
            lemma_mul_le(g2 as int, r5 as int, 100_000, 100_000);
        }
        let r = g2 * r5 / 100_000;
        proof {
            lemma_div_le_bound(g2 as int * r5 as int, 100_000, 100_000);
        }
        r
    }
}

/// The linear-light triple mapped to tristimulus coordinates by the sRGB
/// chromaticity matrix, scaled by 10^5.
pub open spec fn spec_xyz(p: Pixel) -> (int, int, int) {
    let lr = spec_linear_of_srgb(p.r);
    let lg = spec_linear_of_srgb(p.g);
    let lb = spec_linear_of_srgb(p.b);
    (
        (4124564 * lr + 3575761 * lg + 1804375 * lb) / 10_000_000,
        (2126729 * lr + 7151522 * lg + 721750 * lb) / 10_000_000,
        (193339 * lr + 1191920 * lg + 9503041 * lb) / 10_000_000,
    )
}

/// The lightness transfer function: a cube root above the standard cutoff
/// and the linear segment below it, on values scaled by 10^5.
pub open spec fn spec_labf(t: int) -> int {
    if 24389 * t > 21_600_000 {
        spec_icbrt(t * 10_000_000_000)
    } else {
        t * 841 / 108 + 13793
    }
}

fn labf(t: u64) -> (r: u64)
    requires
        t <= 100_000,
    ensures
        r as int == spec_labf(t as int),
        r <= 100_000,
{
    if 24389 * t > 21_600_000 {
        let r = icbrt(t * 10_000_000_000);
        proof {
            lemma_icbrt_unique(r as int, t as int * 10_000_000_000);
        }
        r
    } else {
        let r = t * 841 / 108 + 13793;
        proof {
            lemma_div_le_bound(t as int * 841, 108, 6892);
        }
        r
    }
}

/// The perceptual coordinates of a pixel, all scaled by 10^5: lightness
/// clamped to `[0, 100] * SCALE` and the two chroma axes.
pub open spec fn spec_to_perceptual(p: Pixel) -> (int, int, int) {
    let t = spec_xyz(p);
    let fx = spec_labf(t.0 * 100_000 / 95047);
    let fy = spec_labf(t.1);
    let fz = spec_labf(t.2 * 100_000 / 108883);
    let lraw = 116 * fy - 1_600_000;
    let l = if lraw < 0 {
        0
    } else if lraw > 10_000_000 {
        10_000_000
    } else {
        lraw
    };
    (l, 500 * (fx - fy), 200 * (fy - fz))
}

/// Converts a pixel to its perceptual color. Pure; the result is pinned to
/// `spec_to_perceptual` and is always well formed.
pub fn to_perceptual(p: Pixel) -> (c: PerceptualColor)
    ensures
        c.l == spec_to_perceptual(p).0,
        c.a == spec_to_perceptual(p).1,
        c.b == spec_to_perceptual(p).2,
        wf_color(c),
{
    let lr = srgb_to_linear(p.r);
    let lg = srgb_to_linear(p.g);
    let lb = srgb_to_linear(p.b);
    let x: u64 = (4124564 * lr + 3575761 * lg + 1804375 * lb) / 10_000_000;
    let y: u64 = (2126729 * lr + 7151522 * lg + 721750 * lb) / 10_000_000;
    let z: u64 = (193339 * lr + 1191920 * lg + 9503041 * lb) / 10_000_000;
    proof {
        lemma_div_le_bound(
            4124564 * lr as int + 3575761 * lg as int + 1804375 * lb as int,
            10_000_000,
            100_000,
        );
        lemma_div_lt_bound(
            2126729 * lr as int + 7151522 * lg as int + 721750 * lb as int,
            10_000_000,
            100_000,
        );
        lemma_div_le_bound(
            193339 * lr as int + 1191920 * lg as int + 9503041 * lb as int,
            10_000_000,
            108_883,
        );
    }
    let xr: u64 = x * 100_000 / 95047;
    let zr: u64 = z * 100_000 / 108883;
    proof {
        lemma_div_le_bound(x as int * 100_000, 95047, 100_000);
        lemma_div_le_bound(z as int * 100_000, 108883, 100_000);
    }
    let fx = labf(xr);
    let fy = labf(y);
    let fz = labf(zr);
    let lraw: i64 = 116 * (fy as i64) - 1_600_000;
    let l: i64 = if lraw < 0 {
        0
    } else if lraw > 10_000_000 {
        10_000_000
    } else {
        lraw
    };
    let a: i64 = 500 * ((fx as i64) - (fy as i64));
    let b: i64 = 200 * ((fy as i64) - (fz as i64));
    PerceptualColor { l, a, b }
}

/// Inverse of the lightness transfer function on values scaled by 10^5;
/// the argument may be negative, where the linear segment applies.
pub open spec fn spec_finv(f: int) -> int {
    if f > 20689 {
        f * f * f / 10_000_000_000
    } else {
        tdiv((f - 13793) * 108, 841)
    }
}

fn lab_finv(f: i64) -> (r: i64)
    requires
        -1_100_000 <= f <= 1_100_000,
    ensures
        r == spec_finv(f as int),
        -150_000 <= r <= 135_000_000,
{
    if f > 20689 {
        let fu = f as u64;
        proof {
            lemma_mul_le(fu as int, fu as int, 1_100_000, 1_100_000);
            lemma_mul_le(fu as int * fu as int, fu as int, 1_210_000_000_000, 1_100_000);
            lemma_div_le_bound(fu as int * fu as int * fu as int, 10_000_000_000, 133_100_000);
        }
        let c = fu * fu * fu / 10_000_000_000;
        c as i64
    } else {
        let r = sdiv((f - 13793) * 108, 841);
        r
    }
}

/// Clamps a linear-light value into `[0, 100_000]`.
pub open spec fn spec_clamp_unit(v: int) -> int {
    if v < 0 {
        0
    } else if v > 100_000 {
        100_000
    } else {
        v
    }
}

/// Gamma compression of one linear-light channel in `[0, 100_000]` down to
/// an 8-bit value: the standard piecewise curve, with the power 5/12 built
/// from two square roots, a cube root and a fifth power, then the final
/// truncating rescale to `[0, 255]`.
pub open spec fn spec_srgb_of_linear(x: int) -> int {
    let y = if x <= 313 {
        x * 1292 / 100
    } else {
        let r1 = spec_isqrt(x * 100_000);
        let r2 = spec_isqrt(r1 * 100_000);
        let r3 = spec_icbrt(r2 * 10_000_000_000);
        let p = pow5(r3) / 100_000_000_000_000_000_000;
        let yv = 1055 * p / 1000;
        if yv < 5500 {
            0
        } else {
            yv - 5500
        }
    };
    y * 255 / 100_000
}

fn linear_to_srgb(x: u64) -> (r: u64)
    requires
        x <= 100_000,
    ensures
        r as int == spec_srgb_of_linear(x as int),
        r <= 255,
{
    let y: u64 = if x <= 313 {
        let small = x * 1292 / 100;
        proof {
            lemma_div_le_bound(x as int * 1292, 100, 100_000);
        }
        small
    } else {
        let r1 = isqrt(x * 100_000);
        proof {
            lemma_isqrt_unique(r1 as int, x as int * 100_000);
        }
        let r2 = isqrt(r1 * 100_000);
        proof {
            lemma_isqrt_unique(r2 as int, r1 as int * 100_000);
        }
        let r3 = icbrt(r2 * 10_000_000_000);
        proof {
            lemma_icbrt_unique(r3 as int, r2 as int * 10_000_000_000);
        }
        let r3u = r3 as u128;
        proof {
            assert(r3u * r3u <= 100_000 * 100_000 && r3u * r3u * r3u <= 100_000 * 100_000
                * 100_000 && r3u * r3u * r3u * r3u <= 100_000 * 100_000 * 100_000 * 100_000
                && r3u * r3u * r3u * r3u * r3u <= 100_000 * 100_000 * 100_000 * 100_000
                * 100_000) by (nonlinear_arith)
                requires
                    0 <= r3u <= 100_000,
            ;
            assert(pow5(r3 as int) == r3u as int * r3u as int * r3u as int * r3u as int
                * r3u as int);
            lemma_div_le_bound(pow5(r3 as int), 100_000_000_000_000_000_000, 100_000);
        }
        let p: u64 = (r3u * r3u * r3u * r3u * r3u / 100_000_000_000_000_000_000) as u64;
        let yv: u64 = 1055 * p / 1000;
        proof {
            lemma_div_le_bound(1055 * p as int, 1000, 105_500);
        }
        if yv < 5500 {
            0
        } else {
            yv - 5500
        }
    };
    proof {
        lemma_div_le_bound(y as int * 255, 100_000, 255);
    }
    y * 255 / 100_000
}

/// The pixel a perceptual color maps back to: the inverse transform through
/// tristimulus coordinates, each linear channel clamped to `[0, 100_000]`
/// and truncated to 8 bits.
pub open spec fn spec_to_pixel(c: PerceptualColor) -> Pixel {
    let fy = (c.l + 1_600_000) / 116;
    let fx = fy + tdiv(c.a as int, 500);
    let fz = fy - tdiv(c.b as int, 200);
    let x = tdiv(spec_finv(fx) * 95047, 100_000);
    let y = spec_finv(fy);
    let z = tdiv(spec_finv(fz) * 108883, 100_000);
    let rl = spec_clamp_unit(tdiv(32404542 * x - 15371385 * y - 4985314 * z, 10_000_000));
    let gl = spec_clamp_unit(tdiv(18760108 * y + 415560 * z - 9692660 * x, 10_000_000));
    let bl = spec_clamp_unit(tdiv(556434 * x - 2040259 * y + 10572252 * z, 10_000_000));
    Pixel {
        r: spec_srgb_of_linear(rl) as u8,
        g: spec_srgb_of_linear(gl) as u8,
        b: spec_srgb_of_linear(bl) as u8,
    }
}

/// Converts a perceptual color back to an 8-bit pixel. Pure; the exact
/// inverse arithmetic of `to_perceptual`, with each output channel clamped
/// to the unit range and truncated, as `spec_to_pixel` states.
pub fn to_pixel(c: &PerceptualColor) -> (p: Pixel)
    requires
        wf_color_wide(*c),
    ensures
        p == spec_to_pixel(*c),
{
    let fy_u: u64 = ((c.l + 1_600_000) as u64) / 116;
    proof {
        lemma_div_le_bound(c.l as int + 1_600_000, 116, 100_000);
    }
    let fy: i64 = fy_u as i64;
    proof {
        if c.a >= 0 {
            lemma_div_le_bound(c.a as int, 500, 400_000);
        } else {
            lemma_div_le_bound(-(c.a as int), 500, 400_000);
        }
        if c.b >= 0 {
            lemma_div_le_bound(c.b as int, 200, 1_000_000);
        } else {
            lemma_div_le_bound(-(c.b as int), 200, 1_000_000);
        }
    }
    let fx: i64 = fy + sdiv(c.a, 500);
    let fz: i64 = fy - sdiv(c.b, 200);
    let xr = lab_finv(fx);
    let yr = lab_finv(fy);
    let zr = lab_finv(fz);
    proof {
        if xr >= 0 {
            lemma_div_le_bound(xr as int * 95047, 100_000, 130_000_000);
        } else {
            lemma_div_le_bound(-(xr as int) * 95047, 100_000, 130_000_000);
        }
        if zr >= 0 {
            lemma_div_le_bound(zr as int * 108883, 100_000, 160_000_000);
        } else {
            lemma_div_le_bound(-(zr as int) * 108883, 100_000, 160_000_000);
        }
    }
    let x: i64 = sdiv(xr * 95047, 100_000);
    let y: i64 = yr;
    let z: i64 = sdiv(zr * 108883, 100_000);
    proof {
        assert(-130_000_000 <= x as int <= 130_000_000);
        assert(-150_000 <= y as int <= 135_000_000);
        assert(-160_000_000 <= z as int <= 160_000_000);
    }
    let rl_raw: i64 = sdiv(32404542 * x - 15371385 * y - 4985314 * z, 10_000_000);
    let gl_raw: i64 = sdiv(18760108 * y + 415560 * z - 9692660 * x, 10_000_000);
    let bl_raw: i64 = sdiv(556434 * x - 2040259 * y + 10572252 * z, 10_000_000);
    let rl = clamp_unit(rl_raw);
    let gl = clamp_unit(gl_raw);
    let bl = clamp_unit(bl_raw);
    let pr = linear_to_srgb(rl);
    let pg = linear_to_srgb(gl);
    let pb = linear_to_srgb(bl);
    Pixel { r: pr as u8, g: pg as u8, b: pb as u8 }
}

fn clamp_unit(v: i64) -> (r: u64)
    ensures
        r as int == spec_clamp_unit(v as int),
        r <= 100_000,
{
    if v < 0 {
        0
    } else if v > 100_000 {
        100_000
    } else {
        v as u64
    }
}

} // verus!
