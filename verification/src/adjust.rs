//! The saturation/lightness transform of the selected pair: an optional
//! single multiplier rescales the background's lightness inversely and the
//! foreground's lightness and chroma directly, with the clamping policy the
//! pipeline defines.

use vstd::prelude::*;
use crate::fixmath::{tdiv, sdiv, lemma_div_le_bound, lemma_mul_le};
use crate::color::{PerceptualColor, ThemePair, wf_pair, wf_pair_wide};

verus! {

/// The multiplier is a fixed-point fraction scaled by 10^5; this bound is
/// the value 2.0, the top of the expected range, and keeps every product in
/// machine range.
pub const MULTIPLIER_MAX: u32 = 200_000;

/// The adjusted pair: with no multiplier the pair passes through unchanged;
/// with multiplier `m` (scaled by 10^5),
/// - the background lightness is scaled by `2 - m` and clamped to
///   `[0, 100]`,
/// - the foreground lightness is scaled by `m` and capped at 95,
/// - the foreground chroma axes are scaled by `m`,
/// - the background chroma axes are left untouched.
pub open spec fn spec_adjust(pair: ThemePair, multiplier: Option<u32>) -> ThemePair {
    match multiplier {
        None => pair,
        Some(m) => {
            let bgl_raw = pair.background.l * (200_000 - m) / 100_000;
            let bgl = if bgl_raw < 0 {
                0
            } else if bgl_raw > 10_000_000 {
                10_000_000
            } else {
                bgl_raw
            };
            let fgl_raw = pair.foreground.l * m / 100_000;
            let fgl = if fgl_raw > 9_500_000 {
                9_500_000
            } else {
                fgl_raw
            };
            ThemePair {
                background: PerceptualColor {
                    l: bgl as i64,
                    a: pair.background.a,
                    b: pair.background.b,
                },
                foreground: PerceptualColor {
                    l: fgl as i64,
                    a: tdiv(pair.foreground.a * m, 100_000) as i64,
                    b: tdiv(pair.foreground.b * m, 100_000) as i64,
                },
            }
        },
    }
}

/// Applies the optional saturation multiplier to a working copy of the
/// pair. The result is pinned to `spec_adjust`; without a multiplier it is
/// the input pair itself.
pub fn adjust(pair: &ThemePair, multiplier: Option<u32>) -> (r: ThemePair)
    requires
        wf_pair(*pair),
        multiplier matches Some(m) ==> m <= MULTIPLIER_MAX,
    ensures
        r == spec_adjust(*pair, multiplier),
        wf_pair_wide(r),
        multiplier is None ==> r == *pair,
{
    match multiplier {
        None => *pair,
        Some(m) => {
            let factor: u64 = (200_000 - m) as u64;
            proof {
                lemma_mul_le(pair.background.l as int, factor as int, 10_000_000, 200_000);
            }
            let bgl_raw: u64 = (pair.background.l as u64) * factor / 100_000;
            proof {
                lemma_div_le_bound(pair.background.l as int * factor as int, 100_000, 20_000_000);
            }
            let bgl: i64 = if bgl_raw > 10_000_000 {
                10_000_000
            } else {
                bgl_raw as i64
            };
            proof {
                lemma_mul_le(pair.foreground.l as int, m as int, 10_000_000, 200_000);
            }
            let fgl_raw: u64 = (pair.foreground.l as u64) * (m as u64) / 100_000;
            proof {
                lemma_div_le_bound(pair.foreground.l as int * m as int, 100_000, 20_000_000);
            }
            let fgl: i64 = if fgl_raw > 9_500_000 {
                9_500_000
            } else {
                fgl_raw as i64
            };
            proof {
                assert(-20_000_000_000_000 <= pair.foreground.a as int * m as int
                    <= 20_000_000_000_000 && -20_000_000_000_000 <= pair.foreground.b as int
                    * m as int <= 20_000_000_000_000) by (nonlinear_arith)
                    requires
                        -100_000_000 <= pair.foreground.a as int <= 100_000_000,
                        -100_000_000 <= pair.foreground.b as int <= 100_000_000,
                        0 <= m as int <= 200_000,
                ;
                assert(-(pair.foreground.a as int) * m as int == -(pair.foreground.a as int
                    * m as int) && -(pair.foreground.b as int) * m as int == -(
                pair.foreground.b as int * m as int)) by (nonlinear_arith);
                if pair.foreground.a >= 0 {
                    lemma_div_le_bound(pair.foreground.a as int * m as int, 100_000, 200_000_000);
                } else {
                    lemma_div_le_bound(
                        -(pair.foreground.a as int) * m as int,
                        100_000,
                        200_000_000,
                    );
                }
                if pair.foreground.b >= 0 {
                    lemma_div_le_bound(pair.foreground.b as int * m as int, 100_000, 200_000_000);
                } else {
                    lemma_div_le_bound(
                        -(pair.foreground.b as int) * m as int,
                        100_000,
                        200_000_000,
                    );
                }
            }
            let fga: i64 = sdiv(pair.foreground.a * (m as i64), 100_000);
            let fgb: i64 = sdiv(pair.foreground.b * (m as i64), 100_000);
            ThemePair {
                background: PerceptualColor {
                    l: bgl,
                    a: pair.background.a,
                    b: pair.background.b,
                },
                foreground: PerceptualColor { l: fgl, a: fga, b: fgb },
            }
        },
    }
}

/// Law: with no multiplier the pair is returned unchanged, and with the
/// multiplier 1.0 the scaling terms change nothing — the background is
/// untouched, the foreground chroma axes are untouched, and the foreground
/// lightness is only capped at 95.
pub proof fn lemma_saturation_identity(pair: ThemePair)
    requires
        wf_pair(pair),
    ensures
        spec_adjust(pair, None) == pair,
        spec_adjust(pair, Some(100_000u32)).background == pair.background,
        spec_adjust(pair, Some(100_000u32)).foreground.a == pair.foreground.a,
        spec_adjust(pair, Some(100_000u32)).foreground.b == pair.foreground.b,
        spec_adjust(pair, Some(100_000u32)).foreground.l == if pair.foreground.l > 9_500_000 {
            9_500_000int
        } else {
            pair.foreground.l as int
        },
{
    vstd::arithmetic::div_mod::lemma_div_multiples_vanish(pair.background.l as int, 100_000);
    assert(pair.background.l as int * 100_000 / 100_000 == pair.background.l as int);
    assert(spec_adjust(pair, Some(100_000u32)).background.l == pair.background.l);
    vstd::arithmetic::div_mod::lemma_div_multiples_vanish(pair.foreground.l as int, 100_000);
    if pair.foreground.a >= 0 {
        vstd::arithmetic::div_mod::lemma_div_multiples_vanish(pair.foreground.a as int, 100_000);
    } else {
        vstd::arithmetic::div_mod::lemma_div_multiples_vanish(-(pair.foreground.a as int), 100_000);
    }
    if pair.foreground.b >= 0 {
        vstd::arithmetic::div_mod::lemma_div_multiples_vanish(pair.foreground.b as int, 100_000);
    } else {
        vstd::arithmetic::div_mod::lemma_div_multiples_vanish(-(pair.foreground.b as int), 100_000);
    }
}

} // verus!
