//! The pipeline's data model: 8-bit pixels, fixed-point perceptual colors,
//! the theme pair, the mode flag and the error taxonomy.

use vstd::prelude::*;

verus! {

/// Fixed-point scale of the perceptual coordinates: a lightness of 1.0 in
/// Lab units is stored as `SCALE`.
pub const SCALE: i64 = 100_000;

/// Magnitude bound on the chroma axes of a well-formed perceptual color
/// (the conversion from pixels never leaves it, and cluster means preserve
/// it).
pub const AB_LIMIT: i64 = 100_000_000;

/// Magnitude bound on the chroma axes after saturation adjustment, which
/// may scale them by at most two.
pub const AB_WIDE_LIMIT: i64 = 200_000_000;

/// One raster pixel: three 8-bit channels, red, green and blue.
#[derive(Clone, Copy, PartialEq, Eq, Structural, Debug)]
pub struct Pixel {
    pub r: u8,
    pub g: u8,
    pub b: u8,
}

/// A color in the perceptual (Lab-like) space, in fixed-point units of
/// `1 / SCALE`: `l` is lightness in `[0, 100] * SCALE`, `a` and `b` are the
/// two chroma/hue axes.
#[derive(Clone, Copy, PartialEq, Eq, Structural, Debug)]
pub struct PerceptualColor {
    pub l: i64,
    pub a: i64,
    pub b: i64,
}

/// Exactly two perceptual colors: the theme's background and foreground.
#[derive(Clone, Copy, PartialEq, Eq, Structural, Debug)]
pub struct ThemePair {
    pub background: PerceptualColor,
    pub foreground: PerceptualColor,
}

/// The theme mode: `Light` keeps the most saturated centroid as background,
/// `Dark` swaps the roles.
#[derive(Clone, Copy, PartialEq, Eq, Structural, Debug)]
pub enum Mode {
    Light,
    Dark,
}

/// Typed errors of the pipeline: malformed input or an invalid mode code.
#[derive(Clone, Copy, PartialEq, Eq, Structural, Debug)]
pub enum PaletteError {
    /// The input pixel sequence was empty.
    EmptyInput,
    /// Fewer distinct colors were available than the requested cluster
    /// count.
    TooFewDistinctColors,
    /// The mode code was neither the light nor the dark code.
    InvalidMode,
}

/// A well-formed perceptual color: lightness in `[0, 100] * SCALE` and both
/// chroma axes within `AB_LIMIT`.
pub open spec fn wf_color(c: PerceptualColor) -> bool {
    &&& 0 <= c.l <= 100 * SCALE
    &&& -AB_LIMIT <= c.a <= AB_LIMIT
    &&& -AB_LIMIT <= c.b <= AB_LIMIT
}

/// A color as the saturation adjuster may leave it: the chroma axes may
/// reach twice `AB_LIMIT`.
pub open spec fn wf_color_wide(c: PerceptualColor) -> bool {
    &&& 0 <= c.l <= 100 * SCALE
    &&& -AB_WIDE_LIMIT <= c.a <= AB_WIDE_LIMIT
    &&& -AB_WIDE_LIMIT <= c.b <= AB_WIDE_LIMIT
}

pub open spec fn wf_pair(p: ThemePair) -> bool {
    wf_color(p.background) && wf_color(p.foreground)
}

pub open spec fn wf_pair_wide(p: ThemePair) -> bool {
    wf_color_wide(p.background) && wf_color_wide(p.foreground)
}

pub open spec fn wf_palette(s: Seq<PerceptualColor>) -> bool {
    forall|i: int| 0 <= i < s.len() ==> wf_color(#[trigger] s[i])
}

/// Maps a mode code from the caller to a mode: 0 is light, 1 is dark, and
/// any other code is a configuration error.
pub fn mode_from_code(code: u8) -> (r: Result<Mode, PaletteError>)
    ensures
        code == 0 ==> r == Ok::<Mode, PaletteError>(Mode::Light),
        code == 1 ==> r == Ok::<Mode, PaletteError>(Mode::Dark),
        code != 0 && code != 1 ==> r == Err::<Mode, PaletteError>(PaletteError::InvalidMode),
{
    if code == 0 {
        Ok(Mode::Light)
    } else if code == 1 {
        Ok(Mode::Dark)
    } else {
        Err(PaletteError::InvalidMode)
    }
}

/// A short description of an error, for the caller's reporting.
pub fn error_text(e: &PaletteError) -> (r: &'static str)
    ensures
        e is EmptyInput ==> r@ == "the input image has no pixels"@,
        e is TooFewDistinctColors ==> r@ == "fewer distinct colors than requested clusters"@,
        e is InvalidMode ==> r@ == "the mode must be 0 (light) or 1 (dark)"@,
{
    match e {
        PaletteError::EmptyInput => "the input image has no pixels",
        PaletteError::TooFewDistinctColors => "fewer distinct colors than requested clusters",
        PaletteError::InvalidMode => "the mode must be 0 (light) or 1 (dark)",
    }
}

} // verus!
