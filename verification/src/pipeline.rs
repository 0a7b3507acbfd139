//! The pipeline end to end: raw pixels to the two hex strings. Data flows
//! strictly forward — pixels to perceptual coordinates, clustering,
//! chroma ordering, pair selection, optional saturation adjustment, hex
//! encoding — and the result is pinned to the composition of the stages'
//! spec mirrors, so the whole run is a function of its inputs alone.

use vstd::prelude::*;
use crate::color::{
    Pixel, PerceptualColor, ThemePair, Mode, PaletteError, wf_palette, wf_pair, wf_color,
};
use crate::convert::{spec_to_perceptual, to_perceptual, spec_to_pixel};
use crate::cluster::{spec_cluster, cluster};
use crate::select::{spec_order, spec_select_pair, order, select_pair};
use crate::adjust::{spec_adjust, adjust, MULTIPLIER_MAX};
use crate::hex::{spec_hex_chars, encode};

verus! {

/// The perceptual coordinates of each pixel, in order.
pub open spec fn spec_points_of(pixels: Seq<Pixel>) -> Seq<PerceptualColor> {
    Seq::new(
        pixels.len(),
        |i: int|
            PerceptualColor {
                l: spec_to_perceptual(pixels[i]).0 as i64,
                a: spec_to_perceptual(pixels[i]).1 as i64,
                b: spec_to_perceptual(pixels[i]).2 as i64,
            },
    )
}

/// Converts a whole pixel buffer to perceptual coordinates, in order.
pub fn to_perceptual_all(pixels: &Vec<Pixel>) -> (r: Vec<PerceptualColor>)
    ensures
        r@ == spec_points_of(pixels@),
        wf_palette(r@),
{
    let mut r: Vec<PerceptualColor> = Vec::new();
    let mut i: usize = 0;
    while i < pixels.len()
        invariant
            i <= pixels@.len(),
            r@.len() == i,
            forall|t: int| 0 <= t < i ==> #[trigger] r@[t] == spec_points_of(pixels@)[t],
            wf_palette(r@),
        decreases pixels@.len() - i,
    {
        let c = to_perceptual(pixels[i]);
        r.push(c);
        i += 1;
    }
    proof {
        assert(r@ =~= spec_points_of(pixels@));
    }
    r
}

/// What the whole pipeline returns for a pixel buffer and configuration:
/// either the two hex strings (background first) or the error of the stage
/// that rejected the input.
pub open spec fn spec_theme(
    pixels: Seq<Pixel>,
    k: int,
    max_iterations: int,
    threshold: int,
    seed: int,
    mode: Mode,
    multiplier: Option<u32>,
) -> Result<(Seq<char>, Seq<char>), PaletteError> {
    let pts = spec_points_of(pixels);
    match spec_cluster(pts, k, max_iterations, threshold, seed) {
        Err(e) => Err(e),
        Ok(cents) => {
            let ordered = spec_order(cents);
            let pair = spec_select_pair(ordered, mode);
            let adj = spec_adjust(pair, multiplier);
            Ok(
                (
                    spec_hex_chars(spec_to_pixel(adj.background)),
                    spec_hex_chars(spec_to_pixel(adj.foreground)),
                ),
            )
        },
    }
}

/// Runs the pipeline end to end and returns the background and foreground
/// hex strings. Exactly `spec_theme` of the inputs: deterministic, with
/// the two error cases of the quantizer surfaced unchanged.
pub fn theme_from_pixels(
    pixels: &Vec<Pixel>,
    k: usize,
    max_iterations: u32,
    threshold: u64,
    seed: u64,
    mode: Mode,
    multiplier: Option<u32>,
) -> (r: Result<(String, String), PaletteError>)
    requires
        k >= 1,
        multiplier matches Some(m) ==> m <= MULTIPLIER_MAX,
    ensures
        ({
            let st = spec_theme(
                pixels@,
                k as int,
                max_iterations as int,
                threshold as int,
                seed as int,
                mode,
                multiplier,
            );
            match r {
                Ok(p) => st == Ok::<(Seq<char>, Seq<char>), PaletteError>((p.0@, p.1@)),
                Err(e) => st == Err::<(Seq<char>, Seq<char>), PaletteError>(e),
            }
        }),
{
    let points = to_perceptual_all(pixels);
    let cents = match cluster(&points, k, max_iterations, threshold, seed) {
        Err(e) => {
            return Err(e);
        },
        Ok(c) => c,
    };
    let ordered = order(&cents);
    let pair = select_pair(&ordered, mode);
    proof {
        assert(wf_color(ordered@[0]));
        assert(wf_color(ordered@[ordered@.len() - 1]));
    }
    let adj = adjust(&pair, multiplier);
    let bg = encode(&adj.background);
    let fg = encode(&adj.foreground);
    Ok((bg, fg))
}

} // verus!
