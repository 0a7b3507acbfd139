use themepal::adjust::adjust;
use themepal::cluster::cluster;
use themepal::color::{mode_from_code, Mode, PaletteError, PerceptualColor, Pixel, ThemePair};
use themepal::config::rewrite_theme_lines;
use themepal::convert::{to_perceptual, to_pixel};
use themepal::hex::{encode, hex_of_pixel};
use themepal::pipeline::{theme_from_pixels, to_perceptual_all};
use themepal::select::{order, select_pair};

const K_FULL: usize = 8;
const MAX_ITERATIONS: u32 = 20;
const THRESHOLD: u64 = 50_000_000; // 0.005 in squared fixed-point units
const SEED: u64 = 42;

fn px(r: u8, g: u8, b: u8) -> Pixel {
    Pixel { r, g, b }
}

fn chroma2(c: &PerceptualColor) -> i64 {
    c.a * c.a + c.b * c.b
}

#[test]
fn round_trip_within_one_per_channel() {
    let mut values: Vec<u8> = (0..=255u16).step_by(15).map(|v| v as u8).collect();
    values.push(255);
    values.dedup();
    for &r in &values {
        for &g in &values {
            for &b in &values {
                let p = px(r, g, b);
                let c = to_perceptual(p);
                let q = to_pixel(&c);
                assert!(
                    (q.r as i16 - p.r as i16).abs() <= 1
                        && (q.g as i16 - p.g as i16).abs() <= 1
                        && (q.b as i16 - p.b as i16).abs() <= 1,
                    "round trip moved {:?} to {:?}",
                    p,
                    q
                );
            }
        }
    }
}

#[test]
fn round_trip_at_corners() {
    for p in [
        px(0, 0, 0),
        px(255, 255, 255),
        px(255, 0, 0),
        px(0, 255, 0),
        px(0, 0, 255),
        px(1, 1, 1),
        px(254, 255, 253),
    ] {
        let q = to_pixel(&to_perceptual(p));
        assert!((q.r as i16 - p.r as i16).abs() <= 1);
        assert!((q.g as i16 - p.g as i16).abs() <= 1);
        assert!((q.b as i16 - p.b as i16).abs() <= 1);
    }
}

#[test]
fn lightness_axis_is_ordered() {
    // a darker gray maps to a lower lightness than a brighter one
    let dark = to_perceptual(px(40, 40, 40));
    let bright = to_perceptual(px(200, 200, 200));
    assert!(dark.l < bright.l);
    // lightness of black is 0 and of white is 100 (in fixed-point units)
    let black = to_perceptual(px(0, 0, 0));
    let white = to_perceptual(px(255, 255, 255));
    assert_eq!(black.l, 0);
    assert!((white.l - 10_000_000).abs() < 20_000);
}

fn sample_image() -> Vec<Pixel> {
    // a small synthetic image with plenty of distinct colors
    let mut pixels = Vec::new();
    for i in 0..16u16 {
        for j in 0..16u16 {
            pixels.push(px((i * 16) as u8, (j * 16) as u8, ((i + j) * 8) as u8));
        }
    }
    pixels
}

#[test]
fn clustering_is_deterministic() {
    let points = to_perceptual_all(&sample_image());
    let a = cluster(&points, K_FULL, MAX_ITERATIONS, THRESHOLD, SEED).unwrap();
    let b = cluster(&points, K_FULL, MAX_ITERATIONS, THRESHOLD, SEED).unwrap();
    assert_eq!(a, b);
}

#[test]
fn pipeline_is_deterministic() {
    let pixels = sample_image();
    let a = theme_from_pixels(
        &pixels,
        K_FULL,
        MAX_ITERATIONS,
        THRESHOLD,
        SEED,
        Mode::Dark,
        Some(120_000),
    )
    .unwrap();
    let b = theme_from_pixels(
        &pixels,
        K_FULL,
        MAX_ITERATIONS,
        THRESHOLD,
        SEED,
        Mode::Dark,
        Some(120_000),
    )
    .unwrap();
    assert_eq!(a, b);
}

#[test]
fn cluster_returns_exactly_k_centroids() {
    let points = to_perceptual_all(&sample_image());
    for k in [1usize, 2, 5, 8] {
        let c = cluster(&points, k, MAX_ITERATIONS, THRESHOLD, SEED).unwrap();
        assert_eq!(c.len(), k);
    }
}

#[test]
fn cluster_rejects_empty_input() {
    let points: Vec<PerceptualColor> = Vec::new();
    assert_eq!(
        cluster(&points, 2, MAX_ITERATIONS, THRESHOLD, SEED),
        Err(PaletteError::EmptyInput)
    );
}

#[test]
fn cluster_rejects_too_few_distinct_colors() {
    // three distinct colors, five clusters requested
    let mut pixels = Vec::new();
    for _ in 0..10 {
        pixels.push(px(255, 0, 0));
        pixels.push(px(0, 255, 0));
        pixels.push(px(0, 0, 255));
    }
    let points = to_perceptual_all(&pixels);
    assert_eq!(
        cluster(&points, 5, MAX_ITERATIONS, THRESHOLD, SEED),
        Err(PaletteError::TooFewDistinctColors)
    );
}

#[test]
fn order_sorts_by_descending_chroma() {
    let points = to_perceptual_all(&sample_image());
    let cents = cluster(&points, K_FULL, MAX_ITERATIONS, THRESHOLD, SEED).unwrap();
    let ordered = order(&cents);
    assert_eq!(ordered.len(), cents.len());
    for w in ordered.windows(2) {
        assert!(chroma2(&w[0]) >= chroma2(&w[1]));
    }
}

#[test]
fn order_keeps_ties_stable() {
    // two colors with equal chroma must keep their input order
    let a = PerceptualColor { l: 1_000_000, a: 300_000, b: 400_000 };
    let b = PerceptualColor { l: 2_000_000, a: 400_000, b: 300_000 };
    let c = PerceptualColor { l: 3_000_000, a: 500_000, b: 0 };
    let palette = vec![a, b, c];
    let ordered = order(&palette);
    assert_eq!(ordered, vec![a, b, c]);
    let palette2 = vec![b, a, c];
    let ordered2 = order(&palette2);
    assert_eq!(ordered2, vec![b, a, c]);
}

#[test]
fn mode_symmetry_swaps_roles() {
    let points = to_perceptual_all(&sample_image());
    let cents = cluster(&points, K_FULL, MAX_ITERATIONS, THRESHOLD, SEED).unwrap();
    let ordered = order(&cents);
    let light = select_pair(&ordered, Mode::Light);
    let dark = select_pair(&ordered, Mode::Dark);
    assert_eq!(light.background, dark.foreground);
    assert_eq!(light.foreground, dark.background);
    assert_eq!(light.background, ordered[0]);
    assert_eq!(light.foreground, ordered[ordered.len() - 1]);
}

#[test]
fn mode_codes_are_validated() {
    assert_eq!(mode_from_code(0), Ok(Mode::Light));
    assert_eq!(mode_from_code(1), Ok(Mode::Dark));
    assert_eq!(mode_from_code(2), Err(PaletteError::InvalidMode));
    assert_eq!(mode_from_code(255), Err(PaletteError::InvalidMode));
}

#[test]
fn error_texts_describe_each_error() {
    assert_eq!(
        themepal::color::error_text(&PaletteError::EmptyInput),
        "the input image has no pixels"
    );
    assert_eq!(
        themepal::color::error_text(&PaletteError::TooFewDistinctColors),
        "fewer distinct colors than requested clusters"
    );
    assert_eq!(
        themepal::color::error_text(&PaletteError::InvalidMode),
        "the mode must be 0 (light) or 1 (dark)"
    );
}

#[test]
fn adjust_without_multiplier_is_identity() {
    let pair = ThemePair {
        background: PerceptualColor { l: 4_200_000, a: 1_000_000, b: -2_000_000 },
        foreground: PerceptualColor { l: 9_800_000, a: -3_000_000, b: 500_000 },
    };
    assert_eq!(adjust(&pair, None), pair);
}

#[test]
fn adjust_with_unit_multiplier_only_caps_foreground_lightness() {
    let pair = ThemePair {
        background: PerceptualColor { l: 4_200_000, a: 1_000_000, b: -2_000_000 },
        foreground: PerceptualColor { l: 9_800_000, a: -3_000_000, b: 500_000 },
    };
    let adjusted = adjust(&pair, Some(100_000));
    assert_eq!(adjusted.background, pair.background);
    assert_eq!(adjusted.foreground.a, pair.foreground.a);
    assert_eq!(adjusted.foreground.b, pair.foreground.b);
    // 98.0 lightness is capped at the 95.0 ceiling
    assert_eq!(adjusted.foreground.l, 9_500_000);
    // below the ceiling the lightness is untouched
    let low = ThemePair {
        background: pair.background,
        foreground: PerceptualColor { l: 9_400_000, a: 0, b: 0 },
    };
    assert_eq!(adjust(&low, Some(100_000)).foreground.l, 9_400_000);
}

#[test]
fn adjust_scales_and_clamps() {
    let pair = ThemePair {
        background: PerceptualColor { l: 8_000_000, a: 1_000_000, b: 2_000_000 },
        foreground: PerceptualColor { l: 5_000_000, a: 2_000_000, b: -2_000_000 },
    };
    // multiplier 1.5: background.l * 0.5, foreground scaled by 1.5
    let adjusted = adjust(&pair, Some(150_000));
    assert_eq!(adjusted.background.l, 4_000_000);
    assert_eq!(adjusted.background.a, 1_000_000);
    assert_eq!(adjusted.background.b, 2_000_000);
    assert_eq!(adjusted.foreground.l, 7_500_000);
    assert_eq!(adjusted.foreground.a, 3_000_000);
    assert_eq!(adjusted.foreground.b, -3_000_000);
    // multiplier 0: background.l doubled then clamped at 100
    let dark = adjust(&pair, Some(0));
    assert_eq!(dark.background.l, 10_000_000);
    assert_eq!(dark.foreground.l, 0);
    assert_eq!(dark.foreground.a, 0);
    assert_eq!(dark.foreground.b, 0);
}

#[test]
fn hex_formatting_is_exact() {
    assert_eq!(hex_of_pixel(px(161, 178, 195)), "#a1b2c3");
    assert_eq!(hex_of_pixel(px(0, 0, 0)), "#000000");
    assert_eq!(hex_of_pixel(px(255, 255, 255)), "#ffffff");
    assert_eq!(hex_of_pixel(px(15, 16, 239)), "#0f10ef");
}

#[test]
fn encode_always_matches_hex_shape() {
    let mut colors = vec![
        PerceptualColor { l: 0, a: 0, b: 0 },
        PerceptualColor { l: 10_000_000, a: 0, b: 0 },
        PerceptualColor { l: 5_000_000, a: 100_000_000, b: -100_000_000 },
        PerceptualColor { l: 9_999_999, a: -200_000_000, b: 200_000_000 },
    ];
    for pixel in [px(3, 250, 77), px(200, 12, 128)] {
        colors.push(to_perceptual(pixel));
    }
    for c in &colors {
        let s = encode(c);
        let bytes = s.as_bytes();
        assert_eq!(bytes.len(), 7);
        assert_eq!(bytes[0], b'#');
        for &d in &bytes[1..] {
            assert!(d.is_ascii_digit() || (b'a'..=b'f').contains(&d));
        }
    }
}

#[test]
fn scenario_all_red_image_is_rejected_for_two_clusters() {
    // An all-red image has a single distinct color, so asking for two
    // clusters is the declared too-few-distinct-colors error.
    let pixels = vec![px(255, 0, 0); 64];
    let points = to_perceptual_all(&pixels);
    assert_eq!(
        cluster(&points, 2, MAX_ITERATIONS, THRESHOLD, SEED),
        Err(PaletteError::TooFewDistinctColors)
    );
}

#[test]
fn scenario_near_uniform_image_yields_matching_hex() {
    // Two barely distinguishable reds: both centroids must map to the same
    // hex color within the one-unit channel tolerance.
    let mut pixels = Vec::new();
    for i in 0..64 {
        pixels.push(if i % 2 == 0 { px(255, 0, 0) } else { px(254, 0, 0) });
    }
    let points = to_perceptual_all(&pixels);
    let cents = cluster(&points, 2, MAX_ITERATIONS, THRESHOLD, SEED).unwrap();
    assert_eq!(cents.len(), 2);
    let p0 = to_pixel(&cents[0]);
    let p1 = to_pixel(&cents[1]);
    assert!((p0.r as i16 - p1.r as i16).abs() <= 1);
    assert!((p0.g as i16 - p1.g as i16).abs() <= 1);
    assert!((p0.b as i16 - p1.b as i16).abs() <= 1);
}

#[test]
fn scenario_red_blue_checkerboard() {
    let mut pixels = Vec::new();
    for i in 0..8 {
        for j in 0..8 {
            pixels.push(if (i + j) % 2 == 0 { px(255, 0, 0) } else { px(0, 0, 255) });
        }
    }
    let points = to_perceptual_all(&pixels);
    let cents = cluster(&points, 2, MAX_ITERATIONS, THRESHOLD, SEED).unwrap();
    assert_eq!(cents.len(), 2);
    let ordered = order(&cents);
    assert!(chroma2(&ordered[0]) >= chroma2(&ordered[1]));
    // one centroid near pure red, one near pure blue
    let a = to_pixel(&ordered[0]);
    let b = to_pixel(&ordered[1]);
    let (red, blue) = if a.r > a.b { (a, b) } else { (b, a) };
    assert!(red.r >= 254 && red.g <= 1 && red.b <= 1);
    assert!(blue.b >= 254 && blue.g <= 1 && blue.r <= 1);
    // the ordering is reproducible
    let ordered_again = order(&cluster(&points, 2, MAX_ITERATIONS, THRESHOLD, SEED).unwrap());
    assert_eq!(ordered, ordered_again);
}

#[test]
fn theme_lines_are_rewritten_at_markers() {
    let lines: Vec<Vec<u8>> = vec![
        b"window {".to_vec(),
        b"@define-color background #000000; /* {variant:bg} */".to_vec(),
        b"  color: red;".to_vec(),
        b"@define-color text-foreground #ffffff; /* {variant:fg} */".to_vec(),
        b"}".to_vec(),
    ];
    let rewritten = rewrite_theme_lines(&lines, &b"#a1b2c3".to_vec(), &b"#0f10ef".to_vec());
    assert_eq!(rewritten.len(), 5);
    assert_eq!(rewritten[0], lines[0]);
    assert_eq!(
        rewritten[1],
        b"@define-color background #a1b2c3; /* {variant:bg} */".to_vec()
    );
    assert_eq!(rewritten[2], lines[2]);
    assert_eq!(
        rewritten[3],
        b"@define-color text-foreground #0f10ef; /* {variant:fg} */".to_vec()
    );
    assert_eq!(rewritten[4], lines[4]);
}

#[test]
fn full_pipeline_produces_two_hex_strings() {
    let pixels = sample_image();
    let (bg, fg) = theme_from_pixels(
        &pixels,
        K_FULL,
        MAX_ITERATIONS,
        THRESHOLD,
        SEED,
        Mode::Light,
        None,
    )
    .unwrap();
    for s in [&bg, &fg] {
        let bytes = s.as_bytes();
        assert_eq!(bytes.len(), 7);
        assert_eq!(bytes[0], b'#');
        for &d in &bytes[1..] {
            assert!(d.is_ascii_digit() || (b'a'..=b'f').contains(&d));
        }
    }
    // empty input surfaces the typed error through the whole pipeline
    let empty: Vec<Pixel> = Vec::new();
    assert_eq!(
        theme_from_pixels(&empty, K_FULL, MAX_ITERATIONS, THRESHOLD, SEED, Mode::Light, None),
        Err(PaletteError::EmptyInput)
    );
}
