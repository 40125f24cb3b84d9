//! Colour modes and palettes.

use astraglyph::ascii::color::{
    self, grey_level, sanitize, ColorMode, CUBE_FIRST, CUBE_LEVELS, GREY_BASE, GREY_COUNT,
    GREY_FIRST, MONOCHROME_FOREGROUND,
};

fn sanitized(rgb: [f32; 3]) -> [f32; 3] {
    sanitize(rgb.map(f32::to_bits)).map(f32::from_bits)
}

/// Sanitized components as bytes, rounded to the nearest.
fn to_bytes(rgb: [f32; 3]) -> [u8; 3] {
    sanitized(rgb).map(|c| (c * 255.0).round() as u8)
}

fn from_bytes(rgb: [u8; 3]) -> [f32; 3] {
    rgb.map(|c| c as f32 / 255.0)
}

/// Perceived brightness as a byte.
fn brightness(rgb: [f32; 3]) -> u8 {
    let c = sanitized(rgb);
    let luminance = (0.299 * c[0] + 0.587 * c[1] + 0.114 * c[2]).clamp(0.0, 1.0);
    (luminance * 255.0).round() as u8
}

fn dist2(a: [u8; 3], b: [u8; 3]) -> u32 {
    (0..3).map(|i| (a[i].abs_diff(b[i]) as u32).pow(2)).sum()
}

fn rgb_to_ansi256(rgb: [f32; 3]) -> u8 {
    color::rgb_to_ansi256(to_bytes(rgb))
}

fn rgb_to_ansi16(rgb: [f32; 3]) -> u8 {
    color::rgb_to_ansi16(to_bytes(rgb))
}

fn ansi256_to_rgb(index: u8) -> [f32; 3] {
    from_bytes(color::ansi256_to_rgb(index))
}

fn ansi16_to_rgb(index: u8) -> [f32; 3] {
    from_bytes(color::ansi16_to_rgb(index))
}

trait Display {
    fn shown(&self, rgb: [f32; 3]) -> [f32; 3];
    fn index_of(&self, rgb: [f32; 3]) -> Option<u8>;
}

impl Display for ColorMode {
    fn shown(&self, rgb: [f32; 3]) -> [f32; 3] {
        match self.quantize(to_bytes(rgb), brightness(rgb)) {
            Some(bytes) => from_bytes(bytes),
            None => sanitized(rgb),
        }
    }

    fn index_of(&self, rgb: [f32; 3]) -> Option<u8> {
        self.palette_index(to_bytes(rgb), brightness(rgb))
    }
}

const BLACK: [f32; 3] = [0.0, 0.0, 0.0];
const WHITE: [f32; 3] = [1.0, 1.0, 1.0];
const RED: [f32; 3] = [1.0, 0.0, 0.0];
const GREEN: [f32; 3] = [0.0, 1.0, 0.0];
const BLUE: [f32; 3] = [0.0, 0.0, 1.0];

fn close(a: [f32; 3], b: [f32; 3]) -> bool {
    (0..3).all(|i| (a[i] - b[i]).abs() < 1e-6)
}

/// The 240 palette entries `rgb_to_ansi256` is allowed to return (16..=255),
/// as 8-bit triples, in index order.
fn ansi256_search_space() -> Vec<[u8; 3]> {
    (CUBE_FIRST as u16..=255)
        .map(|i| to_bytes(ansi256_to_rgb(i as u8)))
        .collect()
}

/// Exhaustive nearest-neighbour over the search space, first minimum wins.
fn brute_force_in(palette: &[[u8; 3]], rgb: [f32; 3]) -> u8 {
    let c = to_bytes(rgb);
    let mut best = CUBE_FIRST;
    let mut best_dist = u32::MAX;
    for (offset, entry) in palette.iter().enumerate() {
        let dist = dist2(c, *entry);
        if dist < best_dist {
            best_dist = dist;
            best = CUBE_FIRST + offset as u8;
        }
    }
    best
}

fn brute_force_ansi256(rgb: [f32; 3]) -> u8 {
    brute_force_in(&ansi256_search_space(), rgb)
}

#[test]
fn cube_levels_are_the_xterm_ones() {
    // The exact xterm values, not an even ramp.
    assert_eq!(CUBE_LEVELS, [0, 95, 135, 175, 215, 255]);
    // Spot-check known xterm entries: 16 #000000, 231 #ffffff, 196 #ff0000,
    // 46 #00ff00, 21 #0000ff, 226 #ffff00, 51 #00ffff, 201 #ff00ff,
    // 100 #878700 (135, 135, 0).
    assert_eq!(to_bytes(ansi256_to_rgb(16)), [0, 0, 0]);
    assert_eq!(to_bytes(ansi256_to_rgb(231)), [255, 255, 255]);
    assert_eq!(to_bytes(ansi256_to_rgb(196)), [255, 0, 0]);
    assert_eq!(to_bytes(ansi256_to_rgb(46)), [0, 255, 0]);
    assert_eq!(to_bytes(ansi256_to_rgb(21)), [0, 0, 255]);
    assert_eq!(to_bytes(ansi256_to_rgb(226)), [255, 255, 0]);
    assert_eq!(to_bytes(ansi256_to_rgb(51)), [0, 255, 255]);
    assert_eq!(to_bytes(ansi256_to_rgb(201)), [255, 0, 255]);
    assert_eq!(to_bytes(ansi256_to_rgb(100)), [135, 135, 0]);
    // Every cube component must come from the level table.
    for index in 16u16..=231 {
        let bytes = to_bytes(ansi256_to_rgb(index as u8));
        for channel in bytes {
            assert!(
                CUBE_LEVELS.contains(&channel),
                "index {index} has non-cube component {channel}"
            );
        }
    }
}

#[test]
fn grey_ramp_is_8_plus_10i() {
    for i in 0u8..24 {
        let expected = 8 + 10 * i;
        assert_eq!(grey_level(i), expected);
        let bytes = to_bytes(ansi256_to_rgb(GREY_FIRST + i));
        assert_eq!(bytes, [expected, expected, expected], "grey step {i}");
    }
    // Ends of the ramp: 232 -> 8, 255 -> 238.
    assert_eq!(to_bytes(ansi256_to_rgb(232)), [8, 8, 8]);
    assert_eq!(to_bytes(ansi256_to_rgb(255)), [238, 238, 238]);
}

#[test]
fn ansi256_palette_round_trips_exactly() {
    for index in CUBE_FIRST as u16..=255 {
        let index = index as u8;
        let rgb = ansi256_to_rgb(index);
        assert_eq!(
            rgb_to_ansi256(rgb),
            index,
            "round-trip failed for index {index} ({rgb:?})"
        );
    }
}

#[test]
fn ansi16_palette_round_trips_exactly() {
    for index in 0u8..16 {
        assert_eq!(rgb_to_ansi16(ansi16_to_rgb(index)), index);
    }
    // Out-of-range indices wrap instead of panicking.
    assert_eq!(ansi16_to_rgb(16), ansi16_to_rgb(0));
    assert_eq!(ansi16_to_rgb(255), ansi16_to_rgb(15));
}

#[test]
fn truecolor_is_identity() {
    for rgb in [BLACK, WHITE, RED, GREEN, BLUE, [0.25, 0.5, 0.75]] {
        assert_eq!(ColorMode::TrueColor.shown(rgb), rgb);
        assert_eq!(ColorMode::TrueColor.index_of(rgb), None);
    }
}

#[test]
fn primaries_in_ansi256() {
    assert_eq!(ColorMode::Ansi256.index_of(BLACK), Some(16));
    assert_eq!(ColorMode::Ansi256.index_of(WHITE), Some(231));
    assert_eq!(ColorMode::Ansi256.index_of(RED), Some(196));
    assert_eq!(ColorMode::Ansi256.index_of(GREEN), Some(46));
    assert_eq!(ColorMode::Ansi256.index_of(BLUE), Some(21));
    // Pure primaries are exact cube entries, so quantize is lossless.
    for rgb in [BLACK, WHITE, RED, GREEN, BLUE] {
        assert!(close(ColorMode::Ansi256.shown(rgb), rgb), "{rgb:?}");
    }
}

#[test]
fn primaries_in_ansi16() {
    assert_eq!(ColorMode::Ansi16.index_of(BLACK), Some(0));
    assert_eq!(ColorMode::Ansi16.index_of(WHITE), Some(15));
    assert_eq!(ColorMode::Ansi16.index_of(RED), Some(9));
    assert_eq!(ColorMode::Ansi16.index_of(GREEN), Some(10));
    assert_eq!(ColorMode::Ansi16.index_of(BLUE), Some(12));
    for rgb in [BLACK, WHITE, RED, GREEN, BLUE] {
        assert!(close(ColorMode::Ansi16.shown(rgb), rgb), "{rgb:?}");
    }
}

#[test]
fn ansi16_indices_stay_in_range() {
    for r in 0..=8 {
        for g in 0..=8 {
            for b in 0..=8 {
                let rgb = [r as f32 / 8.0, g as f32 / 8.0, b as f32 / 8.0];
                let index = rgb_to_ansi16(rgb);
                assert!(index <= 15, "index {index} out of range for {rgb:?}");
                assert_eq!(ColorMode::Ansi16.index_of(rgb), Some(index));
            }
        }
    }
    // Garbage input must not escape the range either.
    for rgb in [
        [f32::NAN, 2.0, -1.0],
        [f32::INFINITY, f32::NEG_INFINITY, 0.5],
    ] {
        assert!(rgb_to_ansi16(rgb) <= 15);
    }
}

#[test]
fn primaries_in_grayscale() {
    let cases = [
        (BLACK, 232u8, 8u8),
        (WHITE, 255, 238),
        (RED, 239, 78),
        (GREEN, 246, 148),
        (BLUE, 234, 28),
    ];
    for (rgb, index, level) in cases {
        assert_eq!(ColorMode::Grayscale.index_of(rgb), Some(index), "{rgb:?}");
        let out = ColorMode::Grayscale.shown(rgb);
        assert!(close(out, from_bytes([level, level, level])), "{rgb:?} -> {out:?}");
    }
}

#[test]
fn grayscale_output_is_neutral() {
    for r in 0..=6 {
        for g in 0..=6 {
            for b in 0..=6 {
                let rgb = [r as f32 / 6.0, g as f32 / 6.0, b as f32 / 6.0];
                let out = ColorMode::Grayscale.shown(rgb);
                assert_eq!(out[0], out[1], "not neutral: {out:?}");
                assert_eq!(out[1], out[2], "not neutral: {out:?}");
                let index = ColorMode::Grayscale.index_of(rgb).unwrap();
                assert!((GREY_FIRST..=255).contains(&index), "index {index}");
                // The quantized grey must be the colour of that index.
                assert!(close(out, ansi256_to_rgb(index)), "{out:?} vs index {index}");
            }
        }
    }
}

#[test]
fn monochrome_is_a_single_colour() {
    for rgb in [BLACK, WHITE, RED, GREEN, BLUE, [0.3, 0.6, 0.9]] {
        assert_eq!(ColorMode::Monochrome.shown(rgb), from_bytes(MONOCHROME_FOREGROUND));
        assert_eq!(ColorMode::Monochrome.index_of(rgb), None);
    }
}

#[test]
fn grey_ramp_beats_the_cube_for_near_greys() {
    // 128 is an exact ramp entry (8 + 10*12) but 7 away from cube level 135,
    // so mid grey must map to grey index 244, not to cube index
    // 16 + 36*2 + 6*2 + 2 = 102.
    assert_eq!(rgb_to_ansi256([0.5, 0.5, 0.5]), 244);
    assert_eq!(to_bytes(ansi256_to_rgb(244)), [128, 128, 128]);
    assert!(close(
        ColorMode::Ansi256.shown([0.5, 0.5, 0.5]),
        from_bytes([128, 128, 128])
    ));
}

#[test]
fn ties_resolve_to_the_lower_index() {
    // 115 is exactly between cube levels 95 and 135: the lower level wins,
    // giving 16 + 36*1 = 52 (grey is far away for a saturated red).
    let tie_red = from_bytes([115, 0, 0]);
    assert_eq!(rgb_to_ansi256(tie_red), 52);
    assert_eq!(brute_force_ansi256(tie_red), 52);
    let tie_grey = from_bytes([13, 13, 13]);
    assert_eq!(rgb_to_ansi256(tie_grey), 232);
    assert_eq!(brute_force_ansi256(tie_grey), 232);
    // 160 is exactly between system grey (128, index 8) and silver
    // (192, index 7): the lower index wins.
    assert_eq!(rgb_to_ansi16(from_bytes([160, 160, 160])), 7);
}

#[test]
fn analytic_search_matches_brute_force() {
    // Axis includes the exact tie points 115/155/195/235 plus a spread of
    // ordinary values, so both the cube and the grey ramp win somewhere.
    const AXIS: [u8; 20] = [
        0, 17, 34, 51, 68, 85, 102, 115, 119, 136, 153, 155, 170, 187, 195, 204, 221, 235,
        238, 255,
    ];
    let palette = ansi256_search_space();
    for r in AXIS {
        for g in AXIS {
            for b in AXIS {
                let rgb = from_bytes([r, g, b]);
                assert_eq!(
                    rgb_to_ansi256(rgb),
                    brute_force_in(&palette, rgb),
                    "mismatch at ({r}, {g}, {b})"
                );
            }
        }
    }
}

#[test]
fn non_finite_and_out_of_range_input_is_safe() {
    let inputs = [
        [f32::NAN, f32::NAN, f32::NAN],
        [f32::INFINITY, 0.0, 0.0],
        [f32::NEG_INFINITY, 1.0, f32::NAN],
        [-1.0, -0.5, -0.0],
        [2.0, 10.0, 1e30],
        [f32::MAX, f32::MIN, 0.5],
    ];
    for mode in ColorMode::ALL {
        for rgb in inputs {
            let out = mode.shown(rgb);
            for c in out {
                assert!(c.is_finite(), "{mode:?} produced non-finite {out:?}");
                assert!((0.0..=1.0).contains(&c), "{mode:?} produced {out:?}");
            }
            // Must not panic, and any index must be a real palette slot.
            let _ = mode.index_of(rgb);
        }
    }
    // NaN is treated as 0.0, infinities clamp to the range ends.
    assert_eq!(ColorMode::TrueColor.shown([f32::NAN; 3]), BLACK);
    assert_eq!(ColorMode::TrueColor.shown([f32::INFINITY; 3]), WHITE);
    assert_eq!(ColorMode::TrueColor.shown([-5.0, 0.5, 7.0]), [0.0, 0.5, 1.0]);
    assert_eq!(rgb_to_ansi256([2.0, 2.0, 2.0]), 231);
    assert_eq!(rgb_to_ansi256([f32::NAN, f32::NAN, f32::NAN]), 16);
}

#[test]
fn ansi256_low_indices_are_the_system_colours() {
    for index in 0u8..16 {
        assert_eq!(ansi256_to_rgb(index), ansi16_to_rgb(index), "index {index}");
    }
    // The duplicates that make the system colours unusable as quantization
    // targets: black == cube 16, white == cube 231, grey == ramp 244.
    assert_eq!(to_bytes(ansi16_to_rgb(0)), to_bytes(ansi256_to_rgb(16)));
    assert_eq!(to_bytes(ansi16_to_rgb(15)), to_bytes(ansi256_to_rgb(231)));
    assert_eq!(to_bytes(ansi16_to_rgb(8)), to_bytes(ansi256_to_rgb(244)));
}

#[test]
fn ansi256_indices_never_hit_the_system_colours() {
    for r in 0..=5 {
        for g in 0..=5 {
            for b in 0..=5 {
                let rgb = [r as f32 / 5.0, g as f32 / 5.0, b as f32 / 5.0];
                let index = rgb_to_ansi256(rgb);
                assert!(index >= CUBE_FIRST, "index {index} for {rgb:?}");
                assert_eq!(ColorMode::Ansi256.index_of(rgb), Some(index));
            }
        }
    }
    // Garbage input must stay inside the searched range too.
    for rgb in [
        [f32::NAN, 2.0, -1.0],
        [f32::INFINITY, f32::NEG_INFINITY, f32::NAN],
        [-3.0, 0.5, 9.0],
    ] {
        assert!(rgb_to_ansi256(rgb) >= CUBE_FIRST);
    }
}

#[test]
fn non_palette_colour_maps_to_the_nearest_cube_entry() {
    let rgb = [0.25, 0.75, 0.5];
    assert_eq!(to_bytes(rgb), [64, 191, 128]);
    assert_eq!(rgb_to_ansi256(rgb), 72);
    assert_eq!(brute_force_ansi256(rgb), 72);
    assert!(close(
        ColorMode::Ansi256.shown(rgb),
        from_bytes([95, 175, 135])
    ));
}

#[test]
fn palette_index_and_quantize_agree() {
    let samples = [
        BLACK,
        WHITE,
        RED,
        GREEN,
        BLUE,
        [0.25, 0.75, 0.5],
        [0.125, 0.125, 0.125],
        [1.0, 0.5, 0.0],
    ];
    for rgb in samples {
        for mode in ColorMode::ALL {
            match mode.index_of(rgb) {
                // The quantized colour must be exactly the colour of the
                // index a terminal backend would emit.
                Some(index) => {
                    let expected = match mode {
                        ColorMode::Ansi16 => ansi16_to_rgb(index),
                        _ => ansi256_to_rgb(index),
                    };
                    assert!(close(mode.shown(rgb), expected), "{mode:?} {rgb:?}");
                }
                None => assert!(matches!(
                    mode,
                    ColorMode::TrueColor | ColorMode::Monochrome
                )),
            }
        }
    }
}

#[test]
fn grey_level_saturates_instead_of_overflowing() {
    assert_eq!(grey_level(0), GREY_BASE);
    assert_eq!(grey_level(GREY_COUNT - 1), 238);
    // Out-of-range steps clamp to the last ramp entry; `8 + 10 * 25` would
    // otherwise overflow the u8 arithmetic and panic in a debug build.
    assert_eq!(grey_level(GREY_COUNT), 238);
    assert_eq!(grey_level(255), 238);
}

#[test]
fn default_mode_is_truecolor() {
    assert_eq!(ColorMode::default(), ColorMode::TrueColor);
    assert_eq!(ColorMode::ALL.len(), 5);
}

/// Every component of a sanitized colour is a number from 0 to 1, and one that
/// was such a number already is kept.
#[test]
fn sanitizing_keeps_usable_components_only() {
    assert_eq!(sanitized([f32::NAN, f32::INFINITY, f32::NEG_INFINITY]), [0.0, 1.0, 0.0]);
    assert_eq!(sanitized([0.25, 1.5, -0.25]), [0.25, 1.0, 0.0]);
    assert_eq!(sanitized([0.0, 1.0, f32::MIN_POSITIVE]), [0.0, 1.0, f32::MIN_POSITIVE]);
}
