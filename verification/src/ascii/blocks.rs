//! Unicode block elements: one cell carries four independent samples, one for
//! each quadrant.
//!
//! Bit 0 of a pattern is the upper left quadrant, bit 1 the upper right, bit 2
//! the lower left and bit 3 the lower right.

use vstd::prelude::*;
use crate::ascii::glyph_atlas::{Glyph, append_glyph, blank, depicts, fill};
use crate::ascii::glyph_atlas::{lemma_strip_step, strip};
use crate::engine::single::{finite, is_finite, is_less, is_nan, not_a_number, rank};

verus! {

/// Number of block glyphs (every 2x2 quadrant combination).
pub const BLOCK_COUNT: usize = 16;

/// The 16 quadrant combinations, indexed by their 4-bit pattern.
pub const BLOCK_CHARS: [char; BLOCK_COUNT] = [
    ' ',
    '▘',
    '▝',
    '▀',
    '▖',
    '▌',
    '▞',
    '▛',
    '▗',
    '▚',
    '▐',
    '▜',
    '▄',
    '▙',
    '▟',
    '█',
];

/// Bit for the upper-left quadrant.
pub const UL: u8 = 0b0001;

/// Bit for the upper-right quadrant.
pub const UR: u8 = 0b0010;

/// Bit for the lower-left quadrant.
pub const LL: u8 = 0b0100;

/// Bit for the lower-right quadrant.
pub const LR: u8 = 0b1000;

/// The bit of the quadrant that holds a pixel.
pub open spec fn quadrant_bit(x: int, y: int) -> u8 {
    if y < 4 {
        if x < 4 {
            UL
        } else {
            UR
        }
    } else {
        if x < 4 {
            LL
        } else {
            LR
        }
    }
}

/// The picture of a pattern: the quadrants whose bits are set, filled.
pub open spec fn block_ink(pattern: u8, x: int, y: int) -> bool {
    pattern & quadrant_bit(x, y) != 0
}

/// Render the block glyph for a 4-bit quadrant `pattern`. Bits above the low
/// four are ignored.
pub fn render_block(pattern: u8) -> (glyph: Glyph)
    ensures
        depicts(glyph, |x: int, y: int| block_ink(pattern, x, y)),
{
    let mut glyph = blank();
    if pattern & UL != 0 {
        fill(&mut glyph, 0, 4, 0, 4);
    }
    if pattern & UR != 0 {
        fill(&mut glyph, 4, 8, 0, 4);
    }
    if pattern & LL != 0 {
        fill(&mut glyph, 0, 4, 4, 8);
    }
    if pattern & LR != 0 {
        fill(&mut glyph, 4, 8, 4, 8);
    }
    glyph
}

/// The block section of the atlas.
pub open spec fn block_strip() -> Seq<u8> {
    strip(16, |index: int, x: int, y: int| block_ink(index as u8, x, y))
}

/// The block section as flat RGBA bytes.
pub fn build_block_atlas() -> (atlas: Vec<u8>)
    ensures
        atlas@ == block_strip(),
        atlas@.len() == BLOCK_COUNT * 64 * 4,
{
    let ghost ink = |index: int, x: int, y: int| block_ink(index as u8, x, y);
    let mut atlas: Vec<u8> = Vec::new();
    let mut pattern: u8 = 0;
    assert(atlas@ =~= strip(0, ink));
    while pattern < 16
        invariant
            pattern <= 16,
            ink == (|index: int, x: int, y: int| block_ink(index as u8, x, y)),
            atlas@ == strip(pattern as nat, ink),
        decreases 16 - pattern,
    {
        let glyph = render_block(pattern);
        proof {
            lemma_strip_step(
                pattern as nat,
                ink,
                glyph,
                |x: int, y: int| block_ink(pattern, x, y),
            );
        }
        append_glyph(&mut atlas, &glyph);
        pattern += 1;
    }
    atlas
}

/// Only the low four bits of a pattern count.
pub proof fn law_high_bits_are_ignored(pattern: u8, x: int, y: int)
    ensures
        block_ink(pattern, x, y) == block_ink(pattern & 0b1111, x, y),
{
    assert((pattern & 0b1111) & 0b0001 == pattern & 0b0001) by (bit_vector);
    assert((pattern & 0b1111) & 0b0010 == pattern & 0b0010) by (bit_vector);
    assert((pattern & 0b1111) & 0b0100 == pattern & 0b0100) by (bit_vector);
    assert((pattern & 0b1111) & 0b1000 == pattern & 0b1000) by (bit_vector);
}

// --- subpixels ---------------------------------------------------------------

/// The colours of a cell's four subpixels, in quadrant order: upper left,
/// upper right, lower left, lower right.
pub type Subpixels = [[u8; 3]; 4];

/// The smaller of a coordinate and the last one of an axis.
pub open spec fn clamped(at: int, size: int) -> int {
    if at < size {
        at
    } else {
        size - 1
    }
}

/// The colour of the subpixel at `(x, y)`, with coordinates past the edge moved
/// to the last subpixel; black where the buffer holds none.
pub open spec fn subpixel(
    pixels: Seq<[u8; 4]>,
    width: int,
    height: int,
    x: int,
    y: int,
) -> Seq<u8> {
    let at = clamped(y, height) * width + clamped(x, width);
    if width > 0 && height > 0 && at < pixels.len() {
        pixels[at]@.take(3)
    } else {
        seq![0u8, 0u8, 0u8]
    }
}

/// One subpixel of a buffer.
fn sample(pixels: &[[u8; 4]], width: u32, height: u32, x: u32, y: u32) -> (r: [u8; 3])
    ensures
        r@ == subpixel(pixels@, width as int, height as int, x as int, y as int),
{
    if width == 0 || height == 0 {
        let black: [u8; 3] = [0, 0, 0];
        assert(black@ =~= seq![0u8, 0u8, 0u8]);
        return black;
    }
    let cx: u32 = if x < width {
        x
    } else {
        width - 1
    };
    let cy: u32 = if y < height {
        y
    } else {
        height - 1
    };
    assert(0 <= cy * width <= 0xffff_ffff * 0xffff_ffff) by (nonlinear_arith)
        requires
            0 <= cy <= 0xffff_ffff,
            0 <= width <= 0xffff_ffff,
    ;
    let at: u64 = cy as u64 * width as u64 + cx as u64;
    assert(pixels.len() == pixels@.len());
    if at < pixels.len() as u64 {
        let p: [u8; 4] = pixels[at as usize];
        let rgb: [u8; 3] = [p[0], p[1], p[2]];
        assert(rgb@ =~= p@.take(3));
        rgb
    } else {
        let black: [u8; 3] = [0, 0, 0];
        assert(black@ =~= seq![0u8, 0u8, 0u8]);
        black
    }
}

/// The 2x2 subpixel block of the cell `(col, row)` of a buffer rendered at
/// twice the cell grid resolution. `src_width` and `src_height` count
/// subpixels. Coordinates past the edge clamp to the last subpixel, so that an
/// odd-sized buffer loses no cell.
pub fn gather_subpixels(
    pixels: &[[u8; 4]],
    src_width: u32,
    src_height: u32,
    col: u32,
    row: u32,
) -> (r: Subpixels)
    requires
        2 * col + 1 <= u32::MAX,
        2 * row + 1 <= u32::MAX,
    ensures
        forall|q: int|
            0 <= q < 4 ==> #[trigger] r@[q]@ == subpixel(
                pixels@,
                src_width as int,
                src_height as int,
                2 * col + q % 2,
                2 * row + q / 2,
            ),
{
    let x0: u32 = col * 2;
    let y0: u32 = row * 2;
    [
        sample(pixels, src_width, src_height, x0, y0),
        sample(pixels, src_width, src_height, x0 + 1, y0),
        sample(pixels, src_width, src_height, x0, y0 + 1),
        sample(pixels, src_width, src_height, x0 + 1, y0 + 1),
    ]
}

// --- classification ----------------------------------------------------------

/// The quadrant bit of subpixel `q`.
pub open spec fn subpixel_bit(q: int) -> u8 {
    if q == 0 {
        UL
    } else if q == 1 {
        UR
    } else if q == 2 {
        LL
    } else {
        LR
    }
}

/// The pattern whose bits are those of the lit subpixels.
pub fn lit_pattern(lit: [bool; 4]) -> (pattern: u8)
    ensures
        pattern < 16,
        forall|q: int| 0 <= q < 4 ==> #[trigger] lit@[q] == (pattern & subpixel_bit(q) != 0),
        pattern == 0 <==> !lit@[0] && !lit@[1] && !lit@[2] && !lit@[3],
{
    let a: u8 = if lit[0] {
        UL
    } else {
        0
    };
    let b: u8 = if lit[1] {
        UR
    } else {
        0
    };
    let c: u8 = if lit[2] {
        LL
    } else {
        0
    };
    let d: u8 = if lit[3] {
        LR
    } else {
        0
    };
    let pattern: u8 = a | b | c | d;
    assert(pattern < 16 && (pattern & 1 == a) && (pattern & 2 == b) && (pattern & 4 == c) && (
    pattern & 8 == d) && (pattern == 0 <==> a == 0 && b == 0 && c == 0 && d == 0)) by (bit_vector)
        requires
            pattern == a | b | c | d,
            a == 0 || a == 1,
            b == 0 || b == 2,
            c == 0 || c == 4,
            d == 0 || d == 8,
    ;
    pattern
}

/// The luminance of a subpixel, as far as it can be compared: what is not a
/// finite number counts as dark.
pub open spec fn comparable(luminance: u32) -> u32 {
    if is_finite(luminance) {
        luminance
    } else {
        0
    }
}

fn compared(luminance: u32) -> (r: u32)
    ensures
        r == comparable(luminance),
{
    if finite(luminance) {
        luminance
    } else {
        0
    }
}

/// The darkest and the brightest of a cell's four luminances, which are bit
/// patterns of single-precision numbers.
pub fn luminance_range(luminance: [u32; 4]) -> (r: (u32, u32))
    ensures
        is_finite(r.0),
        is_finite(r.1),
        exists|q: int| 0 <= q < 4 && comparable(#[trigger] luminance@[q]) == r.0,
        exists|q: int| 0 <= q < 4 && comparable(#[trigger] luminance@[q]) == r.1,
        forall|q: int|
            0 <= q < 4 ==> rank(r.0) <= rank(comparable(#[trigger] luminance@[q])) <= rank(r.1),
{
    let mut darkest: u32 = compared(luminance[0]);
    let mut brightest: u32 = darkest;
    let mut i: usize = 1;
    while i < 4
        invariant
            1 <= i <= 4,
            is_finite(darkest),
            is_finite(brightest),
            exists|q: int| 0 <= q < i && comparable(#[trigger] luminance@[q]) == darkest,
            exists|q: int| 0 <= q < i && comparable(#[trigger] luminance@[q]) == brightest,
            forall|q: int|
                0 <= q < i ==> rank(darkest) <= rank(comparable(#[trigger] luminance@[q])) <= rank(
                    brightest,
                ),
        decreases 4 - i,
    {
        let l: u32 = compared(luminance[i]);
        assert(comparable(luminance@[i as int]) == l);
        if is_less(l, darkest) {
            darkest = l;
        }
        if is_less(brightest, l) {
            brightest = l;
        }
        i += 1;
    }
    (darkest, brightest)
}

/// A subpixel is lit: its luminance is at least the threshold.
pub open spec fn is_lit(luminance: u32, threshold: u32) -> bool {
    !is_nan(threshold) && rank(comparable(luminance)) >= rank(threshold)
}

fn lit(luminance: u32, threshold: u32) -> (r: bool)
    ensures
        r == is_lit(luminance, threshold),
{
    let l: u32 = compared(luminance);
    !not_a_number(threshold) && !is_less(l, threshold)
}

/// The pattern of the subpixels whose luminance is at least the threshold.
pub fn pattern_above(luminance: [u32; 4], threshold: u32) -> (pattern: u8)
    ensures
        pattern < 16,
        forall|q: int|
            0 <= q < 4 ==> is_lit(#[trigger] luminance@[q], threshold) == (pattern & subpixel_bit(q)
                != 0),
        pattern != 0 <==> exists|q: int| 0 <= q < 4 && is_lit(#[trigger] luminance@[q], threshold),
{
    let flags: [bool; 4] = [
        lit(luminance[0], threshold),
        lit(luminance[1], threshold),
        lit(luminance[2], threshold),
        lit(luminance[3], threshold),
    ];
    assert(forall|q: int| 0 <= q < 4 ==> #[trigger] flags@[q] == is_lit(luminance@[q], threshold));
    lit_pattern(flags)
}

/// A cell is never empty: where the threshold lies no higher than the brightest
/// luminance, some quadrant is lit.
pub proof fn law_some_quadrant_is_lit(luminance: Seq<u32>, brightest: u32, threshold: u32)
    requires
        luminance.len() == 4,
        exists|q: int| 0 <= q < 4 && comparable(#[trigger] luminance[q]) == brightest,
        !is_nan(threshold),
        rank(threshold) <= rank(brightest),
    ensures
        exists|q: int| 0 <= q < 4 && is_lit(#[trigger] luminance[q], threshold),
{
    let q = choose|q: int| 0 <= q < 4 && comparable(#[trigger] luminance[q]) == brightest;
    assert(is_lit(luminance[q], threshold));
}

} // verus!
