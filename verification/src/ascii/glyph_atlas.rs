//! Procedural glyphs: 8x8 bitmaps for the shading ramp, and the flat layout
//! that every section of the atlas shares.

use vstd::prelude::*;

verus! {

/// Character size in pixels (8x8).
pub const GLYPH_SIZE: u32 = 8;

/// Pixels in one glyph.
pub const GLYPH_BYTES: usize = 64;

/// A single 8x8 glyph stored as a row-major RGBA bitmap.
pub type Glyph = [[u8; 4]; GLYPH_BYTES];

/// Brightness ramp characters ordered from dark to bright.
pub const BRIGHTNESS_RAMP: [char; 10] = [' ', '.', ':', '-', '=', '+', '*', '#', '%', '@'];

/// Unicode block characters for additional shading levels.
pub const BLOCK_CHARS: [char; 4] = ['░', '▒', '▓', '█'];

/// All characters in the atlas, ordered by index.
pub const ALL_CHARS: [char; 14] = [
    ' ',
    '.',
    ':',
    '-',
    '=',
    '+',
    '*',
    '#',
    '%',
    '@',
    '░',
    '▒',
    '▓',
    '█',
];

/// Index of the space character (all black).
pub const SPACE_INDEX: u32 = 0;

// --- bitmaps -----------------------------------------------------------------

/// The four channels of a pixel: all set, or all clear.
pub open spec fn dot(lit: bool) -> Seq<u8> {
    if lit {
        seq![255u8, 255u8, 255u8, 255u8]
    } else {
        seq![0u8, 0u8, 0u8, 0u8]
    }
}

/// The glyph is exactly the picture `ink`, a predicate on columns and rows.
pub open spec fn depicts(glyph: Glyph, ink: spec_fn(int, int) -> bool) -> bool {
    forall|i: int| 0 <= i < 64 ==> #[trigger] glyph@[i]@ == dot(ink(i % 8, i / 8))
}

/// `count` pictures one after another, four bytes for each pixel.
pub open spec fn strip(count: nat, ink: spec_fn(int, int, int) -> bool) -> Seq<u8> {
    Seq::new(
        count * 256,
        |k: int|
            if ink(k / 256, k / 4 % 8, k / 32 % 8) {
                255u8
            } else {
                0u8
            },
    )
}

/// A glyph without ink.
pub fn blank() -> (g: Glyph)
    ensures
        depicts(g, |x: int, y: int| false),
{
    let pixel: [u8; 4] = [0u8; 4];
    assert(pixel@ =~= dot(false));
    [pixel; GLYPH_BYTES]
}

/// The pixel at column `x`, row `y`, set in every channel.
pub fn light(glyph: &mut Glyph, x: usize, y: usize)
    requires
        x < 8,
        y < 8,
    ensures
        forall|i: int|
            0 <= i < 64 ==> #[trigger] final(glyph)@[i]@ == if i == y * 8 + x {
                dot(true)
            } else {
                old(glyph)@[i]@
            },
{
    let pixel: [u8; 4] = [255u8; 4];
    assert(pixel@ =~= dot(true));
    glyph[y * 8 + x] = pixel;
}

/// Every pixel of the columns `x0..x1` and rows `y0..y1` set.
pub fn fill(glyph: &mut Glyph, x0: usize, x1: usize, y0: usize, y1: usize)
    requires
        x0 <= x1 <= 8,
        y0 <= y1 <= 8,
    ensures
        forall|i: int|
            0 <= i < 64 ==> #[trigger] final(glyph)@[i]@ == if x0 <= i % 8 < x1 && y0 <= i / 8
                < y1 {
                dot(true)
            } else {
                old(glyph)@[i]@
            },
{
    let ghost before = *old(glyph);
    let mut y: usize = y0;
    while y < y1
        invariant
            x0 <= x1 <= 8,
            y0 <= y <= y1 <= 8,
            forall|i: int|
                0 <= i < 64 ==> #[trigger] glyph@[i]@ == if x0 <= i % 8 < x1 && y0 <= i / 8 < y {
                    dot(true)
                } else {
                    before@[i]@
                },
        decreases y1 - y,
    {
        let mut x: usize = x0;
        while x < x1
            invariant
                x0 <= x <= x1 <= 8,
                y0 <= y < y1 <= 8,
                forall|i: int|
                    0 <= i < 64 ==> #[trigger] glyph@[i]@ == if (x0 <= i % 8 < x1 && y0 <= i / 8
                        < y) || (x0 <= i % 8 < x && i / 8 == y) {
                        dot(true)
                    } else {
                        before@[i]@
                    },
            decreases x1 - x,
        {
            light(glyph, x, y);
            x += 1;
        }
        y += 1;
    }
}

/// The RGBA bytes of one glyph.
pub open spec fn glyph_bytes(glyph: Glyph) -> Seq<u8> {
    Seq::new(256, |k: int| glyph@[k / 4]@[k % 4])
}

/// Append the RGBA bytes of a glyph to an atlas.
pub fn append_glyph(atlas: &mut Vec<u8>, glyph: &Glyph)
    ensures
        final(atlas)@ == old(atlas)@ + glyph_bytes(*glyph),
{
    let ghost before = old(atlas)@;
    let mut i: usize = 0;
    while i < 64
        invariant
            i <= 64,
            atlas@ == before + glyph_bytes(*glyph).take(4 * i),
        decreases 64 - i,
    {
        let pixel: [u8; 4] = glyph[i];
        atlas.push(pixel[0]);
        atlas.push(pixel[1]);
        atlas.push(pixel[2]);
        atlas.push(pixel[3]);
        assert(atlas@ =~= before + glyph_bytes(*glyph).take(4 * (i + 1)));
        i += 1;
    }
    assert(glyph_bytes(*glyph).take(256) =~= glyph_bytes(*glyph));
}

/// Glyphs are 256 bytes apart: the pixel of a byte does not depend on the
/// glyphs before it.
pub proof fn lemma_glyph_offset(n: int, j: int)
    requires
        0 <= n,
        0 <= j,
    ensures
        (n * 256 + j) / 256 == n + j / 256,
        (n * 256 + j) / 4 % 8 == j / 4 % 8,
        (n * 256 + j) / 32 % 8 == j / 32 % 8,
{
    let k = n * 256 + j;
    assert(k / 4 == n * 64 + j / 4);
    assert(k / 32 == n * 8 + j / 32);
    let a = j / 4;
    assert((n * 64 + a) % 8 == a % 8);
    let b = j / 32;
    assert((n * 8 + b) % 8 == b % 8);
}

/// Appending the picture of index `n` to a strip of `n` pictures gives a strip
/// of `n + 1`.
pub proof fn lemma_strip_step(
    n: nat,
    ink: spec_fn(int, int, int) -> bool,
    glyph: Glyph,
    picture: spec_fn(int, int) -> bool,
)
    requires
        depicts(glyph, picture),
        forall|x: int, y: int|
            0 <= x < 8 && 0 <= y < 8 ==> #[trigger] picture(x, y) == ink(n as int, x, y),
    ensures
        strip(n, ink) + glyph_bytes(glyph) == strip(n + 1, ink),
{
    let whole = strip(n, ink) + glyph_bytes(glyph);
    assert forall|k: int| 0 <= k < (n + 1) * 256 implies #[trigger] whole[k] == strip(n + 1, ink)[k] by {
        if k >= n * 256 {
            let j = k - n * 256;
            lemma_glyph_offset(n as int, j);
            assert(j / 4 / 8 == j / 32);
            let pixel = glyph@[j / 4]@;
            assert(pixel == dot(picture(j / 4 % 8, j / 4 / 8)));
            assert(picture(j / 4 % 8, j / 4 / 8) == ink(n as int, j / 4 % 8, j / 4 / 8));
            assert(whole[k] == pixel[j % 4]);
        }
    }
    assert(whole =~= strip(n + 1, ink));
}

// --- the shading ramp --------------------------------------------------------

/// A pixel of the ring in `@`, by its doubled distance from the glyph's centre.
pub open spec fn in_ring(x: int, y: int) -> bool {
    16 <= (2 * x - 7) * (2 * x - 7) + (2 * y - 7) * (2 * y - 7) <= 49
}

/// The picture of the shading glyph at `index`; empty past the last one.
pub open spec fn shading_ink(index: int, x: int, y: int) -> bool {
    if index == 1 {
        3 <= x <= 4 && y == 5
    } else if index == 2 {
        3 <= x <= 4 && (y == 2 || y == 5)
    } else if index == 3 {
        2 <= x < 6 && 3 <= y <= 4
    } else if index == 4 {
        2 <= x < 6 && (2 <= y <= 3 || 5 <= y <= 6)
    } else if index == 5 {
        (2 <= x < 6 && 3 <= y <= 4) || (3 <= x <= 4 && 2 <= y < 6)
    } else if index == 6 {
        (1 <= x < 7 && 3 <= y <= 4) || (3 <= x <= 4 && 1 <= y <= 6)
    } else if index == 7 {
        1 <= x <= 2 || 5 <= x <= 6 || 2 <= y <= 3 || 5 <= y <= 6
    } else if index == 8 {
        (x + y) % 2 == 0
    } else if index == 9 {
        in_ring(x, y) || (3 <= x <= 4 && 3 <= y <= 4)
    } else if index == 10 {
        x % 2 == 0 && y % 2 == 0
    } else if index == 11 {
        (x + y) % 2 == 0
    } else if index == 12 {
        !(x % 2 == 1 && y % 2 == 1)
    } else if index == 13 {
        true
    } else {
        false
    }
}

/// Is the pixel inked, for the glyphs drawn point by point?
fn dithered(char_index: usize, x: usize, y: usize) -> (r: bool)
    requires
        x < 8,
        y < 8,
    ensures
        8 <= char_index <= 12 && char_index != 9 ==> r == shading_ink(
            char_index as int,
            x as int,
            y as int,
        ),
        char_index == 9 ==> r == in_ring(x as int, y as int),
{
    if char_index == 9 {
        let dx: i32 = 2 * (x as i32) - 7;
        let dy: i32 = 2 * (y as i32) - 7;
        assert(0 <= dx * dx <= 49) by (nonlinear_arith)
            requires
                -7 <= dx <= 7,
        ;
        assert(0 <= dy * dy <= 49) by (nonlinear_arith)
            requires
                -7 <= dy <= 7,
        ;
        let squared: i32 = dx * dx + dy * dy;
        squared <= 49 && squared >= 16
    } else if char_index == 10 {
        x % 2 == 0 && y % 2 == 0
    } else if char_index == 12 {
        !(x % 2 == 1 && y % 2 == 1)
    } else {
        (x + y) % 2 == 0
    }
}

/// The dithered picture of `char_index`, without the filled centre of `@`.
fn dither(char_index: usize) -> (g: Glyph)
    requires
        8 <= char_index <= 12,
    ensures
        depicts(
            g,
            |x: int, y: int|
                if char_index == 9 {
                    in_ring(x, y)
                } else {
                    shading_ink(char_index as int, x, y)
                },
        ),
{
    let ghost ink = |x: int, y: int|
        if char_index == 9 {
            in_ring(x, y)
        } else {
            shading_ink(char_index as int, x, y)
        };
    let mut glyph = blank();
    let mut i: usize = 0;
    while i < 64
        invariant
            8 <= char_index <= 12,
            i <= 64,
            ink == (|x: int, y: int|
                if char_index == 9 {
                    in_ring(x, y)
                } else {
                    shading_ink(char_index as int, x, y)
                }),
            forall|k: int|
                0 <= k < 64 ==> #[trigger] glyph@[k]@ == dot(k < i && ink(k % 8, k / 8)),
        decreases 64 - i,
    {
        let x: usize = i % 8;
        let y: usize = i / 8;
        if dithered(char_index, x, y) {
            light(&mut glyph, x, y);
        }
        i += 1;
    }
    glyph
}

/// The 8x8 bitmap of the shading character at `char_index`.
pub fn generate_glyph(char_index: usize) -> (glyph: Glyph)
    ensures
        depicts(glyph, |x: int, y: int| shading_ink(char_index as int, x, y)),
{
    if 8 <= char_index && char_index <= 12 {
        let mut glyph = dither(char_index);
        if char_index == 9 {
            fill(&mut glyph, 3, 5, 3, 5);
        }
        return glyph;
    }
    let mut glyph = blank();
    match char_index {
        1 => {
            fill(&mut glyph, 3, 5, 5, 6);
        },
        2 => {
            fill(&mut glyph, 3, 5, 2, 3);
            fill(&mut glyph, 3, 5, 5, 6);
        },
        3 => {
            fill(&mut glyph, 2, 6, 3, 5);
        },
        4 => {
            fill(&mut glyph, 2, 6, 2, 4);
            fill(&mut glyph, 2, 6, 5, 7);
        },
        5 => {
            fill(&mut glyph, 2, 6, 3, 5);
            fill(&mut glyph, 3, 5, 2, 6);
        },
        6 => {
            fill(&mut glyph, 3, 5, 1, 3);
            fill(&mut glyph, 1, 7, 3, 5);
            fill(&mut glyph, 3, 5, 5, 7);
        },
        7 => {
            fill(&mut glyph, 1, 3, 0, 8);
            fill(&mut glyph, 5, 7, 0, 8);
            fill(&mut glyph, 0, 8, 2, 4);
            fill(&mut glyph, 0, 8, 5, 7);
        },
        13 => {
            fill(&mut glyph, 0, 8, 0, 8);
        },
        _ => {},
    }
    glyph
}

/// The shading section of the atlas.
pub open spec fn shading_strip() -> Seq<u8> {
    strip(14, |index: int, x: int, y: int| shading_ink(index, x, y))
}

/// The shading glyphs as a flat RGBA byte buffer: one glyph after another,
/// each 8x8 pixels, row-major.
pub fn build_atlas() -> (atlas: Vec<u8>)
    ensures
        atlas@ == shading_strip(),
        atlas@.len() == 14 * GLYPH_BYTES * 4,
{
    let ghost ink = |index: int, x: int, y: int| shading_ink(index, x, y);
    let count = glyph_count();
    let mut atlas: Vec<u8> = Vec::new();
    let mut i: usize = 0;
    assert(atlas@ =~= strip(0, ink));
    while i < count
        invariant
            i <= count == 14,
            ink == (|index: int, x: int, y: int| shading_ink(index, x, y)),
            atlas@ == strip(i as nat, ink),
        decreases count - i,
    {
        let glyph = generate_glyph(i);
        proof {
            lemma_strip_step(
                i as nat,
                ink,
                glyph,
                |x: int, y: int| shading_ink(i as int, x, y),
            );
        }
        append_glyph(&mut atlas, &glyph);
        i += 1;
    }
    atlas
}

/// Total number of glyphs in the shading section.
pub fn glyph_count() -> (n: usize)
    ensures
        n == 14,
        n == ALL_CHARS@.len(),
{
    ALL_CHARS.len()
}

} // verus!
