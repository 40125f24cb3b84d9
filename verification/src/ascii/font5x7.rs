//! Hand-drawn 5x7 bitmap font covering printable ASCII, placed into the 8x8
//! glyph format.
//!
//! A glyph is seven row bytes. Bit 4 is the leftmost column and bit 0 the
//! rightmost, so a binary literal reads left to right exactly as the glyph
//! looks.

use vstd::prelude::*;
use crate::ascii::glyph_atlas::{Glyph, append_glyph, blank, depicts, dot, light};
use crate::ascii::glyph_atlas::{lemma_strip_step, strip};
use crate::text::chars_of;

verus! {

/// First character covered by the font (space).
pub const FIRST_CHAR: char = ' ';

/// Last character covered by the font (tilde).
pub const LAST_CHAR: char = '~';

/// Number of glyphs in the table.
pub const CHAR_COUNT: usize = 95;

/// Glyph cell width in pixels.
pub const FONT_WIDTH: usize = 5;

/// Glyph cell height in pixels.
pub const FONT_HEIGHT: usize = 7;

/// Left padding when placing the 5x7 pattern into the 8x8 cell.
pub const PAD_X: usize = 1;

/// Top padding when placing the 5x7 pattern into the 8x8 cell.
pub const PAD_Y: usize = 0;

/// The font, in ASCII order starting at `FIRST_CHAR`.
pub const FONT: [[u8; FONT_HEIGHT]; CHAR_COUNT] = [
    // ' '
    [0b00000, 0b00000, 0b00000, 0b00000, 0b00000, 0b00000, 0b00000],
    // '!'
    [0b00100, 0b00100, 0b00100, 0b00100, 0b00100, 0b00000, 0b00100],
    // '"'
    [0b01010, 0b01010, 0b00000, 0b00000, 0b00000, 0b00000, 0b00000],
    // '#'
    [0b01010, 0b01010, 0b11111, 0b01010, 0b11111, 0b01010, 0b01010],
    // '$'
    [0b00100, 0b01111, 0b10100, 0b01110, 0b00101, 0b11110, 0b00100],
    // '%'
    [0b11001, 0b11010, 0b00010, 0b00100, 0b01000, 0b01011, 0b10011],
    // '&'
    [0b01100, 0b10010, 0b10100, 0b01000, 0b10101, 0b10010, 0b01101],
    // '\''
    [0b00100, 0b00100, 0b00000, 0b00000, 0b00000, 0b00000, 0b00000],
    // '('
    [0b00010, 0b00100, 0b01000, 0b01000, 0b01000, 0b00100, 0b00010],
    // ')'
    [0b01000, 0b00100, 0b00010, 0b00010, 0b00010, 0b00100, 0b01000],
    // '*'
    [0b00000, 0b00100, 0b10101, 0b01110, 0b10101, 0b00100, 0b00000],
    // '+'
    [0b00000, 0b00100, 0b00100, 0b11111, 0b00100, 0b00100, 0b00000],
    // ','
    [0b00000, 0b00000, 0b00000, 0b00000, 0b00110, 0b00100, 0b01000],
    // '-'
    [0b00000, 0b00000, 0b00000, 0b11111, 0b00000, 0b00000, 0b00000],
    // '.'
    [0b00000, 0b00000, 0b00000, 0b00000, 0b00000, 0b01100, 0b01100],
    // '/'
    [0b00001, 0b00010, 0b00010, 0b00100, 0b01000, 0b01000, 0b10000],
    // '0'
    [0b01110, 0b10001, 0b10011, 0b10101, 0b11001, 0b10001, 0b01110],
    // '1'
    [0b00100, 0b01100, 0b00100, 0b00100, 0b00100, 0b00100, 0b01110],
    // '2'
    [0b01110, 0b10001, 0b00001, 0b00010, 0b00100, 0b01000, 0b11111],
    // '3'
    [0b11111, 0b00010, 0b00100, 0b00010, 0b00001, 0b10001, 0b01110],
    // '4'
    [0b00010, 0b00110, 0b01010, 0b10010, 0b11111, 0b00010, 0b00010],
    // '5'
    [0b11111, 0b10000, 0b11110, 0b00001, 0b00001, 0b10001, 0b01110],
    // '6'
    [0b00110, 0b01000, 0b10000, 0b11110, 0b10001, 0b10001, 0b01110],
    // '7'
    [0b11111, 0b00001, 0b00010, 0b00100, 0b01000, 0b01000, 0b01000],
    // '8'
    [0b01110, 0b10001, 0b10001, 0b01110, 0b10001, 0b10001, 0b01110],
    // '9'
    [0b01110, 0b10001, 0b10001, 0b01111, 0b00001, 0b00010, 0b01100],
    // ':'
    [0b00000, 0b01100, 0b01100, 0b00000, 0b01100, 0b01100, 0b00000],
    // ';'
    [0b00000, 0b01100, 0b01100, 0b00000, 0b01100, 0b00100, 0b01000],
    // '<'
    [0b00010, 0b00100, 0b01000, 0b10000, 0b01000, 0b00100, 0b00010],
    // '='
    [0b00000, 0b00000, 0b11111, 0b00000, 0b11111, 0b00000, 0b00000],
    // '>'
    [0b01000, 0b00100, 0b00010, 0b00001, 0b00010, 0b00100, 0b01000],
    // '?'
    [0b01110, 0b10001, 0b00001, 0b00010, 0b00100, 0b00000, 0b00100],
    // '@'
    [0b01110, 0b10001, 0b00001, 0b01101, 0b10101, 0b10101, 0b01110],
    // 'A'
    [0b01110, 0b10001, 0b10001, 0b11111, 0b10001, 0b10001, 0b10001],
    // 'B'
    [0b11110, 0b10001, 0b10001, 0b11110, 0b10001, 0b10001, 0b11110],
    // 'C'
    [0b01110, 0b10001, 0b10000, 0b10000, 0b10000, 0b10001, 0b01110],
    // 'D'
    [0b11100, 0b10010, 0b10001, 0b10001, 0b10001, 0b10010, 0b11100],
    // 'E'
    [0b11111, 0b10000, 0b10000, 0b11110, 0b10000, 0b10000, 0b11111],
    // 'F'
    [0b11111, 0b10000, 0b10000, 0b11110, 0b10000, 0b10000, 0b10000],
    // 'G'
    [0b01110, 0b10001, 0b10000, 0b10111, 0b10001, 0b10001, 0b01111],
    // 'H'
    [0b10001, 0b10001, 0b10001, 0b11111, 0b10001, 0b10001, 0b10001],
    // 'I'
    [0b01110, 0b00100, 0b00100, 0b00100, 0b00100, 0b00100, 0b01110],
    // 'J'
    [0b00111, 0b00010, 0b00010, 0b00010, 0b00010, 0b10010, 0b01100],
    // 'K'
    [0b10001, 0b10010, 0b10100, 0b11000, 0b10100, 0b10010, 0b10001],
    // 'L'
    [0b10000, 0b10000, 0b10000, 0b10000, 0b10000, 0b10000, 0b11111],
    // 'M'
    [0b10001, 0b11011, 0b10101, 0b10101, 0b10001, 0b10001, 0b10001],
    // 'N'
    [0b10001, 0b11001, 0b11001, 0b10101, 0b10011, 0b10011, 0b10001],
    // 'O'
    [0b01110, 0b10001, 0b10001, 0b10001, 0b10001, 0b10001, 0b01110],
    // 'P'
    [0b11110, 0b10001, 0b10001, 0b11110, 0b10000, 0b10000, 0b10000],
    // 'Q'
    [0b01110, 0b10001, 0b10001, 0b10001, 0b10101, 0b10011, 0b01101],
    // 'R'
    [0b11110, 0b10001, 0b10001, 0b11110, 0b10100, 0b10010, 0b10001],
    // 'S'
    [0b01111, 0b10000, 0b10000, 0b01110, 0b00001, 0b00001, 0b11110],
    // 'T'
    [0b11111, 0b00100, 0b00100, 0b00100, 0b00100, 0b00100, 0b00100],
    // 'U'
    [0b10001, 0b10001, 0b10001, 0b10001, 0b10001, 0b10001, 0b01110],
    // 'V'
    [0b10001, 0b10001, 0b10001, 0b10001, 0b10001, 0b01010, 0b00100],
    // 'W'
    [0b10001, 0b10001, 0b10001, 0b10101, 0b10101, 0b11011, 0b10001],
    // 'X'
    [0b10001, 0b10001, 0b01010, 0b00100, 0b01010, 0b10001, 0b10001],
    // 'Y'
    [0b10001, 0b10001, 0b01010, 0b00100, 0b00100, 0b00100, 0b00100],
    // 'Z'
    [0b11111, 0b00001, 0b00010, 0b00100, 0b01000, 0b10000, 0b11111],
    // '['
    [0b01110, 0b01000, 0b01000, 0b01000, 0b01000, 0b01000, 0b01110],
    // '\\'
    [0b10000, 0b01000, 0b01000, 0b00100, 0b00010, 0b00010, 0b00001],
    // ']'
    [0b01110, 0b00010, 0b00010, 0b00010, 0b00010, 0b00010, 0b01110],
    // '^'
    [0b00100, 0b01010, 0b10001, 0b00000, 0b00000, 0b00000, 0b00000],
    // '_'
    [0b00000, 0b00000, 0b00000, 0b00000, 0b00000, 0b00000, 0b11111],
    // '`'
    [0b01000, 0b00100, 0b00000, 0b00000, 0b00000, 0b00000, 0b00000],
    // 'a'
    [0b00000, 0b00000, 0b01110, 0b00001, 0b01111, 0b10001, 0b01111],
    // 'b'
    [0b10000, 0b10000, 0b11110, 0b10001, 0b10001, 0b10001, 0b11110],
    // 'c'
    [0b00000, 0b00000, 0b01110, 0b10000, 0b10000, 0b10001, 0b01110],
    // 'd'
    [0b00001, 0b00001, 0b01111, 0b10001, 0b10001, 0b10001, 0b01111],
    // 'e'
    [0b00000, 0b00000, 0b01110, 0b10001, 0b11111, 0b10000, 0b01110],
    // 'f'
    [0b00110, 0b01001, 0b01000, 0b11100, 0b01000, 0b01000, 0b01000],
    // 'g' (descender)
    [0b00000, 0b01111, 0b10001, 0b10001, 0b01111, 0b00001, 0b01110],
    // 'h'
    [0b10000, 0b10000, 0b11110, 0b10001, 0b10001, 0b10001, 0b10001],
    // 'i'
    [0b00100, 0b00000, 0b01100, 0b00100, 0b00100, 0b00100, 0b01110],
    // 'j' (descender)
    [0b00010, 0b00000, 0b00110, 0b00010, 0b00010, 0b10010, 0b01100],
    // 'k'
    [0b10000, 0b10000, 0b10010, 0b10100, 0b11000, 0b10100, 0b10010],
    // 'l'
    [0b01100, 0b00100, 0b00100, 0b00100, 0b00100, 0b00100, 0b01110],
    // 'm'
    [0b00000, 0b00000, 0b11010, 0b10101, 0b10101, 0b10001, 0b10001],
    // 'n'
    [0b00000, 0b00000, 0b11110, 0b10001, 0b10001, 0b10001, 0b10001],
    // 'o'
    [0b00000, 0b00000, 0b01110, 0b10001, 0b10001, 0b10001, 0b01110],
    // 'p' (descender)
    [0b00000, 0b11110, 0b10001, 0b10001, 0b11110, 0b10000, 0b10000],
    // 'q' (descender)
    [0b00000, 0b01111, 0b10001, 0b10001, 0b01111, 0b00001, 0b00001],
    // 'r'
    [0b00000, 0b00000, 0b01110, 0b10001, 0b10000, 0b10000, 0b10000],
    // 's'
    [0b00000, 0b00000, 0b01111, 0b10000, 0b01110, 0b00001, 0b11110],
    // 't'
    [0b01000, 0b01000, 0b11100, 0b01000, 0b01000, 0b01001, 0b00110],
    // 'u'
    [0b00000, 0b00000, 0b10001, 0b10001, 0b10001, 0b10001, 0b01111],
    // 'v'
    [0b00000, 0b00000, 0b10001, 0b10001, 0b10001, 0b01010, 0b00100],
    // 'w'
    [0b00000, 0b00000, 0b10001, 0b10001, 0b10101, 0b10101, 0b01010],
    // 'x'
    [0b00000, 0b00000, 0b10001, 0b01010, 0b00100, 0b01010, 0b10001],
    // 'y' (descender)
    [0b00000, 0b10001, 0b10001, 0b10001, 0b01111, 0b00001, 0b01110],
    // 'z'
    [0b00000, 0b00000, 0b11111, 0b00010, 0b00100, 0b01000, 0b11111],
    // '{'
    [0b00110, 0b00100, 0b00100, 0b01000, 0b00100, 0b00100, 0b00110],
    // '|'
    [0b00100, 0b00100, 0b00100, 0b00100, 0b00100, 0b00100, 0b00100],
    // '}'
    [0b01100, 0b00100, 0b00100, 0b00010, 0b00100, 0b00100, 0b01100],
    // '~'
    [0b00000, 0b00000, 0b01001, 0b10101, 0b10010, 0b00000, 0b00000],
];

/// Is the character one of the font's?
pub open spec fn covers(c: char) -> bool {
    FIRST_CHAR <= c <= LAST_CHAR
}

/// The position of a covered character in the table.
pub open spec fn position(c: char) -> int {
    c as int - FIRST_CHAR as int
}

/// Is column `column` of a row byte set?
pub open spec fn column_set(row: u8, column: int) -> bool {
    row & (1u8 << (4 - column) as u8) != 0
}

/// The picture of the font glyph at `index`: its pattern, one column from the
/// left edge and on the top rows, so that the last two columns and the bottom
/// row stay clear.
pub open spec fn font_ink(index: int, x: int, y: int) -> bool {
    1 <= x < 6 && 0 <= y < 7 && column_set(FONT@[index]@[y], x - 1)
}

/// Index of `c` in the font table, or `None` if the font does not cover it.
pub fn glyph_index(c: char) -> (r: Option<usize>)
    ensures
        r == (if covers(c) {
            Some(position(c) as usize)
        } else {
            None
        }),
        r matches Some(i) ==> i < CHAR_COUNT,
{
    if c < FIRST_CHAR || c > LAST_CHAR {
        return None;
    }
    Some((c as u32 - FIRST_CHAR as u32) as usize)
}

/// The raw 5x7 bitmap rows for `c` (bit 4 = leftmost column).
pub fn glyph_rows(c: char) -> (r: Option<[u8; FONT_HEIGHT]>)
    ensures
        r == (if covers(c) {
            Some(FONT@[position(c)])
        } else {
            None
        }),
{
    match glyph_index(c) {
        Some(i) => Some(FONT[i]),
        None => None,
    }
}

/// Render `c` into the atlas's 8x8 format.
pub fn render_glyph(c: char) -> (r: Option<Glyph>)
    ensures
        r is Some <==> covers(c),
        r matches Some(glyph) ==> depicts(
            glyph,
            |x: int, y: int| font_ink(position(c), x, y),
        ),
{
    let rows: [u8; FONT_HEIGHT] = match glyph_rows(c) {
        Some(rows) => rows,
        None => {
            return None;
        },
    };
    let ghost ink = |x: int, y: int| font_ink(position(c), x, y);
    let mut glyph = blank();
    let mut y: usize = 0;
    while y < FONT_HEIGHT
        invariant
            y <= FONT_HEIGHT,
            rows == FONT@[position(c)],
            ink == (|x: int, y: int| font_ink(position(c), x, y)),
            forall|i: int|
                0 <= i < 64 ==> #[trigger] glyph@[i]@ == dot(i / 8 < y && ink(i % 8, i / 8)),
        decreases FONT_HEIGHT - y,
    {
        let row: u8 = rows[y];
        let mut column: usize = 0;
        while column < FONT_WIDTH
            invariant
                y < FONT_HEIGHT,
                column <= FONT_WIDTH,
                rows == FONT@[position(c)],
                row == rows@[y as int],
                ink == (|x: int, y: int| font_ink(position(c), x, y)),
                forall|i: int|
                    0 <= i < 64 ==> #[trigger] glyph@[i]@ == dot(
                        (i / 8 < y || (i / 8 == y && i % 8 < column + 1)) && ink(i % 8, i / 8),
                    ),
            decreases FONT_WIDTH - column,
        {
            let bit: u8 = 1u8 << (FONT_WIDTH - 1 - column) as u8;
            assert(ink(column as int + 1, y as int) == (row & bit != 0));
            if row & bit != 0 {
                light(&mut glyph, column + PAD_X, y + PAD_Y);
            }
            column += 1;
        }
        y += 1;
    }
    Some(glyph)
}

/// The font section of the atlas.
pub open spec fn font_strip() -> Seq<u8> {
    strip(95, |index: int, x: int, y: int| font_ink(index, x, y))
}

/// The whole font as flat RGBA bytes: the glyphs one after another, each 8x8
/// pixels, row-major.
pub fn build_font_atlas() -> (atlas: Vec<u8>)
    ensures
        atlas@ == font_strip(),
        atlas@.len() == CHAR_COUNT * 64 * 4,
{
    let ghost ink = |index: int, x: int, y: int| font_ink(index, x, y);
    let mut atlas: Vec<u8> = Vec::new();
    let mut code: u8 = 32;
    assert(atlas@ =~= strip(0, ink));
    while code <= 126
        invariant
            32 <= code <= 127,
            ink == (|index: int, x: int, y: int| font_ink(index, x, y)),
            atlas@ == strip((code - 32) as nat, ink),
        decreases 127 - code,
    {
        let c: char = code as char;
        assert(covers(c));
        if let Some(glyph) = render_glyph(c) {
            proof {
                lemma_strip_step(
                    (code - 32) as nat,
                    ink,
                    glyph,
                    |x: int, y: int| font_ink(position(c), x, y),
                );
            }
            append_glyph(&mut atlas, &glyph);
        }
        code += 1;
    }
    atlas
}

/// Width of `text` in cells: every character takes one, covered or not.
pub fn text_width(text: &str) -> (n: usize)
    ensures
        n == text@.len(),
{
    chars_of(text).len()
}

/// No glyph reaches past its pattern: the columns and rows around it stay
/// clear, so that neighbouring characters never touch.
pub proof fn law_glyphs_keep_their_margins(index: int, x: int, y: int)
    requires
        font_ink(index, x, y),
    ensures
        PAD_X <= x < PAD_X + FONT_WIDTH,
        PAD_Y <= y < PAD_Y + FONT_HEIGHT,
        1 <= x < 7 && y < 7,
{
}

} // verus!
