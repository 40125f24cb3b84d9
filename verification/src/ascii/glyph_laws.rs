//! The pictures of the shading and box-drawing glyphs, and which glyph a character
//! gets.

use vstd::prelude::*;
use crate::ascii::box_drawing::{box_ink, crossed, strokes, Segment, BOX_CHARS};
use crate::ascii::glyph_atlas::{dot, in_ring, shading_ink, strip, ALL_CHARS};
use crate::ascii::overlay_glyph;

verus! {

/// The pixel in column `x` of a row of eight, the leftmost of which is the highest bit.
pub open spec fn drawn(row: int, x: int) -> bool {
    if x == 0 {
        row / 128 % 2 == 1
    } else if x == 1 {
        row / 64 % 2 == 1
    } else if x == 2 {
        row / 32 % 2 == 1
    } else if x == 3 {
        row / 16 % 2 == 1
    } else if x == 4 {
        row / 8 % 2 == 1
    } else if x == 5 {
        row / 4 % 2 == 1
    } else if x == 6 {
        row / 2 % 2 == 1
    } else {
        row % 2 == 1
    }
}

/// A picture of eight rows.
pub open spec fn pictured(
    a: int,
    b: int,
    c: int,
    d: int,
    e: int,
    f: int,
    g: int,
    h: int,
    x: int,
    y: int,
) -> bool {
    if y == 0 {
        drawn(a, x)
    } else if y == 1 {
        drawn(b, x)
    } else if y == 2 {
        drawn(c, x)
    } else if y == 3 {
        drawn(d, x)
    } else if y == 4 {
        drawn(e, x)
    } else if y == 5 {
        drawn(f, x)
    } else if y == 6 {
        drawn(g, x)
    } else {
        drawn(h, x)
    }
}

/// The space of the brightness ramp.
pub proof fn law_shading_space(x: int, y: int)
    requires
        0 <= x < 8,
        0 <= y < 8,
    ensures
        shading_ink(0, x, y) == pictured(
            0b0000_0000,
            0b0000_0000,
            0b0000_0000,
            0b0000_0000,
            0b0000_0000,
            0b0000_0000,
            0b0000_0000,
            0b0000_0000,
            x,
            y,
        ),
{
    assert(y == 0 || y == 1 || y == 2 || y == 3 || y == 4 || y == 5 || y == 6 || y == 7);
    assert(x == 0 || x == 1 || x == 2 || x == 3 || x == 4 || x == 5 || x == 6 || x == 7);
}

/// The full stop of the brightness ramp.
pub proof fn law_shading_full_stop(x: int, y: int)
    requires
        0 <= x < 8,
        0 <= y < 8,
    ensures
        shading_ink(1, x, y) == pictured(
            0b0000_0000,
            0b0000_0000,
            0b0000_0000,
            0b0000_0000,
            0b0000_0000,
            0b0001_1000,
            0b0000_0000,
            0b0000_0000,
            x,
            y,
        ),
{
    assert(y == 0 || y == 1 || y == 2 || y == 3 || y == 4 || y == 5 || y == 6 || y == 7);
    assert(x == 0 || x == 1 || x == 2 || x == 3 || x == 4 || x == 5 || x == 6 || x == 7);
}

/// The colon of the brightness ramp.
pub proof fn law_shading_colon(x: int, y: int)
    requires
        0 <= x < 8,
        0 <= y < 8,
    ensures
        shading_ink(2, x, y) == pictured(
            0b0000_0000,
            0b0000_0000,
            0b0001_1000,
            0b0000_0000,
            0b0000_0000,
            0b0001_1000,
            0b0000_0000,
            0b0000_0000,
            x,
            y,
        ),
{
    assert(y == 0 || y == 1 || y == 2 || y == 3 || y == 4 || y == 5 || y == 6 || y == 7);
    assert(x == 0 || x == 1 || x == 2 || x == 3 || x == 4 || x == 5 || x == 6 || x == 7);
}

/// The hyphen of the brightness ramp.
pub proof fn law_shading_hyphen(x: int, y: int)
    requires
        0 <= x < 8,
        0 <= y < 8,
    ensures
        shading_ink(3, x, y) == pictured(
            0b0000_0000,
            0b0000_0000,
            0b0000_0000,
            0b0011_1100,
            0b0011_1100,
            0b0000_0000,
            0b0000_0000,
            0b0000_0000,
            x,
            y,
        ),
{
    assert(y == 0 || y == 1 || y == 2 || y == 3 || y == 4 || y == 5 || y == 6 || y == 7);
    assert(x == 0 || x == 1 || x == 2 || x == 3 || x == 4 || x == 5 || x == 6 || x == 7);
}

/// The equals sign of the brightness ramp.
pub proof fn law_shading_equals(x: int, y: int)
    requires
        0 <= x < 8,
        0 <= y < 8,
    ensures
        shading_ink(4, x, y) == pictured(
            0b0000_0000,
            0b0000_0000,
            0b0011_1100,
            0b0011_1100,
            0b0000_0000,
            0b0011_1100,
            0b0011_1100,
            0b0000_0000,
            x,
            y,
        ),
{
    assert(y == 0 || y == 1 || y == 2 || y == 3 || y == 4 || y == 5 || y == 6 || y == 7);
    assert(x == 0 || x == 1 || x == 2 || x == 3 || x == 4 || x == 5 || x == 6 || x == 7);
}

/// The plus sign of the brightness ramp.
pub proof fn law_shading_plus(x: int, y: int)
    requires
        0 <= x < 8,
        0 <= y < 8,
    ensures
        shading_ink(5, x, y) == pictured(
            0b0000_0000,
            0b0000_0000,
            0b0001_1000,
            0b0011_1100,
            0b0011_1100,
            0b0001_1000,
            0b0000_0000,
            0b0000_0000,
            x,
            y,
        ),
{
    assert(y == 0 || y == 1 || y == 2 || y == 3 || y == 4 || y == 5 || y == 6 || y == 7);
    assert(x == 0 || x == 1 || x == 2 || x == 3 || x == 4 || x == 5 || x == 6 || x == 7);
}

/// The asterisk of the brightness ramp.
pub proof fn law_shading_asterisk(x: int, y: int)
    requires
        0 <= x < 8,
        0 <= y < 8,
    ensures
        shading_ink(6, x, y) == pictured(
            0b0000_0000,
            0b0001_1000,
            0b0001_1000,
            0b0111_1110,
            0b0111_1110,
            0b0001_1000,
            0b0001_1000,
            0b0000_0000,
            x,
            y,
        ),
{
    assert(y == 0 || y == 1 || y == 2 || y == 3 || y == 4 || y == 5 || y == 6 || y == 7);
    assert(x == 0 || x == 1 || x == 2 || x == 3 || x == 4 || x == 5 || x == 6 || x == 7);
}

/// The number sign of the brightness ramp.
pub proof fn law_shading_number_sign(x: int, y: int)
    requires
        0 <= x < 8,
        0 <= y < 8,
    ensures
        shading_ink(7, x, y) == pictured(
            0b0110_0110,
            0b0110_0110,
            0b1111_1111,
            0b1111_1111,
            0b0110_0110,
            0b1111_1111,
            0b1111_1111,
            0b0110_0110,
            x,
            y,
        ),
{
    assert(y == 0 || y == 1 || y == 2 || y == 3 || y == 4 || y == 5 || y == 6 || y == 7);
    assert(x == 0 || x == 1 || x == 2 || x == 3 || x == 4 || x == 5 || x == 6 || x == 7);
}

/// The per cent sign of the brightness ramp.
pub proof fn law_shading_per_cent(x: int, y: int)
    requires
        0 <= x < 8,
        0 <= y < 8,
    ensures
        shading_ink(8, x, y) == pictured(
            0b1010_1010,
            0b0101_0101,
            0b1010_1010,
            0b0101_0101,
            0b1010_1010,
            0b0101_0101,
            0b1010_1010,
            0b0101_0101,
            x,
            y,
        ),
{
    assert(y == 0 || y == 1 || y == 2 || y == 3 || y == 4 || y == 5 || y == 6 || y == 7);
    assert(x == 0 || x == 1 || x == 2 || x == 3 || x == 4 || x == 5 || x == 6 || x == 7);
}

/// The ring of the at sign, column by column.
proof fn lemma_ring(x: int, y: int)
    requires
        0 <= x < 8,
        0 <= y < 8,
    ensures
        in_ring(x, y) == pictured(
            0b0000_0000,
            0b0011_1100,
            0b0110_0110,
            0b0100_0010,
            0b0100_0010,
            0b0110_0110,
            0b0011_1100,
            0b0000_0000,
            x,
            y,
        ),
{
    lemma_odd_square(x);
    lemma_odd_square(y);
    assert(y == 0 || y == 1 || y == 2 || y == 3 || y == 4 || y == 5 || y == 6 || y == 7);
    assert(x == 0 || x == 1 || x == 2 || x == 3 || x == 4 || x == 5 || x == 6 || x == 7);
}

/// Squares of the distances from the middle of a glyph, in half pixels.
proof fn lemma_odd_square(x: int)
    requires
        0 <= x < 8,
    ensures
        x == 0 || x == 7 ==> (2 * x - 7) * (2 * x - 7) == 49,
        x == 1 || x == 6 ==> (2 * x - 7) * (2 * x - 7) == 25,
        x == 2 || x == 5 ==> (2 * x - 7) * (2 * x - 7) == 9,
        x == 3 || x == 4 ==> (2 * x - 7) * (2 * x - 7) == 1,
{
    let a = 2 * x - 7;
    assert(a == -7 || a == -5 || a == -3 || a == -1 || a == 1 || a == 3 || a == 5 || a == 7);
    assert((a == 7 || a == -7 ==> a * a == 49) && (a == 5 || a == -5 ==> a * a == 25) && (a == 3
        || a == -3 ==> a * a == 9) && (a == 1 || a == -1 ==> a * a == 1)) by (nonlinear_arith);
}

/// The at sign of the brightness ramp.
pub proof fn law_shading_at_sign(x: int, y: int)
    requires
        0 <= x < 8,
        0 <= y < 8,
    ensures
        shading_ink(9, x, y) == pictured(
            0b0000_0000,
            0b0011_1100,
            0b0110_0110,
            0b0101_1010,
            0b0101_1010,
            0b0110_0110,
            0b0011_1100,
            0b0000_0000,
            x,
            y,
        ),
{
    assert(y == 0 || y == 1 || y == 2 || y == 3 || y == 4 || y == 5 || y == 6 || y == 7);
    assert(x == 0 || x == 1 || x == 2 || x == 3 || x == 4 || x == 5 || x == 6 || x == 7);
    lemma_ring(x, y);
}

/// The light shade of the brightness ramp.
pub proof fn law_shading_light_shade(x: int, y: int)
    requires
        0 <= x < 8,
        0 <= y < 8,
    ensures
        shading_ink(10, x, y) == pictured(
            0b1010_1010,
            0b0000_0000,
            0b1010_1010,
            0b0000_0000,
            0b1010_1010,
            0b0000_0000,
            0b1010_1010,
            0b0000_0000,
            x,
            y,
        ),
{
    assert(y == 0 || y == 1 || y == 2 || y == 3 || y == 4 || y == 5 || y == 6 || y == 7);
    assert(x == 0 || x == 1 || x == 2 || x == 3 || x == 4 || x == 5 || x == 6 || x == 7);
}

/// The medium shade of the brightness ramp.
pub proof fn law_shading_medium_shade(x: int, y: int)
    requires
        0 <= x < 8,
        0 <= y < 8,
    ensures
        shading_ink(11, x, y) == pictured(
            0b1010_1010,
            0b0101_0101,
            0b1010_1010,
            0b0101_0101,
            0b1010_1010,
            0b0101_0101,
            0b1010_1010,
            0b0101_0101,
            x,
            y,
        ),
{
    assert(y == 0 || y == 1 || y == 2 || y == 3 || y == 4 || y == 5 || y == 6 || y == 7);
    assert(x == 0 || x == 1 || x == 2 || x == 3 || x == 4 || x == 5 || x == 6 || x == 7);
}

/// The dark shade of the brightness ramp.
pub proof fn law_shading_dark_shade(x: int, y: int)
    requires
        0 <= x < 8,
        0 <= y < 8,
    ensures
        shading_ink(12, x, y) == pictured(
            0b1111_1111,
            0b1010_1010,
            0b1111_1111,
            0b1010_1010,
            0b1111_1111,
            0b1010_1010,
            0b1111_1111,
            0b1010_1010,
            x,
            y,
        ),
{
    assert(y == 0 || y == 1 || y == 2 || y == 3 || y == 4 || y == 5 || y == 6 || y == 7);
    assert(x == 0 || x == 1 || x == 2 || x == 3 || x == 4 || x == 5 || x == 6 || x == 7);
}

/// The full block of the brightness ramp.
pub proof fn law_shading_full_block(x: int, y: int)
    requires
        0 <= x < 8,
        0 <= y < 8,
    ensures
        shading_ink(13, x, y) == pictured(
            0b1111_1111,
            0b1111_1111,
            0b1111_1111,
            0b1111_1111,
            0b1111_1111,
            0b1111_1111,
            0b1111_1111,
            0b1111_1111,
            x,
            y,
        ),
{
    assert(y == 0 || y == 1 || y == 2 || y == 3 || y == 4 || y == 5 || y == 6 || y == 7);
    assert(x == 0 || x == 1 || x == 2 || x == 3 || x == 4 || x == 5 || x == 6 || x == 7);
}

/// What one, two or four strokes cross.
proof fn lemma_strokes(a: Segment, b: Segment, c: Segment, d: Segment, x: int, y: int)
    ensures
        crossed(seq![a], x, y) <==> a.crosses(x, y),
        crossed(seq![a, b], x, y) <==> a.crosses(x, y) || b.crosses(x, y),
        crossed(seq![a, b, c, d], x, y) <==> a.crosses(x, y) || b.crosses(x, y) || c.crosses(x, y)
            || d.crosses(x, y),
{
    let one = seq![a];
    let two = seq![a, b];
    let four = seq![a, b, c, d];
    assert(one[0] == a);
    assert(two[0] == a && two[1] == b);
    assert(four[0] == a && four[1] == b && four[2] == c && four[3] == d);
}

/// The glyph of `─`.
pub proof fn law_box_glyph_horizontal(x: int, y: int)
    requires
        0 <= x < 8,
        0 <= y < 8,
    ensures
        box_ink(0, x, y) == pictured(
            0b0000_0000,
            0b0000_0000,
            0b0000_0000,
            0b0000_0000,
            0b1111_1111,
            0b0000_0000,
            0b0000_0000,
            0b0000_0000,
            x,
            y,
        ),
{
    let s = strokes(0);
    lemma_strokes(s[0], s[0], s[0], s[0], x, y);
    assert(s =~= seq![s[0]]);
    assert(y == 0 || y == 1 || y == 2 || y == 3 || y == 4 || y == 5 || y == 6 || y == 7);
    assert(x == 0 || x == 1 || x == 2 || x == 3 || x == 4 || x == 5 || x == 6 || x == 7);
}

/// The glyph of `│`.
pub proof fn law_box_glyph_vertical(x: int, y: int)
    requires
        0 <= x < 8,
        0 <= y < 8,
    ensures
        box_ink(1, x, y) == pictured(
            0b0000_1000,
            0b0000_1000,
            0b0000_1000,
            0b0000_1000,
            0b0000_1000,
            0b0000_1000,
            0b0000_1000,
            0b0000_1000,
            x,
            y,
        ),
{
    let s = strokes(1);
    lemma_strokes(s[0], s[0], s[0], s[0], x, y);
    assert(s =~= seq![s[0]]);
    assert(y == 0 || y == 1 || y == 2 || y == 3 || y == 4 || y == 5 || y == 6 || y == 7);
    assert(x == 0 || x == 1 || x == 2 || x == 3 || x == 4 || x == 5 || x == 6 || x == 7);
}

/// The glyph of `┌`.
pub proof fn law_box_glyph_down_right(x: int, y: int)
    requires
        0 <= x < 8,
        0 <= y < 8,
    ensures
        box_ink(2, x, y) == pictured(
            0b0000_0000,
            0b0000_0000,
            0b0000_0000,
            0b0000_0000,
            0b0000_1111,
            0b0000_1000,
            0b0000_1000,
            0b0000_1000,
            x,
            y,
        ),
{
    let s = strokes(2);
    lemma_strokes(s[0], s[1], s[0], s[0], x, y);
    assert(s =~= seq![s[0], s[1]]);
    assert(y == 0 || y == 1 || y == 2 || y == 3 || y == 4 || y == 5 || y == 6 || y == 7);
    assert(x == 0 || x == 1 || x == 2 || x == 3 || x == 4 || x == 5 || x == 6 || x == 7);
}

/// The glyph of `┐`.
pub proof fn law_box_glyph_down_left(x: int, y: int)
    requires
        0 <= x < 8,
        0 <= y < 8,
    ensures
        box_ink(3, x, y) == pictured(
            0b0000_0000,
            0b0000_0000,
            0b0000_0000,
            0b0000_0000,
            0b1111_1000,
            0b0000_1000,
            0b0000_1000,
            0b0000_1000,
            x,
            y,
        ),
{
    let s = strokes(3);
    lemma_strokes(s[0], s[1], s[0], s[0], x, y);
    assert(s =~= seq![s[0], s[1]]);
    assert(y == 0 || y == 1 || y == 2 || y == 3 || y == 4 || y == 5 || y == 6 || y == 7);
    assert(x == 0 || x == 1 || x == 2 || x == 3 || x == 4 || x == 5 || x == 6 || x == 7);
}

/// The glyph of `└`.
pub proof fn law_box_glyph_up_right(x: int, y: int)
    requires
        0 <= x < 8,
        0 <= y < 8,
    ensures
        box_ink(4, x, y) == pictured(
            0b0000_1000,
            0b0000_1000,
            0b0000_1000,
            0b0000_1000,
            0b0000_1111,
            0b0000_0000,
            0b0000_0000,
            0b0000_0000,
            x,
            y,
        ),
{
    let s = strokes(4);
    lemma_strokes(s[0], s[1], s[0], s[0], x, y);
    assert(s =~= seq![s[0], s[1]]);
    assert(y == 0 || y == 1 || y == 2 || y == 3 || y == 4 || y == 5 || y == 6 || y == 7);
    assert(x == 0 || x == 1 || x == 2 || x == 3 || x == 4 || x == 5 || x == 6 || x == 7);
}

/// The glyph of `┘`.
pub proof fn law_box_glyph_up_left(x: int, y: int)
    requires
        0 <= x < 8,
        0 <= y < 8,
    ensures
        box_ink(5, x, y) == pictured(
            0b0000_1000,
            0b0000_1000,
            0b0000_1000,
            0b0000_1000,
            0b1111_1000,
            0b0000_0000,
            0b0000_0000,
            0b0000_0000,
            x,
            y,
        ),
{
    let s = strokes(5);
    lemma_strokes(s[0], s[1], s[0], s[0], x, y);
    assert(s =~= seq![s[0], s[1]]);
    assert(y == 0 || y == 1 || y == 2 || y == 3 || y == 4 || y == 5 || y == 6 || y == 7);
    assert(x == 0 || x == 1 || x == 2 || x == 3 || x == 4 || x == 5 || x == 6 || x == 7);
}

/// The glyph of `├`.
pub proof fn law_box_glyph_vertical_right(x: int, y: int)
    requires
        0 <= x < 8,
        0 <= y < 8,
    ensures
        box_ink(6, x, y) == pictured(
            0b0000_1000,
            0b0000_1000,
            0b0000_1000,
            0b0000_1000,
            0b0000_1111,
            0b0000_1000,
            0b0000_1000,
            0b0000_1000,
            x,
            y,
        ),
{
    let s = strokes(6);
    lemma_strokes(s[0], s[1], s[0], s[0], x, y);
    assert(s =~= seq![s[0], s[1]]);
    assert(y == 0 || y == 1 || y == 2 || y == 3 || y == 4 || y == 5 || y == 6 || y == 7);
    assert(x == 0 || x == 1 || x == 2 || x == 3 || x == 4 || x == 5 || x == 6 || x == 7);
}

/// The glyph of `┤`.
pub proof fn law_box_glyph_vertical_left(x: int, y: int)
    requires
        0 <= x < 8,
        0 <= y < 8,
    ensures
        box_ink(7, x, y) == pictured(
            0b0000_1000,
            0b0000_1000,
            0b0000_1000,
            0b0000_1000,
            0b1111_1000,
            0b0000_1000,
            0b0000_1000,
            0b0000_1000,
            x,
            y,
        ),
{
    let s = strokes(7);
    lemma_strokes(s[0], s[1], s[0], s[0], x, y);
    assert(s =~= seq![s[0], s[1]]);
    assert(y == 0 || y == 1 || y == 2 || y == 3 || y == 4 || y == 5 || y == 6 || y == 7);
    assert(x == 0 || x == 1 || x == 2 || x == 3 || x == 4 || x == 5 || x == 6 || x == 7);
}

/// The glyph of `┬`.
pub proof fn law_box_glyph_horizontal_down(x: int, y: int)
    requires
        0 <= x < 8,
        0 <= y < 8,
    ensures
        box_ink(8, x, y) == pictured(
            0b0000_0000,
            0b0000_0000,
            0b0000_0000,
            0b0000_0000,
            0b1111_1111,
            0b0000_1000,
            0b0000_1000,
            0b0000_1000,
            x,
            y,
        ),
{
    let s = strokes(8);
    lemma_strokes(s[0], s[1], s[0], s[0], x, y);
    assert(s =~= seq![s[0], s[1]]);
    assert(y == 0 || y == 1 || y == 2 || y == 3 || y == 4 || y == 5 || y == 6 || y == 7);
    assert(x == 0 || x == 1 || x == 2 || x == 3 || x == 4 || x == 5 || x == 6 || x == 7);
}

/// The glyph of `┴`.
pub proof fn law_box_glyph_horizontal_up(x: int, y: int)
    requires
        0 <= x < 8,
        0 <= y < 8,
    ensures
        box_ink(9, x, y) == pictured(
            0b0000_1000,
            0b0000_1000,
            0b0000_1000,
            0b0000_1000,
            0b1111_1111,
            0b0000_0000,
            0b0000_0000,
            0b0000_0000,
            x,
            y,
        ),
{
    let s = strokes(9);
    lemma_strokes(s[0], s[1], s[0], s[0], x, y);
    assert(s =~= seq![s[0], s[1]]);
    assert(y == 0 || y == 1 || y == 2 || y == 3 || y == 4 || y == 5 || y == 6 || y == 7);
    assert(x == 0 || x == 1 || x == 2 || x == 3 || x == 4 || x == 5 || x == 6 || x == 7);
}

/// The glyph of `┼`.
pub proof fn law_box_glyph_cross(x: int, y: int)
    requires
        0 <= x < 8,
        0 <= y < 8,
    ensures
        box_ink(10, x, y) == pictured(
            0b0000_1000,
            0b0000_1000,
            0b0000_1000,
            0b0000_1000,
            0b1111_1111,
            0b0000_1000,
            0b0000_1000,
            0b0000_1000,
            x,
            y,
        ),
{
    let s = strokes(10);
    lemma_strokes(s[0], s[1], s[0], s[0], x, y);
    assert(s =~= seq![s[0], s[1]]);
    assert(y == 0 || y == 1 || y == 2 || y == 3 || y == 4 || y == 5 || y == 6 || y == 7);
    assert(x == 0 || x == 1 || x == 2 || x == 3 || x == 4 || x == 5 || x == 6 || x == 7);
}

/// The glyph of `═`.
pub proof fn law_box_glyph_double_horizontal(x: int, y: int)
    requires
        0 <= x < 8,
        0 <= y < 8,
    ensures
        box_ink(11, x, y) == pictured(
            0b0000_0000,
            0b0000_0000,
            0b0000_0000,
            0b1111_1111,
            0b0000_0000,
            0b1111_1111,
            0b0000_0000,
            0b0000_0000,
            x,
            y,
        ),
{
    let s = strokes(11);
    lemma_strokes(s[0], s[1], s[0], s[0], x, y);
    assert(s =~= seq![s[0], s[1]]);
    assert(y == 0 || y == 1 || y == 2 || y == 3 || y == 4 || y == 5 || y == 6 || y == 7);
    assert(x == 0 || x == 1 || x == 2 || x == 3 || x == 4 || x == 5 || x == 6 || x == 7);
}

/// The glyph of `║`.
pub proof fn law_box_glyph_double_vertical(x: int, y: int)
    requires
        0 <= x < 8,
        0 <= y < 8,
    ensures
        box_ink(12, x, y) == pictured(
            0b0001_0100,
            0b0001_0100,
            0b0001_0100,
            0b0001_0100,
            0b0001_0100,
            0b0001_0100,
            0b0001_0100,
            0b0001_0100,
            x,
            y,
        ),
{
    let s = strokes(12);
    lemma_strokes(s[0], s[1], s[0], s[0], x, y);
    assert(s =~= seq![s[0], s[1]]);
    assert(y == 0 || y == 1 || y == 2 || y == 3 || y == 4 || y == 5 || y == 6 || y == 7);
    assert(x == 0 || x == 1 || x == 2 || x == 3 || x == 4 || x == 5 || x == 6 || x == 7);
}

/// The glyph of `╔`.
pub proof fn law_box_glyph_double_down_right(x: int, y: int)
    requires
        0 <= x < 8,
        0 <= y < 8,
    ensures
        box_ink(13, x, y) == pictured(
            0b0000_0000,
            0b0000_0000,
            0b0000_0000,
            0b0001_1111,
            0b0001_0000,
            0b0001_0111,
            0b0001_0100,
            0b0001_0100,
            x,
            y,
        ),
{
    let s = strokes(13);
    lemma_strokes(s[0], s[1], s[2], s[3], x, y);
    assert(s =~= seq![s[0], s[1], s[2], s[3]]);
    assert(y == 0 || y == 1 || y == 2 || y == 3 || y == 4 || y == 5 || y == 6 || y == 7);
    assert(x == 0 || x == 1 || x == 2 || x == 3 || x == 4 || x == 5 || x == 6 || x == 7);
}

/// The glyph of `╗`.
pub proof fn law_box_glyph_double_down_left(x: int, y: int)
    requires
        0 <= x < 8,
        0 <= y < 8,
    ensures
        box_ink(14, x, y) == pictured(
            0b0000_0000,
            0b0000_0000,
            0b0000_0000,
            0b1111_1100,
            0b0000_0100,
            0b1111_0100,
            0b0001_0100,
            0b0001_0100,
            x,
            y,
        ),
{
    let s = strokes(14);
    lemma_strokes(s[0], s[1], s[2], s[3], x, y);
    assert(s =~= seq![s[0], s[1], s[2], s[3]]);
    assert(y == 0 || y == 1 || y == 2 || y == 3 || y == 4 || y == 5 || y == 6 || y == 7);
    assert(x == 0 || x == 1 || x == 2 || x == 3 || x == 4 || x == 5 || x == 6 || x == 7);
}

/// The glyph of `╚`.
pub proof fn law_box_glyph_double_up_right(x: int, y: int)
    requires
        0 <= x < 8,
        0 <= y < 8,
    ensures
        box_ink(15, x, y) == pictured(
            0b0001_0100,
            0b0001_0100,
            0b0001_0100,
            0b0001_0111,
            0b0001_0000,
            0b0001_1111,
            0b0000_0000,
            0b0000_0000,
            x,
            y,
        ),
{
    let s = strokes(15);
    lemma_strokes(s[0], s[1], s[2], s[3], x, y);
    assert(s =~= seq![s[0], s[1], s[2], s[3]]);
    assert(y == 0 || y == 1 || y == 2 || y == 3 || y == 4 || y == 5 || y == 6 || y == 7);
    assert(x == 0 || x == 1 || x == 2 || x == 3 || x == 4 || x == 5 || x == 6 || x == 7);
}

/// The glyph of `╝`.
pub proof fn law_box_glyph_double_up_left(x: int, y: int)
    requires
        0 <= x < 8,
        0 <= y < 8,
    ensures
        box_ink(16, x, y) == pictured(
            0b0001_0100,
            0b0001_0100,
            0b0001_0100,
            0b1111_0100,
            0b0000_0100,
            0b1111_1100,
            0b0000_0000,
            0b0000_0000,
            x,
            y,
        ),
{
    let s = strokes(16);
    lemma_strokes(s[0], s[1], s[2], s[3], x, y);
    assert(s =~= seq![s[0], s[1], s[2], s[3]]);
    assert(y == 0 || y == 1 || y == 2 || y == 3 || y == 4 || y == 5 || y == 6 || y == 7);
    assert(x == 0 || x == 1 || x == 2 || x == 3 || x == 4 || x == 5 || x == 6 || x == 7);
}

/// The glyph of `╠`.
pub proof fn law_box_glyph_double_vertical_right(x: int, y: int)
    requires
        0 <= x < 8,
        0 <= y < 8,
    ensures
        box_ink(17, x, y) == pictured(
            0b0001_0100,
            0b0001_0100,
            0b0001_0100,
            0b0001_0111,
            0b0001_0100,
            0b0001_0111,
            0b0001_0100,
            0b0001_0100,
            x,
            y,
        ),
{
    let s = strokes(17);
    lemma_strokes(s[0], s[1], s[2], s[3], x, y);
    assert(s =~= seq![s[0], s[1], s[2], s[3]]);
    assert(y == 0 || y == 1 || y == 2 || y == 3 || y == 4 || y == 5 || y == 6 || y == 7);
    assert(x == 0 || x == 1 || x == 2 || x == 3 || x == 4 || x == 5 || x == 6 || x == 7);
}

/// The glyph of `╣`.
pub proof fn law_box_glyph_double_vertical_left(x: int, y: int)
    requires
        0 <= x < 8,
        0 <= y < 8,
    ensures
        box_ink(18, x, y) == pictured(
            0b0001_0100,
            0b0001_0100,
            0b0001_0100,
            0b1111_0100,
            0b0001_0100,
            0b1111_0100,
            0b0001_0100,
            0b0001_0100,
            x,
            y,
        ),
{
    let s = strokes(18);
    lemma_strokes(s[0], s[1], s[2], s[3], x, y);
    assert(s =~= seq![s[0], s[1], s[2], s[3]]);
    assert(y == 0 || y == 1 || y == 2 || y == 3 || y == 4 || y == 5 || y == 6 || y == 7);
    assert(x == 0 || x == 1 || x == 2 || x == 3 || x == 4 || x == 5 || x == 6 || x == 7);
}

/// The glyph of `╦`.
pub proof fn law_box_glyph_double_horizontal_down(x: int, y: int)
    requires
        0 <= x < 8,
        0 <= y < 8,
    ensures
        box_ink(19, x, y) == pictured(
            0b0000_0000,
            0b0000_0000,
            0b0000_0000,
            0b1111_1111,
            0b0000_0000,
            0b1111_1111,
            0b0001_0100,
            0b0001_0100,
            x,
            y,
        ),
{
    let s = strokes(19);
    lemma_strokes(s[0], s[1], s[2], s[3], x, y);
    assert(s =~= seq![s[0], s[1], s[2], s[3]]);
    assert(y == 0 || y == 1 || y == 2 || y == 3 || y == 4 || y == 5 || y == 6 || y == 7);
    assert(x == 0 || x == 1 || x == 2 || x == 3 || x == 4 || x == 5 || x == 6 || x == 7);
}

/// The glyph of `╩`.
pub proof fn law_box_glyph_double_horizontal_up(x: int, y: int)
    requires
        0 <= x < 8,
        0 <= y < 8,
    ensures
        box_ink(20, x, y) == pictured(
            0b0001_0100,
            0b0001_0100,
            0b0001_0100,
            0b1111_1111,
            0b0000_0000,
            0b1111_1111,
            0b0000_0000,
            0b0000_0000,
            x,
            y,
        ),
{
    let s = strokes(20);
    lemma_strokes(s[0], s[1], s[2], s[3], x, y);
    assert(s =~= seq![s[0], s[1], s[2], s[3]]);
    assert(y == 0 || y == 1 || y == 2 || y == 3 || y == 4 || y == 5 || y == 6 || y == 7);
    assert(x == 0 || x == 1 || x == 2 || x == 3 || x == 4 || x == 5 || x == 6 || x == 7);
}

/// The glyph of `╬`.
pub proof fn law_box_glyph_double_cross(x: int, y: int)
    requires
        0 <= x < 8,
        0 <= y < 8,
    ensures
        box_ink(21, x, y) == pictured(
            0b0001_0100,
            0b0001_0100,
            0b0001_0100,
            0b1111_1111,
            0b0001_0100,
            0b1111_1111,
            0b0001_0100,
            0b0001_0100,
            x,
            y,
        ),
{
    let s = strokes(21);
    lemma_strokes(s[0], s[1], s[2], s[3], x, y);
    assert(s =~= seq![s[0], s[1], s[2], s[3]]);
    assert(y == 0 || y == 1 || y == 2 || y == 3 || y == 4 || y == 5 || y == 6 || y == 7);
    assert(x == 0 || x == 1 || x == 2 || x == 3 || x == 4 || x == 5 || x == 6 || x == 7);
}

/// The glyph of `▲`.
pub proof fn law_box_glyph_up_arrow(x: int, y: int)
    requires
        0 <= x < 8,
        0 <= y < 8,
    ensures
        box_ink(22, x, y) == pictured(
            0b0000_0000,
            0b0000_0000,
            0b0001_1000,
            0b0011_1100,
            0b0111_1110,
            0b1111_1111,
            0b0000_0000,
            0b0000_0000,
            x,
            y,
        ),
{
    assert(y == 0 || y == 1 || y == 2 || y == 3 || y == 4 || y == 5 || y == 6 || y == 7);
    assert(x == 0 || x == 1 || x == 2 || x == 3 || x == 4 || x == 5 || x == 6 || x == 7);
}

/// The glyph of `▼`.
pub proof fn law_box_glyph_down_arrow(x: int, y: int)
    requires
        0 <= x < 8,
        0 <= y < 8,
    ensures
        box_ink(23, x, y) == pictured(
            0b0000_0000,
            0b0000_0000,
            0b1111_1111,
            0b0111_1110,
            0b0011_1100,
            0b0001_1000,
            0b0000_0000,
            0b0000_0000,
            x,
            y,
        ),
{
    assert(y == 0 || y == 1 || y == 2 || y == 3 || y == 4 || y == 5 || y == 6 || y == 7);
    assert(x == 0 || x == 1 || x == 2 || x == 3 || x == 4 || x == 5 || x == 6 || x == 7);
}

/// The glyph of `◄`.
pub proof fn law_box_glyph_left_arrow(x: int, y: int)
    requires
        0 <= x < 8,
        0 <= y < 8,
    ensures
        box_ink(24, x, y) == pictured(
            0b0000_0100,
            0b0000_1100,
            0b0001_1100,
            0b0011_1100,
            0b0011_1100,
            0b0001_1100,
            0b0000_1100,
            0b0000_0100,
            x,
            y,
        ),
{
    assert(y == 0 || y == 1 || y == 2 || y == 3 || y == 4 || y == 5 || y == 6 || y == 7);
    assert(x == 0 || x == 1 || x == 2 || x == 3 || x == 4 || x == 5 || x == 6 || x == 7);
}

/// The glyph of `►`.
pub proof fn law_box_glyph_right_arrow(x: int, y: int)
    requires
        0 <= x < 8,
        0 <= y < 8,
    ensures
        box_ink(25, x, y) == pictured(
            0b0010_0000,
            0b0011_0000,
            0b0011_1000,
            0b0011_1100,
            0b0011_1100,
            0b0011_1000,
            0b0011_0000,
            0b0010_0000,
            x,
            y,
        ),
{
    assert(y == 0 || y == 1 || y == 2 || y == 3 || y == 4 || y == 5 || y == 6 || y == 7);
    assert(x == 0 || x == 1 || x == 2 || x == 3 || x == 4 || x == 5 || x == 6 || x == 7);
}

/// The characters of the brightness ramp and of the shades, from dark to bright.
pub proof fn law_ramp_order(i: int)
    requires
        0 <= i < 14,
    ensures
        i == 0 ==> ALL_CHARS@[i] == ' ',
        i == 1 ==> ALL_CHARS@[i] == '.',
        i == 2 ==> ALL_CHARS@[i] == ':',
        i == 3 ==> ALL_CHARS@[i] == '-',
        i == 4 ==> ALL_CHARS@[i] == '=',
        i == 5 ==> ALL_CHARS@[i] == '+',
        i == 6 ==> ALL_CHARS@[i] == '*',
        i == 7 ==> ALL_CHARS@[i] == '#',
        i == 8 ==> ALL_CHARS@[i] == '%',
        i == 9 ==> ALL_CHARS@[i] == '@',
        i == 10 ==> ALL_CHARS@[i] == '░',
        i == 11 ==> ALL_CHARS@[i] == '▒',
        i == 12 ==> ALL_CHARS@[i] == '▓',
        i == 13 ==> ALL_CHARS@[i] == '█',
{
    assert(i == 0 || i == 1 || i == 2 || i == 3 || i == 4 || i == 5 || i == 6 || i == 7 || i == 8
        || i == 9 || i == 10 || i == 11 || i == 12 || i == 13);
}

/// In overlays a printable character gets its letter, a box-drawing character its
/// lines, and every other one a gap.
pub proof fn law_overlay_glyphs(c: char)
    ensures
        ' ' <= c <= '~' ==> overlay_glyph(c) == 14 + (c as int - ' ' as int),
        c == '─' ==> overlay_glyph(c) == 125,
        c == '│' ==> overlay_glyph(c) == 126,
        c == '┌' ==> overlay_glyph(c) == 127,
        c == '┐' ==> overlay_glyph(c) == 128,
        c == '└' ==> overlay_glyph(c) == 129,
        c == '┘' ==> overlay_glyph(c) == 130,
        c == '├' ==> overlay_glyph(c) == 131,
        c == '┤' ==> overlay_glyph(c) == 132,
        c == '┬' ==> overlay_glyph(c) == 133,
        c == '┴' ==> overlay_glyph(c) == 134,
        c == '┼' ==> overlay_glyph(c) == 135,
        c == '═' ==> overlay_glyph(c) == 136,
        c == '║' ==> overlay_glyph(c) == 137,
        c == '╔' ==> overlay_glyph(c) == 138,
        c == '╗' ==> overlay_glyph(c) == 139,
        c == '╚' ==> overlay_glyph(c) == 140,
        c == '╝' ==> overlay_glyph(c) == 141,
        c == '╠' ==> overlay_glyph(c) == 142,
        c == '╣' ==> overlay_glyph(c) == 143,
        c == '╦' ==> overlay_glyph(c) == 144,
        c == '╩' ==> overlay_glyph(c) == 145,
        c == '╬' ==> overlay_glyph(c) == 146,
        c == '▲' ==> overlay_glyph(c) == 147,
        c == '▼' ==> overlay_glyph(c) == 148,
        c == '◄' ==> overlay_glyph(c) == 149,
        c == '►' ==> overlay_glyph(c) == 150,
        !(' ' <= c <= '~') && !BOX_CHARS@.contains(c) ==> overlay_glyph(c) == 0,
{
    if BOX_CHARS@.contains(c) {
        BOX_CHARS@.index_of_first_ensures(c);
        let k = BOX_CHARS@.index_of_first(c).unwrap();
        assert(k == 0 || k == 1 || k == 2 || k == 3 || k == 4 || k == 5 || k == 6 || k == 7 || k == 8 || k == 9 || k == 10 || k == 11 || k == 12 || k == 13 || k == 14 || k == 15 || k == 16 || k == 17 || k == 18 || k == 19 || k == 20 || k == 21 || k == 22 || k == 23 || k == 24 || k == 25);
    }
    assert(BOX_CHARS@[0] == '─');
    assert(BOX_CHARS@[1] == '│');
    assert(BOX_CHARS@[2] == '┌');
    assert(BOX_CHARS@[3] == '┐');
    assert(BOX_CHARS@[4] == '└');
    assert(BOX_CHARS@[5] == '┘');
    assert(BOX_CHARS@[6] == '├');
    assert(BOX_CHARS@[7] == '┤');
    assert(BOX_CHARS@[8] == '┬');
    assert(BOX_CHARS@[9] == '┴');
    assert(BOX_CHARS@[10] == '┼');
    assert(BOX_CHARS@[11] == '═');
    assert(BOX_CHARS@[12] == '║');
    assert(BOX_CHARS@[13] == '╔');
    assert(BOX_CHARS@[14] == '╗');
    assert(BOX_CHARS@[15] == '╚');
    assert(BOX_CHARS@[16] == '╝');
    assert(BOX_CHARS@[17] == '╠');
    assert(BOX_CHARS@[18] == '╣');
    assert(BOX_CHARS@[19] == '╦');
    assert(BOX_CHARS@[20] == '╩');
    assert(BOX_CHARS@[21] == '╬');
    assert(BOX_CHARS@[22] == '▲');
    assert(BOX_CHARS@[23] == '▼');
    assert(BOX_CHARS@[24] == '◄');
    assert(BOX_CHARS@[25] == '►');
}

/// Where a byte of a strip belongs.
proof fn lemma_place_in_strip(index: int, x: int, y: int, channel: int)
    requires
        0 <= index,
        0 <= x < 8,
        0 <= y < 8,
        0 <= channel < 4,
    ensures
        ({
            let k = 256 * index + 32 * y + 4 * x + channel;
            k / 256 == index && k / 4 % 8 == x && k / 32 % 8 == y
        }),
{
    let k = 256 * index + 32 * y + 4 * x + channel;
    let low = 4 * x + channel;
    let rest = 32 * y + low;
    assert(k == 256 * index + rest && 0 <= rest < 256);
    assert(k / 256 == index);
    assert(k / 4 == 64 * index + 8 * y + x);
    assert((64 * index + 8 * y + x) % 8 == x);
    assert(k == 32 * (8 * index + y) + low && 0 <= low < 32);
    assert(k / 32 == 8 * index + y);
    assert((8 * index + y) % 8 == y);
}

/// A strip of glyphs holds four equal bytes for each pixel, a glyph's pixels row by
/// row and the glyphs one behind the other.
pub proof fn law_strip_bytes(
    count: nat,
    ink: spec_fn(int, int, int) -> bool,
    index: int,
    x: int,
    y: int,
    channel: int,
)
    requires
        0 <= index < count,
        0 <= x < 8,
        0 <= y < 8,
        0 <= channel < 4,
    ensures
        strip(count, ink).len() == 256 * count,
        strip(count, ink)[256 * index + 32 * y + 4 * x + channel] == (if ink(index, x, y) {
            255u8
        } else {
            0u8
        }),
        dot(true) == seq![255u8, 255u8, 255u8, 255u8],
        dot(false) == seq![0u8, 0u8, 0u8, 0u8],
{
    let k = 256 * index + 32 * y + 4 * x + channel;
    lemma_place_in_strip(index, x, y, channel);
    assert(0 <= k < 256 * count);
}

} // verus!
