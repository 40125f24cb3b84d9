//! What the palettes hold and how colours are brought to them, said in numbers.

use vstd::prelude::*;
use crate::ascii::color::{
    distance, entry256, grey_value, is_nearest16, is_nearest256, is_nearest_step, rgb_of, usable,
    ANSI16_PALETTE, CUBE_LEVELS, MONOCHROME_FOREGROUND,
};
use crate::engine::single::{at_least, below, is_finite, is_nan};

verus! {

/// The levels of the colour cube.
pub open spec fn level(i: int) -> int {
    if i == 0 {
        0
    } else {
        55 + 40 * i
    }
}

/// The colour cube runs through red, green and blue in six levels each, blue
/// fastest.
pub proof fn law_cube_entries(r: int, g: int, b: int)
    requires
        0 <= r < 6,
        0 <= g < 6,
        0 <= b < 6,
    ensures
        entry256(16 + 36 * r + 6 * g + b) == (level(r), level(g), level(b)),
{
    let cube = 36 * r + 6 * g + b;
    assert(cube / 36 == r);
    assert(cube % 36 / 6 == g);
    assert(cube % 6 == b);
    lemma_levels(r);
    lemma_levels(g);
    lemma_levels(b);
}

/// The six levels as they are stored.
proof fn lemma_levels(i: int)
    requires
        0 <= i < 6,
    ensures
        CUBE_LEVELS@[i] as int == level(i),
{
    assert(i == 0 || i == 1 || i == 2 || i == 3 || i == 4 || i == 5);
}

/// Behind the cube stand 24 greys from 8 to 238, ten apart.
pub proof fn law_grey_entries(step: int)
    requires
        0 <= step < 24,
    ensures
        entry256(232 + step) == (8 + 10 * step, 8 + 10 * step, 8 + 10 * step),
        grey_value(step) == 8 + 10 * step,
{
}

/// The sixteen system colours, and the first entries of the large palette with them.
pub proof fn law_system_colors(i: int)
    requires
        0 <= i < 16,
    ensures
        entry256(i) == rgb_of(ANSI16_PALETTE@[i]),
        i == 0 ==> rgb_of(ANSI16_PALETTE@[i]) == (0int, 0int, 0int),
        i == 1 ==> rgb_of(ANSI16_PALETTE@[i]) == (128int, 0int, 0int),
        i == 2 ==> rgb_of(ANSI16_PALETTE@[i]) == (0int, 128int, 0int),
        i == 3 ==> rgb_of(ANSI16_PALETTE@[i]) == (128int, 128int, 0int),
        i == 4 ==> rgb_of(ANSI16_PALETTE@[i]) == (0int, 0int, 128int),
        i == 5 ==> rgb_of(ANSI16_PALETTE@[i]) == (128int, 0int, 128int),
        i == 6 ==> rgb_of(ANSI16_PALETTE@[i]) == (0int, 128int, 128int),
        i == 7 ==> rgb_of(ANSI16_PALETTE@[i]) == (192int, 192int, 192int),
        i == 8 ==> rgb_of(ANSI16_PALETTE@[i]) == (128int, 128int, 128int),
        i == 9 ==> rgb_of(ANSI16_PALETTE@[i]) == (255int, 0int, 0int),
        i == 10 ==> rgb_of(ANSI16_PALETTE@[i]) == (0int, 255int, 0int),
        i == 11 ==> rgb_of(ANSI16_PALETTE@[i]) == (255int, 255int, 0int),
        i == 12 ==> rgb_of(ANSI16_PALETTE@[i]) == (0int, 0int, 255int),
        i == 13 ==> rgb_of(ANSI16_PALETTE@[i]) == (255int, 0int, 255int),
        i == 14 ==> rgb_of(ANSI16_PALETTE@[i]) == (0int, 255int, 255int),
        i == 15 ==> rgb_of(ANSI16_PALETTE@[i]) == (255int, 255int, 255int),
        MONOCHROME_FOREGROUND@[0] == 255 && MONOCHROME_FOREGROUND@[1] == 255
            && MONOCHROME_FOREGROUND@[2] == 255,
{
    assert(i == 0 || i == 1 || i == 2 || i == 3 || i == 4 || i == 5 || i == 6 || i == 7 || i == 8
        || i == 9 || i == 10 || i == 11 || i == 12 || i == 13 || i == 14 || i == 15);
}

/// Colours lie apart by the sum of their squared differences.
pub proof fn law_distance(r: int, g: int, b: int, dr: int, dg: int, db: int)
    ensures
        distance((r, g, b), (r + dr, g + dg, b + db)) == dr * dr + dg * dg + db * db,
        distance((r + dr, g + dg, b + db), (r, g, b)) == dr * dr + dg * dg + db * db,
{
    assert((-dr) * (-dr) == dr * dr) by (nonlinear_arith);
    assert((-dg) * (-dg) == dg * dg) by (nonlinear_arith);
    assert((-db) * (-db) == db * db) by (nonlinear_arith);
}

/// No entry behind the system colours lies closer than the one that is picked, and of
/// several equally close ones the first is picked.
pub proof fn law_picked_entries(c: (int, int, int), best: int, i: int)
    requires
        is_nearest256(c, best),
        16 <= i < 256,
    ensures
        16 <= best < 256,
        distance(c, entry256(best)) <= distance(c, entry256(i)),
        i < best ==> distance(c, entry256(best)) < distance(c, entry256(i)),
{
}

/// The same of the system colours.
pub proof fn law_picked_system_colors(c: (int, int, int), best: int, i: int)
    requires
        is_nearest16(c, best),
        0 <= i < 16,
    ensures
        0 <= best < 16,
        distance(c, rgb_of(ANSI16_PALETTE@[best])) <= distance(c, rgb_of(ANSI16_PALETTE@[i])),
        i < best ==> distance(c, rgb_of(ANSI16_PALETTE@[best])) < distance(
            c,
            rgb_of(ANSI16_PALETTE@[i]),
        ),
{
    let at = ANSI16_PALETTE@[i];
}

/// A grey lies at most five from the step that is picked for it, within the ramp, and
/// in the middle between two steps the darker one is picked.
pub proof fn law_picked_greys(brightness: int, step: int)
    requires
        0 <= brightness <= 255,
        is_nearest_step(3 * brightness, step),
    ensures
        0 <= step < 24,
        brightness <= 13 <==> step == 0,
        brightness > 233 <==> step == 23,
        13 < brightness <= 233 ==> 3 + 10 * step < brightness <= 13 + 10 * step,
{
    if step > 0 {
        assert(grey_value(step - 1) == 8 + 10 * (step - 1));
    }
    if step < 23 {
        assert(grey_value(step + 1) == 8 + 10 * (step + 1));
    }
}

/// Bit patterns of single-precision numbers: which are no numbers, which are finite,
/// and how they are ordered. Below the sign bit a larger pattern is a larger number,
/// with the sign bit a smaller one, and both zeros are one.
pub proof fn law_singles(a: u32, b: u32)
    ensures
        is_nan(a) <==> 0x7f80_0000 < a < 0x8000_0000 || a > 0xff80_0000,
        is_finite(a) <==> a < 0x7f80_0000 || 0x8000_0000 <= a < 0xff80_0000,
        !is_nan(a) && !is_nan(b) && a < 0x8000_0000 && b < 0x8000_0000 ==> (below(a, b) <==> a
            < b),
        !is_nan(a) && !is_nan(b) && a >= 0x8000_0000 && b >= 0x8000_0000 ==> (below(a, b) <==> b
            < a),
        !is_nan(a) && !is_nan(b) && a >= 0x8000_0000 && b < 0x8000_0000 ==> !below(b, a) && (below(
            a,
            b,
        ) <==> a != 0x8000_0000 || b != 0),
        is_nan(a) || is_nan(b) ==> !below(a, b),
        below(a, b) ==> at_least(b, a) == b && at_least(a, b) == b,
        is_nan(a) ==> at_least(a, b) == b,
{
}

/// Components are brought between 0.0 and 1.0: what is no number or lies below becomes
/// 0.0, what lies above 1.0, and the rest stays as it is.
pub proof fn law_usable_components(c: u32)
    ensures
        c <= 0x3f80_0000 ==> usable(c) == c,
        0x3f80_0000 < c <= 0x7f80_0000 ==> usable(c) == 0x3f80_0000,
        0x7f80_0000 < c && c != 0x8000_0000 ==> usable(c) == 0,
        c == 0x8000_0000 ==> usable(c) == c,
{
}

} // verus!
