//! Colour modes: 8-bit colours mapped to what a terminal-style output can show,
//! 24-bit colour, the xterm-256 palette, the 16 system colours, a grey ramp or
//! a single foreground colour.
//!
//! The nearest entry of a palette is the one at the smallest squared Euclidean
//! distance in 8-bit RGB; of several at that distance, the one with the lowest
//! index. The system colours are never searched for the xterm-256 palette:
//! terminals let users change them, and some of them duplicate other entries.

use vstd::prelude::*;

use crate::engine::single::{is_less, is_nan, not_a_number, rank};

verus! {

/// Component levels of the xterm 6x6x6 colour cube (indices 16..=231). They are
/// irregular on purpose.
pub const CUBE_LEVELS: [u8; 6] = [0, 95, 135, 175, 215, 255];

/// First index of the 6x6x6 colour cube.
pub const CUBE_FIRST: u8 = 16;

/// First index of the 24-step grey ramp.
pub const GREY_FIRST: u8 = 232;

/// Value of grey ramp step 0.
pub const GREY_BASE: u8 = 8;

/// Distance between two consecutive grey ramp steps.
pub const GREY_STEP: u8 = 10;

/// Number of steps in the grey ramp (8, 18, ... 238).
pub const GREY_COUNT: u8 = 24;

/// The 16 standard system colours (xterm / VGA defaults): black, maroon, green,
/// olive, navy, purple, teal, silver, grey, red, lime, yellow, blue, fuchsia,
/// aqua, white.
pub const ANSI16_PALETTE: [[u8; 3]; 16] = [
    [0, 0, 0],
    [128, 0, 0],
    [0, 128, 0],
    [128, 128, 0],
    [0, 0, 128],
    [128, 0, 128],
    [0, 128, 128],
    [192, 192, 192],
    [128, 128, 128],
    [255, 0, 0],
    [0, 255, 0],
    [255, 255, 0],
    [0, 0, 255],
    [255, 0, 255],
    [0, 255, 255],
    [255, 255, 255],
];

/// The single foreground colour of the monochrome mode.
pub const MONOCHROME_FOREGROUND: [u8; 3] = [255, 255, 255];

/// Colour fidelity of the output.
#[derive(Clone, Copy, Debug, PartialEq, Eq, Hash, Structural)]
pub enum ColorMode {
    /// 24-bit colour: the cell colour is displayed as it is.
    TrueColor,
    /// The xterm-256 palette: a 6x6x6 cube and 24 greys.
    Ansi256,
    /// The 16 standard system colours.
    Ansi16,
    /// Luminance only, on the 24-step xterm grey ramp.
    Grayscale,
    /// A single foreground colour.
    Monochrome,
}

// --- palettes ----------------------------------------------------------------

/// A colour as three integers.
pub open spec fn rgb_of(c: [u8; 3]) -> (int, int, int) {
    (c@[0] as int, c@[1] as int, c@[2] as int)
}

/// The value of a grey ramp step; steps past the last one saturate.
pub open spec fn grey_value(step: int) -> int {
    8 + 10 * (if step < 24 {
        step
    } else {
        23
    })
}

/// The entry of the xterm-256 palette at `index`.
pub open spec fn entry256(index: int) -> (int, int, int) {
    if index < 16 {
        rgb_of(ANSI16_PALETTE@[index])
    } else if index < 232 {
        let cube = index - 16;
        (
            CUBE_LEVELS@[cube / 36] as int,
            CUBE_LEVELS@[cube % 36 / 6] as int,
            CUBE_LEVELS@[cube % 6] as int,
        )
    } else {
        let v = grey_value(index - 232);
        (v, v, v)
    }
}

/// Squared distance of two colours.
pub open spec fn distance(a: (int, int, int), b: (int, int, int)) -> int {
    (a.0 - b.0) * (a.0 - b.0) + (a.1 - b.1) * (a.1 - b.1) + (a.2 - b.2) * (a.2 - b.2)
}

/// `best` is the nearest cube or grey entry, the lowest of those at the same
/// distance.
pub open spec fn is_nearest256(c: (int, int, int), best: int) -> bool {
    &&& 16 <= best < 256
    &&& forall|i: int|
        16 <= i < 256 ==> distance(c, entry256(best)) < distance(c, #[trigger] entry256(i)) || (
        distance(c, entry256(best)) == distance(c, entry256(i)) && best <= i)
}

/// `best` is the nearest system colour, the lowest of those at the same
/// distance.
pub open spec fn is_nearest16(c: (int, int, int), best: int) -> bool {
    &&& 0 <= best < 16
    &&& forall|i: int|
        0 <= i < 16 ==> distance(c, rgb_of(ANSI16_PALETTE@[best])) < distance(
            c,
            rgb_of(#[trigger] ANSI16_PALETTE@[i]),
        ) || (distance(c, rgb_of(ANSI16_PALETTE@[best])) == distance(c, rgb_of(ANSI16_PALETTE@[i]))
            && best <= i)
}

/// How far two integers are apart.
pub open spec fn gap(a: int, b: int) -> int {
    if a < b {
        b - a
    } else {
        a - b
    }
}

/// The grey step whose tripled value is closest to a channel sum, the lowest of
/// those at the same distance.
pub open spec fn is_nearest_step(sum: int, best: int) -> bool {
    &&& 0 <= best < 24
    &&& forall|s: int|
        0 <= s < 24 ==> gap(3 * grey_value(best), sum) < gap(3 * #[trigger] grey_value(s), sum) || (
        gap(3 * grey_value(best), sum) == gap(3 * grey_value(s), sum) && best <= s)
}

fn byte_gap(a: u32, b: u32) -> (r: u32)
    ensures
        r == gap(a as int, b as int),
{
    if a < b {
        b - a
    } else {
        a - b
    }
}

fn square(a: u8, b: u8) -> (r: u32)
    ensures
        r == (a - b) * (a - b),
        r <= 65025,
{
    let d: u32 = byte_gap(a as u32, b as u32);
    assert(d * d == (a - b) * (a - b) && 0 <= d * d <= 65025) by (nonlinear_arith)
        requires
            d == a - b || d == b - a,
            0 <= d <= 255,
    ;
    d * d
}

/// Squared Euclidean distance between two 8-bit colours.
fn dist2(a: [u8; 3], b: [u8; 3]) -> (r: u32)
    ensures
        r == distance(rgb_of(a), rgb_of(b)),
        r <= 195075,
{
    square(a[0], b[0]) + square(a[1], b[1]) + square(a[2], b[2])
}

/// 8-bit value of grey ramp step `step`. Steps past the ramp saturate at its
/// last entry.
pub fn grey_level(step: u8) -> (r: u8)
    ensures
        r == grey_value(step as int),
{
    if step < GREY_COUNT {
        GREY_BASE + GREY_STEP * step
    } else {
        GREY_BASE + GREY_STEP * (GREY_COUNT - 1)
    }
}

/// Exact RGB of one of the 16 standard system colours. Only the low 4 bits of
/// `index` count.
pub fn ansi16_to_rgb(index: u8) -> (r: [u8; 3])
    ensures
        r == ANSI16_PALETTE@[index as int % 16],
{
    ANSI16_PALETTE[(index % 16) as usize]
}

/// Exact RGB of an xterm-256 palette entry.
pub fn ansi256_to_rgb(index: u8) -> (r: [u8; 3])
    ensures
        rgb_of(r) == entry256(index as int),
{
    if index < CUBE_FIRST {
        ansi16_to_rgb(index)
    } else if index < GREY_FIRST {
        let cube: usize = (index - CUBE_FIRST) as usize;
        [CUBE_LEVELS[cube / 36], CUBE_LEVELS[(cube % 36) / 6], CUBE_LEVELS[cube % 6]]
    } else {
        let level: u8 = grey_level(index - GREY_FIRST);
        [level, level, level]
    }
}

/// The cube level nearest to a component, the lowest of those as near.
pub open spec fn is_nearest_level(component: int, best: int) -> bool {
    &&& 0 <= best < 6
    &&& forall|l: int|
        0 <= l < 6 ==> gap(component, CUBE_LEVELS@[best] as int) < gap(
            component,
            #[trigger] CUBE_LEVELS@[l] as int,
        ) || (gap(component, CUBE_LEVELS@[best] as int) == gap(component, CUBE_LEVELS@[l] as int)
            && best <= l)
}

/// Index into `CUBE_LEVELS` of the level closest to `component`. Ties resolve
/// to the lower level.
fn nearest_cube_level(component: u8) -> (best: usize)
    ensures
        is_nearest_level(component as int, best as int),
{
    let mut best: usize = 0;
    let mut best_dist: u32 = byte_gap(component as u32, CUBE_LEVELS[0] as u32);
    let mut l: usize = 1;
    while l < 6
        invariant
            best < l <= 6,
            best_dist == gap(component as int, CUBE_LEVELS@[best as int] as int),
            forall|k: int|
                0 <= k < l ==> best_dist < gap(component as int, #[trigger] CUBE_LEVELS@[k] as int)
                    || (best_dist == gap(component as int, CUBE_LEVELS@[k] as int) && best <= k),
        decreases 6 - l,
    {
        let dist: u32 = byte_gap(component as u32, CUBE_LEVELS[l] as u32);
        if dist < best_dist {
            best_dist = dist;
            best = l;
        }
        l += 1;
    }
    best
}

/// Grey ramp step whose triple is closest to a colour with the given channel
/// sum. Ties resolve to the lower step.
fn nearest_grey_step(channel_sum: u32) -> (best: u8)
    ensures
        is_nearest_step(channel_sum as int, best as int),
{
    let mut best: u8 = 0;
    let mut best_dist: u32 = byte_gap(grey_level(0) as u32 * 3, channel_sum);
    let mut step: u8 = 1;
    while step < GREY_COUNT
        invariant
            best < step <= GREY_COUNT,
            best_dist == gap(3 * grey_value(best as int), channel_sum as int),
            forall|s: int|
                0 <= s < step ==> best_dist < gap(
                    3 * #[trigger] grey_value(s),
                    channel_sum as int,
                ) || (best_dist == gap(3 * grey_value(s), channel_sum as int) && best <= s),
        decreases GREY_COUNT - step,
    {
        let dist: u32 = byte_gap(grey_level(step) as u32 * 3, channel_sum);
        if dist < best_dist {
            best_dist = dist;
            best = step;
        }
        step += 1;
    }
    best
}

proof fn lemma_squares_order(x: int, a: int, b: int)
    ensures
        gap(x, a) < gap(x, b) ==> (x - a) * (x - a) < (x - b) * (x - b),
        gap(x, a) == gap(x, b) ==> (x - a) * (x - a) == (x - b) * (x - b),
{
    let p = gap(x, a);
    let q = gap(x, b);
    assert((x - a) * (x - a) == p * p) by (nonlinear_arith)
        requires
            p == x - a || p == a - x,
    ;
    assert((x - b) * (x - b) == q * q) by (nonlinear_arith)
        requires
            q == x - b || q == b - x,
    ;
    if p < q {
        assert(p * p < q * q) by (nonlinear_arith)
            requires
                0 <= p < q,
        ;
    }
}

/// Channel by channel the nearest level, so the nearest entry of the cube.
proof fn lemma_cube(c: (int, int, int), r: int, g: int, b: int, i: int)
    requires
        is_nearest_level(c.0, r),
        is_nearest_level(c.1, g),
        is_nearest_level(c.2, b),
        16 <= i < 232,
    ensures
        entry256(16 + 36 * r + 6 * g + b) == (
            CUBE_LEVELS@[r] as int,
            CUBE_LEVELS@[g] as int,
            CUBE_LEVELS@[b] as int,
        ),
        ({
            let best = 16 + 36 * r + 6 * g + b;
            distance(c, entry256(best)) < distance(c, entry256(i)) || (distance(c, entry256(best))
                == distance(c, entry256(i)) && best <= i)
        }),
{
    let best = 16 + 36 * r + 6 * g + b;
    let cube = best - 16;
    assert(cube / 36 == r && cube % 36 / 6 == g && cube % 6 == b);
    let other = i - 16;
    let (r2, g2, b2) = (other / 36, other % 36 / 6, other % 6);
    assert(0 <= r2 < 6 && 0 <= g2 < 6 && 0 <= b2 < 6 && other == 36 * r2 + 6 * g2 + b2);
    lemma_squares_order(c.0, CUBE_LEVELS@[r] as int, CUBE_LEVELS@[r2] as int);
    lemma_squares_order(c.1, CUBE_LEVELS@[g] as int, CUBE_LEVELS@[g2] as int);
    lemma_squares_order(c.2, CUBE_LEVELS@[b] as int, CUBE_LEVELS@[b2] as int);
}

/// The distance to a grey is a parabola around a third of the channel sum.
proof fn lemma_grey_distance(c: (int, int, int), v: int)
    ensures
        3 * distance(c, (v, v, v)) == (3 * v - (c.0 + c.1 + c.2)) * (3 * v - (c.0 + c.1 + c.2)) + 3
            * (c.0 * c.0 + c.1 * c.1 + c.2 * c.2) - (c.0 + c.1 + c.2) * (c.0 + c.1 + c.2),
{
    let (x, y, z) = c;
    let sum = x + y + z;
    lemma_square_of_difference(x, v);
    lemma_square_of_difference(y, v);
    lemma_square_of_difference(z, v);
    assert((3 * v - sum) * (3 * v - sum) == 9 * (v * v) - 6 * (sum * v) + sum * sum)
        by (nonlinear_arith);
    assert(sum * v == x * v + y * v + z * v) by (nonlinear_arith)
        requires
            sum == x + y + z,
    ;
}

proof fn lemma_square_of_difference(a: int, b: int)
    ensures
        (a - b) * (a - b) == a * a - 2 * (a * b) + b * b,
{
    assert((a - b) * (a - b) == a * a - 2 * (a * b) + b * b) by (nonlinear_arith);
}

proof fn lemma_grey(c: (int, int, int), best: int, i: int)
    requires
        is_nearest_step(c.0 + c.1 + c.2, best),
        232 <= i < 256,
    ensures
        distance(c, entry256(232 + best)) < distance(c, entry256(i)) || (distance(
            c,
            entry256(232 + best),
        ) == distance(c, entry256(i)) && 232 + best <= i),
{
    let sum = c.0 + c.1 + c.2;
    let v = grey_value(best);
    let w = grey_value(i - 232);
    lemma_grey_distance(c, v);
    lemma_grey_distance(c, w);
    lemma_squares_order(sum, 3 * v, 3 * w);
    assert((sum - 3 * v) * (sum - 3 * v) == (3 * v - sum) * (3 * v - sum)) by (nonlinear_arith);
    assert((sum - 3 * w) * (sum - 3 * w) == (3 * w - sum) * (3 * w - sum)) by (nonlinear_arith);
    assert(entry256(232 + best) == (v, v, v));
    assert(entry256(i) == (w, w, w));
}

/// Nearest xterm-256 entry to `rgb` among the cube and the grey ramp.
pub fn rgb_to_ansi256(rgb: [u8; 3]) -> (best: u8)
    ensures
        is_nearest256(rgb_of(rgb), best as int),
{
    let ghost c = rgb_of(rgb);
    let r: usize = nearest_cube_level(rgb[0]);
    let g: usize = nearest_cube_level(rgb[1]);
    let b: usize = nearest_cube_level(rgb[2]);
    let cube_rgb: [u8; 3] = [CUBE_LEVELS[r], CUBE_LEVELS[g], CUBE_LEVELS[b]];
    let cube_index: u8 = CUBE_FIRST + (36 * r + 6 * g + b) as u8;
    let cube_dist: u32 = dist2(rgb, cube_rgb);
    let sum: u32 = rgb[0] as u32 + rgb[1] as u32 + rgb[2] as u32;
    let step: u8 = nearest_grey_step(sum);
    let grey: u8 = grey_level(step);
    let grey_dist: u32 = dist2(rgb, [grey, grey, grey]);
    proof {
        assert forall|i: int| 16 <= i < 232 implies distance(c, entry256(cube_index as int))
            < distance(c, #[trigger] entry256(i)) || (distance(c, entry256(cube_index as int))
            == distance(c, entry256(i)) && cube_index <= i) by {
            lemma_cube(c, r as int, g as int, b as int, i);
        }
        lemma_cube(c, r as int, g as int, b as int, 16);
        assert(entry256(cube_index as int) == rgb_of(cube_rgb));
        assert forall|i: int| 232 <= i < 256 implies distance(c, entry256(232 + step)) < distance(
            c,
            #[trigger] entry256(i),
        ) || (distance(c, entry256(232 + step)) == distance(c, entry256(i)) && 232 + step <= i) by {
            lemma_grey(c, step as int, i);
        }
        assert(entry256(232 + step) == rgb_of([grey, grey, grey]));
    }
    if grey_dist < cube_dist {
        GREY_FIRST + step
    } else {
        cube_index
    }
}

/// Nearest system colour to `rgb`.
pub fn rgb_to_ansi16(rgb: [u8; 3]) -> (best: u8)
    ensures
        is_nearest16(rgb_of(rgb), best as int),
{
    let ghost c = rgb_of(rgb);
    let mut best: u8 = 0;
    let mut best_dist: u32 = dist2(rgb, ANSI16_PALETTE[0]);
    let mut i: u8 = 1;
    while i < 16
        invariant
            best < i <= 16,
            c == rgb_of(rgb),
            best_dist == distance(c, rgb_of(ANSI16_PALETTE@[best as int])),
            forall|k: int|
                0 <= k < i ==> best_dist < distance(c, rgb_of(#[trigger] ANSI16_PALETTE@[k])) || (
                best_dist == distance(c, rgb_of(ANSI16_PALETTE@[k])) && best <= k),
        decreases 16 - i,
    {
        let dist: u32 = dist2(rgb, ANSI16_PALETTE[i as usize]);
        if dist < best_dist {
            best_dist = dist;
            best = i;
        }
        i += 1;
    }
    best
}

// --- usable components -------------------------------------------------------

/// The bit pattern of full intensity, 1.0.
pub const FULL: u32 = 0x3f80_0000;

/// A component brought into the range 0.0 to 1.0: what is no number becomes
/// 0.0, everything else the nearest number in the range.
pub open spec fn usable(component: u32) -> u32 {
    if is_nan(component) || rank(component) < 0 {
        0
    } else if rank(component) > rank(FULL) {
        FULL
    } else {
        component
    }
}

fn fix(component: u32) -> (r: u32)
    ensures
        r == usable(component),
{
    if not_a_number(component) || is_less(component, 0) {
        0
    } else if is_less(FULL, component) {
        FULL
    } else {
        component
    }
}

/// A colour with every component brought into the range 0.0 to 1.0. Components
/// are bit patterns of single-precision numbers.
pub fn sanitize(rgb: [u32; 3]) -> (r: [u32; 3])
    ensures
        forall|i: int| 0 <= i < 3 ==> #[trigger] r@[i] == usable(rgb@[i]),
{
    [fix(rgb[0]), fix(rgb[1]), fix(rgb[2])]
}

// --- modes -------------------------------------------------------------------

impl Default for ColorMode {
    fn default() -> (r: Self)
        ensures
            r == ColorMode::TrueColor,
    {
        ColorMode::TrueColor
    }
}

/// The grey ramp step for a brightness.
pub fn grey_step_of(brightness: u8) -> (step: u8)
    ensures
        is_nearest_step(3 * brightness, step as int),
{
    nearest_grey_step(brightness as u32 * 3)
}

impl ColorMode {
    /// Every mode, in declaration order.
    pub const ALL: [ColorMode; 5] = [
        ColorMode::TrueColor,
        ColorMode::Ansi256,
        ColorMode::Ansi16,
        ColorMode::Grayscale,
        ColorMode::Monochrome,
    ];

    /// The terminal colour index for a colour, for modes that have one. The
    /// brightness is the colour's luminance as a byte.
    pub fn palette_index(&self, rgb: [u8; 3], brightness: u8) -> (r: Option<u8>)
        ensures
            match *self {
                ColorMode::TrueColor | ColorMode::Monochrome => r is None,
                ColorMode::Ansi256 => r matches Some(i) && is_nearest256(rgb_of(rgb), i as int),
                ColorMode::Ansi16 => r matches Some(i) && is_nearest16(rgb_of(rgb), i as int),
                ColorMode::Grayscale => r matches Some(i) && 232 <= i && is_nearest_step(
                    3 * brightness,
                    i - 232,
                ),
            },
    {
        match *self {
            ColorMode::TrueColor | ColorMode::Monochrome => None,
            ColorMode::Ansi256 => Some(rgb_to_ansi256(rgb)),
            ColorMode::Ansi16 => Some(rgb_to_ansi16(rgb)),
            ColorMode::Grayscale => Some(GREY_FIRST + grey_step_of(brightness)),
        }
    }

    /// What this mode displays for a colour: `None` where the sanitized colour
    /// is shown as it is, else the displayed colour. It is the colour of the
    /// palette index, for modes that have one.
    pub fn quantize(&self, rgb: [u8; 3], brightness: u8) -> (r: Option<[u8; 3]>)
        ensures
            match *self {
                ColorMode::TrueColor => r is None,
                ColorMode::Monochrome => r == Some(MONOCHROME_FOREGROUND),
                ColorMode::Ansi256 => r matches Some(shown) && exists|i: int|
                    is_nearest256(rgb_of(rgb), i) && rgb_of(shown) == #[trigger] entry256(i),
                ColorMode::Ansi16 => r matches Some(shown) && exists|i: int|
                    is_nearest16(rgb_of(rgb), i) && shown == #[trigger] ANSI16_PALETTE@[i],
                ColorMode::Grayscale => r matches Some(shown) && exists|s: int|
                    is_nearest_step(3 * brightness, s) && rgb_of(shown) == (
                        #[trigger] grey_value(s),
                        grey_value(s),
                        grey_value(s),
                    ),
            },
    {
        match *self {
            ColorMode::TrueColor => None,
            ColorMode::Ansi256 => Some(ansi256_to_rgb(rgb_to_ansi256(rgb))),
            ColorMode::Ansi16 => {
                let i: u8 = rgb_to_ansi16(rgb);
                assert(is_nearest16(rgb_of(rgb), i as int));
                assert(i as int % 16 == i);
                Some(ansi16_to_rgb(i))
            },
            ColorMode::Grayscale => {
                let step: u8 = grey_step_of(brightness);
                let level: u8 = grey_level(step);
                let shown: [u8; 3] = [level, level, level];
                assert(rgb_of(shown) == (
                    grey_value(step as int),
                    grey_value(step as int),
                    grey_value(step as int),
                ));
                Some(shown)
            },
            ColorMode::Monochrome => Some(MONOCHROME_FOREGROUND),
        }
    }
}

// --- laws --------------------------------------------------------------------

/// There is one nearest entry: a colour fixes the palette index.
pub proof fn law_nearest_entry_is_unique(c: (int, int, int), a: int, b: int)
    ensures
        is_nearest256(c, a) && is_nearest256(c, b) ==> a == b,
        is_nearest16(c, a) && is_nearest16(c, b) ==> a == b,
{
    if is_nearest256(c, a) && is_nearest256(c, b) {
        assert(distance(c, entry256(a)) == distance(c, entry256(b)));
    }
    if is_nearest16(c, a) && is_nearest16(c, b) {
        let (x, y) = (ANSI16_PALETTE@[a], ANSI16_PALETTE@[b]);
        assert(distance(c, rgb_of(x)) == distance(c, rgb_of(y)));
    }
}

proof fn lemma_zero_distance(a: (int, int, int), b: (int, int, int))
    ensures
        distance(a, b) >= 0,
        distance(a, b) == 0 ==> a == b,
        distance(a, a) == 0,
{
    let (x, y, z) = (a.0 - b.0, a.1 - b.1, a.2 - b.2);
    assert(x * x >= 0 && (x * x == 0 ==> x == 0)) by (nonlinear_arith);
    assert(y * y >= 0 && (y * y == 0 ==> y == 0)) by (nonlinear_arith);
    assert(z * z >= 0 && (z * z == 0 ==> z == 0)) by (nonlinear_arith);
}

proof fn lemma_levels_differ(a: int, b: int)
    requires
        0 <= a < 6,
        0 <= b < 6,
        CUBE_LEVELS@[a] == CUBE_LEVELS@[b],
    ensures
        a == b,
{
}

proof fn lemma_grey_is_no_level(step: int, l: int)
    requires
        0 <= step < 24,
        0 <= l < 6,
    ensures
        grey_value(step) != CUBE_LEVELS@[l],
{
    assert(grey_value(step) % 10 == 8);
}

/// A palette colour maps back to its own index, for every index that is
/// searched.
pub proof fn law_ansi256_round_trip(index: int, found: int)
    requires
        16 <= index < 256,
        is_nearest256(entry256(index), found),
    ensures
        found == index,
{
    let c = entry256(index);
    lemma_zero_distance(c, c);
    lemma_zero_distance(c, entry256(found));
    assert(distance(c, entry256(found)) <= distance(c, entry256(index)));
    assert(entry256(found) == c);
    if index < 232 && found < 232 {
        let (p, q) = (index - 16, found - 16);
        lemma_levels_differ(p / 36, q / 36);
        lemma_levels_differ(p % 36 / 6, q % 36 / 6);
        lemma_levels_differ(p % 6, q % 6);
        assert(p == 36 * (p / 36) + 6 * (p % 36 / 6) + p % 6);
        assert(q == 36 * (q / 36) + 6 * (q % 36 / 6) + q % 6);
    } else if index < 232 {
        lemma_grey_is_no_level(found - 232, (index - 16) / 36);
    } else if found < 232 {
        lemma_grey_is_no_level(index - 232, (found - 16) / 36);
    }
}

proof fn lemma_system_colours_differ(a: int, b: int)
    requires
        0 <= a < 16,
        0 <= b < 16,
        rgb_of(ANSI16_PALETTE@[a]) == rgb_of(ANSI16_PALETTE@[b]),
    ensures
        a == b,
{
}

/// A system colour maps back to its own index.
pub proof fn law_ansi16_round_trip(index: int, found: int)
    requires
        0 <= index < 16,
        is_nearest16(rgb_of(ANSI16_PALETTE@[index]), found),
    ensures
        found == index,
{
    let c = rgb_of(ANSI16_PALETTE@[index]);
    let e = rgb_of(ANSI16_PALETTE@[found]);
    lemma_zero_distance(c, c);
    lemma_zero_distance(c, e);
    assert(distance(c, e) <= distance(c, rgb_of(ANSI16_PALETTE@[index])));
    lemma_system_colours_differ(index, found);
}

/// A sanitized component is a number from 0.0 to 1.0, and a component that was
/// one already is kept.
pub proof fn law_sanitized_components_are_usable(component: u32)
    ensures
        !is_nan(usable(component)),
        0 <= rank(usable(component)) <= rank(FULL),
        !is_nan(component) && 0 <= rank(component) <= rank(FULL) ==> usable(component) == component,
        usable(usable(component)) == usable(component),
{
}

} // verus!
