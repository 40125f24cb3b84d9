//! Box drawing characters and four geometric arrows.
//!
//! Frame glyphs are made of strokes rather than typed bitmaps, so that pieces
//! that stand next to each other meet. Single lines run along index 4, the
//! centre axis; double lines run along indices 3 and 5, on both sides of it.

use vstd::prelude::*;
use crate::ascii::glyph_atlas::{Glyph, append_glyph, blank, depicts, dot, fill};
use crate::ascii::glyph_atlas::{lemma_strip_step, strip};

verus! {

/// Centre axis for single-width strokes.
pub const MID: usize = 4;

/// The first of the two axes used by double-width strokes.
pub const LO: usize = 3;

/// The second of the two axes used by double-width strokes.
pub const HI: usize = 5;

/// The last row and column of a glyph.
pub const LAST: usize = 7;

/// Characters provided by this module, in atlas order.
pub const BOX_CHARS: [char; 26] = [
    '─',
    '│',
    '┌',
    '┐',
    '└',
    '┘',
    '├',
    '┤',
    '┬',
    '┴',
    '┼',
    '═',
    '║',
    '╔',
    '╗',
    '╚',
    '╝',
    '╠',
    '╣',
    '╦',
    '╩',
    '╬',
    '▲',
    '▼',
    '◄',
    '►',
];

/// Number of glyphs in this section.
pub const BOX_COUNT: usize = 26;

/// One stroke: a horizontal or vertical run of pixels.
#[derive(Clone, Copy, Debug, PartialEq, Eq, Structural)]
pub enum Segment {
    /// Row `y`, columns `x0..=x1`.
    Horizontal { y: usize, x0: usize, x1: usize },
    /// Column `x`, rows `y0..=y1`.
    Vertical { x: usize, y0: usize, y1: usize },
}

impl Segment {
    /// Does the stroke pass through the pixel?
    pub open spec fn crosses(self, px: int, py: int) -> bool {
        match self {
            Segment::Horizontal { y, x0, x1 } => py == y && x0 <= px <= x1,
            Segment::Vertical { x, y0, y1 } => px == x && y0 <= py <= y1,
        }
    }

    /// The stroke lies within a glyph.
    pub open spec fn fits(self) -> bool {
        match self {
            Segment::Horizontal { y, x0, x1 } => y < 8 && x0 <= x1 < 8,
            Segment::Vertical { x, y0, y1 } => x < 8 && y0 <= y1 < 8,
        }
    }
}

/// Some stroke of the list passes through the pixel.
pub open spec fn crossed(strokes: Seq<Segment>, x: int, y: int) -> bool {
    exists|k: int| 0 <= k < strokes.len() && (#[trigger] strokes[k]).crosses(x, y)
}

/// Full-width horizontal stroke on row `y`.
pub open spec fn across(y: usize) -> Segment {
    Segment::Horizontal { y, x0: 0, x1: LAST }
}

/// Horizontal stroke from `x0` to the right edge.
pub open spec fn rightward(y: usize, x0: usize) -> Segment {
    Segment::Horizontal { y, x0, x1: LAST }
}

/// Horizontal stroke from the left edge to `x1`.
pub open spec fn leftward(y: usize, x1: usize) -> Segment {
    Segment::Horizontal { y, x0: 0, x1 }
}

/// Full-height vertical stroke on column `x`.
pub open spec fn upright(x: usize) -> Segment {
    Segment::Vertical { x, y0: 0, y1: LAST }
}

/// Vertical stroke from `y0` to the bottom edge.
pub open spec fn downward(x: usize, y0: usize) -> Segment {
    Segment::Vertical { x, y0, y1: LAST }
}

/// Vertical stroke from the top edge to `y1`.
pub open spec fn upward(x: usize, y1: usize) -> Segment {
    Segment::Vertical { x, y0: 0, y1 }
}

/// The strokes of the frame glyph at `index`.
pub open spec fn strokes(index: int) -> Seq<Segment> {
    if index == 0 {
        seq![across(MID)]
    } else if index == 1 {
        seq![upright(MID)]
    } else if index == 2 {
        seq![rightward(MID, MID), downward(MID, MID)]
    } else if index == 3 {
        seq![leftward(MID, MID), downward(MID, MID)]
    } else if index == 4 {
        seq![rightward(MID, MID), upward(MID, MID)]
    } else if index == 5 {
        seq![leftward(MID, MID), upward(MID, MID)]
    } else if index == 6 {
        seq![upright(MID), rightward(MID, MID)]
    } else if index == 7 {
        seq![upright(MID), leftward(MID, MID)]
    } else if index == 8 {
        seq![across(MID), downward(MID, MID)]
    } else if index == 9 {
        seq![across(MID), upward(MID, MID)]
    } else if index == 10 {
        seq![across(MID), upright(MID)]
    } else if index == 11 {
        seq![across(LO), across(HI)]
    } else if index == 12 {
        seq![upright(LO), upright(HI)]
    } else if index == 13 {
        seq![rightward(LO, LO), rightward(HI, HI), downward(LO, LO), downward(HI, HI)]
    } else if index == 14 {
        seq![leftward(LO, HI), leftward(HI, LO), downward(HI, LO), downward(LO, HI)]
    } else if index == 15 {
        seq![rightward(HI, LO), rightward(LO, HI), upward(LO, HI), upward(HI, LO)]
    } else if index == 16 {
        seq![leftward(HI, HI), leftward(LO, LO), upward(HI, HI), upward(LO, LO)]
    } else if index == 17 {
        seq![upright(LO), upright(HI), rightward(LO, HI), rightward(HI, HI)]
    } else if index == 18 {
        seq![upright(LO), upright(HI), leftward(LO, LO), leftward(HI, LO)]
    } else if index == 19 {
        seq![across(LO), across(HI), downward(LO, HI), downward(HI, HI)]
    } else if index == 20 {
        seq![across(LO), across(HI), upward(LO, LO), upward(HI, LO)]
    } else if index == 21 {
        seq![across(LO), across(HI), upright(LO), upright(HI)]
    } else {
        seq![]
    }
}

/// The picture of the glyph at `index`: a solid triangle for the arrows, the
/// strokes for a frame piece, nothing past the last glyph.
pub open spec fn box_ink(index: int, x: int, y: int) -> bool {
    if index == 22 {
        2 <= y < 6 && 5 - y <= x <= y + 2
    } else if index == 23 {
        2 <= y < 6 && y - 2 <= x <= 9 - y
    } else if index == 24 {
        2 <= x < 6 && 5 - x <= y <= x + 2
    } else if index == 25 {
        2 <= x < 6 && x - 2 <= y <= 9 - x
    } else {
        crossed(strokes(index), x, y)
    }
}

fn h_full(y: usize) -> (r: Segment)
    ensures
        r == across(y),
{
    Segment::Horizontal { y, x0: 0, x1: LAST }
}

fn h_right(y: usize, x0: usize) -> (r: Segment)
    ensures
        r == rightward(y, x0),
{
    Segment::Horizontal { y, x0, x1: LAST }
}

fn h_left(y: usize, x1: usize) -> (r: Segment)
    ensures
        r == leftward(y, x1),
{
    Segment::Horizontal { y, x0: 0, x1 }
}

fn v_full(x: usize) -> (r: Segment)
    ensures
        r == upright(x),
{
    Segment::Vertical { x, y0: 0, y1: LAST }
}

fn v_down(x: usize, y0: usize) -> (r: Segment)
    ensures
        r == downward(x, y0),
{
    Segment::Vertical { x, y0, y1: LAST }
}

fn v_up(x: usize, y1: usize) -> (r: Segment)
    ensures
        r == upward(x, y1),
{
    Segment::Vertical { x, y0: 0, y1 }
}

/// Segments for the glyph at `index` (matching `BOX_CHARS`).
fn segments(index: usize) -> (r: Vec<Segment>)
    ensures
        r@ == strokes(index as int),
        forall|k: int| 0 <= k < r@.len() ==> (#[trigger] r@[k]).fits(),
{
    let list: Vec<Segment> = match index {
        0 => vec![h_full(MID)],
        1 => vec![v_full(MID)],
        2 => vec![h_right(MID, MID), v_down(MID, MID)],
        3 => vec![h_left(MID, MID), v_down(MID, MID)],
        4 => vec![h_right(MID, MID), v_up(MID, MID)],
        5 => vec![h_left(MID, MID), v_up(MID, MID)],
        6 => vec![v_full(MID), h_right(MID, MID)],
        7 => vec![v_full(MID), h_left(MID, MID)],
        8 => vec![h_full(MID), v_down(MID, MID)],
        9 => vec![h_full(MID), v_up(MID, MID)],
        10 => vec![h_full(MID), v_full(MID)],
        11 => vec![h_full(LO), h_full(HI)],
        12 => vec![v_full(LO), v_full(HI)],
        13 => vec![h_right(LO, LO), h_right(HI, HI), v_down(LO, LO), v_down(HI, HI)],
        14 => vec![h_left(LO, HI), h_left(HI, LO), v_down(HI, LO), v_down(LO, HI)],
        15 => vec![h_right(HI, LO), h_right(LO, HI), v_up(LO, HI), v_up(HI, LO)],
        16 => vec![h_left(HI, HI), h_left(LO, LO), v_up(HI, HI), v_up(LO, LO)],
        17 => vec![v_full(LO), v_full(HI), h_right(LO, HI), h_right(HI, HI)],
        18 => vec![v_full(LO), v_full(HI), h_left(LO, LO), h_left(HI, LO)],
        19 => vec![h_full(LO), h_full(HI), v_down(LO, HI), v_down(HI, HI)],
        20 => vec![h_full(LO), h_full(HI), v_up(LO, LO), v_up(HI, LO)],
        21 => vec![h_full(LO), h_full(HI), v_full(LO), v_full(HI)],
        _ => Vec::new(),
    };
    assert(list@ =~= strokes(index as int));
    list
}

/// The frame piece at `index`, stroke by stroke.
fn draw_strokes(index: usize) -> (glyph: Glyph)
    ensures
        depicts(glyph, |x: int, y: int| crossed(strokes(index as int), x, y)),
{
    let list = segments(index);
    let ghost all = strokes(index as int);
    let mut glyph = blank();
    let mut k: usize = 0;
    assert forall|i: int| 0 <= i < 64 implies #[trigger] glyph@[i]@ == dot(
        crossed(all.take(0), i % 8, i / 8),
    ) by {}
    while k < list.len()
        invariant
            k <= list.len(),
            list@ == all,
            forall|j: int| 0 <= j < list@.len() ==> (#[trigger] list@[j]).fits(),
            forall|i: int|
                0 <= i < 64 ==> #[trigger] glyph@[i]@ == dot(
                    crossed(all.take(k as int), i % 8, i / 8),
                ),
        decreases list.len() - k,
    {
        let ghost before = glyph;
        let segment: Segment = list[k];
        assert(segment.fits());
        match segment {
            Segment::Horizontal { y, x0, x1 } => {
                fill(&mut glyph, x0, x1 + 1, y, y + 1);
            },
            Segment::Vertical { x, y0, y1 } => {
                fill(&mut glyph, x, x + 1, y0, y1 + 1);
            },
        }
        assert forall|i: int| 0 <= i < 64 implies #[trigger] glyph@[i]@ == dot(
            crossed(all.take(k + 1), i % 8, i / 8),
        ) by {
            lemma_crossed_step(all, k as int, i % 8, i / 8);
            assert(before@[i]@ == dot(crossed(all.take(k as int), i % 8, i / 8)));
        }
        k += 1;
    }
    assert(all.take(k as int) =~= all);
    glyph
}

proof fn lemma_crossed_step(all: Seq<Segment>, k: int, x: int, y: int)
    requires
        0 <= k < all.len(),
    ensures
        crossed(all.take(k + 1), x, y) == (crossed(all.take(k), x, y) || all[k].crosses(x, y)),
{
    let longer = all.take(k + 1);
    let shorter = all.take(k);
    if crossed(shorter, x, y) {
        let j = choose|j: int| 0 <= j < shorter.len() && (#[trigger] shorter[j]).crosses(x, y);
        assert(longer[j].crosses(x, y));
    }
    if all[k].crosses(x, y) {
        assert(longer[k].crosses(x, y));
    }
    if crossed(longer, x, y) {
        let j = choose|j: int| 0 <= j < longer.len() && (#[trigger] longer[j]).crosses(x, y);
        if j < k {
            assert(shorter[j].crosses(x, y));
        }
    }
}

/// A triangle that widens by a pixel on each side from one row to the next.
fn triangle_up() -> (g: Glyph)
    ensures
        depicts(g, |x: int, y: int| box_ink(22, x, y)),
{
    let mut g = blank();
    fill(&mut g, 3, 5, 2, 3);
    fill(&mut g, 2, 6, 3, 4);
    fill(&mut g, 1, 7, 4, 5);
    fill(&mut g, 0, 8, 5, 6);
    g
}

/// The same triangle mirrored vertically.
fn triangle_down() -> (g: Glyph)
    ensures
        depicts(g, |x: int, y: int| box_ink(23, x, y)),
{
    let mut g = blank();
    fill(&mut g, 0, 8, 2, 3);
    fill(&mut g, 1, 7, 3, 4);
    fill(&mut g, 2, 6, 4, 5);
    fill(&mut g, 3, 5, 5, 6);
    g
}

/// A triangle that widens toward the right.
fn triangle_left() -> (g: Glyph)
    ensures
        depicts(g, |x: int, y: int| box_ink(24, x, y)),
{
    let mut g = blank();
    fill(&mut g, 2, 3, 3, 5);
    fill(&mut g, 3, 4, 2, 6);
    fill(&mut g, 4, 5, 1, 7);
    fill(&mut g, 5, 6, 0, 8);
    g
}

/// The same triangle mirrored horizontally.
fn triangle_right() -> (g: Glyph)
    ensures
        depicts(g, |x: int, y: int| box_ink(25, x, y)),
{
    let mut g = blank();
    fill(&mut g, 2, 3, 0, 8);
    fill(&mut g, 3, 4, 1, 7);
    fill(&mut g, 4, 5, 2, 6);
    fill(&mut g, 5, 6, 3, 5);
    g
}

/// Render the glyph at `index` into the atlas's 8x8 format.
pub fn render_box_glyph(index: usize) -> (glyph: Glyph)
    ensures
        depicts(glyph, |x: int, y: int| box_ink(index as int, x, y)),
{
    match index {
        22 => triangle_up(),
        23 => triangle_down(),
        24 => triangle_left(),
        25 => triangle_right(),
        _ => draw_strokes(index),
    }
}

/// Index of `c` within this section, or `None` if it is not a box glyph.
pub fn box_index(c: char) -> (r: Option<usize>)
    ensures
        r matches Some(i) ==> i < BOX_COUNT && BOX_CHARS@[i as int] == c && forall|j: int|
            0 <= j < i ==> BOX_CHARS@[j] != c,
        r is None <==> !BOX_CHARS@.contains(c),
{
    let mut i: usize = 0;
    while i < 26
        invariant
            i <= 26,
            forall|j: int| 0 <= j < i ==> BOX_CHARS@[j] != c,
        decreases 26 - i,
    {
        if BOX_CHARS[i] == c {
            assert(BOX_CHARS@[i as int] == c);
            return Some(i);
        }
        i += 1;
    }
    None
}

/// The box drawing section of the atlas.
pub open spec fn box_strip() -> Seq<u8> {
    strip(26, |index: int, x: int, y: int| box_ink(index, x, y))
}

/// The box drawing section as flat RGBA bytes.
pub fn build_box_atlas() -> (atlas: Vec<u8>)
    ensures
        atlas@ == box_strip(),
        atlas@.len() == BOX_COUNT * 64 * 4,
{
    let ghost ink = |index: int, x: int, y: int| box_ink(index, x, y);
    let mut atlas: Vec<u8> = Vec::new();
    let mut i: usize = 0;
    assert(atlas@ =~= strip(0, ink));
    while i < BOX_COUNT
        invariant
            i <= BOX_COUNT,
            ink == (|index: int, x: int, y: int| box_ink(index, x, y)),
            atlas@ == strip(i as nat, ink),
        decreases BOX_COUNT - i,
    {
        let glyph = render_box_glyph(i);
        proof {
            lemma_strip_step(i as nat, ink, glyph, |x: int, y: int| box_ink(i as int, x, y));
        }
        append_glyph(&mut atlas, &glyph);
        i += 1;
    }
    atlas
}

// --- pieces meet -------------------------------------------------------------

/// The frame piece reaches its left edge.
pub open spec fn joins_left(index: int) -> bool {
    index == 0 || index == 3 || index == 5 || 7 <= index <= 10 || index == 11 || index == 14
        || index == 16 || 18 <= index <= 21
}

/// The frame piece reaches its right edge.
pub open spec fn joins_right(index: int) -> bool {
    index == 0 || index == 2 || index == 4 || index == 6 || 8 <= index <= 11 || index == 13
        || index == 15 || index == 17 || 19 <= index <= 21
}

/// The frame piece reaches its top edge.
pub open spec fn joins_top(index: int) -> bool {
    index == 1 || 4 <= index <= 7 || 9 <= index <= 10 || index == 12 || 15 <= index <= 18 || 20
        <= index <= 21
}

/// The frame piece reaches its bottom edge.
pub open spec fn joins_bottom(index: int) -> bool {
    1 <= index <= 3 || 6 <= index <= 8 || index == 10 || 12 <= index <= 14 || 17 <= index <= 19
        || index == 21
}

/// The axes on which the strokes of a frame piece leave it.
pub open spec fn on_axis(index: int, k: int) -> bool {
    if index < 11 {
        k == MID
    } else {
        k == LO || k == HI
    }
}

proof fn lemma_crossed_by_four(s: Seq<Segment>, x: int, y: int)
    requires
        s.len() <= 4,
    ensures
        crossed(s, x, y) == ((s.len() > 0 && s[0].crosses(x, y)) || (s.len() > 1
            && s[1].crosses(x, y)) || (s.len() > 2 && s[2].crosses(x, y)) || (s.len() > 3
            && s[3].crosses(x, y))),
{
}

/// A frame piece touches each edge of its cell on the axes of its line style
/// and nowhere else, and only where it has an arm towards that edge. Pieces of
/// one style that turn an arm to each other therefore meet without a gap.
pub proof fn law_frame_pieces_meet(index: int, k: int)
    requires
        0 <= index < 22,
        0 <= k < 8,
    ensures
        box_ink(index, 0, k) == (joins_left(index) && on_axis(index, k)),
        box_ink(index, 7, k) == (joins_right(index) && on_axis(index, k)),
        box_ink(index, k, 0) == (joins_top(index) && on_axis(index, k)),
        box_ink(index, k, 7) == (joins_bottom(index) && on_axis(index, k)),
{
    let s = strokes(index);
    lemma_crossed_by_four(s, 0, k);
    lemma_crossed_by_four(s, 7, k);
    lemma_crossed_by_four(s, k, 0);
    lemma_crossed_by_four(s, k, 7);
}

/// The arrows are mirror images: down of up across the rows, right of left
/// across the columns, and left of up across the diagonal.
pub proof fn law_arrows_mirror(x: int, y: int)
    ensures
        box_ink(23, x, y) == box_ink(22, x, 7 - y),
        box_ink(25, x, y) == box_ink(24, 7 - x, y),
        box_ink(24, x, y) == box_ink(22, y, x),
{
}

} // verus!
