//! The text overlay: a character layer of the size of the cell grid, drawn over
//! the scene.
//!
//! A cell is either part of the user interface (opaque) or lets the scene
//! through; there is no blending. Row 0 is the top row. Coordinates outside the
//! overlay, empty overlays and empty rectangles draw nothing.

use vstd::arithmetic::div_mod::lemma_fundamental_div_mod_converse;
use vstd::prelude::*;
use crate::ascii::glyph_atlas::{ALL_CHARS, SPACE_INDEX};
use crate::ascii::{overlay_glyph, overlay_glyph_of};
use crate::text::{is_control, is_control_char, is_digit, is_digit_char, is_space, is_whitespace};

verus! {

/// Linear RGB, each channel the bit pattern of a single-precision number.
#[derive(Clone, Copy, Debug, PartialEq, Eq, Structural)]
pub struct Rgb {
    pub r: u32,
    pub g: u32,
    pub b: u32,
}

/// One cell of the scene layer: glyph index and colour.
pub type SceneCell = (u32, Rgb);

/// A single overlay cell. Where it is not opaque, its other fields mean
/// nothing.
#[derive(Clone, Copy, Debug, PartialEq, Eq, Structural)]
pub struct OverlayCell {
    /// Index into the glyph atlas.
    pub glyph_index: u32,
    /// Linear RGB tint applied to the glyph.
    pub color: Rgb,
    /// `true` where this cell replaces the scene cell underneath.
    pub opaque: bool,
}

/// A cell that lets the scene through.
pub open spec fn clear_cell() -> OverlayCell {
    OverlayCell { glyph_index: SPACE_INDEX, color: Rgb { r: 0, g: 0, b: 0 }, opaque: false }
}

/// A cell that shows a glyph.
pub open spec fn ink_cell(glyph_index: u32, color: Rgb) -> OverlayCell {
    OverlayCell { glyph_index, color, opaque: true }
}

impl OverlayCell {
    /// A transparent cell: the scene shows through.
    pub fn transparent() -> (r: Self)
        ensures
            r == clear_cell(),
    {
        OverlayCell { glyph_index: SPACE_INDEX, color: Rgb { r: 0, g: 0, b: 0 }, opaque: false }
    }

    /// An opaque cell drawing `glyph_index` tinted with `color`.
    pub fn new(glyph_index: u32, color: Rgb) -> (r: Self)
        ensures
            r == ink_cell(glyph_index, color),
    {
        OverlayCell { glyph_index, color, opaque: true }
    }
}

impl Default for OverlayCell {
    fn default() -> (r: Self)
        ensures
            r == clear_cell(),
    {
        OverlayCell::transparent()
    }
}

// --- characters to glyphs ----------------------------------------------------

/// Characters with little ink.
pub open spec fn is_narrow(c: char) -> bool {
    c == '\'' || c == '"' || c == '`' || c == ',' || c == ';' || c == '!' || c == '|' || c == 'i'
        || c == 'l' || c == 'j' || c == 'I' || c == '1'
}

/// ASCII punctuation.
pub open spec fn is_mark(c: char) -> bool {
    '!' <= c <= '/' || ':' <= c <= '@' || '[' <= c <= '`' || '{' <= c <= '~'
}

/// The ramp glyph of about the visual weight of a character.
pub open spec fn ramp_glyph(c: char) -> u32 {
    if is_control_char(c) || is_space(c) {
        0
    } else if is_narrow(c) {
        3
    } else if is_digit_char(c) || 'a' <= c <= 'z' {
        5
    } else if 'A' <= c <= 'Z' {
        7
    } else if is_mark(c) {
        4
    } else {
        5
    }
}

/// The glyph of a character in the shading section: its own where there is
/// one, else the ramp glyph of about its weight.
pub open spec fn default_glyph(c: char) -> u32 {
    if ALL_CHARS@.contains(c) {
        ALL_CHARS@.index_of_first(c).unwrap() as u32
    } else {
        ramp_glyph(c)
    }
}

/// Map a character to a ramp glyph by its estimated ink. Only the brightness
/// ramp is used: the block glyphs behind it are for panel backgrounds.
fn ramp_index(c: char) -> (r: u32)
    ensures
        r == ramp_glyph(c),
{
    if is_control(c) || is_whitespace(c) {
        return 0;
    }
    if c == '\'' || c == '"' || c == '`' || c == ',' || c == ';' || c == '!' || c == '|' || c
        == 'i' || c == 'l' || c == 'j' || c == 'I' || c == '1' {
        return 3;
    }
    if is_digit(c) || ('a' <= c && c <= 'z') {
        return 5;
    }
    if 'A' <= c && c <= 'Z' {
        return 7;
    }
    if ('!' <= c && c <= '/') || (':' <= c && c <= '@') || ('[' <= c && c <= '`') || ('{' <= c && c
        <= '~') {
        return 4;
    }
    5
}

/// Default character to glyph policy, for the shading section alone.
pub fn default_glyph_of(c: char) -> (r: u32)
    ensures
        r == default_glyph(c),
        r < 14,
{
    let mut i: usize = 0;
    while i < 14
        invariant
            i <= 14,
            forall|j: int| 0 <= j < i ==> ALL_CHARS@[j] != c,
        decreases 14 - i,
    {
        if ALL_CHARS[i] == c {
            proof {
                assert(ALL_CHARS@[i as int] == c);
                ALL_CHARS@.index_of_first_ensures(c);
            }
            return i as u32;
        }
        i += 1;
    }
    assert(!ALL_CHARS@.contains(c));
    ramp_index(c)
}

/// A character to glyph policy.
#[derive(Clone, Debug, PartialEq, Eq)]
pub enum GlyphMap {
    /// The shading glyphs, `default_glyph_of`.
    Shading,
    /// The whole atlas, `overlay_glyph_of`.
    Atlas,
    /// One glyph for every character.
    Fixed(u32),
    /// A map of the caller's: the glyphs of some characters, of which the first
    /// entry counts, and that of every other.
    Table(Vec<(char, u32)>, u32),
}

/// The glyph that the entries from `i` on give a character.
pub open spec fn table_glyph(table: Seq<(char, u32)>, i: int, c: char, other: u32) -> u32
    decreases table.len() - i,
{
    if 0 <= i < table.len() {
        if table[i].0 == c {
            table[i].1
        } else {
            table_glyph(table, i + 1, c, other)
        }
    } else {
        other
    }
}

fn look_up(table: &Vec<(char, u32)>, c: char, other: u32) -> (r: u32)
    ensures
        r == table_glyph(table@, 0, c, other),
{
    let mut i: usize = 0;
    while i < table.len()
        invariant
            i <= table@.len(),
            table_glyph(table@, 0, c, other) == table_glyph(table@, i as int, c, other),
        decreases table@.len() - i,
    {
        if table[i].0 == c {
            return table[i].1;
        }
        i += 1;
    }
    other
}

impl GlyphMap {
    /// The glyph of a character.
    pub open spec fn glyph(self, c: char) -> u32 {
        match self {
            GlyphMap::Shading => default_glyph(c),
            GlyphMap::Atlas => overlay_glyph(c),
            GlyphMap::Fixed(index) => index,
            GlyphMap::Table(table, other) => table_glyph(table@, 0, c, other),
        }
    }

    /// The glyph of a character.
    pub fn glyph_of(&self, c: char) -> (r: u32)
        ensures
            r == self.glyph(c),
    {
        match self {
            GlyphMap::Shading => default_glyph_of(c),
            GlyphMap::Atlas => overlay_glyph_of(c),
            GlyphMap::Fixed(index) => *index,
            GlyphMap::Table(table, other) => look_up(table, c, *other),
        }
    }
}

// --- the model ---------------------------------------------------------------

/// What an overlay is: its size, its cells row by row, and the policy by which
/// it draws characters.
pub ghost struct Layer {
    pub cols: int,
    pub rows: int,
    pub cells: Seq<OverlayCell>,
    pub glyphs: GlyphMap,
}

impl Layer {
    /// The cell at column `x` of row `y`.
    pub open spec fn at(self, x: int, y: int) -> OverlayCell {
        self.cells[y * self.cols + x]
    }

    /// The cells after drawing: `paint` gives the new cell at each place that
    /// it draws on.
    pub open spec fn painted(self, paint: spec_fn(int, int) -> Option<OverlayCell>) -> Layer {
        Layer {
            cells: Seq::new(
                self.cells.len(),
                |i: int|
                    match paint(i % self.cols, i / self.cols) {
                        Some(cell) => cell,
                        None => self.cells[i],
                    },
            ),
            ..self
        }
    }

    /// No cell covers the scene.
    pub open spec fn is_clear(self) -> bool {
        forall|i: int| 0 <= i < self.cells.len() ==> !(#[trigger] self.cells[i]).opaque
    }
}

/// A layer of `count` clear cells.
pub open spec fn blank_cells(count: int) -> Seq<OverlayCell> {
    Seq::new(count as nat, |i: int| clear_cell())
}

/// One cell drawn at `(col, row)`.
pub open spec fn point_paint(col: int, row: int, cell: OverlayCell) -> spec_fn(int, int) -> Option<
    OverlayCell,
> {
    |x: int, y: int|
        if x == col && y == row {
            Some(cell)
        } else {
            None
        }
}

/// Text drawn from `(col, row)` to the right.
pub open spec fn text_paint(
    col: int,
    row: int,
    text: Seq<char>,
    color: Rgb,
    glyphs: GlyphMap,
) -> spec_fn(int, int) -> Option<OverlayCell> {
    |x: int, y: int|
        if y == row && col <= x < col + text.len() {
            Some(ink_cell(glyphs.glyph(text[x - col]), color))
        } else {
            None
        }
}

/// A filled rectangle.
pub open spec fn rect_paint(col: int, row: int, w: int, h: int, cell: OverlayCell) -> spec_fn(
    int,
    int,
) -> Option<OverlayCell> {
    |x: int, y: int|
        if col <= x < col + w && row <= y < row + h {
            Some(cell)
        } else {
            None
        }
}

/// The frame character at `(x, y)` of the border of a rectangle.
pub open spec fn border_char(col: int, row: int, w: int, h: int, x: int, y: int) -> Option<char> {
    if !(col <= x < col + w && row <= y < row + h) {
        None
    } else if y == row {
        if x == col {
            Some('┌')
        } else if x == col + w - 1 {
            Some('┐')
        } else {
            Some('─')
        }
    } else if y == row + h - 1 {
        if x == col {
            Some('└')
        } else if x == col + w - 1 {
            Some('┘')
        } else {
            Some('─')
        }
    } else if x == col || x == col + w - 1 {
        Some('│')
    } else {
        None
    }
}

/// The border of a rectangle.
pub open spec fn border_paint(
    col: int,
    row: int,
    w: int,
    h: int,
    color: Rgb,
    glyphs: GlyphMap,
) -> spec_fn(int, int) -> Option<OverlayCell> {
    |x: int, y: int|
        match border_char(col, row, w, h, x, y) {
            Some(c) => Some(ink_cell(glyphs.glyph(c), color)),
            None => None,
        }
}

/// The scene under an overlay: opaque cells replace scene cells, as far as both
/// reach.
pub open spec fn composited(cells: Seq<OverlayCell>, scene: Seq<SceneCell>) -> Seq<SceneCell> {
    Seq::new(
        scene.len(),
        |i: int|
            if i < cells.len() && cells[i].opaque {
                (cells[i].glyph_index, cells[i].color)
            } else {
                scene[i]
            },
    )
}

/// How many cells are opaque.
pub open spec fn opaque_cells(cells: Seq<OverlayCell>) -> nat
    decreases cells.len(),
{
    if cells.len() == 0 {
        0
    } else {
        opaque_cells(cells.drop_last()) + (if cells.last().opaque {
            1nat
        } else {
            0nat
        })
    }
}

proof fn lemma_opaque_update(cells: Seq<OverlayCell>, i: int, cell: OverlayCell)
    requires
        0 <= i < cells.len(),
    ensures
        opaque_cells(cells.update(i, cell)) == opaque_cells(cells) + (if cell.opaque {
            1int
        } else {
            0
        }) - (if cells[i].opaque {
            1int
        } else {
            0
        }),
    decreases cells.len(),
{
    let after = cells.update(i, cell);
    if i == cells.len() - 1 {
        assert(after.drop_last() =~= cells.drop_last());
    } else {
        assert(after.drop_last() =~= cells.drop_last().update(i, cell));
        lemma_opaque_update(cells.drop_last(), i, cell);
    }
}

proof fn lemma_opaque_bounds(cells: Seq<OverlayCell>)
    ensures
        opaque_cells(cells) <= cells.len(),
        opaque_cells(cells) == 0 <==> forall|i: int|
            0 <= i < cells.len() ==> !(#[trigger] cells[i]).opaque,
    decreases cells.len(),
{
    if cells.len() > 0 {
        let rest = cells.drop_last();
        lemma_opaque_bounds(rest);
        if opaque_cells(rest) != 0 {
            let i = choose|i: int| 0 <= i < rest.len() && (#[trigger] rest[i]).opaque;
            assert(cells[i].opaque);
        }
        if forall|i: int| 0 <= i < cells.len() ==> !(#[trigger] cells[i]).opaque {
            assert forall|i: int| 0 <= i < rest.len() implies !(#[trigger] rest[i]).opaque by {
                assert(rest[i] == cells[i]);
            }
            assert(!cells[cells.len() - 1].opaque);
        }
        if opaque_cells(cells) == 0 {
            assert forall|i: int| 0 <= i < cells.len() implies !(#[trigger] cells[i]).opaque by {
                if i < rest.len() {
                    assert(rest[i] == cells[i]);
                }
            }
        }
    }
}

/// A place in a grid and its position row by row.
proof fn lemma_place(cols: int, rows: int, x: int, y: int)
    requires
        0 <= x < cols,
        0 <= y < rows,
    ensures
        0 <= y * cols + x < cols * rows,
        (y * cols + x) % cols == x,
        (y * cols + x) / cols == y,
{
    assert(0 <= y * cols && y * cols + x < cols * rows) by (nonlinear_arith)
        requires
            0 <= x < cols,
            0 <= y < rows,
    ;
    lemma_fundamental_div_mod_converse(y * cols + x, cols, y, x);
}

/// The place of a position.
proof fn lemma_position(cols: int, rows: int, i: int)
    requires
        0 <= i < cols * rows,
        0 <= cols,
    ensures
        0 < cols,
        0 <= i % cols < cols,
        0 <= i / cols < rows,
        i / cols * cols + i % cols == i,
{
    assert(0 < cols && 0 <= i % cols < cols && 0 <= i / cols < rows && i / cols * cols + i % cols
        == i) by (nonlinear_arith)
        requires
            0 <= i < cols * rows,
            0 <= cols,
    ;
}

/// Drawing on a place adds it to what was drawn.
proof fn lemma_paint_point(
    base: Layer,
    now: Layer,
    done: spec_fn(int, int) -> Option<OverlayCell>,
    next: spec_fn(int, int) -> Option<OverlayCell>,
    col: int,
    row: int,
    cell: OverlayCell,
)
    requires
        0 <= base.cols,
        base.cells.len() == base.cols * base.rows,
        now == base.painted(done),
        forall|x: int, y: int|
            0 <= x < base.cols && 0 <= y < base.rows ==> #[trigger] next(x, y) == (if x == col && y
                == row {
                Some(cell)
            } else {
                done(x, y)
            }),
    ensures
        now.painted(point_paint(col, row, cell)) == base.painted(next),
{
    let a = now.painted(point_paint(col, row, cell));
    let b = base.painted(next);
    assert forall|i: int| 0 <= i < base.cells.len() implies a.cells[i] == b.cells[i] by {
        lemma_position(base.cols, base.rows, i);
        assert(next(i % base.cols, i / base.cols) == (if i % base.cols == col && i / base.cols
            == row {
            Some(cell)
        } else {
            done(i % base.cols, i / base.cols)
        }));
    }
    assert(a.cells =~= b.cells);
}

/// Two ways to draw that agree on the grid give the same layer.
proof fn lemma_same_paint(
    base: Layer,
    f: spec_fn(int, int) -> Option<OverlayCell>,
    g: spec_fn(int, int) -> Option<OverlayCell>,
)
    requires
        0 <= base.cols,
        base.cells.len() == base.cols * base.rows,
        forall|x: int, y: int|
            0 <= x < base.cols && 0 <= y < base.rows ==> #[trigger] f(x, y) == g(x, y),
    ensures
        base.painted(f) == base.painted(g),
{
    let a = base.painted(f);
    let b = base.painted(g);
    assert forall|i: int| 0 <= i < base.cells.len() implies a.cells[i] == b.cells[i] by {
        lemma_position(base.cols, base.rows, i);
        assert(f(i % base.cols, i / base.cols) == g(i % base.cols, i / base.cols));
    }
    assert(a.cells =~= b.cells);
}

// --- the overlay -------------------------------------------------------------

/// A character layer of the size of the cell grid, composited over the scene.
#[derive(Clone, Debug)]
pub struct Overlay {
    cols: u32,
    rows: u32,
    cells: Vec<OverlayCell>,
    opaque_count: usize,
    glyph_of: GlyphMap,
}

impl View for Overlay {
    type V = Layer;

    closed spec fn view(&self) -> Layer {
        Layer {
            cols: self.cols as int,
            rows: self.rows as int,
            cells: self.cells@,
            glyphs: self.glyph_of,
        }
    }
}

fn blank(count: usize) -> (cells: Vec<OverlayCell>)
    ensures
        cells@ == blank_cells(count as int),
        opaque_cells(cells@) == 0,
{
    let mut cells: Vec<OverlayCell> = Vec::new();
    let mut i: usize = 0;
    while i < count
        invariant
            i <= count,
            cells@ == blank_cells(i as int),
        decreases count - i,
    {
        cells.push(OverlayCell::transparent());
        assert(cells@ =~= blank_cells(i + 1));
        i += 1;
    }
    proof {
        lemma_opaque_bounds(cells@);
    }
    cells
}

impl Overlay {
    /// One cell for each place of the grid, and the opaque ones counted.
    pub closed spec fn wf(&self) -> bool {
        &&& self.cells@.len() == self.cols * self.rows
        &&& self.opaque_count == opaque_cells(self.cells@)
    }

    /// A valid overlay has exactly one cell for each place.
    pub proof fn law_one_cell_for_each_place(&self)
        requires
            self.wf(),
        ensures
            self@.cells.len() == self@.cols * self@.rows,
            0 <= self@.cols <= u32::MAX,
            0 <= self@.rows <= u32::MAX,
    {
    }

    /// Create a fully transparent overlay that draws with the shading glyphs.
    pub fn new(cols: u32, rows: u32) -> (r: Self)
        requires
            cols * rows <= usize::MAX,
        ensures
            r.wf(),
            r@ == (Layer {
                cols: cols as int,
                rows: rows as int,
                cells: blank_cells(cols * rows),
                glyphs: GlyphMap::Shading,
            }),
    {
        Overlay::with_glyph_map(cols, rows, GlyphMap::Shading)
    }

    /// Create a fully transparent overlay with a character to glyph policy.
    pub fn with_glyph_map(cols: u32, rows: u32, glyph_of: GlyphMap) -> (r: Self)
        requires
            cols * rows <= usize::MAX,
        ensures
            r.wf(),
            r@ == (Layer {
                cols: cols as int,
                rows: rows as int,
                cells: blank_cells(cols * rows),
                glyphs: glyph_of,
            }),
    {
        assert(0 <= cols * rows) by (nonlinear_arith);
        let count: usize = cols as usize * rows as usize;
        Overlay { cols, rows, cells: blank(count), opaque_count: 0, glyph_of }
    }

    /// Number of columns.
    pub fn cols(&self) -> (r: u32)
        ensures
            r == self@.cols,
    {
        self.cols
    }

    /// Number of rows.
    pub fn rows(&self) -> (r: u32)
        ensures
            r == self@.rows,
    {
        self.rows
    }

    /// Replace the character to glyph policy. Cells already written keep their
    /// glyphs.
    pub fn set_glyph_map(&mut self, glyph_of: GlyphMap)
        requires
            old(self).wf(),
        ensures
            final(self).wf(),
            final(self)@ == (Layer { glyphs: glyph_of, ..old(self)@ }),
    {
        self.glyph_of = glyph_of;
    }

    /// Resolve a character through the active policy.
    pub fn glyph_index_of(&self, c: char) -> (r: u32)
        ensures
            r == self@.glyphs.glyph(c),
    {
        self.glyph_of.glyph_of(c)
    }

    /// An opaque panel background cell: the full block, tinted with `color`.
    pub fn background_cell(&self, color: Rgb) -> (r: OverlayCell)
        ensures
            r == ink_cell(self@.glyphs.glyph('█'), color),
    {
        OverlayCell::new(self.glyph_index_of('█'), color)
    }

    /// Reset every cell to transparent.
    pub fn clear(&mut self)
        requires
            old(self).wf(),
        ensures
            final(self).wf(),
            final(self)@ == (Layer {
                cells: blank_cells(old(self)@.cols * old(self)@.rows),
                ..old(self)@
            }),
            final(self)@.is_clear(),
    {
        let count: usize = self.cells.len();
        self.cells = blank(count);
        self.opaque_count = 0;
    }

    /// `true` when no opaque cell exists, so that compositing changes nothing.
    pub fn is_empty(&self) -> (r: bool)
        requires
            self.wf(),
        ensures
            r == self@.is_clear(),
    {
        proof {
            lemma_opaque_bounds(self.cells@);
            assert(self@.cells == self.cells@);
        }
        self.opaque_count == 0
    }

    /// Row-major index of `(col, row)`, or `None` if out of range.
    fn index(&self, col: u32, row: u32) -> (r: Option<usize>)
        requires
            self.wf(),
        ensures
            r is Some <==> col < self.cols && row < self.rows,
            r matches Some(i) ==> i == row * self.cols + col && i < self.cells@.len() && i as int
                % self.cols as int == col && i as int / self.cols as int == row,
    {
        if col >= self.cols || row >= self.rows {
            return None;
        }
        proof {
            lemma_place(self.cols as int, self.rows as int, col as int, row as int);
            assert(0 <= row * self.cols) by (nonlinear_arith)
                requires
                    0 <= row,
                    0 <= self.cols,
            ;
        }
        assert(self.cells.len() == self.cells@.len());
        Some(row as usize * self.cols as usize + col as usize)
    }

    /// Write one cell. Coordinates out of range are ignored.
    pub fn set_cell(&mut self, col: u32, row: u32, cell: OverlayCell)
        requires
            old(self).wf(),
        ensures
            final(self).wf(),
            final(self)@ == old(self)@.painted(point_paint(col as int, row as int, cell)),
    {
        let ghost before = self@;
        let ghost paint = point_paint(col as int, row as int, cell);
        match self.index(col, row) {
            None => {
                proof {
                    assert forall|i: int| 0 <= i < before.cells.len() implies before.painted(
                        paint,
                    ).cells[i] == before.cells[i] by {
                        lemma_position(before.cols, before.rows, i);
                    }
                    assert(before.painted(paint).cells =~= before.cells);
                }
            },
            Some(index) => {
                proof {
                    lemma_opaque_update(self.cells@, index as int, cell);
                    lemma_opaque_bounds(self.cells@);
                    lemma_opaque_bounds(self.cells@.update(index as int, cell));
                }
                let was_opaque: bool = self.cells[index].opaque;
                self.cells.set(index, cell);
                if !was_opaque && cell.opaque {
                    assert(self.cells.len() == self.cells@.len());
                    self.opaque_count = self.opaque_count + 1;
                } else if was_opaque && !cell.opaque {
                    self.opaque_count = self.opaque_count - 1;
                }
                proof {
                    let after = before.painted(paint);
                    assert forall|i: int| 0 <= i < before.cells.len() implies after.cells[i]
                        == self.cells@[i] by {
                        lemma_position(before.cols, before.rows, i);
                        if i % before.cols == col && i / before.cols == row {
                            assert(i == index);
                        }
                    }
                    assert(after.cells =~= self.cells@);
                }
            },
        }
    }

    /// Read one cell, or `None` if out of range.
    pub fn cell(&self, col: u32, row: u32) -> (r: Option<&OverlayCell>)
        requires
            self.wf(),
        ensures
            r == (if col < self@.cols && row < self@.rows {
                Some(&self@.at(col as int, row as int))
            } else {
                None
            }),
    {
        match self.index(col, row) {
            Some(index) => Some(&self.cells[index]),
            None => None,
        }
    }

    /// All cells, row by row.
    pub fn cells(&self) -> (r: &[OverlayCell])
        ensures
            r@ == self@.cells,
    {
        self.cells.as_slice()
    }

    /// Resize the overlay. Its contents are dropped: it is redrawn every frame.
    pub fn resize(&mut self, cols: u32, rows: u32)
        requires
            cols * rows <= usize::MAX,
        ensures
            final(self).wf(),
            final(self)@ == (Layer {
                cols: cols as int,
                rows: rows as int,
                cells: blank_cells(cols * rows),
                glyphs: old(self)@.glyphs,
            }),
    {
        assert(0 <= cols * rows) by (nonlinear_arith);
        let count: usize = cols as usize * rows as usize;
        self.cols = cols;
        self.rows = rows;
        self.cells = blank(count);
        self.opaque_count = 0;
    }

    /// Draw `text` from `(col, row)`, one cell for each character. Drawing stops
    /// at the right edge and never wraps; control characters take a cell.
    pub fn draw_text(&mut self, col: u32, row: u32, text: &str, color: Rgb)
        requires
            old(self).wf(),
        ensures
            final(self).wf(),
            final(self)@ == old(self)@.painted(
                text_paint(col as int, row as int, text@, color, old(self)@.glyphs),
            ),
    {
        let ghost base = self@;
        let ghost whole = text_paint(col as int, row as int, text@, color, base.glyphs);
        if row >= self.rows || col >= self.cols {
            proof {
                lemma_same_paint(base, |x: int, y: int| None, whole);
                assert(base.painted(|x: int, y: int| None).cells =~= base.cells);
            }
            return;
        }
        let chars = crate::text::chars_of(text);
        let mut i: usize = 0;
        let mut x: u32 = col;
        proof {
            let none = text_paint(col as int, row as int, text@.take(0), color, base.glyphs);
            assert(base.painted(none).cells =~= base.cells);
        }
        while i < chars.len() && x < self.cols
            invariant
                self.wf(),
                chars@ == text@,
                i <= chars.len(),
                x == col + i,
                x <= self.cols,
                row < self.rows,
                base.cols == self.cols,
                base.rows == self.rows,
                base.glyphs == self.glyph_of,
                base.cells.len() == base.cols * base.rows,
                self@ == base.painted(
                    text_paint(col as int, row as int, text@.take(i as int), color, base.glyphs),
                ),
            decreases chars.len() - i,
        {
            let glyph_index: u32 = self.glyph_index_of(chars[i]);
            let cell = OverlayCell::new(glyph_index, color);
            let ghost now = self@;
            self.set_cell(x, row, cell);
            proof {
                let done = text_paint(
                    col as int,
                    row as int,
                    text@.take(i as int),
                    color,
                    base.glyphs,
                );
                let next = text_paint(
                    col as int,
                    row as int,
                    text@.take(i + 1),
                    color,
                    base.glyphs,
                );
                assert forall|px: int, py: int|
                    0 <= px < base.cols && 0 <= py < base.rows implies #[trigger] next(px, py) == (
                if px == x && py == row {
                    Some(cell)
                } else {
                    done(px, py)
                }) by {
                    if py == row && col <= px < col + i {
                        assert(text@.take(i + 1)[px - col] == text@.take(i as int)[px - col]);
                    }
                }
                lemma_paint_point(base, now, done, next, x as int, row as int, cell);
            }
            i += 1;
            x += 1;
        }
        proof {
            let done = text_paint(col as int, row as int, text@.take(i as int), color, base.glyphs);
            assert forall|px: int, py: int|
                0 <= px < base.cols && 0 <= py < base.rows implies #[trigger] done(px, py)
                == whole(px, py) by {
                if py == row && col <= px < col + i {
                    assert(text@.take(i as int)[px - col] == text@[px - col]);
                }
            }
            lemma_same_paint(base, done, whole);
        }
    }

    /// The visible `[x0, x1) x [y0, y1)` region of a rectangle, or `None` if
    /// nothing of it is visible.
    fn clip_rect(&self, col: u32, row: u32, w: u32, h: u32) -> (r: Option<(u32, u32, u32, u32)>)
        ensures
            r matches Some((x0, y0, x1, y1)) ==> x0 == col && y0 == row && x0 < x1 <= self.cols
                && y0 < y1 <= self.rows && (x1 == col + w || (x1 == self.cols && self.cols <= col
                + w)) && (y1 == row + h || (y1 == self.rows && self.rows <= row + h)),
            r is None <==> w == 0 || h == 0 || col >= self.cols || row >= self.rows,
    {
        if w == 0 || h == 0 || col >= self.cols || row >= self.rows {
            return None;
        }
        let x1: u32 = if w < self.cols - col {
            col + w
        } else {
            self.cols
        };
        let y1: u32 = if h < self.rows - row {
            row + h
        } else {
            self.rows
        };
        Some((col, row, x1, y1))
    }

    /// Fill a `w x h` rectangle whose top-left corner is `(col, row)`, as far as
    /// it is visible.
    pub fn fill_rect(&mut self, col: u32, row: u32, w: u32, h: u32, cell: OverlayCell)
        requires
            old(self).wf(),
        ensures
            final(self).wf(),
            final(self)@ == old(self)@.painted(
                rect_paint(col as int, row as int, w as int, h as int, cell),
            ),
    {
        let ghost base = self@;
        let ghost whole = rect_paint(col as int, row as int, w as int, h as int, cell);
        let (x0, y0, x1, y1) = match self.clip_rect(col, row, w, h) {
            Some(clip) => clip,
            None => {
                proof {
                    lemma_same_paint(base, |x: int, y: int| None, whole);
                    assert(base.painted(|x: int, y: int| None).cells =~= base.cells);
                }
                return;
            },
        };
        let mut y: u32 = y0;
        proof {
            let none = rect_paint(col as int, row as int, x1 - x0, 0, cell);
            lemma_same_paint(base, |x: int, y: int| None, none);
            assert(base.painted(|x: int, y: int| None).cells =~= base.cells);
        }
        while y < y1
            invariant
                self.wf(),
                x0 == col,
                y0 == row,
                y0 <= y <= y1,
                x0 < x1 <= self.cols,
                y0 < y1 <= self.rows,
                base.cols == self.cols,
                base.rows == self.rows,
                base.glyphs == self.glyph_of,
                base.cells.len() == base.cols * base.rows,
                self@ == base.painted(rect_paint(col as int, row as int, x1 - x0, y - y0, cell)),
            decreases y1 - y,
        {
            let mut x: u32 = x0;
            let ghost above = rect_paint(col as int, row as int, x1 - x0, y - y0, cell);
            proof {
                lemma_same_paint(
                    base,
                    above,
                    |px: int, py: int|
                        if py == y && x0 <= px < x {
                            Some(cell)
                        } else {
                            above(px, py)
                        },
                );
            }
            while x < x1
                invariant
                    self.wf(),
                    x0 <= x <= x1 <= self.cols,
                    y < self.rows,
                    base.cols == self.cols,
                    base.rows == self.rows,
                    base.glyphs == self.glyph_of,
                    base.cells.len() == base.cols * base.rows,
                    self@ == base.painted(
                        |px: int, py: int|
                            if py == y && x0 <= px < x {
                                Some(cell)
                            } else {
                                above(px, py)
                            },
                    ),
                decreases x1 - x,
            {
                let ghost now = self@;
                self.set_cell(x, y, cell);
                proof {
                    lemma_paint_point(
                        base,
                        now,
                        |px: int, py: int|
                            if py == y && x0 <= px < x {
                                Some(cell)
                            } else {
                                above(px, py)
                            },
                        |px: int, py: int|
                            if py == y && x0 <= px < x + 1 {
                                Some(cell)
                            } else {
                                above(px, py)
                            },
                        x as int,
                        y as int,
                        cell,
                    );
                }
                x += 1;
            }
            proof {
                lemma_same_paint(
                    base,
                    |px: int, py: int|
                        if py == y && x0 <= px < x {
                            Some(cell)
                        } else {
                            above(px, py)
                        },
                    rect_paint(col as int, row as int, x1 - x0, y + 1 - y0, cell),
                );
            }
            y += 1;
        }
        proof {
            lemma_same_paint(
                base,
                rect_paint(col as int, row as int, x1 - x0, y - y0, cell),
                whole,
            );
        }
    }

    /// The frame character at a visible place of a border.
    fn border_of(col: u32, row: u32, w: u32, h: u32, x: u32, y: u32) -> (r: Option<char>)
        requires
            col <= x < col + w,
            row <= y < row + h,
        ensures
            r == border_char(col as int, row as int, w as int, h as int, x as int, y as int),
    {
        let on_left: bool = x == col;
        let on_right: bool = x - col == w - 1;
        let on_top: bool = y == row;
        let on_bottom: bool = y - row == h - 1;
        match (on_top, on_bottom, on_left, on_right) {
            (true, _, true, _) => Some('┌'),
            (true, _, _, true) => Some('┐'),
            (_, true, true, _) => Some('└'),
            (_, true, _, true) => Some('┘'),
            (true, _, _, _) | (_, true, _, _) => Some('─'),
            (_, _, true, _) | (_, _, _, true) => Some('│'),
            _ => None,
        }
    }

    /// Draw the border of a `w x h` rectangle with frame characters, as far as
    /// it is visible, and leave the interior as it is. Clipping turns no edge
    /// into a corner.
    pub fn draw_box(&mut self, col: u32, row: u32, w: u32, h: u32, color: Rgb)
        requires
            old(self).wf(),
        ensures
            final(self).wf(),
            final(self)@ == old(self)@.painted(
                border_paint(
                    col as int,
                    row as int,
                    w as int,
                    h as int,
                    color,
                    old(self)@.glyphs,
                ),
            ),
    {
        let ghost base = self@;
        let ghost whole = border_paint(
            col as int,
            row as int,
            w as int,
            h as int,
            color,
            base.glyphs,
        );
        let (x0, y0, x1, y1) = match self.clip_rect(col, row, w, h) {
            Some(clip) => clip,
            None => {
                proof {
                    lemma_same_paint(base, |x: int, y: int| None, whole);
                    assert(base.painted(|x: int, y: int| None).cells =~= base.cells);
                }
                return;
            },
        };
        let mut y: u32 = y0;
        proof {
            assert(base.painted(
                |px: int, py: int|
                    if py < y {
                        whole(px, py)
                    } else {
                        None
                    },
            ) == base) by {
                lemma_same_paint(
                    base,
                    |px: int, py: int| None,
                    |px: int, py: int|
                        if py < y {
                            whole(px, py)
                        } else {
                            None
                        },
                );
                assert(base.painted(|x: int, y: int| None).cells =~= base.cells);
            }
        }
        while y < y1
            invariant
                self.wf(),
                x0 == col,
                y0 == row,
                y0 <= y <= y1,
                x0 < x1 <= self.cols,
                y0 < y1 <= self.rows,
                x1 <= col + w,
                y1 <= row + h,
                x1 == col + w || x1 == self.cols,
                y1 == row + h || y1 == self.rows,
                base.cols == self.cols,
                base.rows == self.rows,
                base.glyphs == self.glyph_of,
                base.cells.len() == base.cols * base.rows,
                whole == border_paint(
                    col as int,
                    row as int,
                    w as int,
                    h as int,
                    color,
                    base.glyphs,
                ),
                self@ == base.painted(
                    |px: int, py: int|
                        if py < y {
                            whole(px, py)
                        } else {
                            None
                        },
                ),
            decreases y1 - y,
        {
            let mut x: u32 = x0;
            proof {
                lemma_same_paint(
                    base,
                    |px: int, py: int|
                        if py < y {
                            whole(px, py)
                        } else {
                            None
                        },
                    |px: int, py: int|
                        if py < y || (py == y && px < x) {
                            whole(px, py)
                        } else {
                            None
                        },
                );
            }
            while x < x1
                invariant
                    self.wf(),
                    x0 == col,
                    y0 == row,
                    x0 <= x <= x1,
                    y0 <= y < y1,
                    x0 < x1 <= self.cols,
                    y0 < y1 <= self.rows,
                    x1 <= col + w,
                    y1 <= row + h,
                    base.cols == self.cols,
                    base.rows == self.rows,
                    base.glyphs == self.glyph_of,
                    base.cells.len() == base.cols * base.rows,
                    whole == border_paint(
                        col as int,
                        row as int,
                        w as int,
                        h as int,
                        color,
                        base.glyphs,
                    ),
                    self@ == base.painted(
                        |px: int, py: int|
                            if py < y || (py == y && px < x) {
                                whole(px, py)
                            } else {
                                None
                            },
                    ),
                decreases x1 - x,
            {
                let ghost now = self@;
                let ghost done = |px: int, py: int|
                    if py < y || (py == y && px < x) {
                        whole(px, py)
                    } else {
                        None
                    };
                let ghost next = |px: int, py: int|
                    if py < y || (py == y && px < x + 1) {
                        whole(px, py)
                    } else {
                        None
                    };
                match Overlay::border_of(col, row, w, h, x, y) {
                    Some(c) => {
                        let cell = OverlayCell::new(self.glyph_index_of(c), color);
                        self.set_cell(x, y, cell);
                        proof {
                            lemma_paint_point(base, now, done, next, x as int, y as int, cell);
                        }
                    },
                    None => {
                        proof {
                            lemma_same_paint(base, done, next);
                        }
                    },
                }
                x += 1;
            }
            proof {
                lemma_same_paint(
                    base,
                    |px: int, py: int|
                        if py < y || (py == y && px < x) {
                            whole(px, py)
                        } else {
                            None
                        },
                    |px: int, py: int|
                        if py < y + 1 {
                            whole(px, py)
                        } else {
                            None
                        },
                );
            }
            y += 1;
        }
        proof {
            lemma_same_paint(
                base,
                |px: int, py: int|
                    if py < y {
                        whole(px, py)
                    } else {
                        None
                    },
                whole,
            );
        }
    }

    /// Composite this overlay over the scene's cells. A scene of another length
    /// is composited as far as both reach.
    pub fn composite_over(&self, scene: &mut [SceneCell])
        requires
            self.wf(),
        ensures
            final(scene)@ == composited(self@.cells, old(scene)@),
    {
        let ghost before = scene@;
        if self.opaque_count == 0 {
            proof {
                lemma_opaque_bounds(self.cells@);
                assert(composited(self.cells@, before) =~= before);
            }
            return;
        }
        let count: usize = if self.cells.len() < scene.len() {
            self.cells.len()
        } else {
            scene.len()
        };
        let mut i: usize = 0;
        while i < count
            invariant
                i <= count <= self.cells@.len(),
                count <= scene@.len(),
                scene@.len() == before.len(),
                forall|k: int|
                    0 <= k < scene@.len() ==> #[trigger] scene@[k] == (if k < i {
                        composited(self.cells@, before)[k]
                    } else {
                        before[k]
                    }),
            decreases count - i,
        {
            let cell: OverlayCell = self.cells[i];
            if cell.opaque {
                scene[i] = (cell.glyph_index, cell.color);
            }
            i += 1;
        }
        assert(scene@ =~= composited(self.cells@, before));
    }
}

// --- laws --------------------------------------------------------------------

/// A cell that was written is read back, and its neighbours are as before.
pub proof fn law_written_cell_is_read_back(
    layer: Layer,
    col: int,
    row: int,
    cell: OverlayCell,
    x: int,
    y: int,
)
    requires
        layer.cells.len() == layer.cols * layer.rows,
        0 <= col < layer.cols,
        0 <= row < layer.rows,
        0 <= x < layer.cols,
        0 <= y < layer.rows,
    ensures
        layer.painted(point_paint(col, row, cell)).at(col, row) == cell,
        (x, y) != (col, row) ==> layer.painted(point_paint(col, row, cell)).at(x, y) == layer.at(
            x,
            y,
        ),
{
    lemma_place(layer.cols, layer.rows, col, row);
    lemma_place(layer.cols, layer.rows, x, y);
}

/// Drawing outside the overlay changes nothing.
pub proof fn law_drawing_outside_is_nothing(
    layer: Layer,
    col: int,
    row: int,
    w: int,
    h: int,
    cell: OverlayCell,
    text: Seq<char>,
)
    requires
        0 <= layer.cols,
        layer.cells.len() == layer.cols * layer.rows,
        col >= layer.cols || row >= layer.rows || w == 0 || h == 0,
    ensures
        layer.painted(rect_paint(col, row, w, h, cell)) == layer,
        layer.painted(border_paint(col, row, w, h, cell.color, layer.glyphs)) == layer,
        w != 0 && h != 0 ==> layer.painted(
            text_paint(col, row, text, cell.color, layer.glyphs),
        ) == layer,
{
    let nothing = |x: int, y: int| None;
    assert(layer.painted(nothing).cells =~= layer.cells);
    lemma_same_paint(layer, rect_paint(col, row, w, h, cell), nothing);
    lemma_same_paint(layer, border_paint(col, row, w, h, cell.color, layer.glyphs), nothing);
    if w != 0 && h != 0 {
        lemma_same_paint(layer, text_paint(col, row, text, cell.color, layer.glyphs), nothing);
    }
}

/// An overlay without opaque cells leaves the scene as it is, and compositing
/// twice is compositing once.
pub proof fn law_compositing(cells: Seq<OverlayCell>, scene: Seq<SceneCell>)
    ensures
        (forall|i: int| 0 <= i < cells.len() ==> !(#[trigger] cells[i]).opaque) ==> composited(
            cells,
            scene,
        ) == scene,
        composited(cells, composited(cells, scene)) == composited(cells, scene),
{
    if forall|i: int| 0 <= i < cells.len() ==> !(#[trigger] cells[i]).opaque {
        assert(composited(cells, scene) =~= scene);
    }
    assert(composited(cells, composited(cells, scene)) =~= composited(cells, scene));
}

/// Every character of the shading section has its own glyph.
pub proof fn law_shading_characters_are_exact(i: int)
    requires
        0 <= i < 14,
    ensures
        default_glyph(ALL_CHARS@[i]) == i,
{
    let c = ALL_CHARS@[i];
    assert(ALL_CHARS@.contains(c));
    ALL_CHARS@.index_of_first_ensures(c);
    let j = ALL_CHARS@.index_of_first(c).unwrap();
    assert(ALL_CHARS@[j] == c);
}

} // verus!
