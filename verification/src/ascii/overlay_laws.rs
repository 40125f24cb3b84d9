//! What drawing on an overlay changes, said cell by cell.

use vstd::prelude::*;
use vstd::arithmetic::div_mod::lemma_fundamental_div_mod_converse;
use crate::ascii::overlay::{
    blank_cells, border_paint, clear_cell, composited, opaque_cells, ramp_glyph, rect_paint,
    table_glyph, text_paint, GlyphMap, Layer, OverlayCell, Rgb, SceneCell,
};

verus! {

/// A place of a layer.
pub open spec fn within(layer: Layer, x: int, y: int) -> bool {
    &&& 0 <= x < layer.cols
    &&& 0 <= y < layer.rows
    &&& layer.cells.len() == layer.cols * layer.rows
}

/// What a painted layer shows at a place.
proof fn lemma_painted(
    layer: Layer,
    paint: spec_fn(int, int) -> Option<OverlayCell>,
    x: int,
    y: int,
)
    requires
        within(layer, x, y),
    ensures
        layer.painted(paint).at(x, y) == (match paint(x, y) {
            Some(cell) => cell,
            None => layer.at(x, y),
        }),
{
    let i = y * layer.cols + x;
    lemma_fundamental_div_mod_converse(i, layer.cols, y, x);
    assert(0 <= y * layer.cols && y * layer.cols + layer.cols <= layer.cols * layer.rows)
        by (nonlinear_arith)
        requires
            0 <= y < layer.rows,
            0 <= layer.cols,
    ;
}

/// A text stands in one row, a character to a cell from left to right, in the colour
/// asked for and hiding the scene; what does not fit is cut off, and nothing else
/// changes.
pub proof fn law_text(
    layer: Layer,
    col: int,
    row: int,
    text: Seq<char>,
    color: Rgb,
    x: int,
    y: int,
)
    requires
        within(layer, x, y),
    ensures
        ({
            let cell = layer.painted(text_paint(col, row, text, color, layer.glyphs)).at(x, y);
            &&& y == row && 0 <= x - col < text.len() ==> {
                &&& cell.glyph_index == layer.glyphs.glyph(text[x - col])
                &&& cell.color == color
                &&& cell.opaque
            }
            &&& y != row || x < col || x - col >= text.len() ==> cell == layer.at(x, y)
        }),
{
    lemma_painted(layer, text_paint(col, row, text, color, layer.glyphs), x, y);
}

/// A rectangle covers `w` columns and `h` rows and leaves the rest alone.
pub proof fn law_rectangle(
    layer: Layer,
    col: int,
    row: int,
    w: int,
    h: int,
    cell: OverlayCell,
    x: int,
    y: int,
)
    requires
        within(layer, x, y),
    ensures
        ({
            let after = layer.painted(rect_paint(col, row, w, h, cell));
            &&& 0 <= x - col < w && 0 <= y - row < h ==> after.at(x, y) == cell
            &&& x < col || x - col >= w || y < row || y - row >= h ==> after.at(x, y) == layer.at(
                x,
                y,
            )
        }),
{
    lemma_painted(layer, rect_paint(col, row, w, h, cell), x, y);
}

/// A box at least two by two has its corners at its corners and lines between them;
/// its inside and its surroundings stay as they are.
pub proof fn law_box(
    layer: Layer,
    col: int,
    row: int,
    w: int,
    h: int,
    color: Rgb,
    x: int,
    y: int,
)
    requires
        within(layer, x, y),
        w >= 2,
        h >= 2,
    ensures
        ({
            let cell = layer.painted(border_paint(col, row, w, h, color, layer.glyphs)).at(x, y);
            let shows = |c: char|
                cell.glyph_index == layer.glyphs.glyph(c) && cell.color == color && cell.opaque;
            &&& x == col && y == row ==> shows('┌')
            &&& x == col + w - 1 && y == row ==> shows('┐')
            &&& x == col && y == row + h - 1 ==> shows('└')
            &&& x == col + w - 1 && y == row + h - 1 ==> shows('┘')
            &&& col < x < col + w - 1 && (y == row || y == row + h - 1) ==> shows('─')
            &&& row < y < row + h - 1 && (x == col || x == col + w - 1) ==> shows('│')
            &&& col < x < col + w - 1 && row < y < row + h - 1 ==> cell == layer.at(x, y)
            &&& x < col || x >= col + w || y < row || y >= row + h ==> cell == layer.at(x, y)
        }),
{
    lemma_painted(layer, border_paint(col, row, w, h, color, layer.glyphs), x, y);
}

/// Drawing keeps the size of a layer and how it chooses glyphs.
pub proof fn law_drawing_keeps_the_layer(
    layer: Layer,
    paint: spec_fn(int, int) -> Option<OverlayCell>,
)
    ensures
        layer.painted(paint).cols == layer.cols,
        layer.painted(paint).rows == layer.rows,
        layer.painted(paint).glyphs == layer.glyphs,
        layer.painted(paint).cells.len() == layer.cells.len(),
{
}

/// An empty layer shows the scene everywhere.
pub proof fn law_blank_layers(count: int, i: int)
    requires
        0 <= i < count,
    ensures
        blank_cells(count).len() == count,
        !blank_cells(count)[i].opaque,
        blank_cells(count)[i] == clear_cell(),
        clear_cell().glyph_index == 0,
        clear_cell().color == (Rgb { r: 0, g: 0, b: 0 }),
{
}

/// The scene keeps its size; a cell of it is replaced, glyph and colour, if and only
/// if the overlay has an opaque one there.
pub proof fn law_composited_cells(cells: Seq<OverlayCell>, scene: Seq<SceneCell>, i: int)
    requires
        0 <= i < scene.len(),
    ensures
        composited(cells, scene).len() == scene.len(),
        i < cells.len() && cells[i].opaque ==> composited(cells, scene)[i].0
            == cells[i].glyph_index && composited(cells, scene)[i].1 == cells[i].color,
        i >= cells.len() || !cells[i].opaque ==> composited(cells, scene)[i] == scene[i],
{
}

/// Writing a cell changes the number of opaque ones by that cell alone.
pub proof fn law_opaque_cells_are_counted(cells: Seq<OverlayCell>, i: int, cell: OverlayCell)
    requires
        0 <= i < cells.len(),
    ensures
        cells[i].opaque == cell.opaque ==> opaque_cells(cells.update(i, cell)) == opaque_cells(
            cells,
        ),
        !cells[i].opaque && cell.opaque ==> opaque_cells(cells.update(i, cell)) == opaque_cells(
            cells,
        ) + 1,
        cells[i].opaque && !cell.opaque ==> opaque_cells(cells.update(i, cell)) == opaque_cells(
            cells,
        ) - 1,
    decreases cells.len(),
{
    let after = cells.update(i, cell);
    if i == cells.len() - 1 {
        assert(after.drop_last() =~= cells.drop_last());
    } else {
        assert(after.drop_last() =~= cells.drop_last().update(i, cell));
        assert(after.last() == cells.last());
        law_opaque_cells_are_counted(cells.drop_last(), i, cell);
    }
}

/// Without letters, a character is shown as dark or bright as it is dense.
pub proof fn law_ramp_glyphs(c: char)
    ensures
        c == ' ' || c == '\n' || c == '\t' ==> ramp_glyph(c) == 0,
        c == 'i' || c == 'l' || c == 'j' || c == 'I' || c == '1' || c == '\'' || c == '"' || c
            == '`' || c == ',' || c == ';' || c == '!' || c == '|' ==> ramp_glyph(c) == 3,
        '2' <= c <= '9' || c == '0' ==> ramp_glyph(c) == 5,
        'a' <= c <= 'z' && c != 'i' && c != 'l' && c != 'j' ==> ramp_glyph(c) == 5,
        'A' <= c <= 'Z' && c != 'I' ==> ramp_glyph(c) == 7,
        '#' <= c <= '&' || '(' <= c <= '+' || '-' <= c <= '/' || c == ':' || '<' <= c <= '@' || '['
            <= c <= '_' || c == '{' || c == '}' || c == '~' ==> ramp_glyph(c) == 4,
        ramp_glyph(c) == 0 || 3 <= ramp_glyph(c) <= 5 || ramp_glyph(c) == 7,
{
}

/// A table gives the glyph beside the first mention of a character, and its fallback
/// for a character that it does not mention.
pub proof fn law_glyph_tables(table: Seq<(char, u32)>, i: int, c: char, other: u32)
    requires
        0 <= i <= table.len(),
        forall|j: int| 0 <= j < i ==> (#[trigger] table[j]).0 != c,
        i < table.len() ==> table[i].0 == c,
    ensures
        table_glyph(table, 0, c, other) == (if i < table.len() {
            table[i].1
        } else {
            other
        }),
{
    lemma_table_from(table, 0, i, c, other);
}

/// The same from a later row on.
proof fn lemma_table_from(table: Seq<(char, u32)>, from: int, i: int, c: char, other: u32)
    requires
        0 <= from <= i <= table.len(),
        forall|j: int| 0 <= j < i ==> (#[trigger] table[j]).0 != c,
        i < table.len() ==> table[i].0 == c,
    ensures
        table_glyph(table, from, c, other) == (if i < table.len() {
            table[i].1
        } else {
            other
        }),
    decreases i - from,
{
    if from < i {
        assert(table[from].0 != c);
        lemma_table_from(table, from + 1, i, c, other);
    }
}

/// A fixed map gives every character the same glyph.
pub proof fn law_fixed_maps(index: u32, c: char)
    ensures
        GlyphMap::Fixed(index).glyph(c) == index,
{
}

} // verus!
