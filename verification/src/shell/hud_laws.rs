//! What the head-up display shows where, and what frame times add up to.

use vstd::prelude::*;
use crate::ascii::color::ColorMode;
use crate::ascii::overlay::{ink_cell, law_written_cell_is_read_back, Layer, OverlayCell, Rgb};
use crate::ascii::overlay_glyph;
use crate::ascii::overlay_laws::{law_text, within};
use crate::shell::command::{lighting_text, Facts};
use crate::shell::hud::{
    color_row, dim_color, drawn_row, focus_row, grid_row, light_row, rate_row, style_row,
    text_color, traced_color, warning_color, with_hud, with_row,
};
use crate::shell::metrics::{passed, FrameMetrics, Rate};
use crate::shell::settings::{GlyphStyle, Settings};
use crate::shell::ui::UiState;
use crate::text::decimal;

verus! {

/// The words of the rows, from the rate down to the focus.
pub open spec fn hud_words(y: int, s: Settings, f: Facts, ui: UiState) -> Seq<char> {
    if y == 1 {
        "FPS "@ + f.fps@
    } else if y == 2 {
        "DRAWN "@ + decimal(f.drawn as nat) + " CULL "@ + decimal(f.culled as nat)
    } else if y == 3 {
        "MAT "@ + decimal(f.materials as nat) + " GRID "@ + (if s.subdivision.max_span >= 2 {
            "DYN"@
        } else {
            "UNI"@
        })
    } else if y == 4 {
        "COLOR "@ + (match s.color_mode {
            ColorMode::TrueColor => "TRUE"@,
            ColorMode::Ansi256 => "256"@,
            ColorMode::Ansi16 => "16"@,
            ColorMode::Grayscale => "GRAY"@,
            ColorMode::Monochrome => "MONO"@,
        }) + " POST "@ + (if s.post.ssao || s.post.other {
            "ON"@
        } else {
            "OFF"@
        })
    } else if y == 5 {
        "STYLE "@ + (if s.glyph_style == GlyphStyle::Blocks {
            "BLOCK"@
        } else {
            "RAMP"@
        })
    } else if y == 6 {
        "LIGHT "@ + lighting_text(s, f)
    } else if ui.console_open {
        "CONSOLE"@ + " HAS FOCUS - ESC TO CLOSE"@
    } else if ui.menu_open {
        "MENU"@ + " HAS FOCUS - ESC TO CLOSE"@
    } else {
        "TAB MENU  ` CONSOLE"@
    }
}

/// The colours of the rows: the rate stands out, tracing and a taken focus do, and the
/// rest is dim.
pub open spec fn hud_color(y: int, s: Settings, ui: UiState) -> Rgb {
    if y == 1 {
        Rgb { r: 0x3f59_999a, g: 0x3f73_3333, b: 0x3f59_999a }
    } else if y == 6 && s.traced_enabled {
        Rgb { r: 0x3f00_0000, g: 0x3f59_999a, b: 0x3f80_0000 }
    } else if y == 7 && (ui.console_open || ui.menu_open) {
        Rgb { r: 0x3f80_0000, g: 0x3f40_0000, b: 0x3e99_999a }
    } else {
        Rgb { r: 0x3ee6_6666, g: 0x3f0c_cccd, b: 0x3ee6_6666 }
    }
}

/// One row of the display.
proof fn lemma_row(layer: Layer, row: int, text: Seq<char>, color: Rgb, x: int, y: int)
    requires
        within(layer, x, y),
    ensures
        ({
            let r = with_row(layer, row, text, color);
            &&& within(r, x, y)
            &&& r.cols == layer.cols && r.rows == layer.rows && r.glyphs == layer.glyphs
            &&& y == row && 1 <= x < 1 + text.len() ==> r.at(x, y) == (OverlayCell {
                glyph_index: layer.glyphs.glyph(text[x - 1]),
                color,
                opaque: true,
            })
            &&& y != row || x < 1 || x >= 1 + text.len() ==> r.at(x, y) == layer.at(x, y)
        }),
{
    law_text(layer, 1, row, text, color, x, y);
}

/// The display writes its seven rows from the second column and the second row on, marks
/// the middle with a cross, and leaves every other cell alone.
pub proof fn law_hud(layer: Layer, s: Settings, f: Facts, ui: UiState, x: int, y: int)
    requires
        within(layer, x, y),
    ensures
        ({
            let cell = with_hud(layer, s, f, ui).at(x, y);
            let text = hud_words(y, s, f, ui);
            if x == layer.cols / 2 && y == layer.rows / 2 {
                cell == OverlayCell {
                    glyph_index: overlay_glyph('+'),
                    color: Rgb { r: 0x3f59_999a, g: 0x3f73_3333, b: 0x3f59_999a },
                    opaque: true,
                }
            } else if 1 <= y <= 7 && 1 <= x < 1 + text.len() {
                cell == OverlayCell {
                    glyph_index: layer.glyphs.glyph(text[x - 1]),
                    color: hud_color(y, s, ui),
                    opaque: true,
                }
            } else {
                cell == layer.at(x, y)
            }
        }),
{
    let lit = if s.traced_enabled {
        traced_color()
    } else {
        dim_color()
    };
    let alert = if ui.focused() {
        warning_color()
    } else {
        dim_color()
    };
    let a = with_row(layer, 1, rate_row(f), text_color());
    let b = with_row(a, 2, drawn_row(f), dim_color());
    let c = with_row(b, 3, grid_row(s, f), dim_color());
    let d = with_row(c, 4, color_row(s), dim_color());
    let e = with_row(d, 5, style_row(s), dim_color());
    let g = with_row(e, 6, light_row(s, f), lit);
    let h = with_row(g, 7, focus_row(ui), alert);
    lemma_row(layer, 1, rate_row(f), text_color(), x, y);
    lemma_row(a, 2, drawn_row(f), dim_color(), x, y);
    lemma_row(b, 3, grid_row(s, f), dim_color(), x, y);
    lemma_row(c, 4, color_row(s), dim_color(), x, y);
    lemma_row(d, 5, style_row(s), dim_color(), x, y);
    lemma_row(e, 6, light_row(s, f), lit, x, y);
    lemma_row(g, 7, focus_row(ui), alert, x, y);
    let cross = ink_cell(overlay_glyph('+'), text_color());
    if 0 <= layer.cols / 2 < layer.cols && 0 <= layer.rows / 2 < layer.rows {
        law_written_cell_is_read_back(
            h,
            layer.cols / 2,
            layer.rows / 2,
            cross,
            x,
            y,
        );
    }
}

/// What is said of the lighting.
pub proof fn law_lighting_text(s: Settings, f: Facts)
    ensures
        !s.tracing_available ==> lighting_text(s, f) == "RASTER ("@ + f.ray_tag@ + ")"@,
        s.tracing_available && !s.traced_enabled ==> lighting_text(s, f) == "RASTER (RTX IDLE)"@,
        s.tracing_available && s.traced_enabled && f.structures is None ==> lighting_text(s, f)
            == "TRACED d"@ + decimal(s.trace.max_depth as nat) + " "@ + decimal(
            f.rays_per_fragment as nat,
        ) + " rays/px "@ + decimal(0) + " tris"@,
        s.tracing_available && s.traced_enabled ==> (f.structures matches Some(a) ==> lighting_text(
            s,
            f,
        ) == "TRACED d"@ + decimal(s.trace.max_depth as nat) + " "@ + decimal(
            f.rays_per_fragment as nat,
        ) + " rays/px "@ + decimal(a.triangles as nat) + " tris"@),
{
}

/// A frame takes the time from its beginning to its end and counts once; after a second
/// the frames since the last report are reported with the time they took, and counting
/// starts anew.
pub proof fn law_frame_ends(m: FrameMetrics, now: u64)
    requires
        m.last_log <= now,
        m.frame_count < u64::MAX,
    ensures
        ({
            let r = m.ended(now);
            &&& (m.cpu_start matches Some(start) ==> start <= now ==> r.cpu_time_us == now - start)
            &&& m.cpu_start is None ==> r.cpu_time_us == m.cpu_time_us
            &&& r.cpu_start == m.cpu_start
            &&& r.submit_time_us == m.submit_time_us
            &&& r.drawn == m.drawn && r.culled == m.culled && r.material_slots == m.material_slots
                && r.glyphs == m.glyphs
            &&& now - m.last_log < 1_000_000 ==> r.frame_count == m.frame_count + 1 && r.rate
                == m.rate && r.last_log == m.last_log
            &&& now - m.last_log >= 1_000_000 ==> r.frame_count == 0 && r.last_log == now && r.rate
                == Some(
                Rate { frames: (m.frame_count + 1) as u64, micros: (now - m.last_log) as u64 },
            )
        }),
        forall|from: u64, to: u64| from > to ==> #[trigger] passed(from, to) == 0,
        forall|from: u64, to: u64| from <= to ==> #[trigger] passed(from, to) == to - from,
{
}

} // verus!
