//! The status display: counts in the top left corner, the active settings below
//! them, and a crosshair.

use vstd::prelude::*;
use crate::ascii::overlay::{Layer, Overlay, OverlayCell, Rgb};
use crate::ascii::overlay::{ink_cell, point_paint, text_paint};
use crate::ascii::{overlay_glyph, overlay_glyph_of};
use crate::shell::command::{Facts, lighting_summary, lighting_text};
use crate::shell::settings::{GlyphStyle, Settings, color_label, color_mode_label};
use crate::shell::ui::UiState;
use crate::text::{decimal, push_decimal};

verus! {

/// Main text: 0.85, 0.95, 0.85.
pub open spec fn text_color() -> Rgb {
    Rgb { r: 0x3f59_999a, g: 0x3f73_3333, b: 0x3f59_999a }
}

fn text() -> (r: Rgb)
    ensures
        r == text_color(),
{
    Rgb { r: 0x3f59_999a, g: 0x3f73_3333, b: 0x3f59_999a }
}

/// Secondary text: 0.45, 0.55, 0.45.
pub open spec fn dim_color() -> Rgb {
    Rgb { r: 0x3ee6_6666, g: 0x3f0c_cccd, b: 0x3ee6_6666 }
}

fn dim() -> (r: Rgb)
    ensures
        r == dim_color(),
{
    Rgb { r: 0x3ee6_6666, g: 0x3f0c_cccd, b: 0x3ee6_6666 }
}

/// Traced lighting: 0.5, 0.85, 1.
pub open spec fn traced_color() -> Rgb {
    Rgb { r: 0x3f00_0000, g: 0x3f59_999a, b: 0x3f80_0000 }
}

fn traced() -> (r: Rgb)
    ensures
        r == traced_color(),
{
    Rgb { r: 0x3f00_0000, g: 0x3f59_999a, b: 0x3f80_0000 }
}

/// A layer that holds the keyboard: 1, 0.75, 0.3.
pub open spec fn warning_color() -> Rgb {
    Rgb { r: 0x3f80_0000, g: 0x3f40_0000, b: 0x3e99_999a }
}

fn warning() -> (r: Rgb)
    ensures
        r == warning_color(),
{
    Rgb { r: 0x3f80_0000, g: 0x3f40_0000, b: 0x3e99_999a }
}

/// The frame rate.
pub open spec fn rate_row(f: Facts) -> Seq<char> {
    "FPS "@ + f.fps@
}

/// What was drawn and what was not.
pub open spec fn drawn_row(f: Facts) -> Seq<char> {
    "DRAWN "@ + decimal(f.drawn as nat) + " CULL "@ + decimal(f.culled as nat)
}

/// Materials and the kind of grid.
pub open spec fn grid_row(s: Settings, f: Facts) -> Seq<char> {
    "MAT "@ + decimal(f.materials as nat) + " GRID "@ + (if s.merges() {
        "DYN"@
    } else {
        "UNI"@
    })
}

/// Colour mode and effects.
pub open spec fn color_row(s: Settings) -> Seq<char> {
    "COLOR "@ + color_label(s.color_mode) + " POST "@ + (if s.post.any() {
        "ON"@
    } else {
        "OFF"@
    })
}

/// The glyph style.
pub open spec fn style_row(s: Settings) -> Seq<char> {
    "STYLE "@ + (if s.glyph_style == GlyphStyle::Blocks {
        "BLOCK"@
    } else {
        "RAMP"@
    })
}

/// The lighting path.
pub open spec fn light_row(s: Settings, f: Facts) -> Seq<char> {
    "LIGHT "@ + lighting_text(s, f)
}

/// Who holds the keyboard, or how to open a layer.
pub open spec fn focus_row(ui: UiState) -> Seq<char> {
    if ui.focused() {
        (if ui.console_open {
            "CONSOLE"@
        } else {
            "MENU"@
        }) + " HAS FOCUS - ESC TO CLOSE"@
    } else {
        "TAB MENU  ` CONSOLE"@
    }
}

/// One row of text drawn on a layer.
pub open spec fn with_row(layer: Layer, row: int, text: Seq<char>, color: Rgb) -> Layer {
    layer.painted(text_paint(1, row, text, color, layer.glyphs))
}

/// The layer with the status display on it.
pub open spec fn with_hud(layer: Layer, s: Settings, f: Facts, ui: UiState) -> Layer {
    let a = with_row(layer, 1, rate_row(f), text_color());
    let b = with_row(a, 2, drawn_row(f), dim_color());
    let c = with_row(b, 3, grid_row(s, f), dim_color());
    let d = with_row(c, 4, color_row(s), dim_color());
    let e = with_row(d, 5, style_row(s), dim_color());
    let g = with_row(
        e,
        6,
        light_row(s, f),
        if s.traced_enabled {
            traced_color()
        } else {
            dim_color()
        },
    );
    let h = with_row(
        g,
        7,
        focus_row(ui),
        if ui.focused() {
            warning_color()
        } else {
            dim_color()
        },
    );
    h.painted(
        point_paint(
            layer.cols / 2,
            layer.rows / 2,
            ink_cell(overlay_glyph('+'), text_color()),
        ),
    )
}

/// The texts of the seven rows.
fn rows(s: &Settings, f: &Facts, ui: &UiState) -> (r: Vec<String>)
    ensures
        r@.len() == 7,
        r@[0]@ == rate_row(*f),
        r@[1]@ == drawn_row(*f),
        r@[2]@ == grid_row(*s, *f),
        r@[3]@ == color_row(*s),
        r@[4]@ == style_row(*s),
        r@[5]@ == light_row(*s, *f),
        r@[6]@ == focus_row(*ui),
{
    let mut rate = String::from_str("FPS ");
    rate.append(f.fps.as_str());
    let mut drawn = String::from_str("DRAWN ");
    push_decimal(&mut drawn, f.drawn as u64);
    drawn.append(" CULL ");
    push_decimal(&mut drawn, f.culled as u64);
    let mut grid = String::from_str("MAT ");
    push_decimal(&mut grid, f.materials as u64);
    grid.append(" GRID ");
    grid.append(
        if s.subdivision.merges() {
            "DYN"
        } else {
            "UNI"
        },
    );
    let mut color = String::from_str("COLOR ");
    color.append(color_mode_label(s.color_mode));
    color.append(" POST ");
    color.append(
        if s.post.any_enabled() {
            "ON"
        } else {
            "OFF"
        },
    );
    let mut style = String::from_str("STYLE ");
    style.append(
        match s.glyph_style {
            GlyphStyle::Blocks => "BLOCK",
            GlyphStyle::Ramp => "RAMP",
        },
    );
    let mut light = String::from_str("LIGHT ");
    light.append(lighting_summary(s, f).as_str());
    let focus: String = if ui.ui_has_focus() {
        let mut owner = String::from_str(
            if ui.console_open {
                "CONSOLE"
            } else {
                "MENU"
            },
        );
        owner.append(" HAS FOCUS - ESC TO CLOSE");
        owner
    } else {
        String::from_str("TAB MENU  ` CONSOLE")
    };
    vec![rate, drawn, grid, color, style, light, focus]
}

/// Draw the status display into the overlay.
pub fn draw_hud(overlay: &mut Overlay, s: &Settings, f: &Facts, ui: &UiState)
    requires
        old(overlay).wf(),
    ensures
        final(overlay).wf(),
        final(overlay)@ == with_hud(old(overlay)@, *s, *f, *ui),
{
    let texts = rows(s, f, ui);
    let light_color: Rgb = if s.traced_enabled {
        traced()
    } else {
        dim()
    };
    let focus_color: Rgb = if ui.ui_has_focus() {
        warning()
    } else {
        dim()
    };
    overlay.draw_text(1, 1, texts[0].as_str(), text());
    overlay.draw_text(1, 2, texts[1].as_str(), dim());
    overlay.draw_text(1, 3, texts[2].as_str(), dim());
    overlay.draw_text(1, 4, texts[3].as_str(), dim());
    overlay.draw_text(1, 5, texts[4].as_str(), dim());
    overlay.draw_text(1, 6, texts[5].as_str(), light_color);
    overlay.draw_text(1, 7, texts[6].as_str(), focus_color);
    let cx: u32 = overlay.cols() / 2;
    let cy: u32 = overlay.rows() / 2;
    overlay.set_cell(cx, cy, OverlayCell::new(overlay_glyph_of('+'), text()));
}

} // verus!
