//! What a frame does, said of keys, settings, meshes and depths directly.

use vstd::prelude::*;
use vstd::arithmetic::div_mod::lemma_fundamental_div_mod_converse;
use crate::ascii::color::ColorMode;
use crate::engine::single::is_finite;
use crate::shell::frame::{
    cell_depth, downsampled, held, is_seen, is_solid, lemma_picked, lemma_picked_bound, newly_held,
    ordered, picked, planned, shortcut, Candidate, Shortcuts, WheelUse,
};
use crate::shell::input::{Button, InputState, Key};
use crate::shell::settings::{CameraMode, GlyphStyle, Settings};

verus! {

// --- camera ------------------------------------------------------------------

/// W moves forward and S back, D to the right and A to the left, Shift up and
/// Control down; two opposite keys, or neither, do nothing.
pub proof fn law_movement_keys(
    cycling: bool,
    input: InputState,
    mode: CameraMode,
    wheel_moved: bool,
)
    ensures
        ({
            let r = ordered(cycling, input, mode, wheel_moved);
            &&& input.key_down(Key::KeyW) && !input.key_down(Key::KeyS) <==> r.forward == 1
            &&& input.key_down(Key::KeyS) && !input.key_down(Key::KeyW) <==> r.forward == -1
            &&& input.key_down(Key::KeyW) == input.key_down(Key::KeyS) <==> r.forward == 0
            &&& input.key_down(Key::KeyD) && !input.key_down(Key::KeyA) <==> r.right == 1
            &&& input.key_down(Key::KeyA) && !input.key_down(Key::KeyD) <==> r.right == -1
            &&& input.key_down(Key::KeyA) == input.key_down(Key::KeyD) <==> r.right == 0
            &&& input.key_down(Key::ShiftLeft) && !input.key_down(Key::ControlLeft) <==> r.up == 1
            &&& input.key_down(Key::ControlLeft) && !input.key_down(Key::ShiftLeft) <==> r.up == -1
            &&& input.key_down(Key::ShiftLeft) == input.key_down(Key::ControlLeft) <==> r.up == 0
        }),
{
}

/// The mouse turns the camera while its left button is held, and the wheel zooms:
/// the field of view in first person and the distance otherwise.
pub proof fn law_mouse_and_wheel(
    cycling: bool,
    input: InputState,
    mode: CameraMode,
    wheel_moved: bool,
)
    ensures
        ({
            let r = ordered(cycling, input, mode, wheel_moved);
            &&& r.turn <==> input.button_down(Button::Left)
            &&& r.wheel == WheelUse::Still <==> !wheel_moved
            &&& r.wheel == WheelUse::FieldOfView <==> wheel_moved && mode
                == CameraMode::FirstPerson
            &&& r.wheel == WheelUse::Distance <==> wheel_moved && (mode == CameraMode::ThirdPerson
                || mode == CameraMode::Orbit)
        }),
{
}

/// A fresh press of C goes from first person to third person, from there to orbit
/// and from there back; anything else keeps the mode.
pub proof fn law_cycle_key(
    cycling: bool,
    input: InputState,
    mode: CameraMode,
    wheel_moved: bool,
)
    ensures
        ({
            let r = ordered(cycling, input, mode, wheel_moved);
            let pressed = input.key_down(Key::KeyC) && !cycling;
            &&& r.preset_chosen <==> pressed
            &&& !pressed ==> r.mode == mode
            &&& pressed && mode == CameraMode::FirstPerson ==> r.mode == CameraMode::ThirdPerson
            &&& pressed && mode == CameraMode::ThirdPerson ==> r.mode == CameraMode::Orbit
            &&& pressed && mode == CameraMode::Orbit ==> r.mode == CameraMode::FirstPerson
        }),
{
}

// --- shortcuts ---------------------------------------------------------------

/// Each shortcut key, freshly pressed, changes one setting and no other: G the
/// merging of cells, M the colour mode, P the effects, H the status display, B
/// the glyph style and R the lighting, where the machine can trace.
pub proof fn law_shortcut_keys(s: Settings, input: InputState, was: Shortcuts)
    ensures
        ({
            let r = shortcut(s, newly_held(held(input, false), was));
            let g = input.key_down(Key::KeyG) && !was.grid;
            let m = input.key_down(Key::KeyM) && !was.color;
            let p = input.key_down(Key::KeyP) && !was.post;
            let h = input.key_down(Key::KeyH) && !was.hud;
            let b = input.key_down(Key::KeyB) && !was.style;
            let t = input.key_down(Key::KeyR) && !was.trace;
            &&& !g ==> r.subdivision == s.subdivision
            &&& g ==> r.subdivision.max_span == (if s.subdivision.max_span >= 2 {
                1int
            } else {
                2
            })
            &&& !m ==> r.color_mode == s.color_mode
            &&& m && s.color_mode == ColorMode::TrueColor ==> r.color_mode == ColorMode::Ansi256
            &&& m && s.color_mode == ColorMode::Ansi256 ==> r.color_mode == ColorMode::Ansi16
            &&& m && s.color_mode == ColorMode::Ansi16 ==> r.color_mode == ColorMode::Grayscale
            &&& m && s.color_mode == ColorMode::Grayscale ==> r.color_mode == ColorMode::Monochrome
            &&& m && s.color_mode == ColorMode::Monochrome ==> r.color_mode == ColorMode::TrueColor
            &&& !p ==> r.post == s.post
            &&& p && (s.post.ssao || s.post.other) ==> !r.post.ssao && !r.post.other
            &&& p && !s.post.ssao && !s.post.other ==> r.post == s.demo_post
            &&& r.hud_visible == (s.hud_visible != h)
            &&& !b ==> r.glyph_style == s.glyph_style
            &&& b && s.glyph_style == GlyphStyle::Blocks ==> r.glyph_style == GlyphStyle::Ramp
            &&& b && s.glyph_style == GlyphStyle::Ramp ==> r.glyph_style == GlyphStyle::Blocks
            &&& r.traced_enabled == (s.traced_enabled != (t && s.tracing_available))
            &&& r.demo_post == s.demo_post && r.tracing_available == s.tracing_available
            &&& r.trace == s.trace && r.camera_mode == s.camera_mode
            &&& r.preset_chosen == s.preset_chosen && r.should_exit == s.should_exit
        }),
{
}

/// What is remembered of the shortcut keys is which of them are down, and none is
/// while a layer of the user interface has the keyboard.
pub proof fn law_shortcut_latches(input: InputState, focused: bool)
    ensures
        ({
            let r = held(input, focused);
            &&& r.grid == (!focused && input.key_down(Key::KeyG))
            &&& r.color == (!focused && input.key_down(Key::KeyM))
            &&& r.post == (!focused && input.key_down(Key::KeyP))
            &&& r.hud == (!focused && input.key_down(Key::KeyH))
            &&& r.style == (!focused && input.key_down(Key::KeyB))
            &&& r.trace == (!focused && input.key_down(Key::KeyR))
        }),
{
}

// --- what is drawn -----------------------------------------------------------

/// A frame traces rays if that is switched on and can be done, and then leaves
/// ambient occlusion to the rays. It reads depths exactly if cells are merged or
/// ambient occlusion is computed from them, maps colours unless all can be shown,
/// and draws the overlay for the status display or an open layer.
pub proof fn law_plans(s: Settings, focused: bool)
    ensures
        ({
            let r = planned(s, focused);
            &&& r.traced <==> s.traced_enabled && s.tracing_available
            &&& r.traced ==> !r.post.ssao
            &&& !r.traced ==> r.post.ssao == s.post.ssao
            &&& r.post.other == s.post.other
            &&& r.merge <==> s.subdivision.max_span >= 2
            &&& r.needs_depth <==> r.merge || r.post.ssao
            &&& !r.quantize <==> s.color_mode == ColorMode::TrueColor
            &&& r.hud == s.hud_visible
            &&& !r.overlay <==> !s.hud_visible && !focused
        }),
{
}

/// Rays reach exactly the solid meshes, and exactly those of them that are seen
/// are drawn, each once and in the order of the scene.
pub proof fn law_draw_lists(all: Seq<Candidate>, i: int)
    requires
        0 <= i < all.len() <= usize::MAX,
    ensures
        picked(all, is_solid(), all.len() as int).contains(i as usize) <==> all[i].solid,
        picked(all, is_seen(), all.len() as int).contains(i as usize) <==> all[i].solid
            && all[i].visible,
        in_order(picked(all, is_solid(), all.len() as int), all.len() as int),
        in_order(picked(all, is_seen(), all.len() as int), all.len() as int),
{
    lemma_picked(all, is_solid(), all.len() as int, i);
    lemma_picked(all, is_seen(), all.len() as int, i);
    lemma_in_order(all, is_solid(), all.len() as int);
    lemma_in_order(all, is_seen(), all.len() as int);
}

/// Numbers below `n` that grow.
pub open spec fn in_order(list: Seq<usize>, n: int) -> bool {
    &&& forall|a: int, b: int|
        0 <= a < b < list.len() ==> #[trigger] list[a] < #[trigger] list[b]
    &&& forall|a: int| 0 <= a < list.len() ==> #[trigger] list[a] < n
}

proof fn lemma_in_order(all: Seq<Candidate>, keep: spec_fn(Candidate) -> bool, n: int)
    requires
        0 <= n <= all.len() <= usize::MAX,
    ensures
        in_order(picked(all, keep, n), n),
    decreases n,
{
    lemma_picked_bound(all, keep, n);
    if n > 0 {
        lemma_in_order(all, keep, n - 1);
        let (before, after) = (picked(all, keep, n - 1), picked(all, keep, n));
        assert forall|a: int, b: int| 0 <= a < b < after.len() implies #[trigger] after[a]
            < #[trigger] after[b] by {
            assert(after[a] == before[a]);
            if b < before.len() {
                assert(after[b] == before[b]);
            }
        }
    }
}

// --- depths ------------------------------------------------------------------

/// A number that is not nearer than another, both given by their bits.
pub open spec fn farther(a: u32, b: u32) -> bool {
    let of = |bits: u32|
        if bits < 0x8000_0000 {
            bits as int
        } else {
            0x8000_0000 - bits
        };
    of(a) >= of(b)
}

/// The depth of cell (`col`, `row`) is the nearest of its four subpixels: it is
/// one of them, and none is nearer; without a finite one it is the far plane.
/// Cells are counted row by row, and each takes two subpixels in both directions.
pub proof fn law_cells_take_their_nearest_depth(
    depth: Seq<u32>,
    sub_cols: int,
    sub_rows: int,
    col: int,
    row: int,
)
    requires
        depth.len() == sub_cols * sub_rows,
        0 <= col < sub_cols / 2,
        0 <= row < sub_rows / 2,
    ensures
        ({
            let out = downsampled(depth, sub_cols, sub_rows);
            let d = out[row * (sub_cols / 2) + col];
            let (x, y) = (2 * col, 2 * row);
            let (a, b, c, e) = (
                depth[y * sub_cols + x],
                depth[y * sub_cols + x + 1],
                depth[(y + 1) * sub_cols + x],
                depth[(y + 1) * sub_cols + x + 1],
            );
            &&& out.len() == (sub_cols / 2) * (sub_rows / 2)
            &&& is_finite(d)
            &&& is_finite(a) ==> farther(a, d)
            &&& is_finite(b) ==> farther(b, d)
            &&& is_finite(c) ==> farther(c, d)
            &&& is_finite(e) ==> farther(e, d)
            &&& if is_finite(a) || is_finite(b) || is_finite(c) || is_finite(e) {
                d == a || d == b || d == c || d == e
            } else {
                d == 0x3f80_0000
            }
        }),
{
    let cols = sub_cols / 2;
    let rows = sub_rows / 2;
    let i = row * cols + col;
    lemma_fundamental_div_mod_converse(i, cols, row, col);
    assert(0 <= i < cols * rows) by (nonlinear_arith)
        requires
            i == row * cols + col,
            0 <= col < cols,
            0 <= row < rows,
    ;
    assert(downsampled(depth, sub_cols, sub_rows)[i] == cell_depth(depth, sub_cols, col, row));
    let (x, y) = (2 * col, 2 * row);
    assert((y + 1) * sub_cols == y * sub_cols + sub_cols && 0 <= y * sub_cols && (y + 1) * sub_cols
        + sub_cols <= sub_cols * sub_rows) by (nonlinear_arith)
        requires
            0 <= y,
            y + 2 <= sub_rows,
            0 <= sub_cols,
    ;
    lemma_nearest_of_four(depth, sub_cols, col, row);
}

proof fn lemma_nearest_of_four(depth: Seq<u32>, sub_cols: int, col: int, row: int)
    requires
        0 <= (2 * row) * sub_cols + 2 * col,
        (2 * row) * sub_cols + 2 * col + 1 < depth.len(),
        0 <= (2 * row + 1) * sub_cols + 2 * col,
        (2 * row + 1) * sub_cols + 2 * col + 1 < depth.len(),
    ensures
        ({
            let d = cell_depth(depth, sub_cols, col, row);
            let (x, y) = (2 * col, 2 * row);
            let (a, b, c, e) = (
                depth[y * sub_cols + x],
                depth[y * sub_cols + x + 1],
                depth[(y + 1) * sub_cols + x],
                depth[(y + 1) * sub_cols + x + 1],
            );
            &&& is_finite(d)
            &&& is_finite(a) ==> farther(a, d)
            &&& is_finite(b) ==> farther(b, d)
            &&& is_finite(c) ==> farther(c, d)
            &&& is_finite(e) ==> farther(e, d)
            &&& if is_finite(a) || is_finite(b) || is_finite(c) || is_finite(e) {
                d == a || d == b || d == c || d == e
            } else {
                d == 0x3f80_0000
            }
        }),
{
}

} // verus!
