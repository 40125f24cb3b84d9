//! What a frame does: keyboard shortcuts, the camera's orders, what is drawn
//! and what is read back.

use vstd::arithmetic::div_mod::lemma_fundamental_div_mod_converse;
use vstd::prelude::*;
use crate::ascii::color::ColorMode;
use crate::engine::single::{INFINITY, below, finite, is_finite, is_less};
use crate::shell::input::{Button, InputState, Key};
use crate::shell::settings::{CameraMode, GlyphStyle, PostProcess, Settings};
use crate::shell::settings::{color_after, mode_after, next_color_mode, next_mode};
use crate::shell::ui::pressed_once;

verus! {

/// Columns of the glyph grid.
pub const GRID_COLS: u32 = 120;

/// Rows of the glyph grid.
pub const GRID_ROWS: u32 = 68;

/// The render target is this many times the glyph grid on each axis, so that
/// every cell has a 2x2 block of subpixels.
pub const SUBSAMPLE: u32 = 2;

/// One, as a bit pattern: the far plane.
pub const FAR: u32 = 0x3f80_0000;

// --- shortcuts ---------------------------------------------------------------

/// The single-letter shortcut keys.
#[derive(Clone, Copy, Debug, PartialEq, Eq, Structural)]
pub struct Shortcuts {
    pub grid: bool,
    pub color: bool,
    pub post: bool,
    pub hud: bool,
    pub style: bool,
    pub trace: bool,
}

/// The colour mode moved on.
pub open spec fn recolored(s: Settings) -> Settings {
    Settings { color_mode: color_after(s.color_mode), ..s }
}

/// The glyph style changed for the other.
pub open spec fn restyled(s: Settings) -> Settings {
    Settings {
        glyph_style: match s.glyph_style {
            GlyphStyle::Blocks => GlyphStyle::Ramp,
            GlyphStyle::Ramp => GlyphStyle::Blocks,
        },
        ..s
    }
}

/// The status display shown or hidden.
pub open spec fn hud_flipped(s: Settings) -> Settings {
    Settings { hud_visible: !s.hud_visible, ..s }
}

/// One of two settings.
pub open spec fn either(wanted: bool, then_this: Settings, else_this: Settings) -> Settings {
    if wanted {
        then_this
    } else {
        else_this
    }
}

/// The settings after shortcuts went down.
pub open spec fn shortcut(s: Settings, fired: Shortcuts) -> Settings {
    let a = either(fired.grid, s.with_grid(!s.merges()), s);
    let b = either(fired.color, recolored(a), a);
    let c = either(fired.post, b.with_post(!b.post.any()), b);
    let d = either(fired.hud, hud_flipped(c), c);
    let e = either(fired.style, restyled(d), d);
    either(fired.trace, e.with_tracing_flipped(), e)
}

/// Shortcut keys that are held, where no layer of the user interface has the
/// keyboard.
pub open spec fn held(input: InputState, focused: bool) -> Shortcuts {
    Shortcuts {
        grid: !focused && input.key_down(Key::KeyG),
        color: !focused && input.key_down(Key::KeyM),
        post: !focused && input.key_down(Key::KeyP),
        hud: !focused && input.key_down(Key::KeyH),
        style: !focused && input.key_down(Key::KeyB),
        trace: !focused && input.key_down(Key::KeyR),
    }
}

/// Shortcuts that went down since `was`.
pub open spec fn newly_held(down: Shortcuts, was: Shortcuts) -> Shortcuts {
    Shortcuts {
        grid: down.grid && !was.grid,
        color: down.color && !was.color,
        post: down.post && !was.post,
        hud: down.hud && !was.hud,
        style: down.style && !was.style,
        trace: down.trace && !was.trace,
    }
}

/// Apply the shortcut keys of a frame. Each press acts once, and none acts while
/// a layer of the user interface has the keyboard.
pub fn apply_shortcuts(
    s: &mut Settings,
    latches: &mut Shortcuts,
    input: &InputState,
    focused: bool,
)
    ensures
        *final(latches) == held(*input, focused),
        *final(s) == shortcut(*old(s), newly_held(held(*input, focused), *old(latches))),
{
    let down: Shortcuts = held_keys(input, focused);
    let fired: Shortcuts = fired_shortcuts(down, *latches);
    *latches = down;
    flip_grid(s, fired.grid);
    cycle_color(s, fired.color);
    flip_post(s, fired.post);
    flip_hud(s, fired.hud);
    flip_style(s, fired.style);
    flip_tracing(s, fired.trace);
}

fn flip_grid(s: &mut Settings, wanted: bool)
    ensures
        *final(s) == either(wanted, old(s).with_grid(!old(s).merges()), *old(s)),
{
    if wanted {
        let merging: bool = s.subdivision.merges();
        s.set_grid(!merging);
    }
}

fn cycle_color(s: &mut Settings, wanted: bool)
    ensures
        *final(s) == either(wanted, recolored(*old(s)), *old(s)),
{
    if wanted {
        s.color_mode = next_color_mode(s.color_mode);
    }
}

fn flip_post(s: &mut Settings, wanted: bool)
    ensures
        *final(s) == either(wanted, old(s).with_post(!old(s).post.any()), *old(s)),
{
    if wanted {
        let on: bool = s.post.any_enabled();
        s.set_post(!on);
    }
}

fn flip_hud(s: &mut Settings, wanted: bool)
    ensures
        *final(s) == either(wanted, hud_flipped(*old(s)), *old(s)),
{
    if wanted {
        s.hud_visible = !s.hud_visible;
    }
}

fn flip_style(s: &mut Settings, wanted: bool)
    ensures
        *final(s) == either(wanted, restyled(*old(s)), *old(s)),
{
    if wanted {
        s.glyph_style = match s.glyph_style {
            GlyphStyle::Blocks => GlyphStyle::Ramp,
            GlyphStyle::Ramp => GlyphStyle::Blocks,
        };
    }
}

fn flip_tracing(s: &mut Settings, wanted: bool)
    ensures
        *final(s) == either(wanted, old(s).with_tracing_flipped(), *old(s)),
{
    if wanted {
        s.toggle_tracing();
    }
}

fn held_keys(input: &InputState, focused: bool) -> (r: Shortcuts)
    ensures
        r == held(*input, focused),
{
    Shortcuts {
        grid: !focused && input.is_key_pressed(Key::KeyG),
        color: !focused && input.is_key_pressed(Key::KeyM),
        post: !focused && input.is_key_pressed(Key::KeyP),
        hud: !focused && input.is_key_pressed(Key::KeyH),
        style: !focused && input.is_key_pressed(Key::KeyB),
        trace: !focused && input.is_key_pressed(Key::KeyR),
    }
}

fn fired_shortcuts(down: Shortcuts, was: Shortcuts) -> (r: Shortcuts)
    ensures
        r == newly_held(down, was),
{
    Shortcuts {
        grid: down.grid && !was.grid,
        color: down.color && !was.color,
        post: down.post && !was.post,
        hud: down.hud && !was.hud,
        style: down.style && !was.style,
        trace: down.trace && !was.trace,
    }
}

// --- camera ------------------------------------------------------------------

/// What the wheel does.
#[derive(Clone, Copy, Debug, PartialEq, Eq, Structural)]
pub enum WheelUse {
    /// It did not move.
    Still,
    /// It changes the field of view, in first person, where there is no
    /// distance to change.
    FieldOfView,
    /// It changes the camera's distance.
    Distance,
}

/// What the camera rig is told in a frame. Directions are -1, 0 or 1.
#[derive(Clone, Copy, Debug, PartialEq, Eq, Structural)]
pub struct CameraOrders {
    /// The mouse turns the camera.
    pub turn: bool,
    pub wheel: WheelUse,
    pub mode: CameraMode,
    /// The key chose a preset: its distance and height apply anew.
    pub preset_chosen: bool,
    pub forward: i8,
    pub right: i8,
    pub up: i8,
}

/// One direction less its opposite.
pub open spec fn axis(plus: bool, minus: bool) -> int {
    (if plus {
        1int
    } else {
        0
    }) - (if minus {
        1int
    } else {
        0
    })
}

fn axis_of(plus: bool, minus: bool) -> (r: i8)
    ensures
        r == axis(plus, minus),
{
    if plus == minus {
        0
    } else if plus {
        1
    } else {
        -1
    }
}

/// What a moved wheel does in a camera mode.
pub open spec fn wheel_use(mode: CameraMode, moved: bool) -> WheelUse {
    if !moved {
        WheelUse::Still
    } else if mode == CameraMode::FirstPerson {
        WheelUse::FieldOfView
    } else {
        WheelUse::Distance
    }
}

/// What the input of a frame orders, where `cycling` tells whether the key that
/// cycles the presets was down in the frame before.
pub open spec fn ordered(
    cycling: bool,
    input: InputState,
    mode: CameraMode,
    wheel_moved: bool,
) -> CameraOrders {
    let cycle = input.key_down(Key::KeyC) && !cycling;
    CameraOrders {
        turn: input.button_down(Button::Left),
        wheel: wheel_use(mode, wheel_moved),
        mode: if cycle {
            mode_after(mode)
        } else {
            mode
        },
        preset_chosen: cycle,
        forward: axis(input.key_down(Key::KeyW), input.key_down(Key::KeyS)) as i8,
        right: axis(input.key_down(Key::KeyD), input.key_down(Key::KeyA)) as i8,
        up: axis(input.key_down(Key::ShiftLeft), input.key_down(Key::ControlLeft)) as i8,
    }
}

/// Orders that leave the camera as it is.
pub open spec fn no_orders(mode: CameraMode) -> CameraOrders {
    CameraOrders {
        turn: false,
        wheel: WheelUse::Still,
        mode,
        preset_chosen: false,
        forward: 0,
        right: 0,
        up: 0,
    }
}

/// What the camera is told in a frame: nothing while a layer of the user
/// interface has the keyboard.
pub open spec fn steered(
    cycling: bool,
    input: InputState,
    mode: CameraMode,
    wheel_moved: bool,
    focused: bool,
) -> CameraOrders {
    if focused {
        no_orders(mode)
    } else {
        ordered(cycling, input, mode, wheel_moved)
    }
}

/// One frame of camera input: the mouse turns only while its button is held,
/// the wheel zooms, a key cycles the presets, and six keys move.
pub fn camera_orders(
    latch: &mut bool,
    input: &InputState,
    mode: CameraMode,
    wheel_moved: bool,
) -> (r: CameraOrders)
    ensures
        *final(latch) == input.key_down(Key::KeyC),
        r == ordered(*old(latch), *input, mode, wheel_moved),
{
    let wheel: WheelUse = if !wheel_moved {
        WheelUse::Still
    } else if mode == CameraMode::FirstPerson {
        WheelUse::FieldOfView
    } else {
        WheelUse::Distance
    };
    let cycle: bool = pressed_once(input.is_key_pressed(Key::KeyC), latch);
    let next: CameraMode = if cycle {
        next_mode(mode)
    } else {
        mode
    };
    CameraOrders {
        turn: input.is_look_active(),
        wheel,
        mode: next,
        preset_chosen: cycle,
        forward: axis_of(input.is_key_pressed(Key::KeyW), input.is_key_pressed(Key::KeyS)),
        right: axis_of(input.is_key_pressed(Key::KeyD), input.is_key_pressed(Key::KeyA)),
        up: axis_of(
            input.is_key_pressed(Key::ShiftLeft),
            input.is_key_pressed(Key::ControlLeft),
        ),
    }
}

/// The camera's orders of a frame. While a layer of the user interface has the
/// keyboard the input is not looked at, and whatever the mouse and the wheel
/// did is dropped.
pub fn camera_frame(
    latch: &mut bool,
    input: &InputState,
    mode: CameraMode,
    wheel_moved: bool,
    focused: bool,
) -> (r: CameraOrders)
    ensures
        *final(latch) == (if focused {
            *old(latch)
        } else {
            input.key_down(Key::KeyC)
        }),
        r == steered(*old(latch), *input, mode, wheel_moved, focused),
{
    if focused {
        CameraOrders {
            turn: false,
            wheel: WheelUse::Still,
            mode,
            preset_chosen: false,
            forward: 0,
            right: 0,
            up: 0,
        }
    } else {
        camera_orders(latch, input, mode, wheel_moved)
    }
}

// --- what is drawn -----------------------------------------------------------

/// A mesh of the scene in a frame: whether it has anything to draw, and whether
/// the camera sees it.
#[derive(Clone, Copy, Debug, PartialEq, Eq, Structural)]
pub struct Candidate {
    pub solid: bool,
    pub visible: bool,
}

/// The lists of a frame.
#[derive(Debug)]
pub struct DrawLists {
    /// Meshes that rays can reach: every one that is solid, seen or not.
    pub instances: Vec<usize>,
    /// Meshes that are drawn. The position in this list is the object's slot.
    pub drawn: Vec<usize>,
    /// How many solid meshes are not seen.
    pub culled: usize,
}

/// The positions up to `n` of candidates that `keep` accepts, in order.
pub open spec fn picked(
    all: Seq<Candidate>,
    keep: spec_fn(Candidate) -> bool,
    n: int,
) -> Seq<usize>
    decreases n,
{
    if n <= 0 {
        seq![]
    } else if keep(all[n - 1]) {
        picked(all, keep, n - 1).push((n - 1) as usize)
    } else {
        picked(all, keep, n - 1)
    }
}

/// Something to draw or to hit.
pub open spec fn is_solid() -> spec_fn(Candidate) -> bool {
    |c: Candidate| c.solid
}

/// Something to draw that the camera sees.
pub open spec fn is_seen() -> spec_fn(Candidate) -> bool {
    |c: Candidate| c.solid && c.visible
}

/// Sort a frame's meshes into what is drawn and what rays can reach. Culling
/// spares drawing only: a mesh behind the camera still casts shadows and shows
/// in mirrors.
pub fn draw_lists(all: &[Candidate]) -> (r: DrawLists)
    ensures
        r.instances@ == picked(all@, is_solid(), all@.len() as int),
        r.drawn@ == picked(all@, is_seen(), all@.len() as int),
        r.culled == r.instances@.len() - r.drawn@.len(),
{
    let mut instances: Vec<usize> = Vec::new();
    let mut drawn: Vec<usize> = Vec::new();
    let mut culled: usize = 0;
    let mut i: usize = 0;
    assert(all.len() == all@.len());
    while i < all.len()
        invariant
            i <= all@.len() <= usize::MAX,
            instances@ == picked(all@, is_solid(), i as int),
            drawn@ == picked(all@, is_seen(), i as int),
            culled == instances@.len() - drawn@.len(),
            culled <= i,
        decreases all@.len() - i,
    {
        let c: Candidate = all[i];
        if c.solid {
            instances.push(i);
            if c.visible {
                drawn.push(i);
            } else {
                culled += 1;
            }
        }
        i += 1;
    }
    DrawLists { instances, drawn, culled }
}

/// What a frame runs.
#[derive(Clone, Copy, Debug, PartialEq, Eq, Structural)]
pub struct FramePlan {
    /// Light with rays.
    pub traced: bool,
    /// The effects of this frame.
    pub post: PostProcess,
    /// Read the depth buffer back.
    pub needs_depth: bool,
    /// Merge cells by their depth.
    pub merge: bool,
    /// Map colours to the palette of the colour mode.
    pub quantize: bool,
    /// Draw the overlay.
    pub overlay: bool,
    /// Draw the status display on it.
    pub hud: bool,
}

/// What a frame runs under the settings.
pub open spec fn planned(s: Settings, focused: bool) -> FramePlan {
    let traced = s.traced_enabled && s.tracing_available;
    let post = PostProcess { ssao: s.post.ssao && !traced, ..s.post };
    FramePlan {
        traced,
        post,
        needs_depth: s.merges() || post.ssao,
        merge: s.merges(),
        quantize: s.color_mode != ColorMode::TrueColor,
        overlay: s.hud_visible || focused,
        hud: s.hud_visible,
    }
}

/// What a frame runs under the settings: ambient occlusion of the screen is
/// dropped while rays compute it, and depth is read back only where something
/// wants it.
pub fn frame_plan(s: &Settings, focused: bool) -> (r: FramePlan)
    ensures
        r == planned(*s, focused),
        r.traced == (s.traced_enabled && s.tracing_available),
        r.post == (if r.traced {
            PostProcess { ssao: false, ..s.post }
        } else {
            s.post
        }),
        r.needs_depth == (s.merges() || r.post.ssao),
        r.merge == s.merges(),
        r.quantize == (s.color_mode != ColorMode::TrueColor),
        r.overlay == (s.hud_visible || focused),
        r.hud == s.hud_visible,
{
    let traced: bool = s.traced_enabled && s.tracing_available;
    let post: PostProcess = if traced {
        s.post.without_ssao()
    } else {
        s.post
    };
    let merge: bool = s.subdivision.merges();
    let quantize: bool = match s.color_mode {
        ColorMode::TrueColor => false,
        _ => true,
    };
    FramePlan {
        traced,
        post,
        needs_depth: merge || post.ssao_active(),
        merge,
        quantize,
        overlay: s.hud_visible || focused,
        hud: s.hud_visible,
    }
}

/// Whether a window of this size can be drawn into. A minimised window reports
/// no size, which must not reach the aspect ratio or the surface.
pub fn is_drawable(width: u32, height: u32) -> (r: bool)
    ensures
        r == (width > 0 && height > 0),
{
    width != 0 && height != 0
}

// --- depth -------------------------------------------------------------------

/// The depth at a subpixel, if there is one there.
pub open spec fn depth_at(depth: Seq<u32>, sub_cols: int, x: int, y: int) -> Option<u32> {
    if y * sub_cols + x < depth.len() {
        Some(depth[y * sub_cols + x])
    } else {
        None
    }
}

/// The nearer of two depths; what is not finite is not near.
pub open spec fn nearer(nearest: u32, d: Option<u32>) -> u32 {
    match d {
        Some(bits) if is_finite(bits) && below(bits, nearest) => bits,
        _ => nearest,
    }
}

/// The nearest depth in a cell, or the far plane where it holds none.
pub open spec fn cell_depth(depth: Seq<u32>, sub_cols: int, col: int, row: int) -> u32 {
    let (x, y) = (2 * col, 2 * row);
    let a = nearer(INFINITY, depth_at(depth, sub_cols, x, y));
    let b = nearer(a, depth_at(depth, sub_cols, x + 1, y));
    let c = nearer(b, depth_at(depth, sub_cols, x, y + 1));
    let d = nearer(c, depth_at(depth, sub_cols, x + 1, y + 1));
    if is_finite(d) {
        d
    } else {
        FAR
    }
}

fn take_nearer(
    nearest: u32,
    depth: &[u32],
    sub_cols: u32,
    sub_rows: u32,
    x: u32,
    y: u32,
) -> (r: u32)
    requires
        sub_cols * sub_rows <= usize::MAX,
        x < sub_cols,
        y < sub_rows,
    ensures
        r == nearer(nearest, depth_at(depth@, sub_cols as int, x as int, y as int)),
{
    assert(0 <= y * sub_cols && y * sub_cols + x < sub_cols * sub_rows) by (nonlinear_arith)
        requires
            0 <= x < sub_cols,
            0 <= y < sub_rows,
    ;
    let at: usize = y as usize * sub_cols as usize + x as usize;
    assert(depth.len() == depth@.len());
    if at < depth.len() {
        let d: u32 = depth[at];
        if finite(d) && is_less(d, nearest) {
            return d;
        }
    }
    nearest
}

/// The depths of the cells, row by row.
pub open spec fn downsampled(depth: Seq<u32>, sub_cols: int, sub_rows: int) -> Seq<u32> {
    Seq::new(
        ((sub_cols / 2) * (sub_rows / 2)) as nat,
        |i: int| cell_depth(depth, sub_cols, i % (sub_cols / 2), i / (sub_cols / 2)),
    )
}

/// Reduce a subpixel depth buffer to one value for each glyph cell: the nearest
/// surface in it, so that a cell with any near geometry keeps its detail. Depths
/// are bit patterns.
pub fn downsample_depth(depth: &[u32], sub_cols: u32, sub_rows: u32) -> (out: Vec<u32>)
    requires
        sub_cols * sub_rows <= usize::MAX,
    ensures
        out@ == downsampled(depth@, sub_cols as int, sub_rows as int),
        out@.len() == (sub_cols / 2) * (sub_rows / 2),
        forall|i: int|
            0 <= i < out@.len() ==> #[trigger] out@[i] == cell_depth(
                depth@,
                sub_cols as int,
                i % (sub_cols / 2) as int,
                i / (sub_cols / 2) as int,
            ),
{
    let cols: u32 = sub_cols / 2;
    let rows: u32 = sub_rows / 2;
    let mut out: Vec<u32> = Vec::new();
    let mut row: u32 = 0;
    assert(0 * cols == 0) by (nonlinear_arith);
    while row < rows
        invariant
            sub_cols * sub_rows <= usize::MAX,
            cols == sub_cols / 2,
            rows == sub_rows / 2,
            row <= rows,
            out@.len() == row * cols,
            forall|i: int|
                0 <= i < out@.len() ==> #[trigger] out@[i] == cell_depth(
                    depth@,
                    sub_cols as int,
                    i % cols as int,
                    i / cols as int,
                ),
        decreases rows - row,
    {
        let mut col: u32 = 0;
        while col < cols
            invariant
                sub_cols * sub_rows <= usize::MAX,
                cols == sub_cols / 2,
                rows == sub_rows / 2,
                row < rows,
                col <= cols,
                out@.len() == row * cols + col,
                forall|i: int|
                    0 <= i < out@.len() ==> #[trigger] out@[i] == cell_depth(
                        depth@,
                        sub_cols as int,
                        i % cols as int,
                        i / cols as int,
                    ),
            decreases cols - col,
        {
            let x: u32 = col * 2;
            let y: u32 = row * 2;
            let a: u32 = take_nearer(INFINITY, depth, sub_cols, sub_rows, x, y);
            let b: u32 = take_nearer(a, depth, sub_cols, sub_rows, x + 1, y);
            let c: u32 = take_nearer(b, depth, sub_cols, sub_rows, x, y + 1);
            let d: u32 = take_nearer(c, depth, sub_cols, sub_rows, x + 1, y + 1);
            proof {
                lemma_fundamental_div_mod_converse(
                    row * cols + col,
                    cols as int,
                    row as int,
                    col as int,
                );
            }
            out.push(
                if finite(d) {
                    d
                } else {
                    FAR
                },
            );
            col += 1;
        }
        assert((row + 1) * cols == row * cols + cols) by (nonlinear_arith);
        row += 1;
    }
    assert(rows * cols == cols * rows) by (nonlinear_arith);
    assert(out@ =~= downsampled(depth@, sub_cols as int, sub_rows as int));
    out
}

// --- laws --------------------------------------------------------------------

/// A cell's depth is that of one of its subpixels or the far plane, and none of
/// its subpixels is nearer.
pub proof fn law_cell_depth_is_conservative(
    depth: Seq<u32>,
    sub_cols: int,
    col: int,
    row: int,
    dx: int,
    dy: int,
)
    requires
        0 <= dx < 2,
        0 <= dy < 2,
    ensures
        depth_at(depth, sub_cols, 2 * col + dx, 2 * row + dy) matches Some(d) ==> is_finite(d)
            ==> !below(d, cell_depth(depth, sub_cols, col, row)),
{
}

pub(crate) proof fn lemma_picked(all: Seq<Candidate>, keep: spec_fn(Candidate) -> bool, n: int, i: int)
    requires
        0 <= n <= all.len() <= usize::MAX,
        0 <= i < n,
    ensures
        picked(all, keep, n).contains(i as usize) <==> keep(all[i]),
    decreases n,
{
    let m = n - 1;
    let before = picked(all, keep, m);
    let after = picked(all, keep, n);
    lemma_picked_bound(all, keep, m);
    if i < m {
        lemma_picked(all, keep, m, i);
        lemma_contains_step(all, keep, n, i);
    } else if keep(all[m]) {
        assert(after[after.len() - 1] == m as usize);
    } else if after.contains(m as usize) {
        let k = choose|k: int| 0 <= k < before.len() && before[k] == m as usize;
        assert(picked(all, keep, m)[k] < m);
    }
}

proof fn lemma_contains_step(
    all: Seq<Candidate>,
    keep: spec_fn(Candidate) -> bool,
    n: int,
    i: int,
)
    requires
        0 < n <= all.len() <= usize::MAX,
        0 <= i < n - 1,
    ensures
        picked(all, keep, n).contains(i as usize) <==> picked(all, keep, n - 1).contains(
            i as usize,
        ),
{
    let before = picked(all, keep, n - 1);
    let after = picked(all, keep, n);
    if before.contains(i as usize) {
        let k = choose|k: int| 0 <= k < before.len() && before[k] == i as usize;
        assert(after[k] == i as usize);
    }
    if after.contains(i as usize) {
        let k = choose|k: int| 0 <= k < after.len() && after[k] == i as usize;
        assert(k < before.len());
        assert(before[k] == i as usize);
    }
}

pub(crate) proof fn lemma_picked_bound(all: Seq<Candidate>, keep: spec_fn(Candidate) -> bool, n: int)
    requires
        0 <= n <= all.len() <= usize::MAX,
    ensures
        forall|k: int| 0 <= k < picked(all, keep, n).len() ==> #[trigger] picked(all, keep, n)[k] < n,
    decreases n,
{
    if n > 0 {
        lemma_picked_bound(all, keep, n - 1);
        let before = picked(all, keep, n - 1);
        assert forall|k: int| 0 <= k < picked(all, keep, n).len() implies #[trigger] picked(
            all,
            keep,
            n,
        )[k] < n by {
            if k < before.len() {
                assert(picked(all, keep, n)[k] == before[k]);
            }
        }
    }
}

/// A mesh that is not seen is not drawn, but rays still reach it.
pub proof fn law_culled_meshes_stay_in_reach_of_rays(all: Seq<Candidate>, i: int)
    requires
        all.len() <= usize::MAX,
        0 <= i < all.len(),
        all[i].solid,
        !all[i].visible,
    ensures
        picked(all, is_solid(), all.len() as int).contains(i as usize),
        !picked(all, is_seen(), all.len() as int).contains(i as usize),
{
    lemma_picked(all, is_solid(), all.len() as int, i);
    lemma_picked(all, is_seen(), all.len() as int, i);
}

/// A shortcut key that stays down acts once.
pub proof fn law_held_shortcuts_act_once(s: Settings, down: Shortcuts)
    ensures
        shortcut(s, newly_held(down, down)) == s,
{
}

/// Nothing acts as a shortcut while a layer of the user interface has the
/// keyboard.
pub proof fn law_focus_silences_shortcuts(s: Settings, input: InputState, was: Shortcuts)
    ensures
        shortcut(s, newly_held(held(input, true), was)) == s,
{
}

/// Nothing that is typed, clicked or scrolled reaches the camera while a layer
/// of the user interface has the keyboard.
pub proof fn law_focus_keeps_input_from_the_camera(
    cycling: bool,
    input: InputState,
    mode: CameraMode,
    wheel_moved: bool,
)
    ensures
        steered(cycling, input, mode, wheel_moved, true) == no_orders(mode),
        !no_orders(mode).turn,
        no_orders(mode).wheel == WheelUse::Still,
        no_orders(mode).mode == mode && !no_orders(mode).preset_chosen,
        no_orders(mode).forward == 0 && no_orders(mode).right == 0 && no_orders(mode).up == 0,
{
}

/// The key that cycles the presets chooses one for each press, however long it
/// is held.
pub proof fn law_held_key_cycles_once(input: InputState, mode: CameraMode, wheel_moved: bool)
    ensures
        ordered(input.key_down(Key::KeyC), input, mode, wheel_moved).mode == mode,
        !ordered(input.key_down(Key::KeyC), input, mode, wheel_moved).preset_chosen,
        ordered(false, input, mode, wheel_moved).preset_chosen == input.key_down(Key::KeyC),
        ordered(false, input, mode, wheel_moved).preset_chosen ==> ordered(
            false,
            input,
            mode,
            wheel_moved,
        ).mode == mode_after(mode),
{
}

} // verus!
