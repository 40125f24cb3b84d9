//! Console commands: what a command line does to the settings, and what the
//! console prints.

use vstd::prelude::*;
use crate::ascii::color::ColorMode;
use crate::shell::settings::{CameraMode, GlyphStyle, Settings, TraceFeature, TraceSettings};
use crate::shell::settings::{color_mode_name, color_name};
use crate::text::{chars_of, decimal, parse_u32, push_decimal, spells, split_words, string_of};
use crate::text::{unsigned_of, word_views, words};

verus! {

/// A line that the console prints, or its order to wipe what it printed.
#[derive(Debug, PartialEq, Eq)]
pub enum ConsoleLine {
    Print(String),
    Error(String),
    Clear,
}

/// What a console line is.
pub ghost enum Line {
    Print(Seq<char>),
    Error(Seq<char>),
    Clear,
}

impl View for ConsoleLine {
    type V = Line;

    open spec fn view(&self) -> Line {
        match *self {
            ConsoleLine::Print(s) => Line::Print(s@),
            ConsoleLine::Error(s) => Line::Error(s@),
            ConsoleLine::Clear => Line::Clear,
        }
    }
}

/// What the console lines are.
pub open spec fn lines_of(list: Seq<ConsoleLine>) -> Seq<Line> {
    list.map_values(|l: ConsoleLine| l@)
}

/// What the engine knows about itself, for messages: counts, and texts that
/// were formatted before.
#[derive(Debug)]
pub struct Facts {
    /// Frames per second, without decimals.
    pub fps: String,
    pub entities: usize,
    pub meshes: usize,
    pub drawn: usize,
    pub culled: usize,
    pub materials: usize,
    /// What the machine says of its ray tracing, and in short.
    pub ray_description: String,
    pub ray_tag: String,
    /// Rays per fragment under the current settings.
    pub rays_per_fragment: u32,
    /// Figures of the acceleration structures, if there are any.
    pub structures: Option<Structures>,
    /// The light radius, with two decimals.
    pub light_radius: String,
}

/// Figures of the acceleration structures.
#[derive(Clone, Copy, Debug, PartialEq, Eq, Structural)]
pub struct Structures {
    pub instances: usize,
    pub triangles: usize,
    pub blas_builds: usize,
    pub tlas_builds: usize,
}

/// What the console shows when it is first opened, so that it is not an empty
/// box.
pub fn build_console() -> (r: Vec<ConsoleLine>)
    ensures
        lines_of(r@) == seq![Line::Print("AstraGlyph console. Type 'help' for commands."@)],
{
    let r: Vec<ConsoleLine> = vec![line("AstraGlyph console. Type 'help' for commands.")];
    assert(lines_of(r@) =~= seq![Line::Print("AstraGlyph console. Type 'help' for commands."@)]);
    r
}

// --- texts -------------------------------------------------------------------

/// `on` or `off`.
pub open spec fn switch_word(on: bool) -> Seq<char> {
    if on {
        "on"@
    } else {
        "off"@
    }
}

fn switch_text(on: bool) -> (r: &'static str)
    ensures
        r@ == switch_word(on),
{
    if on {
        "on"
    } else {
        "off"
    }
}

/// The active lighting path and its ray budget.
pub open spec fn lighting_text(s: Settings, f: Facts) -> Seq<char> {
    if !s.tracing_available {
        "RASTER ("@ + f.ray_tag@ + ")"@
    } else if !s.traced_enabled {
        "RASTER (RTX IDLE)"@
    } else {
        "TRACED d"@ + decimal(s.trace.max_depth as nat) + " "@ + decimal(f.rays_per_fragment as nat)
            + " rays/px "@ + decimal(
            match f.structures {
                Some(a) => a.triangles as nat,
                None => 0,
            },
        ) + " tris"@
    }
}

/// Short description of the active lighting path plus its ray budget.
pub fn lighting_summary(s: &Settings, f: &Facts) -> (r: String)
    ensures
        r@ == lighting_text(*s, *f),
{
    if !s.tracing_available {
        let mut t = String::from_str("RASTER (");
        t.append(f.ray_tag.as_str());
        t.append(")");
        return t;
    }
    if !s.traced_enabled {
        return String::from_str("RASTER (RTX IDLE)");
    }
    let triangles: usize = match f.structures {
        Some(a) => a.triangles,
        None => 0,
    };
    let mut t = String::from_str("TRACED d");
    push_decimal(&mut t, s.trace.max_depth as u64);
    t.append(" ");
    push_decimal(&mut t, f.rays_per_fragment as u64);
    t.append(" rays/px ");
    push_decimal(&mut t, triangles as u64);
    t.append(" tris");
    t
}

/// The list of commands.
pub open spec fn help_lines() -> Seq<Line> {
    seq![
        Line::Print("commands:"@),
        Line::Print("  help              this list"@),
        Line::Print("  fps               current frame rate"@),
        Line::Print("  scene             entity and material counts"@),
        Line::Print("  post [on|off]     post-processing"@),
        Line::Print("  grid [on|off]     dynamic cell grid"@),
        Line::Print("  hud [on|off]      HUD overlay"@),
        Line::Print("  style [block|ramp] glyph style"@),
        Line::Print("  color <true|256|16|grey|mono>"@),
        Line::Print("  cam <first|third|orbit>"@),
        Line::Print("  trace [on|off]    traced vs rasterised lighting"@),
        Line::Print("  rays              ray budget and AS stats"@),
        Line::Print("  depth <0-4>       reflection/refraction bounces"@),
        Line::Print("  shadows|reflect|refract|ao [on|off]"@),
        Line::Print("  samples <shadow|ao> <n>"@),
        Line::Print("  clear             wipe the scrollback"@),
        Line::Print("  quit              exit"@),
    ]
}

fn line(text: &str) -> (r: ConsoleLine)
    ensures
        r@ == Line::Print(text@),
{
    ConsoleLine::Print(String::from_str(text))
}

fn help() -> (r: Vec<ConsoleLine>)
    ensures
        lines_of(r@) == help_lines(),
{
    let r: Vec<ConsoleLine> = vec![
        line("commands:"),
        line("  help              this list"),
        line("  fps               current frame rate"),
        line("  scene             entity and material counts"),
        line("  post [on|off]     post-processing"),
        line("  grid [on|off]     dynamic cell grid"),
        line("  hud [on|off]      HUD overlay"),
        line("  style [block|ramp] glyph style"),
        line("  color <true|256|16|grey|mono>"),
        line("  cam <first|third|orbit>"),
        line("  trace [on|off]    traced vs rasterised lighting"),
        line("  rays              ray budget and AS stats"),
        line("  depth <0-4>       reflection/refraction bounces"),
        line("  shadows|reflect|refract|ao [on|off]"),
        line("  samples <shadow|ao> <n>"),
        line("  clear             wipe the scrollback"),
        line("  quit              exit"),
    ];
    assert(lines_of(r@) =~= help_lines());
    r
}

/// The frame rate line.
pub open spec fn fps_text(f: Facts) -> Seq<char> {
    f.fps@ + " FPS, "@ + decimal(f.drawn as nat) + " glyphs"@
}

/// The scene line.
pub open spec fn scene_text(f: Facts) -> Seq<char> {
    decimal(f.entities as nat) + " entities, "@ + decimal(f.meshes as nat) + " meshes, "@ + decimal(
        f.drawn as nat,
    ) + " drawn, "@ + decimal(f.culled as nat) + " culled, "@ + decimal(f.materials as nat)
        + " materials"@
}

/// The lines of `rays`.
pub open spec fn rays_lines(s: Settings, f: Facts) -> Seq<Line> {
    let first = seq![Line::Print(lighting_text(s, f)), Line::Print("gpu: "@ + f.ray_description@)];
    match f.structures {
        Some(a) => first + seq![
            Line::Print(
                "as: "@ + decimal(a.instances as nat) + " instances, "@ + decimal(
                    a.triangles as nat,
                ) + " tris, "@ + decimal(a.blas_builds as nat) + " blas builds, "@ + decimal(
                    a.tlas_builds as nat,
                ) + " tlas builds"@,
            ),
            Line::Print(
                "settings: depth "@ + decimal(s.trace.max_depth as nat) + " shadow x"@ + decimal(
                    s.trace.shadow_samples as nat,
                ) + " ao x"@ + decimal(s.trace.ao_samples as nat) + " radius "@ + f.light_radius@,
            ),
        ],
        None => first,
    }
}

fn fps_line(f: &Facts) -> (r: Vec<ConsoleLine>)
    ensures
        lines_of(r@) == seq![Line::Print(fps_text(*f))],
{
    let mut t = String::from_str(f.fps.as_str());
    t.append(" FPS, ");
    push_decimal(&mut t, f.drawn as u64);
    t.append(" glyphs");
    one(t)
}

fn scene_line(f: &Facts) -> (r: Vec<ConsoleLine>)
    ensures
        lines_of(r@) == seq![Line::Print(scene_text(*f))],
{
    let mut t = String::new();
    push_decimal(&mut t, f.entities as u64);
    assert(t@ =~= decimal(f.entities as nat));
    t.append(" entities, ");
    push_decimal(&mut t, f.meshes as u64);
    t.append(" meshes, ");
    push_decimal(&mut t, f.drawn as u64);
    t.append(" drawn, ");
    push_decimal(&mut t, f.culled as u64);
    t.append(" culled, ");
    push_decimal(&mut t, f.materials as u64);
    t.append(" materials");
    one(t)
}

fn rays(s: &Settings, f: &Facts) -> (r: Vec<ConsoleLine>)
    ensures
        lines_of(r@) == rays_lines(*s, *f),
{
    let summary = lighting_summary(s, f);
    let mut gpu = String::from_str("gpu: ");
    gpu.append(f.ray_description.as_str());
    match f.structures {
        None => {
            let r: Vec<ConsoleLine> = vec![ConsoleLine::Print(summary), ConsoleLine::Print(gpu)];
            assert(lines_of(r@) =~= rays_lines(*s, *f));
            r
        },
        Some(a) => {
            let mut t = String::from_str("as: ");
            push_decimal(&mut t, a.instances as u64);
            t.append(" instances, ");
            push_decimal(&mut t, a.triangles as u64);
            t.append(" tris, ");
            push_decimal(&mut t, a.blas_builds as u64);
            t.append(" blas builds, ");
            push_decimal(&mut t, a.tlas_builds as u64);
            t.append(" tlas builds");
            let mut u = String::from_str("settings: depth ");
            push_decimal(&mut u, s.trace.max_depth as u64);
            u.append(" shadow x");
            push_decimal(&mut u, s.trace.shadow_samples as u64);
            u.append(" ao x");
            push_decimal(&mut u, s.trace.ao_samples as u64);
            u.append(" radius ");
            u.append(f.light_radius.as_str());
            let r: Vec<ConsoleLine> = vec![
                ConsoleLine::Print(summary),
                ConsoleLine::Print(gpu),
                ConsoleLine::Print(t),
                ConsoleLine::Print(u),
            ];
            assert(lines_of(r@) =~= rays_lines(*s, *f));
            r
        },
    }
}

fn one(text: String) -> (r: Vec<ConsoleLine>)
    ensures
        lines_of(r@) == seq![Line::Print(text@)],
{
    let r: Vec<ConsoleLine> = vec![ConsoleLine::Print(text)];
    assert(lines_of(r@) =~= seq![Line::Print(text@)]);
    r
}

fn error(text: String) -> (r: Vec<ConsoleLine>)
    ensures
        lines_of(r@) == seq![Line::Error(text@)],
{
    let r: Vec<ConsoleLine> = vec![ConsoleLine::Error(text)];
    assert(lines_of(r@) =~= seq![Line::Error(text@)]);
    r
}

fn told(text: &str) -> (r: Vec<ConsoleLine>)
    ensures
        lines_of(r@) == seq![Line::Print(text@)],
{
    one(String::from_str(text))
}

fn refused(text: &str) -> (r: Vec<ConsoleLine>)
    ensures
        lines_of(r@) == seq![Line::Error(text@)],
{
    error(String::from_str(text))
}

fn joined(a: &str, b: &str) -> (r: Vec<ConsoleLine>)
    ensures
        lines_of(r@) == seq![Line::Print(a@ + b@)],
{
    let mut t = String::from_str(a);
    t.append(b);
    one(t)
}

fn tallied(a: &str, n: u32) -> (r: Vec<ConsoleLine>)
    ensures
        lines_of(r@) == seq![Line::Print(a@ + decimal(n as nat))],
{
    let mut t = String::from_str(a);
    push_decimal(&mut t, n as u64);
    one(t)
}

fn counted(a: &str, n: u32, b: &str) -> (r: Vec<ConsoleLine>)
    ensures
        lines_of(r@) == seq![Line::Print(a@ + decimal(n as nat) + b@)],
{
    let mut t = String::from_str(a);
    push_decimal(&mut t, n as u64);
    t.append(b);
    one(t)
}

// --- arguments ---------------------------------------------------------------

/// Word `i` of a command line.
pub open spec fn word(line: Seq<Seq<char>>, i: int) -> Option<Seq<char>> {
    if i < line.len() {
        Some(line[i])
    } else {
        None
    }
}

/// Is word `i` the given one?
pub open spec fn word_is(line: Seq<Seq<char>>, i: int, text: Seq<char>) -> bool {
    i < line.len() && line[i] == text
}

/// What an on/off argument asks for; without one, the opposite of what is.
pub open spec fn on_off(line: Seq<Seq<char>>, current: bool) -> bool {
    if word_is(line, 1, "on"@) || word_is(line, 1, "1"@) || word_is(line, 1, "true"@) {
        true
    } else if word_is(line, 1, "off"@) || word_is(line, 1, "0"@) || word_is(line, 1, "false"@) {
        false
    } else {
        !current
    }
}

/// The number that word `i` gives.
pub open spec fn number_at(line: Seq<Seq<char>>, i: int) -> Option<u32> {
    if i < line.len() {
        unsigned_of(line[i])
    } else {
        None
    }
}

fn is_word(line: &Vec<Vec<char>>, i: usize, text: &str) -> (r: bool)
    ensures
        r == word_is(word_views(line@), i as int, text@),
{
    i < line.len() && spells(line[i].as_slice(), text)
}

fn wants(line: &Vec<Vec<char>>, current: bool) -> (r: bool)
    ensures
        r == on_off(word_views(line@), current),
{
    if is_word(line, 1, "on") || is_word(line, 1, "1") || is_word(line, 1, "true") {
        true
    } else if is_word(line, 1, "off") || is_word(line, 1, "0") || is_word(line, 1, "false") {
        false
    } else {
        !current
    }
}

fn number(line: &Vec<Vec<char>>, i: usize) -> (r: Option<u32>)
    ensures
        r == number_at(word_views(line@), i as int),
{
    if i < line.len() {
        parse_u32(line[i].as_slice())
    } else {
        None
    }
}

// --- what commands do --------------------------------------------------------

/// The outcome of a command: the settings after it, and what is printed.
pub type Outcome = (Settings, Seq<Line>);

/// `post`, `grid`, `hud` and `trace`.
pub open spec fn switched(s: Settings, f: Facts, line: Seq<Seq<char>>) -> Outcome {
    if line[0] == "post"@ {
        let on = on_off(line, s.post.any());
        (s.with_post(on), seq![Line::Print("post: "@ + switch_word(on))])
    } else if line[0] == "grid"@ {
        let on = on_off(line, s.merges());
        (
            s.with_grid(on),
            seq![
                Line::Print(
                    "grid: "@ + (if on {
                        "dynamic"@
                    } else {
                        "uniform"@
                    }),
                ),
            ],
        )
    } else if line[0] == "hud"@ {
        let on = on_off(line, s.hud_visible);
        (
            Settings { hud_visible: on, ..s },
            seq![Line::Print("hud: "@ + switch_word(on))],
        )
    } else if !s.tracing_available {
        (s, seq![Line::Error("raytracing unavailable: "@ + f.ray_description@)])
    } else {
        let on = on_off(line, s.traced_enabled);
        (
            Settings { traced_enabled: on, ..s },
            seq![Line::Print("trace: "@ + switch_word(on))],
        )
    }
}

fn switch(s: &mut Settings, f: &Facts, line: &Vec<Vec<char>>) -> (r: Vec<ConsoleLine>)
    requires
        line@.len() > 0,
    ensures
        (*final(s), lines_of(r@)) == switched(*old(s), *f, word_views(line@)),
{
    assert(word_views(line@)[0] == line@[0]@);
    if is_word(line, 0, "post") {
        let on: bool = wants(line, s.post.any_enabled());
        s.set_post(on);
        joined("post: ", switch_text(on))
    } else if is_word(line, 0, "grid") {
        let on: bool = wants(line, s.subdivision.merges());
        s.set_grid(on);
        joined(
            "grid: ",
            if on {
                "dynamic"
            } else {
                "uniform"
            },
        )
    } else if is_word(line, 0, "hud") {
        let on: bool = wants(line, s.hud_visible);
        s.hud_visible = on;
        joined("hud: ", switch_text(on))
    } else if !s.tracing_available {
        let mut t = String::from_str("raytracing unavailable: ");
        t.append(f.ray_description.as_str());
        error(t)
    } else {
        let on: bool = wants(line, s.traced_enabled);
        if on != s.traced_enabled {
            s.toggle_tracing();
        }
        joined("trace: ", switch_text(on))
    }
}

/// One kind of rays switched.
pub open spec fn feature_switched(
    s: Settings,
    line: Seq<Seq<char>>,
    feature: TraceFeature,
    name: Seq<char>,
) -> Outcome {
    let on = on_off(line, s.trace.feature(feature));
    (
        Settings { trace: s.trace.with_feature(feature, on), ..s },
        seq![Line::Print(name + ": "@ + switch_word(on))],
    )
}

/// Switch one kind of rays.
pub fn toggle_trace_flag(
    s: &mut Settings,
    line: &Vec<Vec<char>>,
    feature: TraceFeature,
    name: &str,
) -> (r: Vec<ConsoleLine>)
    ensures
        (*final(s), lines_of(r@)) == feature_switched(
            *old(s),
            word_views(line@),
            feature,
            name@,
        ),
{
    let on: bool = wants(line, s.trace.has(feature));
    let mut trace: TraceSettings = s.trace;
    trace.set(feature, on);
    s.trace = trace;
    let mut t = String::from_str(name);
    t.append(": ");
    t.append(switch_text(on));
    one(t)
}

/// `style` and `cam`.
pub open spec fn chosen(s: Settings, line: Seq<Seq<char>>) -> Outcome {
    if line[0] == "style"@ {
        if word_is(line, 1, "block"@) || word_is(line, 1, "blocks"@) {
            (
                Settings { glyph_style: GlyphStyle::Blocks, ..s },
                seq![Line::Print("style: blocks"@)],
            )
        } else if word_is(line, 1, "ramp"@) {
            (Settings { glyph_style: GlyphStyle::Ramp, ..s }, seq![Line::Print("style: ramp"@)])
        } else {
            (s, seq![Line::Error("usage: style <block|ramp>"@)])
        }
    } else {
        if word_is(line, 1, "first"@) {
            (
                s.with_preset(CameraMode::FirstPerson),
                seq![Line::Print("camera: first person"@)],
            )
        } else if word_is(line, 1, "third"@) {
            (
                s.with_preset(CameraMode::ThirdPerson),
                seq![Line::Print("camera: third person"@)],
            )
        } else if word_is(line, 1, "orbit"@) {
            (
                s.with_preset(CameraMode::Orbit),
                seq![Line::Print("camera: orbit"@)],
            )
        } else {
            (s, seq![Line::Error("usage: cam <first|third|orbit>"@)])
        }
    }
}

fn choose_mode(s: &mut Settings, line: &Vec<Vec<char>>) -> (r: Vec<ConsoleLine>)
    requires
        line@.len() > 0,
    ensures
        (*final(s), lines_of(r@)) == chosen(*old(s), word_views(line@)),
{
    assert(word_views(line@)[0] == line@[0]@);
    if is_word(line, 0, "style") {
        if is_word(line, 1, "block") || is_word(line, 1, "blocks") {
            s.glyph_style = GlyphStyle::Blocks;
            told("style: blocks")
        } else if is_word(line, 1, "ramp") {
            s.glyph_style = GlyphStyle::Ramp;
            told("style: ramp")
        } else {
            refused("usage: style <block|ramp>")
        }
    } else {
        if is_word(line, 1, "first") {
            s.choose_preset(CameraMode::FirstPerson);
            told("camera: first person")
        } else if is_word(line, 1, "third") {
            s.choose_preset(CameraMode::ThirdPerson);
            told("camera: third person")
        } else if is_word(line, 1, "orbit") {
            s.choose_preset(CameraMode::Orbit);
            told("camera: orbit")
        } else {
            refused("usage: cam <first|third|orbit>")
        }
    }
}

/// The colour mode that an argument names.
pub open spec fn named_color(line: Seq<Seq<char>>) -> Option<ColorMode> {
    if word_is(line, 1, "true"@) {
        Some(ColorMode::TrueColor)
    } else if word_is(line, 1, "256"@) {
        Some(ColorMode::Ansi256)
    } else if word_is(line, 1, "16"@) {
        Some(ColorMode::Ansi16)
    } else if word_is(line, 1, "grey"@) || word_is(line, 1, "gray"@) {
        Some(ColorMode::Grayscale)
    } else if word_is(line, 1, "mono"@) {
        Some(ColorMode::Monochrome)
    } else {
        None
    }
}

/// `color`.
pub open spec fn colored(s: Settings, line: Seq<Seq<char>>) -> Outcome {
    match named_color(line) {
        Some(mode) => (
            Settings { color_mode: mode, ..s },
            seq![Line::Print("color: "@ + color_name(mode))],
        ),
        None => (s, seq![Line::Error("usage: color <true|256|16|grey|mono>"@)]),
    }
}

fn set_color_mode(s: &mut Settings, line: &Vec<Vec<char>>) -> (r: Vec<ConsoleLine>)
    ensures
        (*final(s), lines_of(r@)) == colored(*old(s), word_views(line@)),
{
    let mode: ColorMode = if is_word(line, 1, "true") {
        ColorMode::TrueColor
    } else if is_word(line, 1, "256") {
        ColorMode::Ansi256
    } else if is_word(line, 1, "16") {
        ColorMode::Ansi16
    } else if is_word(line, 1, "grey") || is_word(line, 1, "gray") {
        ColorMode::Grayscale
    } else if is_word(line, 1, "mono") {
        ColorMode::Monochrome
    } else {
        return refused("usage: color <true|256|16|grey|mono>");
    };
    s.color_mode = mode;
    joined("color: ", color_mode_name(mode))
}

/// `samples` and `depth`: at least one shadow ray, at most 32 rays of a kind,
/// at most four bounces.
pub open spec fn budgeted(s: Settings, line: Seq<Seq<char>>) -> Outcome {
    if line[0] == "samples"@ {
        match number_at(line, 2) {
            Some(n) if word_is(line, 1, "shadow"@) && 1 <= n <= 32 => (
                Settings { trace: TraceSettings { shadow_samples: n, ..s.trace }, ..s },
                seq![Line::Print("shadow samples: "@ + decimal(n as nat))],
            ),
            Some(n) if word_is(line, 1, "ao"@) && n <= 32 => (
                Settings { trace: TraceSettings { ao_samples: n, ..s.trace }, ..s },
                seq![Line::Print("ao samples: "@ + decimal(n as nat))],
            ),
            _ => (s, seq![Line::Error("usage: samples <shadow|ao> <count>"@)]),
        }
    } else {
        match number_at(line, 1) {
            Some(d) if d <= 4 => (
                Settings { trace: TraceSettings { max_depth: d, ..s.trace }, ..s },
                seq![Line::Print("depth: "@ + decimal(d as nat) + " bounces"@)],
            ),
            _ => (s, seq![Line::Error("usage: depth <0-4>"@)]),
        }
    }
}

fn set_budget(s: &mut Settings, line: &Vec<Vec<char>>) -> (r: Vec<ConsoleLine>)
    requires
        line@.len() > 0,
    ensures
        (*final(s), lines_of(r@)) == budgeted(*old(s), word_views(line@)),
{
    assert(word_views(line@)[0] == line@[0]@);
    if is_word(line, 0, "samples") {
        match number(line, 2) {
            Some(n) => {
                if is_word(line, 1, "shadow") && n >= 1 && n <= 32 {
                    s.trace.shadow_samples = n;
                    return tallied("shadow samples: ", n);
                }
                if is_word(line, 1, "ao") && n <= 32 {
                    s.trace.ao_samples = n;
                    return tallied("ao samples: ", n);
                }
                refused("usage: samples <shadow|ao> <count>")
            },
            None => refused("usage: samples <shadow|ao> <count>"),
        }
    } else {
        match number(line, 1) {
            Some(d) => {
                if d <= 4 {
                    s.trace.max_depth = d;
                    return counted("depth: ", d, " bounces");
                }
                refused("usage: depth <0-4>")
            },
            None => refused("usage: depth <0-4>"),
        }
    }
}

/// The outcome of a command line of these words.
pub open spec fn commanded(s: Settings, f: Facts, line: Seq<Seq<char>>) -> Outcome {
    if line.len() == 0 {
        (s, seq![])
    } else if line[0] == "help"@ {
        (s, help_lines())
    } else if line[0] == "fps"@ {
        (s, seq![Line::Print(fps_text(f))])
    } else if line[0] == "scene"@ {
        (s, seq![Line::Print(scene_text(f))])
    } else if line[0] == "post"@ || line[0] == "grid"@ || line[0] == "hud"@ || line[0] == "trace"@ {
        switched(s, f, line)
    } else if line[0] == "style"@ || line[0] == "cam"@ {
        chosen(s, line)
    } else if line[0] == "color"@ {
        colored(s, line)
    } else if line[0] == "rays"@ {
        (s, rays_lines(s, f))
    } else if line[0] == "shadows"@ {
        feature_switched(s, line, TraceFeature::Shadows, "shadows"@)
    } else if line[0] == "reflect"@ {
        feature_switched(s, line, TraceFeature::Reflections, "reflect"@)
    } else if line[0] == "refract"@ {
        feature_switched(s, line, TraceFeature::Refraction, "refract"@)
    } else if line[0] == "ao"@ {
        feature_switched(s, line, TraceFeature::AmbientOcclusion, "ao"@)
    } else if line[0] == "samples"@ || line[0] == "depth"@ {
        budgeted(s, line)
    } else if line[0] == "clear"@ {
        (s, seq![Line::Clear])
    } else if line[0] == "quit"@ || line[0] == "exit"@ {
        (Settings { should_exit: true, ..s }, seq![])
    } else {
        (s, seq![Line::Error("unknown command: "@ + line[0] + " (try 'help')"@)])
    }
}

/// Execute a console command line.
pub fn run_command(s: &mut Settings, f: &Facts, line: &str) -> (r: Vec<ConsoleLine>)
    ensures
        (*final(s), lines_of(r@)) == commanded(*old(s), *f, words(line@)),
{
    let parts = split_words(chars_of(line).as_slice());
    assert(word_views(parts@).len() == parts@.len());
    if parts.len() == 0 {
        let r: Vec<ConsoleLine> = Vec::new();
        assert(lines_of(r@) =~= seq![]);
        return r;
    }
    assert(word_views(parts@)[0] == parts@[0]@);
    if is_word(&parts, 0, "help") {
        help()
    } else if is_word(&parts, 0, "fps") {
        fps_line(f)
    } else if is_word(&parts, 0, "scene") {
        scene_line(f)
    } else if is_word(&parts, 0, "post") || is_word(&parts, 0, "grid") || is_word(&parts, 0, "hud")
        || is_word(&parts, 0, "trace") {
        switch(s, f, &parts)
    } else if is_word(&parts, 0, "style") || is_word(&parts, 0, "cam") {
        choose_mode(s, &parts)
    } else if is_word(&parts, 0, "color") {
        set_color_mode(s, &parts)
    } else if is_word(&parts, 0, "rays") {
        rays(s, f)
    } else if is_word(&parts, 0, "shadows") {
        toggle_trace_flag(s, &parts, TraceFeature::Shadows, "shadows")
    } else if is_word(&parts, 0, "reflect") {
        toggle_trace_flag(s, &parts, TraceFeature::Reflections, "reflect")
    } else if is_word(&parts, 0, "refract") {
        toggle_trace_flag(s, &parts, TraceFeature::Refraction, "refract")
    } else if is_word(&parts, 0, "ao") {
        toggle_trace_flag(s, &parts, TraceFeature::AmbientOcclusion, "ao")
    } else if is_word(&parts, 0, "samples") || is_word(&parts, 0, "depth") {
        set_budget(s, &parts)
    } else if is_word(&parts, 0, "clear") {
        let r: Vec<ConsoleLine> = vec![ConsoleLine::Clear];
        assert(lines_of(r@) =~= seq![Line::Clear]);
        r
    } else if is_word(&parts, 0, "quit") || is_word(&parts, 0, "exit") {
        s.should_exit = true;
        let r: Vec<ConsoleLine> = Vec::new();
        assert(lines_of(r@) =~= seq![]);
        r
    } else {
        let mut t = String::from_str("unknown command: ");
        t.append(string_of(parts[0].as_slice()).as_str());
        t.append(" (try 'help')");
        error(t)
    }
}

// --- laws --------------------------------------------------------------------

/// Every budget is within its bounds.
pub open spec fn budget_ok(t: TraceSettings) -> bool {
    1 <= t.shadow_samples <= 32 && t.ao_samples <= 32 && t.max_depth <= 4
}

/// No command line takes the ray budget out of its bounds, and none makes a
/// machine trace that cannot.
pub proof fn law_commands_keep_the_budget(s: Settings, f: Facts, line: Seq<Seq<char>>)
    requires
        budget_ok(s.trace),
        s.traced_enabled ==> s.tracing_available,
    ensures
        budget_ok(commanded(s, f, line).0.trace),
        commanded(s, f, line).0.traced_enabled ==> commanded(s, f, line).0.tracing_available,
        commanded(s, f, line).0.tracing_available == s.tracing_available,
{
}

/// A command that is refused changes nothing.
pub proof fn law_refused_commands_change_nothing(s: Settings, f: Facts, line: Seq<Seq<char>>)
    requires
        commanded(s, f, line).1.len() == 1,
        commanded(s, f, line).1[0] is Error,
    ensures
        commanded(s, f, line).0 == s,
{
}

} // verus!
