//! What console commands and menu entries change, said of the settings directly.

use vstd::prelude::*;
use crate::ascii::color::ColorMode;
use crate::shell::command::{commanded, lighting_text, Facts, Line};
use crate::shell::menu::{applied, menu_entries, Entry, MenuEvent, MenuReply};
use crate::shell::settings::{CameraMode, GlyphStyle, PostProcess, Settings, TraceSettings};
use crate::text::{decimal, unsigned_of};

verus! {

/// How the words of the console are spelled.
proof fn lemma_spelling()
    ensures
        "help"@.len() == 4 && "help"@[0] == 'h' && "help"@[1] == 'e' && "help"@[2] == 'l' && "help"@[3] == 'p',
        "fps"@.len() == 3 && "fps"@[0] == 'f' && "fps"@[1] == 'p' && "fps"@[2] == 's',
        "scene"@.len() == 5 && "scene"@[0] == 's' && "scene"@[1] == 'c' && "scene"@[2] == 'e' && "scene"@[3] == 'n' && "scene"@[4] == 'e',
        "post"@.len() == 4 && "post"@[0] == 'p' && "post"@[1] == 'o' && "post"@[2] == 's' && "post"@[3] == 't',
        "grid"@.len() == 4 && "grid"@[0] == 'g' && "grid"@[1] == 'r' && "grid"@[2] == 'i' && "grid"@[3] == 'd',
        "hud"@.len() == 3 && "hud"@[0] == 'h' && "hud"@[1] == 'u' && "hud"@[2] == 'd',
        "trace"@.len() == 5 && "trace"@[0] == 't' && "trace"@[1] == 'r' && "trace"@[2] == 'a' && "trace"@[3] == 'c' && "trace"@[4] == 'e',
        "style"@.len() == 5 && "style"@[0] == 's' && "style"@[1] == 't' && "style"@[2] == 'y' && "style"@[3] == 'l' && "style"@[4] == 'e',
        "cam"@.len() == 3 && "cam"@[0] == 'c' && "cam"@[1] == 'a' && "cam"@[2] == 'm',
        "color"@.len() == 5 && "color"@[0] == 'c' && "color"@[1] == 'o' && "color"@[2] == 'l' && "color"@[3] == 'o' && "color"@[4] == 'r',
        "rays"@.len() == 4 && "rays"@[0] == 'r' && "rays"@[1] == 'a' && "rays"@[2] == 'y' && "rays"@[3] == 's',
        "shadows"@.len() == 7 && "shadows"@[0] == 's' && "shadows"@[1] == 'h' && "shadows"@[2] == 'a' && "shadows"@[3] == 'd' && "shadows"@[4] == 'o' && "shadows"@[5] == 'w' && "shadows"@[6] == 's',
        "reflect"@.len() == 7 && "reflect"@[0] == 'r' && "reflect"@[1] == 'e' && "reflect"@[2] == 'f' && "reflect"@[3] == 'l' && "reflect"@[4] == 'e' && "reflect"@[5] == 'c' && "reflect"@[6] == 't',
        "refract"@.len() == 7 && "refract"@[0] == 'r' && "refract"@[1] == 'e' && "refract"@[2] == 'f' && "refract"@[3] == 'r' && "refract"@[4] == 'a' && "refract"@[5] == 'c' && "refract"@[6] == 't',
        "ao"@.len() == 2 && "ao"@[0] == 'a' && "ao"@[1] == 'o',
        "samples"@.len() == 7 && "samples"@[0] == 's' && "samples"@[1] == 'a' && "samples"@[2] == 'm' && "samples"@[3] == 'p' && "samples"@[4] == 'l' && "samples"@[5] == 'e' && "samples"@[6] == 's',
        "depth"@.len() == 5 && "depth"@[0] == 'd' && "depth"@[1] == 'e' && "depth"@[2] == 'p' && "depth"@[3] == 't' && "depth"@[4] == 'h',
        "clear"@.len() == 5 && "clear"@[0] == 'c' && "clear"@[1] == 'l' && "clear"@[2] == 'e' && "clear"@[3] == 'a' && "clear"@[4] == 'r',
        "quit"@.len() == 4 && "quit"@[0] == 'q' && "quit"@[1] == 'u' && "quit"@[2] == 'i' && "quit"@[3] == 't',
        "exit"@.len() == 4 && "exit"@[0] == 'e' && "exit"@[1] == 'x' && "exit"@[2] == 'i' && "exit"@[3] == 't',
        "on"@.len() == 2 && "on"@[0] == 'o' && "on"@[1] == 'n',
        "1"@.len() == 1 && "1"@[0] == '1',
        "true"@.len() == 4 && "true"@[0] == 't' && "true"@[1] == 'r' && "true"@[2] == 'u' && "true"@[3] == 'e',
        "off"@.len() == 3 && "off"@[0] == 'o' && "off"@[1] == 'f' && "off"@[2] == 'f',
        "0"@.len() == 1 && "0"@[0] == '0',
        "false"@.len() == 5 && "false"@[0] == 'f' && "false"@[1] == 'a' && "false"@[2] == 'l' && "false"@[3] == 's' && "false"@[4] == 'e',
        "block"@.len() == 5 && "block"@[0] == 'b' && "block"@[1] == 'l' && "block"@[2] == 'o' && "block"@[3] == 'c' && "block"@[4] == 'k',
        "blocks"@.len() == 6 && "blocks"@[0] == 'b' && "blocks"@[1] == 'l' && "blocks"@[2] == 'o' && "blocks"@[3] == 'c' && "blocks"@[4] == 'k' && "blocks"@[5] == 's',
        "ramp"@.len() == 4 && "ramp"@[0] == 'r' && "ramp"@[1] == 'a' && "ramp"@[2] == 'm' && "ramp"@[3] == 'p',
        "first"@.len() == 5 && "first"@[0] == 'f' && "first"@[1] == 'i' && "first"@[2] == 'r' && "first"@[3] == 's' && "first"@[4] == 't',
        "third"@.len() == 5 && "third"@[0] == 't' && "third"@[1] == 'h' && "third"@[2] == 'i' && "third"@[3] == 'r' && "third"@[4] == 'd',
        "orbit"@.len() == 5 && "orbit"@[0] == 'o' && "orbit"@[1] == 'r' && "orbit"@[2] == 'b' && "orbit"@[3] == 'i' && "orbit"@[4] == 't',
        "256"@.len() == 3 && "256"@[0] == '2' && "256"@[1] == '5' && "256"@[2] == '6',
        "16"@.len() == 2 && "16"@[0] == '1' && "16"@[1] == '6',
        "grey"@.len() == 4 && "grey"@[0] == 'g' && "grey"@[1] == 'r' && "grey"@[2] == 'e' && "grey"@[3] == 'y',
        "gray"@.len() == 4 && "gray"@[0] == 'g' && "gray"@[1] == 'r' && "gray"@[2] == 'a' && "gray"@[3] == 'y',
        "mono"@.len() == 4 && "mono"@[0] == 'm' && "mono"@[1] == 'o' && "mono"@[2] == 'n' && "mono"@[3] == 'o',
        "shadow"@.len() == 6 && "shadow"@[0] == 's' && "shadow"@[1] == 'h' && "shadow"@[2] == 'a' && "shadow"@[3] == 'd' && "shadow"@[4] == 'o' && "shadow"@[5] == 'w',
{
    reveal_strlit("help");
    reveal_strlit("fps");
    reveal_strlit("scene");
    reveal_strlit("post");
    reveal_strlit("grid");
    reveal_strlit("hud");
    reveal_strlit("trace");
    reveal_strlit("style");
    reveal_strlit("cam");
    reveal_strlit("color");
    reveal_strlit("rays");
    reveal_strlit("shadows");
    reveal_strlit("reflect");
    reveal_strlit("refract");
    reveal_strlit("ao");
    reveal_strlit("samples");
    reveal_strlit("depth");
    reveal_strlit("clear");
    reveal_strlit("quit");
    reveal_strlit("exit");
    reveal_strlit("on");
    reveal_strlit("1");
    reveal_strlit("true");
    reveal_strlit("off");
    reveal_strlit("0");
    reveal_strlit("false");
    reveal_strlit("block");
    reveal_strlit("blocks");
    reveal_strlit("ramp");
    reveal_strlit("first");
    reveal_strlit("third");
    reveal_strlit("orbit");
    reveal_strlit("256");
    reveal_strlit("16");
    reveal_strlit("grey");
    reveal_strlit("gray");
    reveal_strlit("mono");
    reveal_strlit("shadow");
}

/// How the ids of the menu are spelled.
proof fn lemma_ids()
    ensures
        "resume"@.len() == 6 && "resume"@[0] == 'r' && "resume"@[1] == 'e' && "resume"@[2] == 's' && "resume"@[3] == 'u' && "resume"@[4] == 'm' && "resume"@[5] == 'e',
        "quit"@.len() == 4 && "quit"@[0] == 'q' && "quit"@[1] == 'u' && "quit"@[2] == 'i' && "quit"@[3] == 't',
        "cam_first"@.len() == 9 && "cam_first"@[0] == 'c' && "cam_first"@[1] == 'a' && "cam_first"@[2] == 'm' && "cam_first"@[3] == '_' && "cam_first"@[4] == 'f' && "cam_first"@[5] == 'i' && "cam_first"@[6] == 'r' && "cam_first"@[7] == 's' && "cam_first"@[8] == 't',
        "cam_third"@.len() == 9 && "cam_third"@[0] == 'c' && "cam_third"@[1] == 'a' && "cam_third"@[2] == 'm' && "cam_third"@[3] == '_' && "cam_third"@[4] == 't' && "cam_third"@[5] == 'h' && "cam_third"@[6] == 'i' && "cam_third"@[7] == 'r' && "cam_third"@[8] == 'd',
        "cam_orbit"@.len() == 9 && "cam_orbit"@[0] == 'c' && "cam_orbit"@[1] == 'a' && "cam_orbit"@[2] == 'm' && "cam_orbit"@[3] == '_' && "cam_orbit"@[4] == 'o' && "cam_orbit"@[5] == 'r' && "cam_orbit"@[6] == 'b' && "cam_orbit"@[7] == 'i' && "cam_orbit"@[8] == 't',
        "trace"@.len() == 5 && "trace"@[0] == 't' && "trace"@[1] == 'r' && "trace"@[2] == 'a' && "trace"@[3] == 'c' && "trace"@[4] == 'e',
        "post"@.len() == 4 && "post"@[0] == 'p' && "post"@[1] == 'o' && "post"@[2] == 's' && "post"@[3] == 't',
        "grid"@.len() == 4 && "grid"@[0] == 'g' && "grid"@[1] == 'r' && "grid"@[2] == 'i' && "grid"@[3] == 'd',
        "hud"@.len() == 3 && "hud"@[0] == 'h' && "hud"@[1] == 'u' && "hud"@[2] == 'd',
        "style"@.len() == 5 && "style"@[0] == 's' && "style"@[1] == 't' && "style"@[2] == 'y' && "style"@[3] == 'l' && "style"@[4] == 'e',
        "color"@.len() == 5 && "color"@[0] == 'c' && "color"@[1] == 'o' && "color"@[2] == 'l' && "color"@[3] == 'o' && "color"@[4] == 'r',
{
    reveal_strlit("resume");
    reveal_strlit("quit");
    reveal_strlit("cam_first");
    reveal_strlit("cam_third");
    reveal_strlit("cam_orbit");
    reveal_strlit("trace");
    reveal_strlit("post");
    reveal_strlit("grid");
    reveal_strlit("hud");
    reveal_strlit("style");
    reveal_strlit("color");
}

/// The second word says that something is to be on.
pub open spec fn says_on(line: Seq<Seq<char>>) -> bool {
    line.len() > 1 && (line[1] == "on"@ || line[1] == "1"@ || line[1] == "true"@)
}

/// The second word says that something is to be off.
pub open spec fn says_off(line: Seq<Seq<char>>) -> bool {
    line.len() > 1 && (line[1] == "off"@ || line[1] == "0"@ || line[1] == "false"@)
}

/// A switch after a command: on or off where the second word says so, and the
/// other way round where it does not.
pub open spec fn switched_to(line: Seq<Seq<char>>, was: bool) -> bool {
    says_on(line) || (!says_off(line) && !was)
}

/// `post`, `grid`, `hud` and `trace` set their switch or flip it, and change
/// nothing else; `trace` does so only where the machine can trace.
pub proof fn law_switch_commands(s: Settings, f: Facts, line: Seq<Seq<char>>)
    requires
        line.len() > 0,
    ensures
        ({
            let r = commanded(s, f, line).0;
            &&& line[0] == "post"@ ==> r == (Settings {
                post: if switched_to(line, s.post.ssao || s.post.other) {
                    s.demo_post
                } else {
                    PostProcess { ssao: false, other: false }
                },
                ..s
            })
            &&& line[0] == "grid"@ ==> r.subdivision.max_span == (if switched_to(
                line,
                s.subdivision.max_span >= 2,
            ) {
                2int
            } else {
                1
            }) && r == (Settings { subdivision: r.subdivision, ..s })
            &&& line[0] == "hud"@ ==> r == (Settings {
                hud_visible: switched_to(line, s.hud_visible),
                ..s
            })
            &&& line[0] == "trace"@ && s.tracing_available ==> r == (Settings {
                traced_enabled: switched_to(line, s.traced_enabled),
                ..s
            })
            &&& line[0] == "trace"@ && !s.tracing_available ==> r == s
        }),
{
    lemma_spelling();
}

/// `shadows`, `reflect`, `refract` and `ao` set the ray feature they name, or flip
/// it, and change nothing else.
pub proof fn law_feature_commands(s: Settings, f: Facts, line: Seq<Seq<char>>)
    requires
        line.len() > 0,
    ensures
        ({
            let r = commanded(s, f, line).0;
            let t = s.trace;
            &&& line[0] == "shadows"@ ==> r == (Settings {
                trace: TraceSettings { shadows: switched_to(line, t.shadows), ..t },
                ..s
            })
            &&& line[0] == "reflect"@ ==> r == (Settings {
                trace: TraceSettings { reflections: switched_to(line, t.reflections), ..t },
                ..s
            })
            &&& line[0] == "refract"@ ==> r == (Settings {
                trace: TraceSettings { refraction: switched_to(line, t.refraction), ..t },
                ..s
            })
            &&& line[0] == "ao"@ ==> r == (Settings {
                trace: TraceSettings {
                    ambient_occlusion: switched_to(line, t.ambient_occlusion),
                    ..t
                },
                ..s
            })
        }),
{
    lemma_spelling();
}

/// `style`, `cam` and `color` choose what their second word names, and change
/// nothing else; a word that names nothing changes nothing.
pub proof fn law_choice_commands(s: Settings, f: Facts, line: Seq<Seq<char>>, w: Seq<char>)
    requires
        line.len() > 1,
        line[1] == w,
    ensures
        ({
            let r = commanded(s, f, line).0;
            let styled = |style: GlyphStyle| r == Settings { glyph_style: style, ..s };
            let seen = |mode: CameraMode| r == Settings {
                camera_mode: mode,
                preset_chosen: true,
                ..s
            };
            let shown = |mode: ColorMode| r == Settings { color_mode: mode, ..s };
            &&& line[0] == "style"@ ==> if w == "block"@ || w == "blocks"@ {
                styled(GlyphStyle::Blocks)
            } else if w == "ramp"@ {
                styled(GlyphStyle::Ramp)
            } else {
                r == s
            }
            &&& line[0] == "cam"@ ==> if w == "first"@ {
                seen(CameraMode::FirstPerson)
            } else if w == "third"@ {
                seen(CameraMode::ThirdPerson)
            } else if w == "orbit"@ {
                seen(CameraMode::Orbit)
            } else {
                r == s
            }
            &&& line[0] == "color"@ ==> if w == "true"@ {
                shown(ColorMode::TrueColor)
            } else if w == "256"@ {
                shown(ColorMode::Ansi256)
            } else if w == "16"@ {
                shown(ColorMode::Ansi16)
            } else if w == "grey"@ || w == "gray"@ {
                shown(ColorMode::Grayscale)
            } else if w == "mono"@ {
                shown(ColorMode::Monochrome)
            } else {
                r == s
            }
        }),
{
    lemma_spelling();
}

/// `depth` takes up to four bounces, `samples shadow` one to 32 rays and `samples
/// ao` up to 32; other numbers, and what is no number, change nothing.
pub proof fn law_budget_commands(s: Settings, f: Facts, line: Seq<Seq<char>>, n: u32)
    requires
        line.len() > 0,
    ensures
        ({
            let r = commanded(s, f, line).0;
            let t = s.trace;
            &&& line[0] == "depth"@ && line.len() > 1 && unsigned_of(line[1]) == Some(n) ==> r == (
            if n <= 4 {
                Settings { trace: TraceSettings { max_depth: n, ..t }, ..s }
            } else {
                s
            })
            &&& line[0] == "depth"@ && (line.len() < 2 || unsigned_of(line[1]) is None) ==> r == s
            &&& line[0] == "samples"@ && line.len() > 2 && unsigned_of(line[2]) == Some(n) ==> r
                == (if line[1] == "shadow"@ && 1 <= n <= 32 {
                Settings { trace: TraceSettings { shadow_samples: n, ..t }, ..s }
            } else if line[1] == "ao"@ && n <= 32 {
                Settings { trace: TraceSettings { ao_samples: n, ..t }, ..s }
            } else {
                s
            })
            &&& line[0] == "samples"@ && (line.len() < 3 || unsigned_of(line[2]) is None) ==> r
                == s
        }),
{
    lemma_spelling();
}

/// `quit` and `exit` end the run and say nothing, `clear` clears the console, and
/// every command but those that switch, choose or set a budget leaves the
/// settings alone. A choice without a second word does, too.
pub proof fn law_other_commands(s: Settings, f: Facts, line: Seq<Seq<char>>)
    ensures
        ({
            let r = commanded(s, f, line);
            &&& line.len() == 0 ==> r == (s, Seq::<Line>::empty())
            &&& line.len() > 0 && (line[0] == "quit"@ || line[0] == "exit"@) ==> r == (
                Settings { should_exit: true, ..s },
                Seq::<Line>::empty(),
            )
            &&& line.len() > 0 && line[0] == "clear"@ ==> r == (s, seq![Line::Clear])
            &&& line.len() > 0 && (line[0] == "help"@ || line[0] == "fps"@ || line[0] == "scene"@
                || line[0] == "rays"@) ==> r.0 == s
            &&& line.len() == 1 && (line[0] == "style"@ || line[0] == "cam"@ || line[0]
                == "color"@) ==> r.0 == s
            &&& r.0 != s && line.len() > 0 ==> line[0] == "post"@ || line[0] == "grid"@ || line[0]
                == "hud"@ || line[0] == "trace"@ || line[0] == "style"@ || line[0] == "cam"@
                || line[0] == "color"@ || line[0] == "shadows"@ || line[0] == "reflect"@ || line[0]
                == "refract"@ || line[0] == "ao"@ || line[0] == "samples"@ || line[0] == "depth"@
                || line[0] == "quit"@ || line[0] == "exit"@
        }),
{
    lemma_spelling();
}

/// Each menu entry does what it is labelled with, and nothing else: the switches
/// take the state they are shown in, the choices the alternative at their place,
/// and the camera entries their preset. Ray tracing stays off where the machine
/// cannot trace, and the menu is told how it stands.
pub proof fn law_menu_events(s: Settings, event: MenuEvent)
    ensures
        ({
            let (r, reply) = applied(s, event);
            match event {
                MenuEvent::Activated(id) => {
                    &&& id@ == "resume"@ ==> r == s && reply == MenuReply::Close
                    &&& id@ == "quit"@ ==> r == (Settings { should_exit: true, ..s })
                    &&& id@ == "cam_first"@ ==> r == (Settings {
                        camera_mode: CameraMode::FirstPerson,
                        preset_chosen: true,
                        ..s
                    })
                    &&& id@ == "cam_third"@ ==> r == (Settings {
                        camera_mode: CameraMode::ThirdPerson,
                        preset_chosen: true,
                        ..s
                    })
                    &&& id@ == "cam_orbit"@ ==> r == (Settings {
                        camera_mode: CameraMode::Orbit,
                        preset_chosen: true,
                        ..s
                    })
                    &&& id@ != "resume"@ ==> reply == MenuReply::Nothing
                    &&& id@ != "quit"@ && id@ != "cam_first"@ && id@ != "cam_third"@ && id@
                        != "cam_orbit"@ ==> r == s
                },
                MenuEvent::Toggled(id, on) => {
                    &&& id@ == "trace"@ ==> r == (Settings {
                        traced_enabled: if s.tracing_available {
                            on
                        } else {
                            s.traced_enabled
                        },
                        ..s
                    }) && reply == MenuReply::ShowTracing(r.traced_enabled)
                    &&& id@ == "post"@ ==> r == (Settings {
                        post: if on {
                            s.demo_post
                        } else {
                            PostProcess { ssao: false, other: false }
                        },
                        ..s
                    })
                    &&& id@ == "grid"@ ==> r.subdivision.max_span == (if on {
                        2int
                    } else {
                        1
                    }) && r == (Settings { subdivision: r.subdivision, ..s })
                    &&& id@ == "hud"@ ==> r == (Settings { hud_visible: on, ..s })
                    &&& id@ != "trace"@ ==> reply == MenuReply::Nothing
                    &&& id@ != "trace"@ && id@ != "post"@ && id@ != "grid"@ && id@ != "hud"@ ==> r
                        == s
                },
                MenuEvent::Chose(id, index) => {
                    &&& reply == MenuReply::Nothing
                    &&& id@ == "style"@ ==> r == (Settings { glyph_style: r.glyph_style, ..s }) && (
                    r.glyph_style == GlyphStyle::Blocks <==> index == 0)
                    &&& id@ == "color"@ ==> r == (Settings { color_mode: r.color_mode, ..s }) && (
                    r.color_mode == ColorMode::Ansi256 <==> index == 1) && (r.color_mode
                        == ColorMode::Ansi16 <==> index == 2) && (r.color_mode
                        == ColorMode::Grayscale <==> index == 3) && (r.color_mode
                        == ColorMode::Monochrome <==> index == 4)
                    &&& id@ != "style"@ && id@ != "color"@ ==> r == s
                },
                MenuEvent::Closed => r == s && reply == MenuReply::Nothing,
            }
        }),
{
    lemma_ids();
}

/// A command that has something to say says it in one line: what it switched, chose or
/// set, how it is used, or that it is unknown.
pub proof fn law_replies(s: Settings, f: Facts, line: Seq<Seq<char>>)
    requires
        line.len() > 0,
    ensures
        ({
            let (r, said) = commanded(s, f, line);
            let on = |b: bool|
                if b {
                    "on"@
                } else {
                    "off"@
                };
            let prints = |text: Seq<char>| said == seq![Line::Print(text)];
            let fails = |text: Seq<char>| said == seq![Line::Error(text)];
            &&& line[0] == "post"@ ==> prints(
                "post: "@ + on(switched_to(line, s.post.ssao || s.post.other)),
            )
            &&& line[0] == "grid"@ ==> prints(
                "grid: "@ + (if switched_to(line, s.subdivision.max_span >= 2) {
                    "dynamic"@
                } else {
                    "uniform"@
                }),
            )
            &&& line[0] == "hud"@ ==> prints("hud: "@ + on(r.hud_visible))
            &&& line[0] == "trace"@ && s.tracing_available ==> prints(
                "trace: "@ + on(r.traced_enabled),
            )
            &&& line[0] == "trace"@ && !s.tracing_available ==> fails(
                "raytracing unavailable: "@ + f.ray_description@,
            )
            &&& line[0] == "shadows"@ ==> prints("shadows"@ + ": "@ + on(r.trace.shadows))
            &&& line[0] == "reflect"@ ==> prints("reflect"@ + ": "@ + on(r.trace.reflections))
            &&& line[0] == "refract"@ ==> prints("refract"@ + ": "@ + on(r.trace.refraction))
            &&& line[0] == "ao"@ ==> prints("ao"@ + ": "@ + on(r.trace.ambient_occlusion))
            &&& !known(line[0]) ==> fails("unknown command: "@ + line[0] + " (try 'help')"@)
        }),
{
    lemma_spelling();
}

/// The same of the commands that choose or set a number.
pub proof fn law_choice_replies(s: Settings, f: Facts, line: Seq<Seq<char>>)
    requires
        line.len() > 0,
    ensures
        ({
            let (r, said) = commanded(s, f, line);
            let w: Seq<char> = if line.len() > 1 {
                line[1]
            } else {
                Seq::empty()
            };
            let prints = |text: Seq<char>| said == seq![Line::Print(text)];
            let fails = |text: Seq<char>| said == seq![Line::Error(text)];
            &&& line[0] == "style"@ ==> if w == "block"@ || w == "blocks"@ {
                prints("style: blocks"@)
            } else if w == "ramp"@ {
                prints("style: ramp"@)
            } else {
                fails("usage: style <block|ramp>"@)
            }
            &&& line[0] == "cam"@ ==> if w == "first"@ {
                prints("camera: first person"@)
            } else if w == "third"@ {
                prints("camera: third person"@)
            } else if w == "orbit"@ {
                prints("camera: orbit"@)
            } else {
                fails("usage: cam <first|third|orbit>"@)
            }
            &&& line[0] == "color"@ ==> if w == "true"@ {
                prints("color: "@ + "TrueColor"@)
            } else if w == "256"@ {
                prints("color: "@ + "Ansi256"@)
            } else if w == "16"@ {
                prints("color: "@ + "Ansi16"@)
            } else if w == "grey"@ || w == "gray"@ {
                prints("color: "@ + "Grayscale"@)
            } else if w == "mono"@ {
                prints("color: "@ + "Monochrome"@)
            } else {
                fails("usage: color <true|256|16|grey|mono>"@)
            }
        }),
{
    lemma_spelling();
}

/// The words that are commands.
pub open spec fn known(w: Seq<char>) -> bool {
    w == "help"@ || w == "fps"@ || w == "scene"@ || w == "post"@ || w == "grid"@ || w == "hud"@ || w
        == "trace"@ || w == "style"@ || w == "cam"@ || w == "color"@ || w == "rays"@ || w
        == "shadows"@ || w == "reflect"@ || w == "refract"@ || w == "ao"@ || w == "samples"@ || w
        == "depth"@ || w == "clear"@ || w == "quit"@ || w == "exit"@
}

/// What is said of the frame rate and the scene.
pub proof fn law_figures(s: Settings, f: Facts, line: Seq<Seq<char>>)
    requires
        line.len() > 0,
    ensures
        line[0] == "fps"@ ==> commanded(s, f, line).1 == seq![
            Line::Print(f.fps@ + " FPS, "@ + decimal(f.drawn as nat) + " glyphs"@),
        ],
        line[0] == "scene"@ ==> commanded(s, f, line).1 == seq![
            Line::Print(
                decimal(f.entities as nat) + " entities, "@ + decimal(f.meshes as nat)
                    + " meshes, "@ + decimal(f.drawn as nat) + " drawn, "@ + decimal(
                    f.culled as nat,
                ) + " culled, "@ + decimal(f.materials as nat) + " materials"@,
            ),
        ],
        line[0] == "rays"@ ==> ({
            let said = commanded(s, f, line).1;
            &&& said.len() == (if f.structures is Some {
                4int
            } else {
                2
            })
            &&& said[0] == Line::Print(lighting_text(s, f))
            &&& said[1] == Line::Print("gpu: "@ + f.ray_description@)
            &&& (f.structures matches Some(a) ==> said[2] == Line::Print(
                "as: "@ + decimal(a.instances as nat) + " instances, "@ + decimal(
                    a.triangles as nat,
                ) + " tris, "@ + decimal(a.blas_builds as nat) + " blas builds, "@ + decimal(
                    a.tlas_builds as nat,
                ) + " tlas builds"@,
            ) && said[3] == Line::Print(
                "settings: depth "@ + decimal(s.trace.max_depth as nat) + " shadow x"@ + decimal(
                    s.trace.shadow_samples as nat,
                ) + " ao x"@ + decimal(s.trace.ao_samples as nat) + " radius "@ + f.light_radius@,
            ))
        }),
{
    lemma_spelling();
}

/// The budget commands say what they set.
pub proof fn law_budget_replies(s: Settings, f: Facts, line: Seq<Seq<char>>, n: u32)
    requires
        line.len() > 2 && line[0] == "samples"@ && unsigned_of(line[2]) == Some(n) || line.len() > 1
            && line[0] == "depth"@ && unsigned_of(line[1]) == Some(n),
    ensures
        ({
            let said = commanded(s, f, line).1;
            if line[0] == "depth"@ {
                said == if n <= 4 {
                    seq![Line::Print("depth: "@ + decimal(n as nat) + " bounces"@)]
                } else {
                    seq![Line::Error("usage: depth <0-4>"@)]
                }
            } else {
                said == if line[1] == "shadow"@ && 1 <= n <= 32 {
                    seq![Line::Print("shadow samples: "@ + decimal(n as nat))]
                } else if line[1] == "ao"@ && n <= 32 {
                    seq![Line::Print("ao samples: "@ + decimal(n as nat))]
                } else {
                    seq![Line::Error("usage: samples <shadow|ao> <count>"@)]
                }
            }
        }),
{
    lemma_spelling();
}

/// The menu from top to bottom: each entry is labelled with what its id does.
pub proof fn law_menu_layout()
    ensures
        ({
            let m = menu_entries();
            &&& m.len() == 12
            &&& m[0] == Entry::Button("Resume"@, "resume"@)
            &&& m[1] == Entry::Separator && m[8] == Entry::Separator && m[10] == Entry::Separator
            &&& m[2] == Entry::Choice("Glyphs"@, "style"@, seq!["Blocks"@, "Ramp"@], 0)
            &&& m[3] == Entry::Choice(
                "Colour"@,
                "color"@,
                seq!["True"@, "256"@, "16"@, "Grey"@, "Mono"@],
                0,
            )
            &&& m[4] == Entry::Toggle("Ray tracing"@, "trace"@, false)
            &&& m[5] == Entry::Toggle("Post FX"@, "post"@, false)
            &&& m[6] == Entry::Toggle("Dynamic grid"@, "grid"@, false)
            &&& m[7] == Entry::Toggle("HUD"@, "hud"@, true)
            &&& m[9] == Entry::Submenu(
                "Camera"@,
                seq![
                    ("First person"@, "cam_first"@),
                    ("Third person"@, "cam_third"@),
                    ("Orbit"@, "cam_orbit"@),
                ],
            )
            &&& m[11] == Entry::Button("Quit"@, "quit"@)
        }),
{
}

} // verus!
