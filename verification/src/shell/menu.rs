//! The settings menu: its entries, what choosing one does, and what an opened
//! menu shows.

use vstd::prelude::*;
use crate::ascii::color::ColorMode;
use crate::shell::settings::{CameraMode, GlyphStyle, Settings};
use crate::text::{same_text, texts_of};

verus! {

/// What the user did in the menu; entries are named by their ids.
#[derive(Clone, Debug, PartialEq, Eq)]
pub enum MenuEvent {
    Activated(String),
    Toggled(String, bool),
    Chose(String, usize),
    Closed,
}

/// What the menu itself is told in answer.
#[derive(Clone, Copy, Debug, PartialEq, Eq, Structural)]
pub enum MenuReply {
    Nothing,
    /// Close the menu.
    Close,
    /// Show ray tracing as it really is.
    ShowTracing(bool),
}

/// The colour mode of a menu choice.
pub open spec fn color_of_choice(index: int) -> ColorMode {
    if index == 1 {
        ColorMode::Ansi256
    } else if index == 2 {
        ColorMode::Ansi16
    } else if index == 3 {
        ColorMode::Grayscale
    } else if index == 4 {
        ColorMode::Monochrome
    } else {
        ColorMode::TrueColor
    }
}

/// The menu choice of a colour mode.
pub open spec fn choice_of_color(mode: ColorMode) -> int {
    match mode {
        ColorMode::TrueColor => 0,
        ColorMode::Ansi256 => 1,
        ColorMode::Ansi16 => 2,
        ColorMode::Grayscale => 3,
        ColorMode::Monochrome => 4,
    }
}

/// The glyph style of a menu choice.
pub open spec fn style_of_choice(index: int) -> GlyphStyle {
    if index == 0 {
        GlyphStyle::Blocks
    } else {
        GlyphStyle::Ramp
    }
}

/// A button pressed.
pub open spec fn activated(s: Settings, id: Seq<char>) -> (Settings, MenuReply) {
    if id == "resume"@ {
        (s, MenuReply::Close)
    } else if id == "quit"@ {
        (Settings { should_exit: true, ..s }, MenuReply::Nothing)
    } else if id == "cam_first"@ {
        (s.with_preset(CameraMode::FirstPerson), MenuReply::Nothing)
    } else if id == "cam_third"@ {
        (s.with_preset(CameraMode::ThirdPerson), MenuReply::Nothing)
    } else if id == "cam_orbit"@ {
        (s.with_preset(CameraMode::Orbit), MenuReply::Nothing)
    } else {
        (s, MenuReply::Nothing)
    }
}

/// A switch moved. Where the machine cannot trace, the menu is told so.
pub open spec fn toggled(s: Settings, id: Seq<char>, on: bool) -> (Settings, MenuReply) {
    if id == "trace"@ {
        let after = if on != s.traced_enabled {
            s.with_tracing_flipped()
        } else {
            s
        };
        (after, MenuReply::ShowTracing(after.traced_enabled))
    } else if id == "post"@ {
        (s.with_post(on), MenuReply::Nothing)
    } else if id == "grid"@ {
        (s.with_grid(on), MenuReply::Nothing)
    } else if id == "hud"@ {
        (Settings { hud_visible: on, ..s }, MenuReply::Nothing)
    } else {
        (s, MenuReply::Nothing)
    }
}

/// An alternative chosen.
pub open spec fn chose(s: Settings, id: Seq<char>, index: int) -> (Settings, MenuReply) {
    if id == "style"@ {
        (Settings { glyph_style: style_of_choice(index), ..s }, MenuReply::Nothing)
    } else if id == "color"@ {
        (Settings { color_mode: color_of_choice(index), ..s }, MenuReply::Nothing)
    } else {
        (s, MenuReply::Nothing)
    }
}

/// What an event does.
pub open spec fn applied(s: Settings, event: MenuEvent) -> (Settings, MenuReply) {
    match event {
        MenuEvent::Activated(id) => activated(s, id@),
        MenuEvent::Toggled(id, on) => toggled(s, id@, on),
        MenuEvent::Chose(id, index) => chose(s, id@, index as int),
        MenuEvent::Closed => (s, MenuReply::Nothing),
    }
}

/// Apply what the menu reported.
pub fn apply_menu_event(s: &mut Settings, event: &MenuEvent) -> (r: MenuReply)
    ensures
        (*final(s), r) == applied(*old(s), *event),
{
    match event {
        MenuEvent::Activated(id) => {
            if same_text(id.as_str(), "resume") {
                return MenuReply::Close;
            }
            if same_text(id.as_str(), "quit") {
                s.should_exit = true;
            } else if same_text(id.as_str(), "cam_first") {
                s.choose_preset(CameraMode::FirstPerson);
            } else if same_text(id.as_str(), "cam_third") {
                s.choose_preset(CameraMode::ThirdPerson);
            } else if same_text(id.as_str(), "cam_orbit") {
                s.choose_preset(CameraMode::Orbit);
            }
            MenuReply::Nothing
        },
        MenuEvent::Toggled(id, on) => {
            if same_text(id.as_str(), "trace") {
                if *on != s.traced_enabled {
                    s.toggle_tracing();
                }
                return MenuReply::ShowTracing(s.traced_enabled);
            }
            if same_text(id.as_str(), "post") {
                s.set_post(*on);
            } else if same_text(id.as_str(), "grid") {
                s.set_grid(*on);
            } else if same_text(id.as_str(), "hud") {
                s.hud_visible = *on;
            }
            MenuReply::Nothing
        },
        MenuEvent::Chose(id, index) => {
            if same_text(id.as_str(), "style") {
                s.glyph_style = if *index == 0 {
                    GlyphStyle::Blocks
                } else {
                    GlyphStyle::Ramp
                };
            } else if same_text(id.as_str(), "color") {
                s.color_mode = match *index {
                    1 => ColorMode::Ansi256,
                    2 => ColorMode::Ansi16,
                    3 => ColorMode::Grayscale,
                    4 => ColorMode::Monochrome,
                    _ => ColorMode::TrueColor,
                };
            }
            MenuReply::Nothing
        },
        MenuEvent::Closed => MenuReply::Nothing,
    }
}

/// What an opened menu shows.
#[derive(Clone, Copy, Debug, PartialEq, Eq, Structural)]
pub struct MenuShown {
    pub style: usize,
    pub color: usize,
    pub trace: bool,
    pub post: bool,
    pub grid: bool,
    pub hud: bool,
}

/// The current settings as the menu shows them.
pub fn sync_menu_from_state(s: &Settings) -> (r: MenuShown)
    ensures
        style_of_choice(r.style as int) == s.glyph_style,
        r.style < 2,
        r.color == choice_of_color(s.color_mode),
        r.trace == s.traced_enabled,
        r.post == s.post.any(),
        r.grid == s.merges(),
        r.hud == s.hud_visible,
{
    let style: usize = match s.glyph_style {
        GlyphStyle::Blocks => 0,
        GlyphStyle::Ramp => 1,
    };
    let color: usize = match s.color_mode {
        ColorMode::TrueColor => 0,
        ColorMode::Ansi256 => 1,
        ColorMode::Ansi16 => 2,
        ColorMode::Grayscale => 3,
        ColorMode::Monochrome => 4,
    };
    MenuShown {
        style,
        color,
        trace: s.traced_enabled,
        post: s.post.any_enabled(),
        grid: s.subdivision.merges(),
        hud: s.hud_visible,
    }
}

// --- entries -----------------------------------------------------------------

/// An entry of the menu: a label, the id its events carry, and what it starts
/// with.
#[derive(Debug, PartialEq)]
pub enum MenuItem {
    Button { label: String, id: String },
    Toggle { label: String, id: String, on: bool },
    Choice { label: String, id: String, options: Vec<String>, selected: usize },
    Submenu { label: String, items: Vec<(String, String)> },
    Separator,
}

/// What an entry is.
pub ghost enum Entry {
    Button(Seq<char>, Seq<char>),
    Toggle(Seq<char>, Seq<char>, bool),
    Choice(Seq<char>, Seq<char>, Seq<Seq<char>>, int),
    Submenu(Seq<char>, Seq<(Seq<char>, Seq<char>)>),
    Separator,
}

/// Pairs of texts as sequences of characters.
pub open spec fn pairs_of(list: Seq<(String, String)>) -> Seq<(Seq<char>, Seq<char>)> {
    list.map_values(|p: (String, String)| (p.0@, p.1@))
}

impl View for MenuItem {
    type V = Entry;

    open spec fn view(&self) -> Entry {
        match *self {
            MenuItem::Button { label, id } => Entry::Button(label@, id@),
            MenuItem::Toggle { label, id, on } => Entry::Toggle(label@, id@, on),
            MenuItem::Choice { label, id, options, selected } => Entry::Choice(
                label@,
                id@,
                texts_of(options@),
                selected as int,
            ),
            MenuItem::Submenu { label, items } => Entry::Submenu(label@, pairs_of(items@)),
            MenuItem::Separator => Entry::Separator,
        }
    }
}

/// The entries of the settings menu.
pub open spec fn menu_entries() -> Seq<Entry> {
    seq![
        Entry::Button("Resume"@, "resume"@),
        Entry::Separator,
        Entry::Choice("Glyphs"@, "style"@, seq!["Blocks"@, "Ramp"@], 0),
        Entry::Choice(
            "Colour"@,
            "color"@,
            seq!["True"@, "256"@, "16"@, "Grey"@, "Mono"@],
            0,
        ),
        Entry::Toggle("Ray tracing"@, "trace"@, false),
        Entry::Toggle("Post FX"@, "post"@, false),
        Entry::Toggle("Dynamic grid"@, "grid"@, false),
        Entry::Toggle("HUD"@, "hud"@, true),
        Entry::Separator,
        Entry::Submenu(
            "Camera"@,
            seq![
                ("First person"@, "cam_first"@),
                ("Third person"@, "cam_third"@),
                ("Orbit"@, "cam_orbit"@),
            ],
        ),
        Entry::Separator,
        Entry::Button("Quit"@, "quit"@),
    ]
}

fn button(label: &str, id: &str) -> (r: MenuItem)
    ensures
        r@ == Entry::Button(label@, id@),
{
    MenuItem::Button { label: String::from_str(label), id: String::from_str(id) }
}

fn toggle(label: &str, id: &str, on: bool) -> (r: MenuItem)
    ensures
        r@ == Entry::Toggle(label@, id@, on),
{
    MenuItem::Toggle { label: String::from_str(label), id: String::from_str(id), on }
}

fn choice(label: &str, id: &str, options: Vec<String>) -> (r: MenuItem)
    ensures
        r@ == Entry::Choice(label@, id@, texts_of(options@), 0),
{
    MenuItem::Choice {
        label: String::from_str(label),
        id: String::from_str(id),
        options,
        selected: 0,
    }
}

/// The settings menu. The ids are the contract between the menu and
/// `apply_menu_event`.
pub fn build_menu() -> (r: Vec<MenuItem>)
    ensures
        r@.map_values(|m: MenuItem| m@) == menu_entries(),
{
    let styles: Vec<String> = vec![String::from_str("Blocks"), String::from_str("Ramp")];
    assert(texts_of(styles@) =~= seq!["Blocks"@, "Ramp"@]);
    let colors: Vec<String> = vec![
        String::from_str("True"),
        String::from_str("256"),
        String::from_str("16"),
        String::from_str("Grey"),
        String::from_str("Mono"),
    ];
    assert(texts_of(colors@) =~= seq!["True"@, "256"@, "16"@, "Grey"@, "Mono"@]);
    let cameras: Vec<(String, String)> = vec![
        (String::from_str("First person"), String::from_str("cam_first")),
        (String::from_str("Third person"), String::from_str("cam_third")),
        (String::from_str("Orbit"), String::from_str("cam_orbit")),
    ];
    assert(pairs_of(cameras@) =~= seq![
        ("First person"@, "cam_first"@),
        ("Third person"@, "cam_third"@),
        ("Orbit"@, "cam_orbit"@),
    ]);
    let r: Vec<MenuItem> = vec![
        button("Resume", "resume"),
        MenuItem::Separator,
        choice("Glyphs", "style", styles),
        choice("Colour", "color", colors),
        toggle("Ray tracing", "trace", false),
        toggle("Post FX", "post", false),
        toggle("Dynamic grid", "grid", false),
        toggle("HUD", "hud", true),
        MenuItem::Separator,
        MenuItem::Submenu { label: String::from_str("Camera"), items: cameras },
        MenuItem::Separator,
        button("Quit", "quit"),
    ];
    assert(r@.map_values(|m: MenuItem| m@) =~= menu_entries());
    r
}

// --- laws --------------------------------------------------------------------

proof fn lemma_ids()
    ensures
        "color"@ != "style"@,
{
    reveal_strlit("color");
    reveal_strlit("style");
    assert("color"@[0] != "style"@[0]);
}

/// Choosing what the menu shows changes nothing, for colours and for styles.
pub proof fn law_shown_choices_are_the_settings(s: Settings)
    ensures
        chose(s, "color"@, choice_of_color(s.color_mode)).0 == s,
        chose(
            s,
            "style"@,
            if s.glyph_style == GlyphStyle::Blocks {
                0
            } else {
                1
            },
        ).0 == s,
{
    lemma_ids();
}

/// No event makes a machine trace that cannot; the menu is told what is so.
pub proof fn law_menu_keeps_tracing_honest(s: Settings, event: MenuEvent)
    requires
        s.traced_enabled ==> s.tracing_available,
    ensures
        applied(s, event).0.traced_enabled ==> applied(s, event).0.tracing_available,
        applied(s, event).1 matches MenuReply::ShowTracing(on) ==> on == applied(
            s,
            event,
        ).0.traced_enabled,
        event matches MenuEvent::Toggled(id, on) ==> id@ == "trace"@ && s.tracing_available
            ==> applied(s, event).0.traced_enabled == on,
{
}

} // verus!
