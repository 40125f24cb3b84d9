//! Settings, console commands, the menu, key handling and frame planning.

use astraglyph::ascii::color::ColorMode;
use astraglyph::ascii::overlay::{GlyphMap, Overlay};
use astraglyph::ascii::overlay_glyph_of;
use astraglyph::shell::command::{
    build_console, lighting_summary, run_command, ConsoleLine, Facts, Structures,
};
use astraglyph::shell::frame::{
    apply_shortcuts, camera_frame, camera_orders, downsample_depth, draw_lists, frame_plan,
    is_drawable, Candidate, Shortcuts, WheelUse, FAR,
};
use astraglyph::shell::hud::draw_hud;
use astraglyph::shell::input::{Button, InputState, Key};
use astraglyph::shell::menu::{
    apply_menu_event, build_menu, sync_menu_from_state, MenuEvent, MenuItem, MenuReply,
};
use astraglyph::shell::settings::{
    next_color_mode, next_mode, preset_offsets, CameraMode, GlyphStyle, PostProcess, Settings,
    TraceFeature, TraceSettings,
};
use astraglyph::shell::ui::{
    pressed_once, ui_keys, ConsoleAction, MenuAction, UiKeys, UiState, UiStep,
};

fn settings(tracing_available: bool) -> Settings {
    let trace = TraceSettings {
        shadows: true,
        reflections: true,
        refraction: true,
        ambient_occlusion: true,
        max_depth: 2,
        shadow_samples: 4,
        ao_samples: 4,
    };
    Settings::new(tracing_available, trace, PostProcess { ssao: true, other: true })
}

fn facts() -> Facts {
    Facts {
        fps: "60".to_string(),
        entities: 9,
        meshes: 7,
        drawn: 5,
        culled: 2,
        materials: 3,
        ray_description: "no ray query".to_string(),
        ray_tag: "NO-RT".to_string(),
        rays_per_fragment: 21,
        structures: Some(Structures {
            instances: 7,
            triangles: 1200,
            blas_builds: 4,
            tlas_builds: 90,
        }),
        light_radius: "0.25".to_string(),
    }
}

fn printed(text: &str) -> Vec<ConsoleLine> {
    vec![ConsoleLine::Print(text.to_string())]
}

fn refused(text: &str) -> Vec<ConsoleLine> {
    vec![ConsoleLine::Error(text.to_string())]
}

fn no_keys() -> UiKeys {
    UiKeys {
        menu_toggle: false,
        console_toggle: false,
        up: false,
        down: false,
        enter: false,
        backspace: false,
        delete: false,
        left: false,
        right: false,
        home: false,
        end: false,
        page_up: false,
        page_down: false,
    }
}

// --- settings ---

/// A fresh shell must not have a UI layer holding focus, or the camera would be
/// dead on arrival.
#[test]
fn ui_starts_without_focus() {
    let ui = UiState::new();
    assert!(!ui.menu_open, "the menu must start closed");
    assert!(!ui.console_open, "the console must start closed");
    assert!(!ui.ui_has_focus() && !ui.ui_wants_text());
}

#[test]
fn camera_mode_cycle_visits_every_preset_and_returns() {
    let start = CameraMode::FirstPerson;
    let third = next_mode(start);
    let orbit = next_mode(third);
    let back = next_mode(orbit);
    assert!(matches!(third, CameraMode::ThirdPerson { .. }));
    assert!(matches!(orbit, CameraMode::Orbit { .. }));
    assert!(matches!(back, CameraMode::FirstPerson));
}

/// Distances and heights are in tenths.
#[test]
fn camera_presets_have_their_distances() {
    assert_eq!(preset_offsets(CameraMode::ThirdPerson), Some((80, 20)));
    assert_eq!(preset_offsets(CameraMode::Orbit), Some((100, 0)));
    assert_eq!(preset_offsets(CameraMode::FirstPerson), None);
}

#[test]
fn color_modes_cycle_through_all() {
    let mut mode = ColorMode::TrueColor;
    for expected in [
        ColorMode::Ansi256,
        ColorMode::Ansi16,
        ColorMode::Grayscale,
        ColorMode::Monochrome,
        ColorMode::TrueColor,
    ] {
        mode = next_color_mode(mode);
        assert_eq!(mode, expected);
    }
}

#[test]
fn ray_features_switch_one_at_a_time() {
    let mut trace = settings(true).trace;
    trace.set(TraceFeature::Refraction, false);
    assert!(!trace.has(TraceFeature::Refraction));
    assert!(trace.has(TraceFeature::Shadows));
    assert!(trace.has(TraceFeature::Reflections));
    assert!(trace.has(TraceFeature::AmbientOcclusion));
}

// --- console ---

#[test]
fn the_console_greets() {
    assert_eq!(build_console(), printed("AstraGlyph console. Type 'help' for commands."));
}

#[test]
fn switches_take_on_off_and_toggle() {
    let (mut s, f) = (settings(true), facts());
    assert_eq!(run_command(&mut s, &f, "hud off"), printed("hud: off"));
    assert!(!s.hud_visible);
    assert_eq!(run_command(&mut s, &f, "hud"), printed("hud: on"));
    assert_eq!(run_command(&mut s, &f, "  hud   0 "), printed("hud: off"));
    assert_eq!(run_command(&mut s, &f, "grid on"), printed("grid: dynamic"));
    assert!(s.subdivision.merges());
    assert_eq!(run_command(&mut s, &f, "grid false"), printed("grid: uniform"));
    assert!(!s.subdivision.merges());
    assert_eq!(run_command(&mut s, &f, "post 1"), printed("post: on"));
    assert!(s.post.any_enabled());
    assert_eq!(run_command(&mut s, &f, "post maybe"), printed("post: off"));
    assert!(!s.post.any_enabled());
    assert_eq!(run_command(&mut s, &f, "ao off"), printed("ao: off"));
    assert!(!s.trace.ambient_occlusion);
    assert_eq!(run_command(&mut s, &f, "reflect"), printed("reflect: off"));
    assert_eq!(run_command(&mut s, &f, "refract true"), printed("refract: on"));
    assert_eq!(run_command(&mut s, &f, "shadows off"), printed("shadows: off"));
}

#[test]
fn tracing_needs_the_machine() {
    let f = facts();
    let mut s = settings(false);
    assert_eq!(
        run_command(&mut s, &f, "trace on"),
        refused("raytracing unavailable: no ray query")
    );
    assert!(!s.traced_enabled);
    assert_eq!(lighting_summary(&s, &f), "RASTER (NO-RT)");

    let mut s = settings(true);
    assert_eq!(run_command(&mut s, &f, "trace off"), printed("trace: off"));
    assert_eq!(lighting_summary(&s, &f), "RASTER (RTX IDLE)");
    assert_eq!(run_command(&mut s, &f, "trace on"), printed("trace: on"));
    assert_eq!(lighting_summary(&s, &f), "TRACED d2 21 rays/px 1200 tris");
}

#[test]
fn styles_colours_and_cameras_are_chosen_by_name() {
    let (mut s, f) = (settings(true), facts());
    assert_eq!(run_command(&mut s, &f, "style ramp"), printed("style: ramp"));
    assert_eq!(s.glyph_style, GlyphStyle::Ramp);
    assert_eq!(run_command(&mut s, &f, "style blocks"), printed("style: blocks"));
    assert_eq!(s.glyph_style, GlyphStyle::Blocks);
    assert_eq!(run_command(&mut s, &f, "style"), refused("usage: style <block|ramp>"));
    run_command(&mut s, &f, "color gray");
    assert_eq!(s.color_mode, ColorMode::Grayscale);
    run_command(&mut s, &f, "color 16");
    assert_eq!(s.color_mode, ColorMode::Ansi16);
    assert_eq!(
        run_command(&mut s, &f, "color puce"),
        refused("usage: color <true|256|16|grey|mono>")
    );
    assert_eq!(s.color_mode, ColorMode::Ansi16);
    assert_eq!(run_command(&mut s, &f, "cam third"), printed("camera: third person"));
    assert_eq!(s.camera_mode, CameraMode::ThirdPerson);
    assert_eq!(run_command(&mut s, &f, "cam orbit"), printed("camera: orbit"));
    assert_eq!(run_command(&mut s, &f, "cam first"), printed("camera: first person"));
    assert_eq!(run_command(&mut s, &f, "cam"), refused("usage: cam <first|third|orbit>"));
}

/// No command line takes the ray budget out of its bounds.
#[test]
fn the_ray_budget_is_bounded() {
    let (mut s, f) = (settings(true), facts());
    assert_eq!(run_command(&mut s, &f, "depth 4"), printed("depth: 4 bounces"));
    for line in ["depth 5", "depth -1", "depth", "depth x"] {
        assert_eq!(run_command(&mut s, &f, line), refused("usage: depth <0-4>"));
    }
    assert_eq!(s.trace.max_depth, 4);
    assert_eq!(run_command(&mut s, &f, "samples shadow 32"), printed("shadow samples: 32"));
    assert_eq!(run_command(&mut s, &f, "samples ao 0"), printed("ao samples: 0"));
    for line in ["samples shadow 0", "samples ao 33", "samples shadow", "samples 4 shadow"] {
        assert_eq!(
            run_command(&mut s, &f, line),
            refused("usage: samples <shadow|ao> <count>")
        );
    }
    assert_eq!((s.trace.shadow_samples, s.trace.ao_samples), (32, 0));
}

#[test]
fn the_console_reports() {
    let (mut s, mut f) = (settings(true), facts());
    assert_eq!(run_command(&mut s, &f, "fps"), printed("60 FPS, 5 glyphs"));
    assert_eq!(
        run_command(&mut s, &f, "scene"),
        printed("9 entities, 7 meshes, 5 drawn, 2 culled, 3 materials")
    );
    assert_eq!(run_command(&mut s, &f, "help").len(), 17);
    let rays = run_command(&mut s, &f, "rays");
    assert_eq!(rays.len(), 4);
    assert_eq!(
        rays[2],
        ConsoleLine::Print("as: 7 instances, 1200 tris, 4 blas builds, 90 tlas builds".to_string())
    );
    assert_eq!(
        rays[3],
        ConsoleLine::Print("settings: depth 2 shadow x4 ao x4 radius 0.25".to_string())
    );
    f.structures = None;
    assert_eq!(run_command(&mut s, &f, "rays").len(), 2);
}

#[test]
fn other_commands() {
    let (mut s, f) = (settings(true), facts());
    assert_eq!(run_command(&mut s, &f, ""), []);
    assert_eq!(run_command(&mut s, &f, " \t "), []);
    assert_eq!(run_command(&mut s, &f, "clear"), [ConsoleLine::Clear]);
    assert_eq!(
        run_command(&mut s, &f, "frobnicate now"),
        refused("unknown command: frobnicate (try 'help')")
    );
    assert!(!s.should_exit);
    assert_eq!(run_command(&mut s, &f, "exit"), []);
    assert!(s.should_exit);
}

// --- menu ---

fn toggled(id: &str, on: bool) -> MenuEvent {
    MenuEvent::Toggled(id.to_string(), on)
}

#[test]
fn menu_events_change_the_settings() {
    let mut s = settings(true);
    let quit = MenuEvent::Activated("quit".to_string());
    let resume = MenuEvent::Activated("resume".to_string());
    assert!(matches!(apply_menu_event(&mut s, &resume), MenuReply::Close));
    assert!(!s.should_exit);
    apply_menu_event(&mut s, &quit);
    assert!(s.should_exit);
    apply_menu_event(&mut s, &toggled("grid", true));
    apply_menu_event(&mut s, &toggled("hud", false));
    apply_menu_event(&mut s, &MenuEvent::Chose("color".to_string(), 3));
    apply_menu_event(&mut s, &MenuEvent::Chose("style".to_string(), 1));
    let shown = sync_menu_from_state(&s);
    assert!(shown.grid && !shown.hud);
    assert_eq!((shown.color, shown.style), (3, 1));
    // What the menu shows is what choosing it would set.
    apply_menu_event(&mut s, &MenuEvent::Chose("color".to_string(), shown.color));
    assert_eq!(s.color_mode, ColorMode::Grayscale);
    assert!(matches!(apply_menu_event(&mut s, &MenuEvent::Closed), MenuReply::Nothing));
}

#[test]
fn the_menu_shows_tracing_as_it_is() {
    let mut s = settings(false);
    assert!(matches!(
        apply_menu_event(&mut s, &toggled("trace", true)),
        MenuReply::ShowTracing(false)
    ));
    let mut s = settings(true);
    s.traced_enabled = false;
    assert!(matches!(
        apply_menu_event(&mut s, &toggled("trace", true)),
        MenuReply::ShowTracing(true)
    ));
    assert!(s.traced_enabled);
}

#[test]
fn the_menu_has_its_items() {
    let items = build_menu();
    assert_eq!(items.len(), 12);
    assert!(matches!(&items[0], MenuItem::Button { label, id } if label == "Resume" && id == "resume"));
    assert!(matches!(
        &items[3],
        MenuItem::Choice { options, selected: 0, .. }
            if options.join(" ") == "True 256 16 Grey Mono"
    ));
    assert!(matches!(&items[9], MenuItem::Submenu { items, .. } if items.len() == 3));
    assert!(matches!(&items[11], MenuItem::Button { id, .. } if id == "quit"));
}

// --- keys ---

#[test]
fn a_held_key_fires_once() {
    let mut latch = false;
    assert!(pressed_once(true, &mut latch));
    assert!(!pressed_once(true, &mut latch));
    assert!(!pressed_once(false, &mut latch));
    assert!(pressed_once(true, &mut latch));
}

#[test]
fn the_layers_exclude_each_other() {
    let mut ui = UiState::new();
    let menu = UiKeys { menu_toggle: true, ..no_keys() };
    let console = UiKeys { console_toggle: true, ..no_keys() };
    ui.update_ui(menu);
    assert!(ui.menu_open && ui.ui_has_focus() && !ui.ui_wants_text());
    // Held: nothing more happens.
    ui.update_ui(menu);
    assert!(ui.menu_open);
    let steps = ui.update_ui(console);
    assert!(!ui.menu_open && ui.console_open && ui.ui_wants_text());
    assert_eq!(
        steps,
        [UiStep::CloseMenu, UiStep::OpenConsole, UiStep::ClearTyped, UiStep::InsertTyped]
    );
    assert_eq!(
        ui.update_ui(UiKeys { enter: true, page_up: true, ..no_keys() }),
        [UiStep::InsertTyped, UiStep::Console(ConsoleAction::Submit), UiStep::ScrollUp(4)]
    );
    assert_eq!(ui.handle_escape(), [UiStep::CloseConsole, UiStep::ClearTyped]);
    assert!(!ui.ui_has_focus());
    assert_eq!(ui.handle_escape(), []);
}

#[test]
fn held_keys_are_read_for_the_layers() {
    let mut input = InputState::new();
    assert_eq!(ui_keys(&input), no_keys());
    input.key_event(Key::Tab, true);
    input.key_event(Key::PageDown, true);
    input.key_event(Key::KeyW, true);
    assert_eq!(ui_keys(&input), UiKeys { menu_toggle: true, page_down: true, ..no_keys() });
}

#[test]
fn the_menu_takes_its_keys() {
    let mut ui = UiState::new();
    assert_eq!(ui.update_ui(UiKeys { down: true, enter: true, ..no_keys() }), []);
    ui.update_ui(UiKeys { menu_toggle: true, ..no_keys() });
    assert_eq!(
        ui.update_ui(UiKeys { down: true, ..no_keys() }),
        [UiStep::ClearTyped, UiStep::Menu(MenuAction::Down)]
    );
    assert_eq!(ui.handle_escape(), [UiStep::Menu(MenuAction::Back)]);
}

fn no_shortcuts() -> Shortcuts {
    Shortcuts { grid: false, color: false, post: false, hud: false, style: false, trace: false }
}

#[test]
fn shortcuts_act_once_and_only_without_focus() {
    let mut s = settings(true);
    let mut latches = no_shortcuts();
    let mut input = InputState::new();
    input.key_event(Key::KeyM, true);
    input.key_event(Key::KeyH, true);
    apply_shortcuts(&mut s, &mut latches, &input, false);
    assert_eq!(s.color_mode, ColorMode::Ansi256);
    assert!(!s.hud_visible);
    apply_shortcuts(&mut s, &mut latches, &input, false);
    assert_eq!(s.color_mode, ColorMode::Ansi256, "a held key acts once");

    let mut latches = no_shortcuts();
    apply_shortcuts(&mut s, &mut latches, &input, true);
    assert_eq!(s.color_mode, ColorMode::Ansi256, "a layer has the keyboard");
}

#[test]
fn camera_keys_become_orders() {
    let mut latch = false;
    let mut input = InputState::new();
    input.key_event(Key::KeyW, true);
    input.key_event(Key::KeyC, true);
    let orders = camera_orders(&mut latch, &input, CameraMode::FirstPerson, true);
    assert_eq!((orders.forward, orders.right, orders.up), (1, 0, 0));
    assert_eq!(orders.mode, CameraMode::ThirdPerson);
    assert!(!orders.turn);
    input.mouse_button_event(Button::Left, true);
    input.key_event(Key::KeyS, true);
    let orders = camera_orders(&mut latch, &input, CameraMode::Orbit, true);
    assert_eq!(orders.forward, 0, "opposite keys cancel");
    assert_eq!(orders.mode, CameraMode::Orbit, "a held key acts once");
    assert!(orders.turn);
    assert!(matches!(orders.wheel, WheelUse::Distance));
    let orders = camera_orders(&mut latch, &input, CameraMode::Orbit, false);
    assert!(matches!(orders.wheel, WheelUse::Still));
}

// --- frames ---

#[test]
fn unseen_meshes_stay_in_reach_of_rays() {
    let all = [
        Candidate { solid: true, visible: true },
        Candidate { solid: true, visible: false },
        Candidate { solid: false, visible: true },
        Candidate { solid: true, visible: true },
    ];
    let lists = draw_lists(&all);
    assert_eq!(lists.instances, [0, 1, 3]);
    assert_eq!(lists.drawn, [0, 3]);
    assert_eq!(lists.culled, 1);
}

#[test]
fn traced_frames_leave_ambient_occlusion_to_the_rays() {
    let mut s = settings(true);
    s.set_post(true);
    s.traced_enabled = true;
    let traced = frame_plan(&s, false);
    assert!(traced.traced && !traced.post.ssao && traced.post.other);
    s.toggle_tracing();
    let raster = frame_plan(&s, false);
    assert!(!raster.traced && raster.post.ssao);
    assert!(raster.needs_depth);
}

#[test]
fn a_minimised_window_is_not_drawn() {
    assert!(is_drawable(1, 1));
    assert!(!is_drawable(0, 10));
    assert!(!is_drawable(10, 0));
}

/// The nearest subpixel decides, so that a cell with any near geometry keeps
/// its detail.
#[test]
fn cell_depth_is_the_nearest_subpixel() {
    let depth = [
        0.9, 0.2, 1.0, 1.0, //
        0.9, 0.9, f32::NAN, f32::INFINITY,
    ]
    .map(f32::to_bits);
    let cells = downsample_depth(&depth, 4, 2);
    assert_eq!(cells, [0.2f32.to_bits(), 1.0f32.to_bits()]);
    assert_eq!(downsample_depth(&[], 4, 2), [FAR, FAR]);
    assert_eq!(downsample_depth(&[f32::NAN.to_bits(); 4], 2, 2), [FAR]);
}

// --- status display ---

fn row_text(overlay: &Overlay, row: u32, text: &str) -> bool {
    text.chars().enumerate().all(|(i, c)| {
        overlay
            .cell(1 + i as u32, row)
            .is_some_and(|cell| cell.opaque && cell.glyph_index == overlay_glyph_of(c))
    })
}

#[test]
fn the_status_display_shows_the_state() {
    let (mut s, f) = (settings(true), facts());
    s.traced_enabled = false;
    let mut overlay = Overlay::with_glyph_map(120, 68, GlyphMap::Atlas);
    draw_hud(&mut overlay, &s, &f, &UiState::new());
    assert!(row_text(&overlay, 1, "FPS 60"));
    assert!(row_text(&overlay, 2, "DRAWN 5 CULL 2"));
    assert!(row_text(&overlay, 3, "MAT 3 GRID UNI"));
    assert!(row_text(&overlay, 4, "COLOR TRUE POST OFF"));
    assert!(row_text(&overlay, 5, "STYLE BLOCK"));
    assert!(row_text(&overlay, 6, "LIGHT RASTER (RTX IDLE)"));
    assert!(row_text(&overlay, 7, "TAB MENU  ` CONSOLE"));
    let centre = overlay.cell(60, 34).expect("in the overlay");
    assert_eq!(centre.glyph_index, overlay_glyph_of('+'));

    let mut ui = UiState::new();
    ui.console_open = true;
    overlay.clear();
    draw_hud(&mut overlay, &s, &f, &ui);
    assert!(row_text(&overlay, 7, "CONSOLE HAS FOCUS - ESC TO CLOSE"));
}

/// Whatever is typed, clicked or scrolled, a focused layer keeps it from the
/// camera; the key that was down before is still taken for held.
#[test]
fn focus_keeps_input_from_the_camera() {
    let mut input = InputState::new();
    input.key_event(Key::KeyW, true);
    input.key_event(Key::KeyC, true);
    input.mouse_button_event(Button::Left, true);
    for was_down in [false, true] {
        let mut latch = was_down;
        let orders = camera_frame(&mut latch, &input, CameraMode::Orbit, true, true);
        assert!(!orders.turn && !orders.preset_chosen);
        assert_eq!(orders.wheel, WheelUse::Still);
        assert_eq!(orders.mode, CameraMode::Orbit);
        assert_eq!((orders.forward, orders.right, orders.up), (0, 0, 0));
        assert_eq!(latch, was_down);
    }
    let mut latch = false;
    let orders = camera_frame(&mut latch, &input, CameraMode::Orbit, true, false);
    assert!(orders.turn && orders.preset_chosen && latch);
    assert_eq!(orders.wheel, WheelUse::Distance);
    assert_eq!(orders.mode, CameraMode::FirstPerson);
    assert_eq!(orders.forward, 1);
    let orders = camera_frame(&mut latch, &input, CameraMode::Orbit, true, false);
    assert!(!orders.preset_chosen, "a held key chooses once");
}

/// Choosing a preset applies its distance and height anew, even where it is the
/// current one.
#[test]
fn chosen_presets_are_taken_up_once() {
    let mut s = settings(true);
    let f = facts();
    assert_eq!(s.take_preset(), None);
    for _ in 0..2 {
        run_command(&mut s, &f, "cam orbit");
        assert_eq!(s.take_preset(), Some(CameraMode::Orbit));
        assert_eq!(s.take_preset(), None);
    }
    for (id, mode) in [
        ("cam_first", CameraMode::FirstPerson),
        ("cam_third", CameraMode::ThirdPerson),
        ("cam_orbit", CameraMode::Orbit),
        ("cam_orbit", CameraMode::Orbit),
    ] {
        let reply = apply_menu_event(&mut s, &MenuEvent::Activated(id.to_string()));
        assert_eq!(reply, MenuReply::Nothing);
        assert_eq!(s.take_preset(), Some(mode));
    }
    run_command(&mut s, &f, "cam sideways");
    apply_menu_event(&mut s, &MenuEvent::Activated("cam_none".to_string()));
    assert_eq!(s.take_preset(), None);
    assert_eq!(s.camera_mode, CameraMode::Orbit);
}
