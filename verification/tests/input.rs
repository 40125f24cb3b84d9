//! Keys, buttons, typed text and frame metrics.

use astraglyph::shell::input::{Button, InputState, Key};
use astraglyph::shell::metrics::{FrameMetrics, Rate};

#[test]
fn key_press_release() {
    let mut input = InputState::new();
    assert!(!input.is_key_pressed(Key::KeyW));
    input.key_event(Key::KeyW, true);
    assert!(input.is_key_pressed(Key::KeyW));
    input.key_event(Key::KeyW, false);
    assert!(!input.is_key_pressed(Key::KeyW));
}

#[test]
fn typed_text_accumulates_and_drops_control_characters() {
    let mut input = InputState::new();
    assert_eq!(input.take_typed(), "");
    input.text_input("he");
    input.text_input("llo");
    // Control characters (Enter, Tab, Backspace) must not reach the console as
    // text — they arrive as key codes and mean actions, not content.
    input.text_input("\r\n\t\u{8}");
    input.text_input("!");
    assert_eq!(input.take_typed(), "hello!");
    assert_eq!(input.take_typed(), "", "taking must drain the buffer");
}

#[test]
fn clear_typed_discards_pending_text() {
    let mut input = InputState::new();
    input.text_input("stale");
    input.clear_typed();
    assert_eq!(input.take_typed(), "");
}

#[test]
fn mouse_button_look() {
    let mut input = InputState::new();
    assert!(!input.is_look_active());
    input.mouse_button_event(Button::Left, true);
    assert!(input.is_look_active());
    input.mouse_button_event(Button::Left, false);
    assert!(!input.is_look_active());
}

#[test]
fn keys_and_buttons_are_held_independently() {
    let mut input = InputState::default();
    input.key_event(Key::KeyW, true);
    input.key_event(Key::KeyW, true);
    input.key_event(Key::Other(300), true);
    input.mouse_button_event(Button::Other(4), true);
    input.key_event(Key::KeyW, false);
    assert!(!input.is_key_pressed(Key::KeyW), "one release ends a repeated press");
    assert!(input.is_key_pressed(Key::Other(300)));
    assert!(input.is_mouse_pressed(Button::Other(4)));
    assert!(!input.is_mouse_pressed(Button::Right));
}

#[test]
fn metrics_begin_end_frame() {
    let mut m = FrameMetrics::new(0);
    m.begin_frame(1_000);
    m.end_frame(1_100);
    assert_eq!(m.cpu_us(), 100);
}

#[test]
fn metrics_record_submit_phase() {
    let mut m = FrameMetrics::new(0);
    m.record_submit_phase(10, 60);
    assert_eq!(m.submit_us(), 50);
}

#[test]
fn the_submit_accessor_reports_what_was_recorded() {
    let mut metrics = FrameMetrics::new(0);
    metrics.begin_frame(0);
    metrics.record_submit_phase(500, 2_500);
    assert_eq!(metrics.submit_us(), 2_000);
    metrics.record_submit_phase(3_000, 3_001);
    assert_eq!(metrics.submit_us(), 2_001, "phases add up over a frame");
}

#[test]
fn counters_round_trip_through_their_accessors() {
    let mut metrics = FrameMetrics::new(0);
    metrics.set_scene_stats(7, 3, 5);
    metrics.set_glyph_count(1234);
    assert_eq!(metrics.scene_counts(), (7, 3, 5));
    assert_eq!(metrics.glyph_count(), 1234);
}

#[test]
fn metrics_fps_initial_zero() {
    let m = FrameMetrics::new(0);
    assert_eq!(m.fps(), None);
    assert_eq!(m.frame_us(), (0, 1));
}

/// The rate is frames divided by real elapsed time, whatever a frame takes.
#[test]
fn fps_reflects_the_real_frame_rate() {
    let mut m = FrameMetrics::new(0);
    let mut reports = 0;
    // 2 ms per frame for just over a second, so exactly one window closes.
    for frame in 0..525u64 {
        m.begin_frame(frame * 2_000);
        if m.end_frame(frame * 2_000 + 2_000) {
            reports += 1;
        }
    }
    assert_eq!(reports, 1);
    assert_eq!(m.fps(), Some(Rate { frames: 500, micros: 1_000_000 }));
    assert_eq!(m.frame_us(), (1_000_000, 500));
}
