use savemyeyes::controls::{ButtonState, SliderState, Tab, ToggleState, UiState};
use savemyeyes::monitor::Rect;

fn slider(value: i32, left: i32, right: i32) -> SliderState {
    let mut s = SliderState::new(value);
    s.rect = Rect { left, top: 0, right, bottom: 20 };
    s
}

#[test]
fn slider_value_is_clamped() {
    assert_eq!(SliderState::new(120).value, 90);
    assert_eq!(SliderState::new(-3).value, 0);
    assert_eq!(SliderState::new(45).value, 45);
}

#[test]
fn thumb_position_follows_value() {
    assert_eq!(slider(0, 10, 190).thumb_x(), 10);
    assert_eq!(slider(90, 10, 190).thumb_x(), 190);
    assert_eq!(slider(45, 10, 190).thumb_x(), 100);
    assert_eq!(slider(30, 0, 100).thumb_x(), 33);
}

#[test]
fn value_from_position_rounds_to_nearest() {
    let s = slider(30, 10, 190);
    assert_eq!(s.value_from_x(10), 0);
    assert_eq!(s.value_from_x(190), 90);
    assert_eq!(s.value_from_x(100), 45);
    assert_eq!(s.value_from_x(-50), 0);
    assert_eq!(s.value_from_x(500), 90);
    assert_eq!(slider(30, 0, 100).value_from_x(33), 30);
}

#[test]
fn track_without_width_keeps_value() {
    assert_eq!(slider(42, 50, 50).value_from_x(70), 42);
}

#[test]
fn new_window_state() {
    let ui = UiState::new();
    assert_eq!(ui.active_tab, Tab::Dimmer);
    assert_eq!(ui.slider.value, 30);
    assert!(ui.enabled_toggle.checked);
    assert!(!ui.autostart_toggle.checked);
    assert!(ui.auto_update_toggle.checked);
    assert_eq!(ui.check_update_btn.text, "Check Now");
    assert_eq!(ui.shortcut_texts[0], "Ctrl+Alt+End");
    assert!(!ui.toast_visible);
}

#[test]
fn controls_start_unplaced() {
    assert!(ToggleState::new(true).checked);
    let b = ButtonState::new("Go");
    assert_eq!(b.text, "Go");
    assert!(!b.disabled && !b.hover);
    assert_eq!(b.rect.right, 0);
}

#[test]
fn thumb_of_out_of_range_value_stays_on_track() {
    let mut s = slider(30, 10, 190);
    s.value = 200;
    assert_eq!(s.thumb_x(), 190);
    s.value = -5;
    assert_eq!(s.thumb_x(), 10);
}
