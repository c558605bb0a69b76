use savemyeyes::hotkeys::{DimCommand, DimmerSettings, HotkeyAction, HotkeyRegistry};
use savemyeyes::state::OpacityState;

#[test]
fn toggle_off_remembers_level_and_toggle_on_restores_it() {
    let mut s = DimmerSettings::new(OpacityState::new(true, 40, false), 30);
    assert_eq!(s.toggle_dimmer(), DimCommand::Hide);
    assert!(!s.state.enabled);
    assert_eq!(s.state.global_opacity, 0);
    assert_eq!(s.last_opacity, 40);
    assert_eq!(s.toggle_dimmer(), DimCommand::Show);
    assert!(s.state.enabled);
    assert_eq!(s.state.global_opacity, 40);
}

#[test]
fn toggle_off_at_zero_keeps_previous_level() {
    let mut s = DimmerSettings::new(OpacityState::new(true, 0, false), 30);
    s.toggle_dimmer();
    assert_eq!(s.last_opacity, 30);
}

#[test]
fn adjust_single_monitor_clamps_and_remembers() {
    let mut s = DimmerSettings::new(OpacityState::new(true, 85, false), 30);
    assert_eq!(s.apply_hotkey(HotkeyAction::Increase, None), DimCommand::Retune);
    assert_eq!(s.state.global_opacity, 90);
    assert_eq!(s.last_opacity, 90);
    let mut low = DimmerSettings::new(OpacityState::new(true, 5, false), 30);
    low.apply_hotkey(HotkeyAction::Decrease, None);
    assert_eq!(low.state.global_opacity, 0);
    assert_eq!(low.last_opacity, 30);
}

#[test]
fn adjust_while_off_turns_on_from_last_level() {
    let mut s = DimmerSettings::new(OpacityState::new(false, 0, false), 30);
    assert_eq!(s.apply_hotkey(HotkeyAction::Increase, None), DimCommand::Show);
    assert!(s.state.enabled);
    assert_eq!(s.state.global_opacity, 40);
    assert_eq!(s.last_opacity, 40);
}

#[test]
fn adjust_multi_monitor_changes_display_under_cursor() {
    let mut s = DimmerSettings::new(OpacityState::new(true, 30, true), 30);
    let name = "Display (2)".to_string();
    assert_eq!(s.adjust_opacity(10, Some(&name)), DimCommand::Retune);
    assert_eq!(s.state.opacity_for(&name), 40);
    assert_eq!(s.state.global_opacity, 30);
    assert_eq!(s.state.opacity_for(&"Display".to_string()), 30);
}

#[test]
fn hotkeys_register_once() {
    let mut r = HotkeyRegistry::new();
    assert!(r.register_all());
    assert!(!r.register_all());
    r.unregister_all();
    assert!(!r.registered);
    assert!(r.register_all());
}

#[test]
fn decrease_hotkey_steps_down_by_ten() {
    let mut s = DimmerSettings::new(OpacityState::new(true, 50, false), 30);
    assert_eq!(s.apply_hotkey(HotkeyAction::Decrease, None), DimCommand::Retune);
    assert_eq!(s.state.global_opacity, 40);
    assert_eq!(s.last_opacity, 40);
    assert_eq!(s.apply_hotkey(HotkeyAction::Toggle, None), DimCommand::Hide);
    assert_eq!(s.last_opacity, 40);
}
