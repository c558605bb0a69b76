use savemyeyes::state::OpacityState;

#[test]
fn update_clamps_every_opacity() {
    let mut st = OpacityState::new(false, 0, false);
    let snap = st.update(true, 150, true, &vec![("A".to_string(), -20), ("B".to_string(), 45)]);
    assert_eq!(snap.global_opacity, 90);
    assert_eq!(snap.override_for(&"A".to_string()), Some(0));
    assert_eq!(snap.override_for(&"B".to_string()), Some(45));
    assert_eq!(st.global_opacity, 90);
    assert!(st.enabled && st.multi_monitor);
}

#[test]
fn later_request_for_a_name_wins() {
    let mut st = OpacityState::new(true, 30, true);
    st.update(true, 30, true, &vec![("A".to_string(), 10), ("A".to_string(), 60)]);
    assert_eq!(st.override_for(&"A".to_string()), Some(60));
    assert_eq!(st.per_display.len(), 1);
}

#[test]
fn opacity_falls_back_to_global() {
    let mut st = OpacityState::new(true, 25, true);
    st.set_display_opacity(&"Display (2)".to_string(), 50);
    assert_eq!(st.opacity_for(&"Display (2)".to_string()), 50);
    assert_eq!(st.opacity_for(&"Display".to_string()), 25);
    assert_eq!(st.override_for(&"Display".to_string()), None);
}

#[test]
fn setting_an_override_twice_replaces_it() {
    let mut st = OpacityState::new(true, 25, true);
    st.set_display_opacity(&"A".to_string(), 50);
    st.set_display_opacity(&"A".to_string(), 95);
    assert_eq!(st.opacity_for(&"A".to_string()), 90);
    assert_eq!(st.per_display.len(), 1);
}

#[test]
fn copy_keeps_everything() {
    let mut st = OpacityState::new(true, 25, true);
    st.set_display_opacity(&"A".to_string(), 50);
    let c = st.copy();
    assert_eq!(c.global_opacity, 25);
    assert_eq!(c.opacity_for(&"A".to_string()), 50);
    assert!(c.enabled && c.multi_monitor);
}
