use savemyeyes::engine::{
    capture_affinity, BackendKind, BackendMode, CaptureAffinity, DimSurface, DimmingEngine,
};
use savemyeyes::monitor::{enumerate_monitors, Monitor, RawDisplay, Rect};
use savemyeyes::state::OpacityState;

/// A stand-in for the native display layer: hands out surface handles,
/// can refuse the compositor effect, and can fail one surface creation.
struct FakePlatform {
    compositor_works: bool,
    next_handle: u64,
    fail_surface_at: Option<usize>,
    effect_calls: usize,
    destroyed: Vec<u64>,
}

impl FakePlatform {
    fn new(compositor_works: bool) -> Self {
        FakePlatform {
            compositor_works,
            next_handle: 100,
            fail_surface_at: None,
            effect_calls: 0,
            destroyed: Vec::new(),
        }
    }

    /// hide, then plan and commit a session, falling back to overlay
    /// surfaces when the compositor effect is refused.
    fn show(&mut self, engine: &mut DimmingEngine, snapshot: &OpacityState, monitors: &Vec<Monitor>) -> usize {
        self.destroyed.extend(engine.hide_overlay());
        let plan = engine.plan_show(snapshot, monitors);
        if plan.backend == BackendKind::CompositorEffect {
            self.effect_calls += 1;
            engine.commit_effect(snapshot.clone(), monitors.clone(), self.compositor_works);
            if self.compositor_works {
                return engine.get_monitor_count() as usize;
            }
        }
        let plan = engine.plan_show(snapshot, monitors);
        assert_eq!(plan.backend, BackendKind::OverlaySurfaces);
        let mut handles = Vec::new();
        for i in 0..plan.targets.len() {
            if self.fail_surface_at == Some(i) {
                handles.push(None);
            } else {
                self.next_handle += 1;
                handles.push(Some(self.next_handle));
            }
        }
        engine.commit_surfaces(snapshot.clone(), monitors.clone(), &handles)
    }
}

fn display(name: &str, left: i32) -> RawDisplay {
    RawDisplay { name: name.to_string(), bounds: Rect { left, top: 0, right: left + 1920, bottom: 1080 } }
}

fn monitors(names: &[&str]) -> Vec<Monitor> {
    let raw: Vec<RawDisplay> = names.iter().enumerate().map(|(i, n)| display(n, 1920 * i as i32)).collect();
    enumerate_monitors(&raw)
}

fn surfaces(engine: &DimmingEngine) -> Vec<DimSurface> {
    match engine.reorder_front() {
        BackendMode::OverlaySurfaces(ss) => ss,
        _ => Vec::new(),
    }
}

#[test]
fn single_monitor_dims_only_primary() {
    let ms = monitors(&["Built-in", "External"]);
    let snapshot = OpacityState::new(true, 30, false);
    let mut engine = DimmingEngine::new(false, false);
    let mut platform = FakePlatform::new(false);
    assert_eq!(platform.show(&mut engine, &snapshot, &ms), 1);
    assert!(engine.is_visible());
    assert_eq!(engine.effective_opacity(0), Some(30));
    assert_eq!(engine.effective_opacity(1), None);
    assert_eq!(engine.monitor_names(), vec!["Built-in".to_string(), "External".to_string()]);
}

#[test]
fn single_monitor_on_compositor_effect() {
    let ms = monitors(&["Built-in"]);
    let snapshot = OpacityState::new(true, 30, false);
    let mut engine = DimmingEngine::new(true, true);
    let mut platform = FakePlatform::new(true);
    assert_eq!(platform.show(&mut engine, &snapshot, &ms), 1);
    assert_eq!(platform.effect_calls, 1);
    assert!(engine.is_visible());
    assert_eq!(engine.effective_opacity(0), Some(30));
    assert!(engine.tracked_handles().is_empty());
}

#[test]
fn duplicate_names_take_their_own_override() {
    let ms = monitors(&["Display", "Display"]);
    assert_eq!(ms[0].name, "Display");
    assert_eq!(ms[1].name, "Display (2)");
    let mut snapshot = OpacityState::new(true, 30, true);
    snapshot.set_display_opacity(&"Display (2)".to_string(), 50);
    let mut engine = DimmingEngine::new(false, false);
    let mut platform = FakePlatform::new(false);
    assert_eq!(platform.show(&mut engine, &snapshot, &ms), 2);
    assert_eq!(engine.effective_opacity(0), Some(30));
    assert_eq!(engine.effective_opacity(1), Some(50));
}

#[test]
fn unavailable_compositor_falls_back_to_surfaces() {
    let ms = monitors(&["Built-in"]);
    let snapshot = OpacityState::new(true, 40, false);
    let mut engine = DimmingEngine::new(true, true);
    let mut platform = FakePlatform::new(false);
    assert_eq!(platform.show(&mut engine, &snapshot, &ms), 1);
    assert_eq!(platform.effect_calls, 1);
    assert!(engine.is_visible());
    assert_eq!(engine.effective_opacity(0), Some(40));
    assert_eq!(engine.tracked_handles().len(), 1);
    // The compositor is not tried again.
    assert_eq!(engine.plan_show(&snapshot, &ms).backend, BackendKind::OverlaySurfaces);
}

#[test]
fn global_only_compositor_needs_one_opacity_everywhere() {
    let ms = monitors(&["A", "B"]);
    let engine = DimmingEngine::new(true, false);
    let single = OpacityState::new(true, 30, false);
    assert_eq!(engine.plan_show(&single, &ms).backend, BackendKind::OverlaySurfaces);
    let uniform = OpacityState::new(true, 30, true);
    assert_eq!(engine.plan_show(&uniform, &ms).backend, BackendKind::CompositorEffect);
    let mut mixed = OpacityState::new(true, 30, true);
    mixed.set_display_opacity(&"B".to_string(), 60);
    assert_eq!(engine.plan_show(&mixed, &ms).backend, BackendKind::OverlaySurfaces);
}

#[test]
fn destroyed_surface_is_recreated_with_its_opacity() {
    let ms = monitors(&["Display", "Display"]);
    let mut snapshot = OpacityState::new(true, 20, true);
    snapshot.set_display_opacity(&"Display (2)".to_string(), 70);
    let mut engine = DimmingEngine::new(false, false);
    let mut platform = FakePlatform::new(false);
    platform.show(&mut engine, &snapshot, &ms);
    let before = surfaces(&engine);
    // An outside process destroys the second surface: the watchdog finds it.
    let alive: Vec<bool> = before.iter().map(|s| s.handle != before[1].handle).collect();
    assert!(savemyeyes::guardian::needs_recreate(&alive));
    let current = engine.current_snapshot();
    assert_eq!(platform.show(&mut engine, &current, &ms), 2);
    assert!(engine.is_visible());
    let after = surfaces(&engine);
    assert_eq!(after.len(), before.len());
    for (a, b) in after.iter().zip(before.iter()) {
        assert_eq!(a.monitor_index, b.monitor_index);
        assert_eq!(a.opacity, b.opacity);
        assert_ne!(a.handle, b.handle);
    }
    assert_eq!(engine.effective_opacity(1), Some(70));
}

#[test]
fn hide_twice_leaves_nothing() {
    let ms = monitors(&["A", "B"]);
    let snapshot = OpacityState::new(true, 30, true);
    let mut engine = DimmingEngine::new(false, false);
    let mut platform = FakePlatform::new(false);
    platform.show(&mut engine, &snapshot, &ms);
    assert_eq!(engine.hide_overlay().len(), 2);
    assert!(!engine.is_visible());
    assert!(engine.hide_overlay().is_empty());
    assert!(!engine.is_visible());
    assert_eq!(engine.get_monitor_count(), 0);
    let mut fresh = DimmingEngine::new(false, false);
    assert!(fresh.hide_overlay().is_empty());
}

#[test]
fn hide_then_show_recreates_same_count() {
    let ms = monitors(&["A", "B", "C"]);
    let snapshot = OpacityState::new(true, 30, true);
    let mut engine = DimmingEngine::new(false, false);
    let mut platform = FakePlatform::new(false);
    let first = platform.show(&mut engine, &snapshot, &ms);
    engine.hide_overlay();
    let again = platform.show(&mut engine, &snapshot, &ms);
    assert_eq!(first, 3);
    assert_eq!(again, first);
}

#[test]
fn failed_surface_is_skipped() {
    let ms = monitors(&["A", "B", "C"]);
    let snapshot = OpacityState::new(true, 30, true);
    let mut engine = DimmingEngine::new(false, false);
    let mut platform = FakePlatform::new(false);
    platform.fail_surface_at = Some(1);
    assert_eq!(platform.show(&mut engine, &snapshot, &ms), 2);
    assert_eq!(engine.effective_opacity(0), Some(30));
    assert_eq!(engine.effective_opacity(1), None);
    assert_eq!(engine.effective_opacity(2), Some(30));
}

#[test]
fn no_display_shows_nothing_but_stays_enabled() {
    let ms = monitors(&[]);
    let snapshot = OpacityState::new(true, 30, false);
    let mut engine = DimmingEngine::new(false, false);
    let mut platform = FakePlatform::new(false);
    assert_eq!(platform.show(&mut engine, &snapshot, &ms), 0);
    assert!(!engine.is_visible());
    assert!(engine.should_refresh());
}

#[test]
fn set_opacity_updates_surfaces_in_place() {
    let ms = monitors(&["A", "B"]);
    let snapshot = OpacityState::new(true, 30, true);
    let mut engine = DimmingEngine::new(false, false);
    let mut platform = FakePlatform::new(false);
    platform.show(&mut engine, &snapshot, &ms);
    let handles = engine.tracked_handles();
    let mut darker = OpacityState::new(true, 60, true);
    darker.set_display_opacity(&"B".to_string(), 80);
    match engine.set_opacity(darker) {
        BackendMode::OverlaySurfaces(ss) => {
            assert_eq!(ss.iter().map(|s| s.opacity).collect::<Vec<_>>(), vec![60, 80]);
        }
        other => panic!("unexpected mode {:?}", other),
    }
    assert_eq!(engine.tracked_handles(), handles);
    assert_eq!(engine.effective_opacity(1), Some(80));
}

#[test]
fn disabled_snapshot_shows_nothing() {
    let ms = monitors(&["A"]);
    let snapshot = OpacityState::new(false, 30, false);
    let mut engine = DimmingEngine::new(false, false);
    let mut platform = FakePlatform::new(false);
    assert_eq!(platform.show(&mut engine, &snapshot, &ms), 0);
    assert!(!engine.is_visible());
    assert!(!engine.should_refresh());
}

#[test]
fn surfaces_are_excluded_from_capture_by_default() {
    assert_eq!(capture_affinity(false), CaptureAffinity::ExcludeFromCapture);
    assert_eq!(capture_affinity(true), CaptureAffinity::Visible);
}

#[test]
fn hide_returns_every_surface_handle() {
    let ms = monitors(&["A", "B"]);
    let snapshot = OpacityState::new(true, 30, true);
    let mut engine = DimmingEngine::new(false, false);
    let mut platform = FakePlatform::new(false);
    platform.show(&mut engine, &snapshot, &ms);
    let handles = engine.tracked_handles();
    let mut destroyed = engine.hide_overlay();
    destroyed.sort();
    let mut expected = handles.clone();
    expected.sort();
    assert_eq!(destroyed, expected);
}

#[test]
fn visible_exactly_when_something_is_in_place() {
    let ms = monitors(&["A"]);
    let snapshot = OpacityState::new(true, 30, false);
    let mut engine = DimmingEngine::new(false, false);
    assert!(!engine.is_visible());
    assert_eq!(engine.get_monitor_count(), 0);
    let mut platform = FakePlatform::new(false);
    platform.fail_surface_at = Some(0);
    assert_eq!(platform.show(&mut engine, &snapshot, &ms), 0);
    assert!(!engine.is_visible());
    assert_eq!(engine.get_monitor_count(), 0);
    platform.fail_surface_at = None;
    platform.show(&mut engine, &snapshot, &ms);
    assert!(engine.is_visible());
    assert_eq!(engine.get_monitor_count(), 1);
}
