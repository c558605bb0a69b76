use savemyeyes::guardian::{live_handles, needs_recreate, ZOrderGuardian, DEBOUNCE_MS, LIVENESS_POLLS};

#[test]
fn burst_of_foreground_changes_raises_once() {
    let mut g = ZOrderGuardian::new();
    let mut raised = 0;
    // Ten changes 100 ms apart, polled every 50 ms.
    let mut now: u64 = 1_000;
    for _ in 0..10 {
        g.on_foreground_change(now);
        for _ in 0..2 {
            now += 50;
            if g.poll(now, 2).reassert {
                raised += 1;
            }
        }
    }
    assert_eq!(raised, 0);
    for _ in 0..40 {
        now += 50;
        if g.poll(now, 2).reassert {
            raised += 1;
        }
    }
    assert_eq!(raised, 1);
}

#[test]
fn quiet_interval_is_measured_from_latest_change() {
    let mut g = ZOrderGuardian::new();
    g.on_foreground_change(1_000);
    g.on_foreground_change(1_400);
    assert!(!g.poll(1_000 + DEBOUNCE_MS, 1).reassert);
    assert!(g.poll(1_400 + DEBOUNCE_MS, 1).reassert);
    assert!(!g.poll(5_000, 1).reassert);
}

#[test]
fn clock_earlier_than_change_does_not_raise() {
    let mut g = ZOrderGuardian::new();
    g.on_foreground_change(10_000);
    assert!(!g.poll(9_000, 1).reassert);
}

#[test]
fn liveness_checked_every_interval() {
    let mut g = ZOrderGuardian::new();
    let mut checks = Vec::new();
    for i in 0..(2 * LIVENESS_POLLS) {
        if g.poll(i as u64 * 200, 1).check_liveness {
            checks.push(i);
        }
    }
    assert_eq!(checks, vec![LIVENESS_POLLS - 1, 2 * LIVENESS_POLLS - 1]);
}

#[test]
fn watchdog_stops_without_surfaces() {
    let mut g = ZOrderGuardian::new();
    g.on_foreground_change(0);
    let a = g.poll(10_000, 0);
    assert!(a.stop);
    assert!(!a.reassert);
    assert_eq!(g.pending_since, None);
}

#[test]
fn clear_forgets_pending_change() {
    let mut g = ZOrderGuardian::new();
    g.on_foreground_change(0);
    g.clear();
    assert!(!g.poll(10_000, 1).reassert);
}

#[test]
fn recreate_only_when_a_surface_is_gone() {
    assert!(!needs_recreate(&vec![true, true]));
    assert!(needs_recreate(&vec![true, false]));
    assert!(!needs_recreate(&Vec::new()));
}

#[test]
fn only_live_surfaces_are_raised() {
    assert_eq!(live_handles(&vec![7, 8, 9], &vec![true, false, true]), vec![7, 9]);
    assert!(live_handles(&Vec::new(), &Vec::new()).is_empty());
}
