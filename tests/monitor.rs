use savemyeyes::monitor::{
    enumerate_monitors, get_monitor_index_at_point, point_in_rect, screen_names, RawDisplay, Rect,
};

fn names(v: &[&str]) -> Vec<String> {
    v.iter().map(|s| s.to_string()).collect()
}

#[test]
fn identical_names_get_distinct_keys() {
    let out = screen_names(&names(&["Display", "Display"]));
    assert_eq!(out, names(&["Display", "Display (2)"]));
    assert_ne!(out[0], out[1]);
}

#[test]
fn distinct_names_are_kept() {
    assert_eq!(screen_names(&names(&["A", "B", "C"])), names(&["A", "B", "C"]));
}

#[test]
fn suffix_uses_one_based_position() {
    let out = screen_names(&names(&["Dell", "LG", "Dell", "Dell"]));
    assert_eq!(out, names(&["Dell", "LG", "Dell (3)", "Dell (4)"]));
}

#[test]
fn suffix_of_two_digit_position() {
    let mut raw = vec!["X".to_string(); 12];
    raw[0] = "X".to_string();
    let out = screen_names(&raw);
    assert_eq!(out[11], "X (12)");
    assert_eq!(out[9], "X (10)");
}

#[test]
fn empty_display_list() {
    assert!(screen_names(&Vec::new()).is_empty());
    assert!(enumerate_monitors(&Vec::new()).is_empty());
}

#[test]
fn enumeration_assigns_indices_and_names() {
    let r = Rect { left: 0, top: 0, right: 100, bottom: 100 };
    let raw = vec![
        RawDisplay { name: "Display".to_string(), bounds: r },
        RawDisplay { name: "Display".to_string(), bounds: Rect { left: 100, ..r } },
    ];
    let ms = enumerate_monitors(&raw);
    assert_eq!(ms.len(), 2);
    assert_eq!(ms[0].id, 0);
    assert_eq!(ms[1].id, 1);
    assert_eq!(ms[1].name, "Display (2)");
    assert_eq!(ms[1].bounds.left, 100);
}

#[test]
fn point_in_rect_excludes_right_and_bottom_edges() {
    let r = Rect { left: 0, top: 0, right: 10, bottom: 10 };
    assert!(point_in_rect(0, 0, &r));
    assert!(point_in_rect(9, 9, &r));
    assert!(!point_in_rect(10, 5, &r));
    assert!(!point_in_rect(5, 10, &r));
    assert!(!point_in_rect(-1, 5, &r));
}

#[test]
fn index_at_point_finds_display_or_zero() {
    let raw = vec![
        RawDisplay { name: "A".to_string(), bounds: Rect { left: 0, top: 0, right: 1920, bottom: 1080 } },
        RawDisplay { name: "B".to_string(), bounds: Rect { left: 1920, top: 0, right: 3840, bottom: 1080 } },
    ];
    let ms = enumerate_monitors(&raw);
    assert_eq!(get_monitor_index_at_point(&ms, 100, 100), 0);
    assert_eq!(get_monitor_index_at_point(&ms, 2000, 500), 1);
    assert_eq!(get_monitor_index_at_point(&ms, 5000, 500), 0);
}

fn all_distinct(v: &[String]) -> bool {
    v.iter().enumerate().all(|(i, a)| v[..i].iter().all(|b| b != a))
}

#[test]
fn suffix_never_repeats_an_existing_key() {
    let out = screen_names(&names(&["A", "A (3)", "A"]));
    assert_eq!(out, names(&["A", "A (3)", "A (4)"]));
    assert!(all_distinct(&out));
}

#[test]
fn reported_name_equal_to_an_earlier_key_is_suffixed() {
    let out = screen_names(&names(&["A", "A", "A (2)"]));
    assert_eq!(out, names(&["A", "A (2)", "A (2) (3)"]));
    assert!(all_distinct(&out));
}

#[test]
fn many_collisions_stay_distinct() {
    let out = screen_names(&names(&["A (2)", "A (3)", "A (4)", "A", "A", "A"]));
    assert_eq!(out, names(&["A (2)", "A (3)", "A (4)", "A", "A (5)", "A (6)"]));
    assert!(all_distinct(&out));
}

#[test]
fn enumerated_monitors_have_distinct_names() {
    let r = Rect { left: 0, top: 0, right: 10, bottom: 10 };
    let raw: Vec<RawDisplay> = ["A", "A (3)", "A"]
        .iter()
        .map(|n| RawDisplay { name: n.to_string(), bounds: r })
        .collect();
    let ms = enumerate_monitors(&raw);
    let keys: Vec<String> = ms.iter().map(|m| m.name.clone()).collect();
    assert!(all_distinct(&keys));
    assert_eq!(keys[2], "A (4)");
}
