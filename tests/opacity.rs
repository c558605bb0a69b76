use savemyeyes::opacity::{alpha_for, clamp_opacity, opacity_from_alpha};

#[test]
fn clamps_out_of_range_opacity() {
    assert_eq!(clamp_opacity(-5), 0);
    assert_eq!(clamp_opacity(95), 90);
    assert_eq!(clamp_opacity(30), 30);
}

#[test]
fn alpha_round_trip_at_thirty_percent() {
    assert_eq!(alpha_for(30), 76);
    assert_eq!(opacity_from_alpha(alpha_for(30)), 30);
}

use savemyeyes::opacity::{brightness_for, opacity_from_brightness};

#[test]
fn every_accepted_opacity_reads_back() {
    for o in 0..=90u32 {
        assert_eq!(opacity_from_alpha(alpha_for(o)), o);
        assert_eq!(opacity_from_brightness(brightness_for(o)), o);
    }
}

#[test]
fn brightness_never_below_five_percent() {
    assert_eq!(brightness_for(0), 100);
    assert_eq!(brightness_for(90), 10);
    assert_eq!(brightness_for(100), 5);
    assert_eq!(brightness_for(99), 5);
}

#[test]
fn alpha_extremes() {
    assert_eq!(alpha_for(0), 0);
    assert_eq!(alpha_for(90), 229);
    assert_eq!(alpha_for(100), 255);
}
