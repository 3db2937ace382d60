use pebble::startup::{should_prefer_wayland, startup_phase_timing};

#[test]
fn startup_phase_timing_reports_phase_and_total_elapsed_ms() {
    let phase_start = 75u128 * 1_000_000;
    let now = 250u128 * 1_000_000;

    let timing = startup_phase_timing("search index opened", phase_start, now);

    assert_eq!(timing.label, "search index opened");
    assert_eq!(timing.phase_ms, 175);
    assert_eq!(timing.total_ms, 250);
}

#[test]
fn a_phase_that_ends_before_it_began_takes_no_time() {
    let timing = startup_phase_timing("clock", 5_000_000, 1_999_999);
    assert_eq!(timing.phase_ms, 0);
    assert_eq!(timing.total_ms, 1);
}

#[test]
fn wayland_preference_respects_display_backend_and_appimage_context() {
    let display: Option<&[u8]> = Some(b"wayland-0");
    let empty_display: Option<&[u8]> = Some(b"");
    let x11: Option<&[u8]> = Some(b"x11");
    let wayland: Option<&[u8]> = Some(b"wayland");

    assert!(!should_prefer_wayland(None, None, false));
    assert!(!should_prefer_wayland(empty_display, None, false));
    assert!(should_prefer_wayland(display, None, false));
    assert!(!should_prefer_wayland(display, x11, false));
    assert!(should_prefer_wayland(display, x11, true));
    assert!(!should_prefer_wayland(display, wayland, true));
}
