use pebble::window_state::{
    grabbable_on, overlap, restore_actions, restore_rect, settle_step, state_path, watch, Rect, SettleEvent,
    SettleState, WindowAction, WindowGeometry, WindowState, WINDOW_STATE_FILENAME,
};
use std::path::PathBuf;

fn geometry(x: i32, y: i32, width: u32, height: u32) -> WindowGeometry {
    WindowGeometry { x, y, width, height, maximized: false, fullscreen: false }
}

/// A 1920×1080 display at the origin plus a 2560×1440 one to its right.
fn both_displays() -> Vec<Rect> {
    vec![(0, 0, 1920, 1080), (1920, 0, 2560, 1440)]
}

#[test]
fn restores_a_window_that_is_still_where_it_was_left() {
    assert_eq!(restore_rect(&geometry(100, 60, 1200, 800), &both_displays()), Some((100, 60, 1200, 800)));
    assert_eq!(restore_rect(&geometry(2200, 140, 1400, 900), &both_displays()), Some((2200, 140, 1400, 900)));
}

#[test]
fn discards_a_window_left_on_a_display_that_has_gone_away() {
    let laptop_only = vec![(0, 0, 1920, 1080)];
    assert_eq!(restore_rect(&geometry(2200, 140, 1400, 900), &laptop_only), None);
}

#[test]
fn keeps_a_window_that_hangs_off_the_edge_but_can_still_be_grabbed() {
    let laptop_only = vec![(0, 0, 1920, 1080)];
    assert_eq!(restore_rect(&geometry(1700, 40, 1200, 800), &laptop_only), Some((1700, 40, 1200, 800)));
}

#[test]
fn discards_a_window_that_only_peeks_into_a_display() {
    let laptop_only = vec![(0, 0, 1920, 1080)];
    assert_eq!(restore_rect(&geometry(200, 1060, 1200, 800), &laptop_only), None);
    assert_eq!(restore_rect(&geometry(200, 1080, 1200, 800), &laptop_only), None);
}

#[test]
fn discards_a_geometry_that_does_not_describe_a_window() {
    assert_eq!(restore_rect(&geometry(0, 0, 0, 800), &both_displays()), None);
    assert_eq!(restore_rect(&geometry(0, 0, 1200, 0), &both_displays()), None);
    assert_eq!(restore_rect(&geometry(0, 0, 1200, 800), &[]), None);
}

#[test]
fn overlap_is_measured_per_axis_and_negative_where_they_do_not_meet() {
    assert_eq!(overlap((100, 60, 1200, 800), (0, 0, 1920, 1080)), (1200, 800));
    assert_eq!(overlap((1700, 40, 1200, 800), (0, 0, 1920, 1080)), (220, 800));
    assert_eq!(overlap((200, 1060, 1200, 800), (0, 0, 1920, 1080)), (1200, 20));
    assert_eq!(overlap((3000, 2000, 10, 10), (0, 0, 1920, 1080)), (-1080, -920));
    assert_eq!(overlap((3000, 2000, 100, 100), (0, 0, 1920, 1080)), (-1080, -920));
    assert_eq!(overlap((1920, 0, 100, 100), (0, 0, 1920, 1080)), (0, 100));
}

#[test]
fn a_small_window_only_has_to_be_wholly_on_screen() {
    assert!(grabbable_on((10, 10, 100, 30), (0, 0, 1920, 1080)));
    assert!(!grabbable_on((1850, 10, 100, 30), (0, 0, 1920, 1080)));
    assert!(!grabbable_on((1770, 10, 160, 40), (0, 0, 1920, 1080)));
}

#[test]
fn negative_coordinates_on_a_display_to_the_left_restore() {
    let displays = vec![(-2560, 0, 2560, 1440), (0, 0, 1920, 1080)];
    assert_eq!(restore_rect(&geometry(-1200, 300, 900, 700), &displays), Some((-1200, 300, 900, 700)));
    assert_eq!(restore_rect(&geometry(-1200, 300, 900, 700), &displays[1..]), None);
}

#[test]
fn more_displays_never_lose_a_window() {
    let laptop_only = vec![(0, 0, 1920, 1080)];
    let saved = geometry(1700, 40, 1200, 800);
    assert!(restore_rect(&saved, &laptop_only).is_some());
    assert!(restore_rect(&saved, &both_displays()).is_some());
    let reversed: Vec<Rect> = both_displays().into_iter().rev().collect();
    assert_eq!(restore_rect(&saved, &reversed), restore_rect(&saved, &both_displays()));
}

#[test]
fn the_state_file_sits_in_the_profile_directory() {
    let dir = PathBuf::from("/tmp/profile");
    assert_eq!(state_path(&dir), dir.join(WINDOW_STATE_FILENAME));
    assert_eq!(WINDOW_STATE_FILENAME, "window-state.json");
    let state = watch(&dir);
    assert_eq!(state.path(), &dir.join("window-state.json"));
}

#[test]
fn flush_writes_the_last_recorded_geometry() {
    let mut state = WindowState::at_path(PathBuf::from("/tmp/profile/window-state.json"));
    assert_eq!(state.flush(), None);
    let first = geometry(10, 20, 800, 600);
    let second = geometry(30, 40, 900, 700);
    assert_eq!(state.record(first), first);
    assert_eq!(state.record(second), second);
    assert_eq!(state.flush(), Some(second));
    assert_eq!(state.path(), &PathBuf::from("/tmp/profile/window-state.json"));
}

#[test]
fn a_drag_is_written_once_at_its_last_position() {
    let a = geometry(1, 1, 800, 600);
    let b = geometry(2, 2, 800, 600);
    let c = geometry(3, 3, 800, 600);
    let mut state = SettleState::Idle;
    let mut writes = Vec::new();
    for event in [SettleEvent::Moved(a), SettleEvent::Moved(b), SettleEvent::Moved(c), SettleEvent::Quiet] {
        let (next, write) = settle_step(state, event);
        state = next;
        writes.extend(write);
    }
    assert_eq!(writes, vec![c]);
    assert_eq!(state, SettleState::Idle);
    assert_eq!(settle_step(SettleState::Idle, SettleEvent::Quiet), (SettleState::Idle, None));
}

#[test]
fn fullscreen_and_maximize_come_before_the_rectangle() {
    let saved = WindowGeometry { x: -1200, y: 300, width: 900, height: 700, maximized: true, fullscreen: true };
    assert_eq!(
        restore_actions(&saved, (-1200, 300, 900, 700)),
        vec![
            WindowAction::SetFullscreen,
            WindowAction::Maximize,
            WindowAction::SetSize(900, 700),
            WindowAction::SetPosition(-1200, 300)
        ]
    );
    let plain = WindowGeometry { x: 10, y: 20, width: 800, height: 600, maximized: false, fullscreen: false };
    assert_eq!(
        restore_actions(&plain, (10, 20, 800, 600)),
        vec![WindowAction::SetSize(800, 600), WindowAction::SetPosition(10, 20)]
    );
    let maximized = WindowGeometry { maximized: true, ..plain };
    assert_eq!(restore_actions(&maximized, (10, 20, 800, 600))[0], WindowAction::Maximize);
}
