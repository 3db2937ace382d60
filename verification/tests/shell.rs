use pebble::shell::{
    run_event_reaction, search_needs_rebuild, tray_click_restores, tray_menu_action, window_reaction, RunEventKind,
    RunReaction, TrayAction, TrayClick, WindowEventKind, WindowReaction,
};

#[test]
fn tray_menu_items_show_hide_and_quit() {
    assert_eq!(tray_menu_action("tray-show"), Some(TrayAction::ShowWindow));
    assert_eq!(tray_menu_action("tray-hide"), Some(TrayAction::HideWindow));
    assert_eq!(tray_menu_action("tray-quit"), Some(TrayAction::Quit));
    assert_eq!(tray_menu_action("tray-show "), None);
    assert_eq!(tray_menu_action("Tray-Show"), None);
    assert_eq!(tray_menu_action(""), None);
}

#[test]
fn a_left_click_release_or_double_click_on_the_tray_icon_brings_the_window_back() {
    assert!(tray_click_restores(TrayClick::Click { left: true, released: true }));
    assert!(!tray_click_restores(TrayClick::Click { left: true, released: false }));
    assert!(!tray_click_restores(TrayClick::Click { left: false, released: true }));
    assert!(tray_click_restores(TrayClick::DoubleClick { left: true }));
    assert!(!tray_click_restores(TrayClick::DoubleClick { left: false }));
    assert!(!tray_click_restores(TrayClick::Other));
}

#[test]
fn closing_the_main_window_hides_it_instead() {
    assert_eq!(window_reaction(true, WindowEventKind::CloseRequested), WindowReaction::HideInsteadOfClose);
    assert_eq!(window_reaction(true, WindowEventKind::Focused(true)), WindowReaction::ClearAttention);
    assert_eq!(window_reaction(true, WindowEventKind::Focused(false)), WindowReaction::Ignore);
    assert_eq!(window_reaction(true, WindowEventKind::Moved), WindowReaction::RememberPlace);
    assert_eq!(window_reaction(true, WindowEventKind::Resized), WindowReaction::RememberPlace);
    assert_eq!(window_reaction(true, WindowEventKind::Other), WindowReaction::Ignore);
}

#[test]
fn other_windows_are_left_to_themselves() {
    for event in [
        WindowEventKind::CloseRequested,
        WindowEventKind::Focused(true),
        WindowEventKind::Moved,
        WindowEventKind::Resized,
        WindowEventKind::Other,
    ] {
        assert_eq!(window_reaction(false, event), WindowReaction::Ignore);
    }
}

#[test]
fn quitting_writes_the_pending_window_place() {
    let flush = RunReaction { flush_window_place: true, show_window: false };
    assert_eq!(run_event_reaction(RunEventKind::ExitRequested), flush);
    assert_eq!(run_event_reaction(RunEventKind::Exit), flush);
    assert_eq!(run_event_reaction(RunEventKind::Reopen), RunReaction { flush_window_place: false, show_window: true });
    assert_eq!(run_event_reaction(RunEventKind::Other), RunReaction { flush_window_place: false, show_window: false });
}

#[test]
fn the_search_index_is_rebuilt_only_when_it_disagrees_with_the_database() {
    assert!(search_needs_rebuild(true, 10, 10));
    assert!(search_needs_rebuild(false, 0, 5));
    assert!(search_needs_rebuild(false, 4, 5));
    assert!(search_needs_rebuild(false, 6, 5));
    assert!(!search_needs_rebuild(false, 5, 5));
    assert!(!search_needs_rebuild(false, 0, 0));
}
