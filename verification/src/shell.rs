//! The desktop shell's decisions: what the tray menu and the tray icon do,
//! how the main window answers its events, what happens as the app quits,
//! and whether the search index has to be rebuilt at startup.
//!
//! The app lives in the tray, so closing its window hides it rather than
//! destroying it: were it destroyed, neither the tray menu nor the Dock
//! icon could bring it back.

use crate::text::text_eq;
use vstd::prelude::*;

verus! {

/// The id of the tray menu item that shows the window.
pub const TRAY_SHOW_ID: &'static str = "tray-show";

/// The id of the tray menu item that hides the window.
pub const TRAY_HIDE_ID: &'static str = "tray-hide";

/// The id of the tray menu item that quits.
pub const TRAY_QUIT_ID: &'static str = "tray-quit";

/// What a tray menu item does.
#[derive(Debug, Clone, Copy, PartialEq, Eq, Structural)]
pub enum TrayAction {
    /// Show, unminimize and focus the main window.
    ShowWindow,
    /// Hide the main window to the tray.
    HideWindow,
    /// Leave the app.
    Quit,
}

/// The action of the tray menu item with id `id`, if it is one of ours.
pub open spec fn tray_action_spec(id: Seq<char>) -> Option<TrayAction> {
    if id == TRAY_SHOW_ID@ {
        Some(TrayAction::ShowWindow)
    } else if id == TRAY_HIDE_ID@ {
        Some(TrayAction::HideWindow)
    } else if id == TRAY_QUIT_ID@ {
        Some(TrayAction::Quit)
    } else {
        None
    }
}

/// What the tray menu item with id `id` does; an id that is not one of
/// ours does nothing.
pub fn tray_menu_action(id: &str) -> (r: Option<TrayAction>)
    ensures
        r == tray_action_spec(id@),
{
    if text_eq(id, TRAY_SHOW_ID) {
        Some(TrayAction::ShowWindow)
    } else if text_eq(id, TRAY_HIDE_ID) {
        Some(TrayAction::HideWindow)
    } else if text_eq(id, TRAY_QUIT_ID) {
        Some(TrayAction::Quit)
    } else {
        None
    }
}

/// A mouse event on the tray icon, as far as the shell looks at it.
#[derive(Debug, Clone, Copy, PartialEq, Eq, Structural)]
pub enum TrayClick {
    /// A click: which button, and whether this is its release.
    Click { left: bool, released: bool },
    /// A double click with the given button.
    DoubleClick { left: bool },
    /// Anything else (the pointer entering, moving or leaving).
    Other,
}

/// Whether a tray icon event brings the window back: the release of a
/// left click, or a left double click.
pub fn tray_click_restores(click: TrayClick) -> (r: bool)
    ensures
        r == (click == TrayClick::Click { left: true, released: true } || click == TrayClick::DoubleClick { left: true }),
{
    match click {
        TrayClick::Click { left, released } => left && released,
        TrayClick::DoubleClick { left } => left,
        TrayClick::Other => false,
    }
}

/// An event of a window, as far as the shell looks at it.
#[derive(Debug, Clone, Copy, PartialEq, Eq, Structural)]
pub enum WindowEventKind {
    /// The window gained (`true`) or lost focus.
    Focused(bool),
    /// The user asked to close the window.
    CloseRequested,
    /// The window was moved.
    Moved,
    /// The window was resized.
    Resized,
    /// Anything else.
    Other,
}

/// How the shell answers a window event.
#[derive(Debug, Clone, Copy, PartialEq, Eq, Structural)]
pub enum WindowReaction {
    /// Clear the attention indicator the notifications raised.
    ClearAttention,
    /// Refuse the close and hide the window instead, so that the same
    /// window stays available to be shown again.
    HideInsteadOfClose,
    /// Note the window's place, to be written once it holds still.
    RememberPlace,
    /// Nothing.
    Ignore,
}

/// The shell's answer to an event of a window: only the main window's
/// events are answered.
pub open spec fn window_reaction_spec(is_main: bool, event: WindowEventKind) -> WindowReaction {
    if !is_main {
        WindowReaction::Ignore
    } else {
        match event {
            WindowEventKind::Focused(true) => WindowReaction::ClearAttention,
            WindowEventKind::CloseRequested => WindowReaction::HideInsteadOfClose,
            WindowEventKind::Moved => WindowReaction::RememberPlace,
            WindowEventKind::Resized => WindowReaction::RememberPlace,
            _ => WindowReaction::Ignore,
        }
    }
}

/// How the shell answers an event of a window. Closing the main window
/// never destroys it; moving or resizing it is the whole signal that its
/// remembered place is out of date.
pub fn window_reaction(is_main: bool, event: WindowEventKind) -> (r: WindowReaction)
    ensures
        r == window_reaction_spec(is_main, event),
        !is_main ==> r == WindowReaction::Ignore,
        is_main && event == WindowEventKind::CloseRequested ==> r == WindowReaction::HideInsteadOfClose,
{
    if !is_main {
        return WindowReaction::Ignore;
    }
    match event {
        WindowEventKind::Focused(true) => WindowReaction::ClearAttention,
        WindowEventKind::CloseRequested => WindowReaction::HideInsteadOfClose,
        WindowEventKind::Moved => WindowReaction::RememberPlace,
        WindowEventKind::Resized => WindowReaction::RememberPlace,
        _ => WindowReaction::Ignore,
    }
}

/// An event of the app's run loop, as far as the shell looks at it.
#[derive(Debug, Clone, Copy, PartialEq, Eq, Structural)]
pub enum RunEventKind {
    /// The app was asked to quit.
    ExitRequested,
    /// The app is quitting.
    Exit,
    /// The Dock icon was clicked (macOS).
    Reopen,
    /// Anything else.
    Other,
}

/// How the shell answers a run-loop event: whether to write the pending
/// window place now, and whether to show the main window.
#[derive(Debug, Clone, Copy, PartialEq, Eq, Structural)]
pub struct RunReaction {
    pub flush_window_place: bool,
    pub show_window: bool,
}

/// The answer to a run-loop event. The window place is written a moment
/// after the window holds still, which the process does not outlive, so
/// whatever is pending is written as the app quits; a Dock click does what
/// the tray's "show" item does.
pub fn run_event_reaction(event: RunEventKind) -> (r: RunReaction)
    ensures
        r.flush_window_place == (event == RunEventKind::ExitRequested || event == RunEventKind::Exit),
        r.show_window == (event == RunEventKind::Reopen),
{
    match event {
        RunEventKind::ExitRequested => RunReaction { flush_window_place: true, show_window: false },
        RunEventKind::Exit => RunReaction { flush_window_place: true, show_window: false },
        RunEventKind::Reopen => RunReaction { flush_window_place: false, show_window: true },
        RunEventKind::Other => RunReaction { flush_window_place: false, show_window: false },
    }
}

/// Whether the search index has to be rebuilt from the database: when its
/// schema changed; when it is empty while the database holds messages; or
/// when it holds documents and their number differs from the database's
/// message count.
pub open spec fn needs_rebuild_spec(schema_changed: bool, index_count: u64, db_count: u64) -> bool {
    schema_changed || (index_count == 0 && db_count > 0) || (index_count > 0 && index_count != db_count)
}

/// Whether startup rebuilds the search index. An index that agrees with
/// the database, under the current schema, is left alone; an index that
/// misses messages is rebuilt.
pub fn search_needs_rebuild(schema_changed: bool, index_count: u64, db_count: u64) -> (r: bool)
    ensures
        r == needs_rebuild_spec(schema_changed, index_count, db_count),
        !schema_changed && index_count == db_count ==> !r,
        index_count != db_count ==> r,
{
    if schema_changed {
        true
    } else if index_count == 0 && db_count > 0 {
        true
    } else if index_count > 0 && index_count != db_count {
        true
    } else {
        false
    }
}

} // verus!
