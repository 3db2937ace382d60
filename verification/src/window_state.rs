//! Remembering where the window was left, and deciding whether the place
//! it was left in can still be used.
//!
//! A saved position only means something relative to the displays that are
//! attached now. A rectangle that no longer shows enough of itself on any
//! attached display to be dragged back is discarded, which leaves the
//! configured default in place.

use std::path::PathBuf;
use vstd::prelude::*;

verus! {

/// Written inside the profile directory, beside the database and the logs.
pub const WINDOW_STATE_FILENAME: &'static str = "window-state.json";

/// How much of the window has to land on a display, across, for a saved
/// position to be worth restoring.
pub const MIN_VISIBLE_WIDTH: i64 = 160;

/// How much of the window has to land on a display, down.
pub const MIN_VISIBLE_HEIGHT: i64 = 40;

/// A rectangle, as `(x, y, width, height)`, in physical pixels.
pub type Rect = (i64, i64, i64, i64);

/// The window's outer top-left corner, its inner size, and whether it was
/// maximized or fullscreen.
#[derive(Debug, Clone, Copy, PartialEq, Eq, Structural)]
pub struct WindowGeometry {
    pub x: i32,
    pub y: i32,
    pub width: u32,
    pub height: u32,
    pub maximized: bool,
    pub fullscreen: bool,
}

/// The smaller of two integers.
pub open spec fn min_int(a: int, b: int) -> int {
    if a <= b { a } else { b }
}

/// The larger of two integers.
pub open spec fn max_int(a: int, b: int) -> int {
    if a >= b { a } else { b }
}

/// How far two intervals `[a, a + a_len)` and `[b, b + b_len)` overlap:
/// the nearer end less the further start, which is negative when they do
/// not meet at all.
pub open spec fn axis_overlap(a: int, a_len: int, b: int, b_len: int) -> int {
    min_int(a + a_len, b + b_len) - max_int(a, b)
}

/// The rectangle of a geometry.
pub open spec fn geometry_rect(g: WindowGeometry) -> Rect {
    (g.x as i64, g.y as i64, g.width as i64, g.height as i64)
}

/// The part of `window` that `display` shows, per axis.
pub open spec fn overlap_spec(window: Rect, display: Rect) -> (int, int) {
    (
        axis_overlap(window.0 as int, window.2 as int, display.0 as int, display.2 as int),
        axis_overlap(window.1 as int, window.3 as int, display.1 as int, display.3 as int),
    )
}

/// Whether a value lies in the range of `i64`.
pub open spec fn in_i64(v: int) -> bool {
    i64::MIN <= v <= i64::MAX
}

/// Whether the overlap of one axis can be computed in `i64` without
/// leaving its range on the way.
pub open spec fn axis_computable(a: int, a_len: int, b: int, b_len: int) -> bool {
    &&& in_i64(a + a_len)
    &&& in_i64(b + b_len)
    &&& in_i64(min_int(a + a_len, b + b_len) - max_int(a, b))
}

/// Whether `overlap` stays within `i64` on this pair of rectangles.
pub open spec fn overlap_computable(window: Rect, display: Rect) -> bool {
    &&& axis_computable(window.0 as int, window.2 as int, display.0 as int, display.2 as int)
    &&& axis_computable(window.1 as int, window.3 as int, display.1 as int, display.3 as int)
}

/// Whether enough of the window is on this display to take hold of: a
/// slice of titlebar across and down, or, for a window smaller than that,
/// the whole window.
pub open spec fn grabbable_spec(window: Rect, display: Rect) -> bool {
    let (w, h) = overlap_spec(window, display);
    &&& w >= min_int(MIN_VISIBLE_WIDTH as int, window.2 as int)
    &&& h >= min_int(MIN_VISIBLE_HEIGHT as int, window.3 as int)
}

/// Whether some display in `displays` still shows enough of `window`.
pub open spec fn grabbable_somewhere(window: Rect, displays: Seq<Rect>) -> bool {
    exists|i: int| 0 <= i < displays.len() && grabbable_spec(window, #[trigger] displays[i])
}

/// Every display that a scan stopping at the first grabbable one would
/// look at can be measured without overflow.
pub open spec fn displays_computable(window: Rect, displays: Seq<Rect>) -> bool {
    forall|i: int|
        0 <= i < displays.len() && (forall|j: int| 0 <= j < i ==> !grabbable_spec(window, #[trigger] displays[j]))
            ==> overlap_computable(window, #[trigger] displays[i])
}

/// The geometry that `restore_rect` applies, or `None` when the saved one
/// does not describe a window or no display still shows enough of it.
pub open spec fn restore_spec(saved: WindowGeometry, displays: Seq<Rect>) -> Option<(i32, i32, u32, u32)> {
    if saved.width == 0 || saved.height == 0 {
        None
    } else if !grabbable_somewhere(geometry_rect(saved), displays) {
        None
    } else {
        Some((saved.x, saved.y, saved.width, saved.height))
    }
}

impl WindowGeometry {
    /// The geometry as a rectangle.
    pub fn rect(&self) -> (r: Rect)
        ensures
            r == geometry_rect(*self),
    {
        (self.x as i64, self.y as i64, self.width as i64, self.height as i64)
    }
}

/// The part of `window` this display still shows, per axis; negative on
/// an axis where the two do not meet at all.
pub fn overlap(window: Rect, display: Rect) -> (r: (i64, i64))
    requires
        overlap_computable(window, display),
    ensures
        r.0 == overlap_spec(window, display).0,
        r.1 == overlap_spec(window, display).1,
{
    let right = if window.0 + window.2 <= display.0 + display.2 {
        window.0 + window.2
    } else {
        display.0 + display.2
    };
    let left = if window.0 >= display.0 { window.0 } else { display.0 };
    let bottom = if window.1 + window.3 <= display.1 + display.3 {
        window.1 + window.3
    } else {
        display.1 + display.3
    };
    let top = if window.1 >= display.1 { window.1 } else { display.1 };
    (right - left, bottom - top)
}

/// Whether some of the window is still on this display and that part is
/// big enough to grab.
pub fn grabbable_on(window: Rect, display: Rect) -> (r: bool)
    requires
        overlap_computable(window, display),
    ensures
        r == grabbable_spec(window, display),
        r == (min_int(window.0 + window.2, display.0 + display.2) - max_int(window.0 as int, display.0 as int)
            >= min_int(160, window.2 as int) && min_int(window.1 + window.3, display.1 + display.3) - max_int(
            window.1 as int,
            display.1 as int,
        ) >= min_int(40, window.3 as int)),
{
    let (width, height) = overlap(window, display);
    let min_width = if MIN_VISIBLE_WIDTH <= window.2 { MIN_VISIBLE_WIDTH } else { window.2 };
    let min_height = if MIN_VISIBLE_HEIGHT <= window.3 { MIN_VISIBLE_HEIGHT } else { window.3 };
    width >= min_width && height >= min_height
}

/// The geometry to apply, or `None` when the saved one cannot be trusted.
/// Only ever gives back the saved place itself, unchanged.
pub fn restore_rect(saved: &WindowGeometry, displays: &[Rect]) -> (r: Option<(i32, i32, u32, u32)>)
    requires
        displays_computable(geometry_rect(*saved), displays@),
    ensures
        r == restore_spec(*saved, displays@),
        r matches Some(p) ==> p == (saved.x, saved.y, saved.width, saved.height),
        forall|k: int|
            0 <= k < displays@.len() && saved.width != 0 && saved.height != 0 && min_int(
                saved.x + saved.width,
                #[trigger] displays@[k].0 + displays@[k].2,
            ) - max_int(saved.x as int, displays@[k].0 as int) >= min_int(160, saved.width as int) && min_int(
                saved.y + saved.height,
                displays@[k].1 + displays@[k].3,
            ) - max_int(saved.y as int, displays@[k].1 as int) >= min_int(40, saved.height as int) ==> r == Some(
                (saved.x, saved.y, saved.width, saved.height),
            ),
{
    proof {
        assert forall|k: int|
            0 <= k < displays@.len() && saved.width != 0 && saved.height != 0 && min_int(
                saved.x + saved.width,
                #[trigger] displays@[k].0 + displays@[k].2,
            ) - max_int(saved.x as int, displays@[k].0 as int) >= min_int(160, saved.width as int) && min_int(
                saved.y + saved.height,
                displays@[k].1 + displays@[k].3,
            ) - max_int(saved.y as int, displays@[k].1 as int) >= min_int(40, saved.height as int) implies restore_spec(
            *saved,
            displays@,
        ) == Some((saved.x, saved.y, saved.width, saved.height)) by {
            lemma_a_grip_on_any_display_restores(*saved, displays@, k);
        }
    }
    if saved.width == 0 || saved.height == 0 {
        return None;
    }
    let window = saved.rect();
    let mut i: usize = 0;
    let mut found = false;
    while i < displays.len() && !found
        invariant
            i <= displays@.len(),
            window == geometry_rect(*saved),
            displays_computable(window, displays@),
            !found ==> forall|j: int| 0 <= j < i ==> !grabbable_spec(window, #[trigger] displays@[j]),
            found ==> grabbable_somewhere(window, displays@),
        decreases displays@.len() - i,
    {
        let display = displays[i];
        if grabbable_on(window, display) {
            found = true;
        }
        i = i + 1;
    }
    if !found {
        return None;
    }
    Some((saved.x, saved.y, saved.width, saved.height))
}


/// One call that puts the window back.
#[derive(Debug, Clone, Copy, PartialEq, Eq, Structural)]
pub enum WindowAction {
    /// Make the window fullscreen.
    SetFullscreen,
    /// Maximize the window.
    Maximize,
    /// Give the window this inner width and height.
    SetSize(u32, u32),
    /// Put the window's outer top-left corner here.
    SetPosition(i32, i32),
}

/// The calls that put a window back to `place`, in order: fullscreen and
/// maximized first, when the saved geometry was, so that the rectangle
/// applied after them is the shape the window returns to when it leaves
/// fullscreen or is un-maximized; then the size, then the position.
pub open spec fn restore_actions_spec(saved: WindowGeometry, place: (i32, i32, u32, u32)) -> Seq<WindowAction> {
    (if saved.fullscreen { seq![WindowAction::SetFullscreen] } else { Seq::empty() })
        + (if saved.maximized { seq![WindowAction::Maximize] } else { Seq::empty() })
        + seq![WindowAction::SetSize(place.2, place.3), WindowAction::SetPosition(place.0, place.1)]
}

/// The calls to make, in order, to put the window back to `place`.
pub fn restore_actions(saved: &WindowGeometry, place: (i32, i32, u32, u32)) -> (r: Vec<WindowAction>)
    ensures
        r@ == restore_actions_spec(*saved, place),
        r@.contains(WindowAction::SetFullscreen) <==> saved.fullscreen,
        r@.contains(WindowAction::Maximize) <==> saved.maximized,
        r@.len() == 2 + (if saved.fullscreen { 1int } else { 0int }) + (if saved.maximized { 1int } else { 0int }),
        saved.fullscreen ==> r@[0] == WindowAction::SetFullscreen,
        saved.maximized ==> r@[if saved.fullscreen { 1int } else { 0int }] == WindowAction::Maximize,
        r@[r@.len() - 2] == WindowAction::SetSize(place.2, place.3),
        r@[r@.len() - 1] == WindowAction::SetPosition(place.0, place.1),
{
    let mut r: Vec<WindowAction> = Vec::new();
    if saved.fullscreen {
        r.push(WindowAction::SetFullscreen);
    }
    if saved.maximized {
        r.push(WindowAction::Maximize);
    }
    r.push(WindowAction::SetSize(place.2, place.3));
    r.push(WindowAction::SetPosition(place.0, place.1));
    assert(r@ =~= restore_actions_spec(*saved, place));
    proof {
        lemma_restore_actions_law(*saved, place);
    }
    r
}

/// Putting the window back makes it fullscreen exactly when it was left
/// fullscreen and maximizes it exactly when it was left maximized, each
/// on its own account, both before the rectangle; then it sets the size
/// and, last, the position, each to the place given.
pub proof fn lemma_restore_actions_law(saved: WindowGeometry, place: (i32, i32, u32, u32))
    ensures
        ({
            let r = restore_actions_spec(saved, place);
            &&& r.contains(WindowAction::SetFullscreen) <==> saved.fullscreen
            &&& r.contains(WindowAction::Maximize) <==> saved.maximized
            &&& r.len() == 2 + (if saved.fullscreen { 1int } else { 0int }) + (if saved.maximized { 1int } else { 0int })
            &&& saved.fullscreen ==> r[0] == WindowAction::SetFullscreen
            &&& saved.maximized ==> r[if saved.fullscreen { 1int } else { 0int }] == WindowAction::Maximize
            &&& r[r.len() - 2] == WindowAction::SetSize(place.2, place.3)
            &&& r[r.len() - 1] == WindowAction::SetPosition(place.0, place.1)
        }),
{
    let r = restore_actions_spec(saved, place);
    let n = r.len();
    if saved.fullscreen {
        assert(r[0] == WindowAction::SetFullscreen);
    }
    if saved.maximized {
        assert(r[if saved.fullscreen { 1int } else { 0int }] == WindowAction::Maximize);
    }
    if r.contains(WindowAction::SetFullscreen) {
        let k = choose|k: int| 0 <= k < r.len() && r[k] == WindowAction::SetFullscreen;
        assert(saved.fullscreen);
    }
    if r.contains(WindowAction::Maximize) {
        let k = choose|k: int| 0 <= k < r.len() && r[k] == WindowAction::Maximize;
        assert(saved.maximized);
    }
}


/// Paths are carried through unchanged; nothing here looks inside one.
#[verifier::external_type_specification]
#[verifier::external_body]
pub struct ExPathBuf(std::path::PathBuf);

/// The path `std::path::Path::join` makes of a directory and a file name.
/// Joining only rearranges the two paths, without asking the file system,
/// so it is a function of them alone.
pub uninterp spec fn joined_path(dir: PathBuf, file_name: Seq<char>) -> PathBuf;

/// `std::path::Path::join`: the directory with the file name appended.
/// Claimed: the result is `joined_path` of the directory and the file
/// name, so the same directory and name always give the same path. What
/// that path holds is not stated; it is handed to the file system as it
/// comes back.
#[verifier::external_body]
fn join_file_name(dir: &PathBuf, file_name: &str) -> (r: PathBuf)
    ensures
        r == joined_path(*dir, file_name@),
{
    dir.join(file_name)
}

/// The file the geometry is kept in, for a profile directory: the state
/// file's name joined to that directory.
pub open spec fn state_path_spec(app_data_dir: PathBuf) -> PathBuf {
    joined_path(app_data_dir, WINDOW_STATE_FILENAME@)
}

/// Where the geometry lives inside the profile directory.
pub fn state_path(app_data_dir: &PathBuf) -> (r: PathBuf)
    ensures
        r == state_path_spec(*app_data_dir),
{
    join_file_name(app_data_dir, WINDOW_STATE_FILENAME)
}

/// App state: the window's memory of itself. Holds the file it is written
/// to and the newest geometry that has not reached the disk yet.
pub struct WindowState {
    path: PathBuf,
    latest: Option<WindowGeometry>,
}

impl WindowState {
    /// The file the geometry is written to.
    pub closed spec fn file(&self) -> PathBuf {
        self.path
    }

    /// The newest geometry noted since the state was made.
    pub closed spec fn pending(&self) -> Option<WindowGeometry> {
        self.latest
    }

    /// A state that writes to `path`, with nothing pending yet.
    pub fn at_path(path: PathBuf) -> (r: WindowState)
        ensures
            r.file() == path,
            r.pending() == None::<WindowGeometry>,
    {
        WindowState { path, latest: None }
    }

    /// The file the geometry is written to.
    pub fn path(&self) -> (r: &PathBuf)
        ensures
            *r == self.file(),
    {
        &self.path
    }

    /// Notes where the window is now. Returns the geometry to hand to the
    /// writer, which is the one just noted.
    pub fn record(&mut self, geometry: WindowGeometry) -> (sent: WindowGeometry)
        ensures
            final(self).pending() == Some(geometry),
            final(self).file() == old(self).file(),
            sent == geometry,
    {
        self.latest = Some(geometry);
        geometry
    }

    /// What to write as the app quits: the newest noted geometry, or
    /// nothing when none was noted.
    pub fn flush(&self) -> (r: Option<WindowGeometry>)
        ensures
            r == self.pending(),
    {
        self.latest
    }
}

/// Starts remembering, for the profile directory given: the geometry is
/// written to the state file in that directory, and nothing is pending
/// yet.
pub fn watch(app_data_dir: &PathBuf) -> (r: WindowState)
    ensures
        r.file() == state_path_spec(*app_data_dir),
        r.pending() == None::<WindowGeometry>,
{
    WindowState { path: state_path(app_data_dir), latest: None }
}

/// What the writer is doing: idle, or holding the newest geometry until
/// the window stops moving.
#[derive(Debug, Clone, Copy, PartialEq, Eq, Structural)]
pub enum SettleState {
    Idle,
    Settling(WindowGeometry),
}

/// What the writer learns from its channel: a new geometry, or that the
/// window has held still (or that no sender is left, which means the
/// same thing here: nothing newer is coming).
#[derive(Debug, Clone, Copy, PartialEq, Eq, Structural)]
pub enum SettleEvent {
    Moved(WindowGeometry),
    Quiet,
}

/// The writer's next state and the geometry it writes now, if any: a move
/// replaces whatever was held; quiet writes what was held and goes idle.
pub open spec fn settle_spec(state: SettleState, event: SettleEvent) -> (SettleState, Option<WindowGeometry>) {
    match event {
        SettleEvent::Moved(g) => (SettleState::Settling(g), None),
        SettleEvent::Quiet => (SettleState::Idle, match state {
            SettleState::Idle => None,
            SettleState::Settling(g) => Some(g),
        }),
    }
}

/// The writer's state after a run of events, and every geometry written on
/// the way, in order.
pub open spec fn settle_run(state: SettleState, events: Seq<SettleEvent>) -> (SettleState, Seq<WindowGeometry>)
    decreases events.len(),
{
    if events.len() == 0 {
        (state, Seq::empty())
    } else {
        let (next, write) = settle_spec(state, events[0]);
        let (last, rest) = settle_run(next, events.drop_first());
        (last, match write {
            Some(g) => seq![g] + rest,
            None => rest,
        })
    }
}

/// The next state of the writer, and the geometry to write now, if any.
/// A burst of moves collapses to one write of the last of them.
pub fn settle_step(state: SettleState, event: SettleEvent) -> (r: (SettleState, Option<WindowGeometry>))
    ensures
        r == settle_spec(state, event),
{
    match event {
        SettleEvent::Moved(g) => (SettleState::Settling(g), None),
        SettleEvent::Quiet => match state {
            SettleState::Idle => (SettleState::Idle, None),
            SettleState::Settling(g) => (SettleState::Idle, Some(g)),
        },
    }
}


/// Whether a saved place is worth restoring depends on how much of it a
/// display shows and nothing else: enough is at least 160 columns (or the
/// whole width, for a narrower window) and at least 40 rows (or the whole
/// height), wherever the window's corner lies.
pub proof fn lemma_grabbable_is_the_overlap_floor(window: Rect, display: Rect)
    ensures
        grabbable_spec(window, display) <==> (min_int(window.0 + window.2, display.0 + display.2) - max_int(
            window.0 as int,
            display.0 as int,
        ) >= min_int(160, window.2 as int) && min_int(window.1 + window.3, display.1 + display.3) - max_int(
            window.1 as int,
            display.1 as int,
        ) >= min_int(40, window.3 as int)),
{
}

/// A saved place with a size is put back, unchanged, as soon as one
/// attached display shows at least 160 columns (or the whole width) and
/// 40 rows (or the whole height) of it.
pub proof fn lemma_a_grip_on_any_display_restores(saved: WindowGeometry, displays: Seq<Rect>, k: int)
    requires
        saved.width != 0,
        saved.height != 0,
        0 <= k < displays.len(),
        min_int(saved.x + saved.width, displays[k].0 + displays[k].2) - max_int(saved.x as int, displays[k].0 as int)
            >= min_int(160, saved.width as int),
        min_int(saved.y + saved.height, displays[k].1 + displays[k].3) - max_int(saved.y as int, displays[k].1 as int)
            >= min_int(40, saved.height as int),
    ensures
        restore_spec(saved, displays) == Some((saved.x, saved.y, saved.width, saved.height)),
{
    let w = geometry_rect(saved);
    lemma_grabbable_is_the_overlap_floor(w, displays[k]);
    assert(grabbable_spec(w, displays[k]));
}

/// A saved place is only ever put back when it has a size and some
/// attached display shows that much of it.
pub proof fn lemma_restored_only_with_a_grip(saved: WindowGeometry, displays: Seq<Rect>)
    ensures
        restore_spec(saved, displays) is Some ==> {
            &&& saved.width != 0
            &&& saved.height != 0
            &&& exists|k: int|
                0 <= k < displays.len() && min_int(saved.x + saved.width, #[trigger] displays[k].0 + displays[k].2)
                    - max_int(saved.x as int, displays[k].0 as int) >= min_int(160, saved.width as int) && min_int(
                    saved.y + saved.height,
                    displays[k].1 + displays[k].3,
                ) - max_int(saved.y as int, displays[k].1 as int) >= min_int(40, saved.height as int)
        },
{
    if restore_spec(saved, displays) is Some {
        let w = geometry_rect(saved);
        let k = choose|k: int| 0 <= k < displays.len() && grabbable_spec(w, #[trigger] displays[k]);
        lemma_grabbable_is_the_overlap_floor(w, displays[k]);
    }
}

/// A drag costs one write, not one per frame: however many moves arrive
/// before the window holds still, the writer writes exactly once, and what
/// it writes is the last place the window was moved to.
pub proof fn lemma_burst_of_moves_writes_the_last(state: SettleState, moves: Seq<WindowGeometry>)
    requires
        moves.len() > 0,
    ensures
        settle_run(
            state,
            moves.map_values(|g: WindowGeometry| SettleEvent::Moved(g)).push(SettleEvent::Quiet),
        ) == (SettleState::Idle, seq![moves.last()]),
    decreases moves.len(),
{
    let events = moves.map_values(|g: WindowGeometry| SettleEvent::Moved(g)).push(SettleEvent::Quiet);
    let next = SettleState::Settling(moves[0]);
    assert(events[0] == SettleEvent::Moved(moves[0]));
    assert(settle_spec(state, events[0]) == (next, None::<WindowGeometry>));
    if moves.len() == 1 {
        assert(events.drop_first() =~= seq![SettleEvent::Quiet]);
        assert(seq![SettleEvent::Quiet].drop_first() =~= Seq::<SettleEvent>::empty());
        assert(settle_run(SettleState::Idle, Seq::<SettleEvent>::empty()) == (SettleState::Idle, Seq::<WindowGeometry>::empty()));
        assert(settle_run(next, seq![SettleEvent::Quiet]) == (SettleState::Idle, seq![moves[0]]));
    } else {
        let rest = moves.drop_first();
        assert(events.drop_first() =~= rest.map_values(|g: WindowGeometry| SettleEvent::Moved(g)).push(SettleEvent::Quiet));
        lemma_burst_of_moves_writes_the_last(next, rest);
        assert(rest.last() == moves.last());
    }
}

/// Attaching more displays never loses a window that could be restored.
pub proof fn lemma_more_displays_never_lose_a_window(saved: WindowGeometry, displays: Seq<Rect>, more: Seq<Rect>)
    ensures
        restore_spec(saved, displays) is Some ==> restore_spec(saved, displays + more) is Some,
{
    if restore_spec(saved, displays) is Some {
        let w = geometry_rect(saved);
        let i = choose|i: int| 0 <= i < displays.len() && grabbable_spec(w, #[trigger] displays[i]);
        assert((displays + more)[i] == displays[i]);
    }
}

/// Which displays are attached decides the answer, not the order they are
/// listed in nor how often one appears.
pub proof fn lemma_only_the_attached_set_matters(saved: WindowGeometry, displays: Seq<Rect>, others: Seq<Rect>)
    requires
        displays.to_set() == others.to_set(),
    ensures
        restore_spec(saved, displays) == restore_spec(saved, others),
{
    let w = geometry_rect(saved);
    if grabbable_somewhere(w, displays) {
        let i = choose|i: int| 0 <= i < displays.len() && grabbable_spec(w, #[trigger] displays[i]);
        assert(displays.to_set().contains(displays[i]));
        assert(others.to_set().contains(displays[i]));
        let j = choose|j: int| 0 <= j < others.len() && others[j] == displays[i];
        assert(grabbable_spec(w, others[j]));
    }
    if grabbable_somewhere(w, others) {
        let i = choose|i: int| 0 <= i < others.len() && grabbable_spec(w, #[trigger] others[i]);
        assert(others.to_set().contains(others[i]));
        assert(displays.to_set().contains(others[i]));
        let j = choose|j: int| 0 <= j < displays.len() && displays[j] == others[i];
        assert(grabbable_spec(w, displays[j]));
    }
}

/// A place that no attached display overlaps at all is discarded: a window
/// nobody can reach is worse than one in the wrong corner.
pub proof fn lemma_unreachable_place_is_discarded(saved: WindowGeometry, displays: Seq<Rect>)
    requires
        forall|i: int| 0 <= i < displays.len() ==> {
            let o = overlap_spec(geometry_rect(saved), #[trigger] displays[i]);
            o.0 <= 0 || o.1 <= 0
        },
    ensures
        restore_spec(saved, displays) is None,
{
    let w = geometry_rect(saved);
    if saved.width != 0 && saved.height != 0 {
        assert forall|i: int| 0 <= i < displays.len() implies !grabbable_spec(w, #[trigger] displays[i]) by {
            let o = overlap_spec(w, displays[i]);
            assert(o.0 <= 0 || o.1 <= 0);
        }
    }
}

/// A window that lies wholly on one attached display is put back where it
/// was left.
pub proof fn lemma_window_on_a_display_is_restored(saved: WindowGeometry, displays: Seq<Rect>, k: int)
    requires
        saved.width != 0,
        saved.height != 0,
        0 <= k < displays.len(),
        displays[k].0 <= saved.x,
        saved.x + saved.width <= displays[k].0 + displays[k].2,
        displays[k].1 <= saved.y,
        saved.y + saved.height <= displays[k].1 + displays[k].3,
    ensures
        restore_spec(saved, displays) == Some((saved.x, saved.y, saved.width, saved.height)),
{
    let w = geometry_rect(saved);
    assert(grabbable_spec(w, displays[k]));
}

} // verus!
