//! Start-up decisions: which display backend to ask GTK for, and how long
//! each start-up phase took.

use vstd::prelude::*;

verus! {

/// Whether an environment value is present and not empty.
pub open spec fn present_and_nonempty(v: Option<&[u8]>) -> bool {
    match v {
        Some(d) => d@.len() > 0,
        None => false,
    }
}

/// Whether an environment value is exactly `x11`.
pub open spec fn is_x11(v: Option<&[u8]>) -> bool {
    match v {
        Some(b) => b@ == seq![120u8, 49u8, 49u8],
        None => false,
    }
}

/// Whether to ask GTK for native Wayland. It does so when a Wayland
/// compositor is announced, and either no backend was chosen at all or the
/// only choice made is the `x11` an AppImage hook forces. Any other
/// explicit choice is respected. The values are the raw bytes of the
/// environment variables `WAYLAND_DISPLAY` and `GDK_BACKEND`.
pub fn should_prefer_wayland(wayland_display: Option<&[u8]>, gdk_backend: Option<&[u8]>, is_appimage: bool) -> (r: bool)
    ensures
        r == (present_and_nonempty(wayland_display) && (gdk_backend is None || (is_appimage
            && is_x11(gdk_backend)))),
{
    let has_display = match wayland_display {
        Some(d) => d.len() > 0,
        None => false,
    };
    if !has_display {
        return false;
    }
    match gdk_backend {
        None => true,
        Some(b) => {
            if !is_appimage || b.len() != 3 {
                assert(b@ != seq![120u8, 49u8, 49u8] || !is_appimage);
                return false;
            }
            let r = b[0] == 120u8 && b[1] == 49u8 && b[2] == 49u8;
            assert(r ==> b@ =~= seq![120u8, 49u8, 49u8]);
            r
        },
    }
}

/// How long one start-up phase took, and how long start-up has taken so
/// far, in whole milliseconds.
#[derive(Debug, Clone, PartialEq, Eq)]
pub struct StartupPhaseTiming {
    pub label: String,
    pub phase_ms: u128,
    pub total_ms: u128,
}

/// Nanoseconds in a millisecond.
pub const NANOS_PER_MILLI: u128 = 1_000_000;

/// The timing of a phase that began `phase_start_nanos` and ended
/// `now_nanos` after start-up began. A phase that would end before it
/// began counts as taking no time, as `Instant::duration_since` does.
pub fn startup_phase_timing(label: &str, phase_start_nanos: u128, now_nanos: u128) -> (t: StartupPhaseTiming)
    ensures
        t.label@ == label@,
        t.phase_ms == (if now_nanos >= phase_start_nanos { (now_nanos - phase_start_nanos) as int } else { 0int }) / NANOS_PER_MILLI as int,
        t.total_ms == now_nanos as int / NANOS_PER_MILLI as int,
{
    let phase = if now_nanos >= phase_start_nanos { now_nanos - phase_start_nanos } else { 0 };
    StartupPhaseTiming {
        label: label.to_owned(),
        phase_ms: phase / NANOS_PER_MILLI,
        total_ms: now_nanos / NANOS_PER_MILLI,
    }
}

} // verus!
