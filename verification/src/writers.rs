//! What writing a sequence to an `std::io::Write` output (app *output* path,
//! typically stderr) hands to the writer.
//!
//! The writer's own calls are made by the caller, which follows a
//! [`WritePlan`]: the plan fixes the sequence, whether one `write` or one
//! `write_all` carries it, and whether a `flush` follows; [`flush_after_write`]
//! decides from the write's outcome whether that flush is made.
use vstd::prelude::*;
use crate::sequences::{
    MOUSE_ENABLE_SEQ, MOUSE_PASTE_RESET, MOUSE_TRACKING_RESET, REASSERT_DISPLAY_SEQ,
};

verus! {

/// How one sequence is handed to a writer.
#[derive(Clone, Copy, Debug)]
pub struct WritePlan {
    /// The bytes handed to the writer.
    pub bytes: &'static [u8],
    /// `true`: one `write_all` call carries them; `false`: one `write` call,
    /// whose count is the result.
    pub write_all: bool,
    /// Whether a `flush` follows a successful write.
    pub flush: bool,
}

/// Writing [`MOUSE_TRACKING_RESET`]: one `write` call, no flush; the result is
/// that call's.
pub fn write_mouse_tracking_reset() -> (plan: WritePlan)
    ensures
        plan.bytes@ == MOUSE_TRACKING_RESET@,
        !plan.write_all,
        !plan.flush,
{
    WritePlan { bytes: MOUSE_TRACKING_RESET.as_slice(), write_all: false, flush: false }
}

/// Writing [`MOUSE_PASTE_RESET`]: one `write_all` call, then a flush.
pub fn write_mouse_paste_reset() -> (plan: WritePlan)
    ensures
        plan.bytes@ == MOUSE_PASTE_RESET@,
        plan.write_all,
        plan.flush,
{
    WritePlan { bytes: MOUSE_PASTE_RESET.as_slice(), write_all: true, flush: true }
}

/// Writing [`REASSERT_DISPLAY_SEQ`] (raw CSI, no crossterm state): one
/// `write_all` call, then a flush.
pub fn write_reassert_display() -> (plan: WritePlan)
    ensures
        plan.bytes@ == REASSERT_DISPLAY_SEQ@,
        plan.write_all,
        plan.flush,
{
    WritePlan { bytes: REASSERT_DISPLAY_SEQ.as_slice(), write_all: true, flush: true }
}

/// Writing [`MOUSE_ENABLE_SEQ`] only (raw CSI; does not touch the alternate
/// screen): one `write_all` call, then a flush.
pub fn write_mouse_enable() -> (plan: WritePlan)
    ensures
        plan.bytes@ == MOUSE_ENABLE_SEQ@,
        plan.write_all,
        plan.flush,
{
    WritePlan { bytes: MOUSE_ENABLE_SEQ.as_slice(), write_all: true, flush: true }
}

/// Whether to flush once the write of `plan` came back: only when the plan
/// asks for a flush and the write succeeded. A failed write's error is the
/// result as it came back, with no flush after it.
pub fn flush_after_write(plan: &WritePlan, write_ok: bool) -> (flush: bool)
    ensures
        flush == (plan.flush && write_ok),
{
    plan.flush && write_ok
}

} // verus!
