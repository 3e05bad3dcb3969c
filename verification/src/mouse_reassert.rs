//! Drain-coalesced mouse repair after FocusGained / Resize.
//!
//! Event handlers only set a pending bit; the event loop takes it **once**
//! after draining a batch of events. That collapses storms without a
//! wall-clock cooldown, so a genuine host mode strip on the next drain is still
//! repaired.
use vstd::prelude::*;

verus! {

/// The pending bit that coalesces FocusGained/Resize into one CSI write per
/// event-loop drain.
pub struct MouseReassertPending {
    pending: bool,
}

impl View for MouseReassertPending {
    type V = bool;

    /// Whether a repair has been requested since the bit was last taken.
    closed spec fn view(&self) -> bool {
        self.pending
    }
}

impl MouseReassertPending {
    /// A bit with no request pending.
    pub fn new() -> (p: Self)
        ensures
            !p@,
    {
        MouseReassertPending { pending: false }
    }
}

/// What a take gives back, and the bit it leaves: the bit as it was, and clear.
pub open spec fn after_take(pending: bool) -> (bool, bool) {
    (pending, false)
}

/// The bit after `n` requests in a row, starting from `pending`: each request
/// sets it.
pub open spec fn after_requests(pending: bool, n: nat) -> bool {
    pending || n > 0
}

/// Marks that mouse modes may need repair. Does not write CSI.
pub fn request_mouse_reassert(p: &mut MouseReassertPending)
    ensures
        final(p)@,
{
    p.pending = true;
}

/// Consumes the pending bit. Returns true if a flush should *consider* writing.
///
/// The bit is cleared even when later ownership/readiness guards fail: stale
/// requests must not survive TUI teardown/re-init.
pub fn take_mouse_reassert_pending(p: &mut MouseReassertPending) -> (was_pending: bool)
    ensures
        (was_pending, final(p)@) == after_take(old(p)@),
{
    let was_pending = p.pending;
    p.pending = false;
    was_pending
}

/// Whether to emit mouse CSI after the pending bit was consumed as `true`:
/// only when the terminal is owned, fullscreen, mouse-enabled and the TUI ready.
pub fn should_emit_mouse_repair(
    owned: bool,
    fullscreen: bool,
    mouse_enabled: bool,
    tui_ready: bool,
) -> (emit: bool)
    ensures
        emit == (owned && fullscreen && mouse_enabled && tui_ready),
{
    owned && fullscreen && mouse_enabled && tui_ready
}

/// Repair writes for a drain of `request_count` requests: one for a non-empty
/// drain, none for an empty one.
pub open spec fn drain_writes(request_count: nat) -> nat {
    if request_count > 0 {
        1
    } else {
        0
    }
}

/// The number of repair writes for a drain that saw `request_count` requests:
/// N requests in one drain give 1 write; an empty drain gives 0.
pub fn reassert_writes_for_drain_requests(request_count: usize) -> (writes: usize)
    ensures
        writes == drain_writes(request_count as nat),
{
    if request_count > 0 {
        1
    } else {
        0
    }
}

/// Coalescing: after any number of requests since the last take, a take gives
/// back `true` exactly when there was at least one request, that is as many
/// times as [`reassert_writes_for_drain_requests`] counts writes for the drain, and
/// leaves the bit clear, so that a take right after it gives back `false`.
pub proof fn lemma_drain_coalesces(n: nat)
    ensures
        after_take(after_requests(false, n)).0 == (n > 0),
        (if after_take(after_requests(false, n)).0 {
            1nat
        } else {
            0nat
        }) == drain_writes(n),
        after_take(after_take(after_requests(false, n)).1).0 == false,
{
}

} // verus!
