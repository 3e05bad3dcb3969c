use terminal_restore::mouse_reassert::{
    reassert_writes_for_drain_requests, request_mouse_reassert, should_emit_mouse_repair,
    take_mouse_reassert_pending, MouseReassertPending,
};

#[test]
fn pending_flag_coalesces_multiple_requests_into_one_take() {
    // Equivalent to: request×3 → flush_count 1; flush again → 0; request → 1
    let mut pending = MouseReassertPending::new();
    let _ = take_mouse_reassert_pending(&mut pending); // clear any prior
    request_mouse_reassert(&mut pending);
    request_mouse_reassert(&mut pending);
    request_mouse_reassert(&mut pending);
    assert!(
        take_mouse_reassert_pending(&mut pending),
        "first take after requests must be true"
    );
    assert!(
        !take_mouse_reassert_pending(&mut pending),
        "second take without request must be false"
    );
    request_mouse_reassert(&mut pending);
    assert!(
        take_mouse_reassert_pending(&mut pending),
        "new request after take must re-arm"
    );
}

#[test]
fn drain_request_counts_map_to_one_write_per_non_empty_batch() {
    assert_eq!(reassert_writes_for_drain_requests(0), 0);
    assert_eq!(reassert_writes_for_drain_requests(1), 1);
    assert_eq!(reassert_writes_for_drain_requests(50), 1);
}

#[test]
fn emit_gates_require_all_ownership_conditions() {
    assert!(should_emit_mouse_repair(true, true, true, true));
    assert!(!should_emit_mouse_repair(false, true, true, true));
    assert!(!should_emit_mouse_repair(true, false, true, true));
    assert!(!should_emit_mouse_repair(true, true, false, true));
    assert!(!should_emit_mouse_repair(true, true, true, false));
}

#[test]
fn take_clears_pending_even_if_emit_would_be_skipped() {
    // Models flush: take first, then guards fail → request discarded.
    let mut pending = MouseReassertPending::new();
    let _ = take_mouse_reassert_pending(&mut pending);
    request_mouse_reassert(&mut pending);
    let taken = take_mouse_reassert_pending(&mut pending);
    assert!(taken);
    // Guards fail (e.g. TUI no longer ready) — do not re-store pending.
    let emit = should_emit_mouse_repair(true, true, true, /* tui_ready */ false);
    assert!(!emit);
    assert!(
        !take_mouse_reassert_pending(&mut pending),
        "stale request must not remain after failed emit"
    );
}

// ---------------------------------------------------------------------------

#[test]
fn new_pending_bit_is_clear() {
    let mut pending = MouseReassertPending::new();
    assert!(!take_mouse_reassert_pending(&mut pending));
}

/// Each drain of n requests gives as many true takes as writes counted for it.
#[test]
fn drain_takes_match_write_counts() {
    let mut pending = MouseReassertPending::new();
    for n in [0usize, 1, 2, 7, 50] {
        for _ in 0..n {
            request_mouse_reassert(&mut pending);
        }
        let mut writes = 0usize;
        while take_mouse_reassert_pending(&mut pending) {
            writes += 1;
        }
        assert_eq!(writes, reassert_writes_for_drain_requests(n));
    }
}

#[test]
fn emit_gates_truth_table() {
    for bits in 0u8..16 {
        let (a, b, c, d) = (bits & 1 != 0, bits & 2 != 0, bits & 4 != 0, bits & 8 != 0);
        assert_eq!(should_emit_mouse_repair(a, b, c, d), bits == 15);
    }
}
