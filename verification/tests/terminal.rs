use terminal_restore::decrqm::{decrqm_indicates_reset, decrqm_request, parse_decrqm_reply};
use terminal_restore::raw_restore::{
    clear_sticky_terminal_modes_raw, install_console_ctrl_restore, restore_in_signal_handler,
    write_raw_both, StdStream,
};
use terminal_restore::sequences::{
    MOUSE_ENABLE_SEQ, MOUSE_PASTE_RESET, MOUSE_TRACKING_RESET, REASSERT_DISPLAY_SEQ, RESTORE_SEQ,
};
use terminal_restore::writers::{
    flush_after_write, write_mouse_enable, write_mouse_paste_reset, write_mouse_tracking_reset,
    write_reassert_display, WritePlan,
};

/// Carries out a write plan on `w`, as an application does: the planned call,
/// then a flush where `flush_after_write` asks for one.
fn perform<W: std::io::Write>(w: &mut W, plan: &WritePlan) -> std::io::Result<usize> {
    let written = if plan.write_all {
        w.write_all(plan.bytes).map(|()| plan.bytes.len())
    } else {
        w.write(plan.bytes)
    };
    let n = written.as_ref().ok().copied();
    if flush_after_write(plan, n.is_some()) {
        w.flush()?;
    }
    written
}

fn position_of(needle: &[u8]) -> usize {
    RESTORE_SEQ
        .windows(needle.len())
        .position(|w| w == needle)
        .unwrap_or_else(|| {
            panic!(
                "RESTORE_SEQ must contain {:?}",
                std::str::from_utf8(needle).unwrap_or("<binary>")
            )
        })
}

#[test]
fn restore_seq_pops_kitty_before_alt_screen_leave() {
    assert!(position_of(b"\x1b[<u") < position_of(b"\x1b[?1049l"));
}

#[test]
fn restore_seq_includes_all_modes() {
    for needle in [
        b"\x1b[?2026l".as_slice(),
        b"\x1b[?25h".as_slice(),
        b"\x1b[?1000l".as_slice(),
        b"\x1b[?1002l".as_slice(),
        b"\x1b[?1003l".as_slice(),
        b"\x1b[?1015l".as_slice(),
        b"\x1b[?1006l".as_slice(),
        b"\x1b[?2004l".as_slice(),
        b"\x1b[?1004l".as_slice(),
        b"\x1b[<u".as_slice(),
        b"\x1b[?1049l".as_slice(),
    ] {
        position_of(needle);
    }
}

#[test]
fn restore_seq_ends_synchronized_update_first() {
    let end_sync = b"\x1b[?2026l";
    assert_eq!(&RESTORE_SEQ[..end_sync.len()], end_sync);
}

#[test]
fn mouse_tracking_reset_is_subset_of_mouse_paste_and_restore() {
    assert!(
        MOUSE_PASTE_RESET
            .windows(MOUSE_TRACKING_RESET.len())
            .any(|w| w == MOUSE_TRACKING_RESET)
            || MOUSE_PASTE_RESET.starts_with(MOUSE_TRACKING_RESET)
    );
    for mode in [b"?1000l", b"?1002l", b"?1003l", b"?1015l", b"?1006l"] {
        let needle = {
            let mut v = b"\x1b[".to_vec();
            v.extend_from_slice(mode);
            v
        };
        assert!(
            MOUSE_TRACKING_RESET.windows(needle.len()).any(|w| w == needle),
            "MOUSE_TRACKING_RESET must contain {:?}",
            std::str::from_utf8(mode).unwrap()
        );
    }
}

#[test]
fn write_mouse_tracking_reset_bytes() {
    let mut buf = Vec::new();
    let n = perform(&mut buf, &write_mouse_tracking_reset()).unwrap();
    assert_eq!(n, MOUSE_TRACKING_RESET.len());
    assert_eq!(buf, MOUSE_TRACKING_RESET);
}

#[test]
fn write_mouse_paste_reset_bytes() {
    let mut buf = Vec::new();
    perform(&mut buf, &write_mouse_paste_reset()).unwrap();
    assert_eq!(buf, MOUSE_PASTE_RESET);
}

#[test]
fn reassert_display_seq_enters_alt_and_mouse() {
    let s = std::str::from_utf8(REASSERT_DISPLAY_SEQ).expect("utf8");
    assert!(s.contains("\x1b[?1049h"));
    assert!(s.contains("\x1b[?1006h"));
    assert!(s.contains("\x1b[?1004h"));
    assert!(!s.contains("\x1b[?1049l"), "reassert must not leave alt");
}

#[test]
fn mouse_enable_seq_is_mouse_only_no_focus_no_alt() {
    // Contract for pager FocusGained repair: re-send mouse DECSET only.
    // Focus reporting (?1004) is enabled once at startup — not here.
    let s = std::str::from_utf8(MOUSE_ENABLE_SEQ).expect("utf8");
    assert!(s.contains("\x1b[?1000h"));
    assert!(s.contains("\x1b[?1002h"));
    assert!(s.contains("\x1b[?1003h"));
    assert!(s.contains("\x1b[?1015h"));
    assert!(s.contains("\x1b[?1006h"));
    assert!(
        !s.contains("1004"),
        "must not embed focus reporting — re-firing ?1004h storms CSI I"
    );
    assert!(!s.contains("1049"), "must not enter/leave alt screen");
}

#[test]
fn decrqm_request_format() {
    assert_eq!(decrqm_request(1049), "\x1b[?1049$p");
    assert_eq!(decrqm_request(1006), "\x1b[?1006$p");
}

#[test]
fn parse_decrqm_reply_set_and_reset() {
    assert_eq!(parse_decrqm_reply("\x1b[?1049;1$y"), Some((1049, 1)));
    assert_eq!(parse_decrqm_reply("\x1b[?1049;2$y"), Some((1049, 2)));
    assert_eq!(parse_decrqm_reply("noise\x1b[?1006;2$ymore"), Some((1006, 2)));
    assert_eq!(parse_decrqm_reply("hello"), None);
}

#[test]
fn decrqm_indicates_reset_ps() {
    assert!(!decrqm_indicates_reset(1));
    assert!(decrqm_indicates_reset(2));
    assert!(decrqm_indicates_reset(0));
}

// ---------------------------------------------------------------------------

/// The exact bytes of each sequence, mode by mode.
#[test]
fn sequences_are_their_mode_lists() {
    assert_eq!(
        MOUSE_TRACKING_RESET.as_slice(),
        b"\x1b[?1000l\x1b[?1002l\x1b[?1003l\x1b[?1015l\x1b[?1006l"
    );
    assert_eq!(
        MOUSE_PASTE_RESET.as_slice(),
        b"\x1b[?1000l\x1b[?1002l\x1b[?1003l\x1b[?1015l\x1b[?1006l\x1b[?2004l"
    );
    assert_eq!(
        RESTORE_SEQ.as_slice(),
        b"\x1b[?2026l\x1b[?25h\x1b[?1000l\x1b[?1002l\x1b[?1003l\x1b[?1015l\x1b[?1006l\x1b[?2004l\x1b[?1004l\x1b[<u\x1b[?1049l"
    );
    assert_eq!(
        MOUSE_ENABLE_SEQ.as_slice(),
        b"\x1b[?1000h\x1b[?1002h\x1b[?1003h\x1b[?1015h\x1b[?1006h"
    );
    assert_eq!(
        REASSERT_DISPLAY_SEQ.as_slice(),
        b"\x1b[?1049h\x1b[?1000h\x1b[?1002h\x1b[?1003h\x1b[?1015h\x1b[?1006h\x1b[?1004h\x1b[?2004h\x1b[?25l"
    );
}

#[test]
fn write_reassert_display_and_mouse_enable_bytes() {
    let mut buf = Vec::new();
    perform(&mut buf, &write_reassert_display()).unwrap();
    assert_eq!(buf, REASSERT_DISPLAY_SEQ);
    let mut buf = Vec::new();
    perform(&mut buf, &write_mouse_enable()).unwrap();
    assert_eq!(buf, MOUSE_ENABLE_SEQ);
}

/// Appends to what the writer already holds.
#[test]
fn write_appends_after_existing_bytes() {
    let mut buf = b"ab".to_vec();
    perform(&mut buf, &write_mouse_enable()).unwrap();
    assert_eq!(&buf[..2], b"ab");
    assert_eq!(&buf[2..], MOUSE_ENABLE_SEQ);
}

struct FailingWriter {
    fail_write: bool,
    written: Vec<u8>,
    flushes: usize,
}

impl std::io::Write for FailingWriter {
    fn write(&mut self, buf: &[u8]) -> std::io::Result<usize> {
        if self.fail_write {
            Err(std::io::Error::new(std::io::ErrorKind::Other, "refused"))
        } else {
            self.written.extend_from_slice(buf);
            Ok(buf.len())
        }
    }

    fn flush(&mut self) -> std::io::Result<()> {
        self.flushes += 1;
        Err(std::io::Error::new(std::io::ErrorKind::Other, "flush refused"))
    }
}

/// A failed write is returned and no flush follows; a failed flush is returned
/// after the whole sequence was written.
#[test]
fn write_errors_propagate_in_order() {
    let mut w = FailingWriter { fail_write: true, written: Vec::new(), flushes: 0 };
    let err = perform(&mut w, &write_mouse_paste_reset()).unwrap_err();
    assert_eq!(err.to_string(), "refused");
    assert_eq!(w.flushes, 0);

    let mut w = FailingWriter { fail_write: false, written: Vec::new(), flushes: 0 };
    let err = perform(&mut w, &write_mouse_paste_reset()).unwrap_err();
    assert_eq!(err.to_string(), "flush refused");
    assert_eq!(w.flushes, 1);
    assert_eq!(w.written, MOUSE_PASTE_RESET);

    let mut w = FailingWriter { fail_write: true, written: Vec::new(), flushes: 0 };
    assert!(perform(&mut w, &write_mouse_tracking_reset()).is_err());
}

#[test]
fn decrqm_request_extremes() {
    assert_eq!(decrqm_request(0), "\x1b[?0$p");
    assert_eq!(decrqm_request(7), "\x1b[?7$p");
    assert_eq!(decrqm_request(25), "\x1b[?25$p");
    assert_eq!(decrqm_request(65535), "\x1b[?65535$p");
}

/// Replies of every mode and state digit, after noise without ESC, parse back.
#[test]
fn parse_reply_round_trips_after_noise() {
    for mode in [0u16, 9, 10, 25, 1000, 2026, 65535] {
        for ps in 0u8..10 {
            let reply = format!("xy\x1b[?{};{}$yz", mode, ps);
            assert_eq!(parse_decrqm_reply(&reply), Some((mode, ps)));
        }
    }
}

#[test]
fn parse_reply_edge_cases() {
    // Fewer than seven bytes from the ESC on: not looked at.
    assert_eq!(parse_decrqm_reply("\x1b[?;1$"), None);
    // No mode digits at all: mode 0.
    assert_eq!(parse_decrqm_reply("\x1b[?;1$y"), Some((0, 1)));
    // Leading zeros are read as digits.
    assert_eq!(parse_decrqm_reply("\x1b[?0025;2$y"), Some((25, 2)));
    // Mode digits past 65535 are no u16 mode: no reply.
    assert_eq!(parse_decrqm_reply("\x1b[?70000;1$y"), None);
    assert_eq!(parse_decrqm_reply("\x1b[?65536;1$y"), None);
    assert_eq!(parse_decrqm_reply("\x1b[?123456;1$y"), None);
    assert_eq!(parse_decrqm_reply("\x1b[?1234567;1$y"), None);
    assert_eq!(parse_decrqm_reply("\x1b[?70000;1$y\x1b[?25;2$y"), Some((25, 2)));
    // The request itself, and other malformed replies, are not replies.
    assert_eq!(parse_decrqm_reply("\x1b[?1049$p"), None);
    assert_eq!(parse_decrqm_reply("\x1b[?1049;1$x"), None);
    assert_eq!(parse_decrqm_reply("\x1b[?1049;x$y"), None);
    assert_eq!(parse_decrqm_reply("\x1b[1049;1$y"), None);
    assert_eq!(parse_decrqm_reply(""), None);
    // The first reply wins.
    assert_eq!(parse_decrqm_reply("\x1b[?1;1$y\x1b[?2;2$y"), Some((1, 1)));
    // A broken reply is skipped for a later one.
    assert_eq!(parse_decrqm_reply("\x1b[?1;$y\x1b[?2;2$y"), Some((2, 2)));
}

#[test]
fn decrqm_indicates_reset_all_states() {
    let reset: Vec<u8> = (0u8..=255).filter(|ps| decrqm_indicates_reset(*ps)).collect();
    assert_eq!(reset, vec![0, 2, 4]);
}

#[test]
fn restore_writes_go_to_both_streams() {
    let plan = restore_in_signal_handler();
    assert_eq!(plan[0].stream, StdStream::Stdout);
    assert_eq!(plan[1].stream, StdStream::Stderr);
    assert_eq!(plan[0].bytes, RESTORE_SEQ.as_slice());
    assert_eq!(plan[1].bytes, RESTORE_SEQ.as_slice());
}

#[test]
fn clear_sticky_writes_restore_then_tracking_reset() {
    let plan = clear_sticky_terminal_modes_raw();
    let streams: Vec<StdStream> = plan.iter().map(|w| w.stream).collect();
    assert_eq!(
        streams,
        vec![StdStream::Stdout, StdStream::Stderr, StdStream::Stdout, StdStream::Stderr]
    );
    assert_eq!(plan[0].bytes, RESTORE_SEQ.as_slice());
    assert_eq!(plan[1].bytes, RESTORE_SEQ.as_slice());
    assert_eq!(plan[2].bytes, MOUSE_TRACKING_RESET.as_slice());
    assert_eq!(plan[3].bytes, MOUSE_TRACKING_RESET.as_slice());
}

#[test]
fn write_raw_both_targets_stdout_then_stderr() {
    let plan = write_raw_both(b"xyz");
    assert_eq!(plan[0].stream, StdStream::Stdout);
    assert_eq!(plan[1].stream, StdStream::Stderr);
    assert_eq!(plan[0].bytes, b"xyz");
    assert_eq!(plan[1].bytes, b"xyz");
}

#[test]
fn console_ctrl_handler_not_installed_off_windows() {
    assert!(!install_console_ctrl_restore());
}

/// Each writer plan hands over its own sequence, by the call and flush of the original.
#[test]
fn write_plans_hand_over_their_sequence() {
    let p = write_mouse_tracking_reset();
    assert_eq!(p.bytes, MOUSE_TRACKING_RESET.as_slice());
    assert!(!p.write_all && !p.flush);
    for (p, seq) in [
        (write_mouse_paste_reset(), MOUSE_PASTE_RESET.as_slice()),
        (write_reassert_display(), REASSERT_DISPLAY_SEQ.as_slice()),
        (write_mouse_enable(), MOUSE_ENABLE_SEQ.as_slice()),
    ] {
        assert_eq!(p.bytes, seq);
        assert!(p.write_all && p.flush);
        assert!(flush_after_write(&p, true));
        assert!(!flush_after_write(&p, false));
    }
    assert!(!flush_after_write(&write_mouse_tracking_reset(), true));
}

/// Text appended after a reply does not change the reply found.
#[test]
fn parse_reply_keeps_first_under_appended_text() {
    let base = "ab\x1b[?1004;1$y";
    for tail in ["", "\x1b[?1;2$y", "zz\x1b[?", "\x1b"] {
        let s = format!("{}{}", base, tail);
        assert_eq!(parse_decrqm_reply(&s), Some((1004, 1)));
    }
}

/// Text without ESC put in front does not change the reply found.
#[test]
fn parse_reply_unchanged_by_escape_free_prefix() {
    for s in ["\x1b[?2026;4$y", "\x1b[?1;$y\x1b[?2;0$y", "hello", "\x1b[?70000;1$y"] {
        for prefix in ["", "x", "[?1;1$y", "12345678"] {
            let t = format!("{}{}", prefix, s);
            assert_eq!(parse_decrqm_reply(&t), parse_decrqm_reply(s));
        }
    }
}
