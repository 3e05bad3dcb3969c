//! The raw control sequences written to the terminal, and the grammar they follow.
//!
//! See <https://invisible-island.net/xterm/ctlseqs/ctlseqs.html> (DEC
//! Private Mode Reset / "Mouse Tracking" section) for the full spec.
//!
//! DEC private modes in use:
//!
//!   Mode    Purpose
//!   ?1000   Normal mouse tracking (X11 press/release)
//!   ?1002   Button-event mouse tracking (cell-motion held)
//!   ?1003   All-motion mouse tracking (any movement)
//!   ?1015   RXVT extended mouse reporting (coords >223)
//!   ?1006   SGR extended mouse reporting format (preferred)
//!   ?2004   Bracketed paste mode
//!   ?1004   Focus reporting (focus in/out events)
//!   ?25     Cursor visibility (show)
//!   ?1049   Alternate screen buffer
//!   ?2026   Synchronized update
//!   CSI<u   Kitty keyboard protocol pop
use vstd::prelude::*;

verus! {

/// The escape byte that opens a control sequence.
pub const ESC: u8 = 0x1b;

/// `[`, which follows ESC in a CSI sequence.
pub const CSI_BRACKET: u8 = 0x5b;

/// `?`, which marks a DEC private mode parameter.
pub const PRIVATE_MARK: u8 = 0x3f;

/// `h`, the final byte of DECSET (mode enable).
pub const SET_FINAL: u8 = 0x68;

/// `l`, the final byte of DECRST (mode reset).
pub const RESET_FINAL: u8 = 0x6c;

/// `<`, the kitty keyboard protocol marker.
pub const KITTY_MARK: u8 = 0x3c;

/// `u`, the final byte of a kitty keyboard protocol pop.
pub const KITTY_POP_FINAL: u8 = 0x75;

/// ASCII `0`.
pub const DIGIT_ZERO: u8 = 0x30;

/// ASCII `9`.
pub const DIGIT_NINE: u8 = 0x39;

/// `b` is an ASCII decimal digit.
pub open spec fn is_digit_byte(b: u8) -> bool {
    DIGIT_ZERO <= b && b <= DIGIT_NINE
}

/// The ASCII decimal digits of `n`, most significant first, without leading zeros.
pub open spec fn decimal_ascii(n: nat) -> Seq<u8>
    decreases n,
{
    if n < 10 {
        seq![(n + DIGIT_ZERO) as u8]
    } else {
        decimal_ascii(n / 10).push((n % 10 + DIGIT_ZERO) as u8)
    }
}

/// The characters of an ASCII byte sequence.
pub open spec fn ascii_text(bytes: Seq<u8>) -> Seq<char> {
    bytes.map_values(|b: u8| b as char)
}

/// `ESC [ ? mode h` (DECSET): enables DEC private mode `mode`.
pub open spec fn decset(mode: nat) -> Seq<u8> {
    seq![ESC, CSI_BRACKET, PRIVATE_MARK] + decimal_ascii(mode) + seq![SET_FINAL]
}

/// `ESC [ ? mode l` (DECRST): resets DEC private mode `mode`.
pub open spec fn decrst(mode: nat) -> Seq<u8> {
    seq![ESC, CSI_BRACKET, PRIVATE_MARK] + decimal_ascii(mode) + seq![RESET_FINAL]
}

/// `ESC [ < u`: pops the kitty keyboard protocol flags.
pub open spec fn kitty_keyboard_pop() -> Seq<u8> {
    seq![ESC, CSI_BRACKET, KITTY_MARK, KITTY_POP_FINAL]
}

/// DECSET of each mode of `modes`, in order.
pub open spec fn decset_all(modes: Seq<nat>) -> Seq<u8>
    decreases modes.len(),
{
    if modes.len() == 0 {
        Seq::empty()
    } else {
        decset(modes[0]) + decset_all(modes.drop_first())
    }
}

/// DECRST of each mode of `modes`, in order.
pub open spec fn decrst_all(modes: Seq<nat>) -> Seq<u8>
    decreases modes.len(),
{
    if modes.len() == 0 {
        Seq::empty()
    } else {
        decrst(modes[0]) + decrst_all(modes.drop_first())
    }
}

/// The mouse modes: normal, button-event and any-motion tracking, then the
/// urxvt and SGR encodings.
pub open spec fn mouse_modes() -> Seq<nat> {
    seq![1000, 1002, 1003, 1015, 1006]
}

/// Raw CSI sequences to disable every mouse-tracking mode the pager enables.
pub const MOUSE_TRACKING_RESET: &'static [u8; 40] = &[
    0x1b, 0x5b, 0x3f, 0x31, 0x30, 0x30, 0x30, 0x6c,  // ESC [?1000l
    0x1b, 0x5b, 0x3f, 0x31, 0x30, 0x30, 0x32, 0x6c,  // ESC [?1002l
    0x1b, 0x5b, 0x3f, 0x31, 0x30, 0x30, 0x33, 0x6c,  // ESC [?1003l
    0x1b, 0x5b, 0x3f, 0x31, 0x30, 0x31, 0x35, 0x6c,  // ESC [?1015l
    0x1b, 0x5b, 0x3f, 0x31, 0x30, 0x30, 0x36, 0x6c,  // ESC [?1006l
];

/// Raw CSI sequences to disable mouse tracking and bracketed paste.
pub const MOUSE_PASTE_RESET: &'static [u8; 48] = &[
    0x1b, 0x5b, 0x3f, 0x31, 0x30, 0x30, 0x30, 0x6c,  // ESC [?1000l
    0x1b, 0x5b, 0x3f, 0x31, 0x30, 0x30, 0x32, 0x6c,  // ESC [?1002l
    0x1b, 0x5b, 0x3f, 0x31, 0x30, 0x30, 0x33, 0x6c,  // ESC [?1003l
    0x1b, 0x5b, 0x3f, 0x31, 0x30, 0x31, 0x35, 0x6c,  // ESC [?1015l
    0x1b, 0x5b, 0x3f, 0x31, 0x30, 0x30, 0x36, 0x6c,  // ESC [?1006l
    0x1b, 0x5b, 0x3f, 0x32, 0x30, 0x30, 0x34, 0x6c,  // ESC [?2004l
];

/// Full escape sequence to restore the terminal to a sane state (real exit only):
/// end synchronized update, show the cursor, reset the mouse modes, bracketed
/// paste and focus reporting, pop the kitty keyboard flags, leave the
/// alternate screen.
pub const RESTORE_SEQ: &'static [u8; 82] = &[
    0x1b, 0x5b, 0x3f, 0x32, 0x30, 0x32, 0x36, 0x6c,  // ESC [?2026l
    0x1b, 0x5b, 0x3f, 0x32, 0x35, 0x68,  // ESC [?25h
    0x1b, 0x5b, 0x3f, 0x31, 0x30, 0x30, 0x30, 0x6c,  // ESC [?1000l
    0x1b, 0x5b, 0x3f, 0x31, 0x30, 0x30, 0x32, 0x6c,  // ESC [?1002l
    0x1b, 0x5b, 0x3f, 0x31, 0x30, 0x30, 0x33, 0x6c,  // ESC [?1003l
    0x1b, 0x5b, 0x3f, 0x31, 0x30, 0x31, 0x35, 0x6c,  // ESC [?1015l
    0x1b, 0x5b, 0x3f, 0x31, 0x30, 0x30, 0x36, 0x6c,  // ESC [?1006l
    0x1b, 0x5b, 0x3f, 0x32, 0x30, 0x30, 0x34, 0x6c,  // ESC [?2004l
    0x1b, 0x5b, 0x3f, 0x31, 0x30, 0x30, 0x34, 0x6c,  // ESC [?1004l
    0x1b, 0x5b, 0x3c, 0x75,  // ESC [<u
    0x1b, 0x5b, 0x3f, 0x31, 0x30, 0x34, 0x39, 0x6c,  // ESC [?1049l
];

/// Non-destructive **mouse** modes wanted while the fullscreen TUI is active.
/// Safe to re-send after host strip (DECSET enables are idempotent).
/// Does **not** enter/leave the alternate screen and does **not** toggle focus
/// reporting (`?1004`) — re-firing focus enable on every FocusGained can storm
/// CSI I / freeze some hosts.
///
/// Modes: normal/button/any tracking, urxvt + SGR encoding.
pub const MOUSE_ENABLE_SEQ: &'static [u8; 40] = &[
    0x1b, 0x5b, 0x3f, 0x31, 0x30, 0x30, 0x30, 0x68,  // ESC [?1000h
    0x1b, 0x5b, 0x3f, 0x31, 0x30, 0x30, 0x32, 0x68,  // ESC [?1002h
    0x1b, 0x5b, 0x3f, 0x31, 0x30, 0x30, 0x33, 0x68,  // ESC [?1003h
    0x1b, 0x5b, 0x3f, 0x31, 0x30, 0x31, 0x35, 0x68,  // ESC [?1015h
    0x1b, 0x5b, 0x3f, 0x31, 0x30, 0x30, 0x36, 0x68,  // ESC [?1006h
];

/// Legacy full display reassert (enter alt + mouse + focus + paste, hide cursor).
/// **Not** for FocusGained — alt re-entry can wipe the buffer on ConPTY.
/// For rare recovery when stranded on the main buffer after a mistaken
/// RESTORE while the process still lives.
pub const REASSERT_DISPLAY_SEQ: &'static [u8; 70] = &[
    0x1b, 0x5b, 0x3f, 0x31, 0x30, 0x34, 0x39, 0x68,  // ESC [?1049h
    0x1b, 0x5b, 0x3f, 0x31, 0x30, 0x30, 0x30, 0x68,  // ESC [?1000h
    0x1b, 0x5b, 0x3f, 0x31, 0x30, 0x30, 0x32, 0x68,  // ESC [?1002h
    0x1b, 0x5b, 0x3f, 0x31, 0x30, 0x30, 0x33, 0x68,  // ESC [?1003h
    0x1b, 0x5b, 0x3f, 0x31, 0x30, 0x31, 0x35, 0x68,  // ESC [?1015h
    0x1b, 0x5b, 0x3f, 0x31, 0x30, 0x30, 0x36, 0x68,  // ESC [?1006h
    0x1b, 0x5b, 0x3f, 0x31, 0x30, 0x30, 0x34, 0x68,  // ESC [?1004h
    0x1b, 0x5b, 0x3f, 0x32, 0x30, 0x30, 0x34, 0x68,  // ESC [?2004h
    0x1b, 0x5b, 0x3f, 0x32, 0x35, 0x6c,  // ESC [?25l
];

/// Each sequence is the list of DEC private mode changes its documentation names.
pub proof fn lemma_sequence_layouts()
    ensures
        MOUSE_TRACKING_RESET@ == decrst_all(mouse_modes()),
        MOUSE_PASTE_RESET@ == decrst_all(mouse_modes()) + decrst(2004),
        RESTORE_SEQ@ == decrst(2026) + decset(25) + decrst_all(mouse_modes()) + decrst(2004)
            + decrst(1004) + kitty_keyboard_pop() + decrst(1049),
        MOUSE_ENABLE_SEQ@ == decset_all(mouse_modes()),
        REASSERT_DISPLAY_SEQ@ == decset(1049) + decset_all(mouse_modes()) + decset(1004) + decset(
            2004,
        ) + decrst(25),
{
    reveal_with_fuel(decimal_ascii, 5);
    reveal_with_fuel(decset_all, 6);
    reveal_with_fuel(decrst_all, 6);
    assert(MOUSE_TRACKING_RESET@ =~= decrst_all(mouse_modes()));
    assert(MOUSE_PASTE_RESET@ =~= decrst_all(mouse_modes()) + decrst(2004));
    assert(RESTORE_SEQ@ =~= decrst(2026) + decset(25) + decrst_all(mouse_modes()) + decrst(2004)
        + decrst(1004) + kitty_keyboard_pop() + decrst(1049));
    assert(MOUSE_ENABLE_SEQ@ =~= decset_all(mouse_modes()));
    assert(REASSERT_DISPLAY_SEQ@ =~= decset(1049) + decset_all(mouse_modes()) + decset(1004)
        + decset(2004) + decrst(25));
}

} // verus!
