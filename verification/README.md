# terminal_restore

Escape sequences that restore a terminal after a full-screen TUI (mouse
tracking, bracketed paste, focus reporting, alternate screen, synchronized
update, kitty keyboard flags), DECRQM mode probing, and the pending bit that
coalesces mouse-mode repair per event-loop drain.

- `src/` is the library, verified with Verus: the sequences and their mode-level
  layout, the plans of the `std::io::Write` writers and of the raw writes of the restore paths, the DECRQM
  request builder and reply parser (with proofs that well-formed replies parse
  back, that the earliest reply wins, and that text appended after a reply or
  put without ESC in front of the input leaves the result unchanged), and the mouse repair state.
- `tests/` runs the library on concrete values.
- `app/` performs the `std::io::Write` calls and the raw OS writes (`libc::write` on Unix, `WriteFile` through
  `windows-sys` on Windows), installs the Windows console-control handler, and
  holds the process-wide pending bit.
