//! Terminal mode sequences (DEC private modes) for restoring a terminal after a
//! TUI, with verified helpers:
//!
//! - [`sequences`]: the raw control sequences and the grammar they follow;
//! - [`writers`]: what writing them to an `std::io::Write` output hands over;
//! - [`raw_restore`]: which sequence the raw (signal-safe) restore paths write
//!   to which standard stream;
//! - [`decrqm`]: building DECRQM requests and parsing replies;
//! - [`mouse_reassert`]: the drain-coalesced mouse repair bit and its gates.

pub mod decrqm;
pub mod mouse_reassert;
pub mod raw_restore;
pub mod sequences;
pub mod writers;
