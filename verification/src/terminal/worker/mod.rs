//! The decisions of a terminal's worker: what it reads, writes, announces
//! and when.
//!
//! The steady-state output path is deliberately tiny:
//!
//! ```text
//! read PTY bytes
//! -> lightweight O(n) metadata scan (OSC title)
//! -> append to bounded replay ring
//! -> fanout ordered raw events to attached clients
//! ```
//!
//! There is no terminal emulator here. The GUI owns the terminal and replays
//! these raw events into it.
pub mod drain;
pub mod machine;
pub mod metadata;
pub mod reader;
pub mod title;
