//! Resolution core for keyboard navigation and window-close commands that
//! span three layers of a terminal session: a tiling window manager, a
//! terminal emulator, and an optional terminal multiplexer running inside
//! the emulator.
//!
//! The library holds the verified logic only: response parsing, the
//! process-tree walk over a snapshot of the process table, terminal-device
//! matching against multiplexer clients, the direction-token vocabularies,
//! and the fallback state machine that picks the one layer that acts.
//! Sockets, the process-information filesystem, and the multiplexer
//! command-line tool are driven by an unverified shell around the library,
//! which feeds every observation in as plain values.

pub mod bytes;
pub mod direction;
pub mod matcher;
pub mod parse;
pub mod proctree;
pub mod resolver;
