//! Hush keeps a Mac lean and quiet: it decides which files, snapshots,
//! processes and agents a cleaning pass may touch, and how each outcome counts.
//!
//! The library holds every decision. It never reads a directory, runs a tool or
//! deletes a file itself: it is handed what was found as plain values, and it
//! hands back what to do next.

pub mod agents;
pub mod cleaner;
pub mod cli;
pub mod clock;
pub mod command;
pub mod comments;
pub mod config;
pub mod daemon;
pub mod dates;
pub mod error;
pub mod guard;
pub mod json;
pub mod lists;
pub mod migrate;
pub mod ncprefs;
pub mod optimizer;
pub mod passes;
pub mod paths;
pub mod plan;
pub mod sentinel;
pub mod size;
pub mod text;

pub use size::fmt_bytes;
