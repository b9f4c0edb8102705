//! The optimizing passes.

pub mod network;
pub mod system;
pub mod ui;
