//! The passes that keep the system quiet.

pub mod locks;
pub mod notifications;
pub mod processes;
pub mod silence;
