//! The cleaning passes.

pub mod apps;
pub mod cache;
pub mod measure;
pub mod ops;
pub mod snapshots;
pub mod system;
pub mod walk;
