//! Data types and the alignment engine for one file diff.

pub mod actions;
pub mod ai_describe;
pub mod align;
pub mod git;
pub mod matching;
pub mod review;
pub mod types;
pub mod watcher;
