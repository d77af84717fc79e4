//! Core logic of a side-by-side git diff review tool.
//!
//! The heart of the crate is the diff alignment engine: given the line
//! counts (and, on the fallback path, the lines themselves) of a file's
//! "before" and "after" states, it produces an ordered, gapless partition
//! of both sides into corresponding regions, each tagged as changed or
//! unchanged. Scroll synchronization, connector rendering and
//! discard-by-region all depend on that partition being exhaustive.
//!
//! Everything that talks to a repository, a database or the file system
//! lives outside this crate; the functions here work on plain values.

pub mod diff;
pub mod git;
pub mod refresh;
pub mod text;
pub mod watcher;
