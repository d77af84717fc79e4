//! Plain data and decision logic around repository status: what the status
//! layer reports, how raw status flags are classified, and how `git status
//! --porcelain` output is parsed.

pub mod diff;
pub mod provider;
pub mod status;

use vstd::prelude::*;

verus! {

/// Common error type for git operations.
#[derive(Debug, Clone)]
pub struct GitError {
    pub message: String,
}

} // verus!
