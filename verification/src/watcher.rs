//! Which file-system changes deserve a status refresh.
//!
//! The watcher itself (debouncing, directory walking) lives outside this
//! crate; this module holds the filter that separates meaningful changes
//! from noise such as `.git/objects`, build directories and editor
//! temporaries.

use vstd::prelude::*;

use crate::text;
use crate::text::{contains_seq, has_prefix, has_suffix, rel_of};

verus! {

/// Error reported by the file-system watcher layer.
#[derive(Debug, Clone)]
pub struct WatcherError {
    pub message: String,
}

/// The filter, on a path already made relative to the repository root.
///
/// Key `.git` files that indicate state changes always trigger; all other
/// `.git` internals never do, nor do common build and dependency
/// directories, lock files, or common temporary and generated files.
pub open spec fn refresh_trigger_spec(rel: Seq<char>) -> bool {
    if rel == ".git/index"@ || rel == ".git/HEAD"@ || has_prefix(rel, ".git/refs/"@) {
        true
    } else if has_prefix(rel, ".git/objects/"@) || has_prefix(rel, ".git/logs/"@) || has_prefix(
        rel,
        ".git/hooks/"@,
    ) || has_prefix(rel, ".git/info/"@) || contains_seq(rel, ".git/fsmonitor"@) || has_suffix(
        rel,
        ".lock"@,
    ) {
        false
    } else if has_prefix(rel, ".git/"@) {
        false
    } else if has_prefix(rel, "node_modules/"@) || has_prefix(rel, "target/"@) || has_prefix(
        rel,
        ".build/"@,
    ) || has_prefix(rel, "build/"@) || has_prefix(rel, "dist/"@) || has_prefix(rel, ".next/"@)
        || has_prefix(rel, "__pycache__/"@) || has_prefix(rel, ".pytest_cache/"@) || has_prefix(
        rel,
        "venv/"@,
    ) || has_prefix(rel, ".venv/"@) {
        false
    } else if has_suffix(rel, ".pyc"@) || has_suffix(rel, ".pyo"@) || has_suffix(rel, ".class"@)
        || has_suffix(rel, ".o"@) || has_suffix(rel, ".a"@) || has_suffix(rel, ".so"@)
        || has_suffix(rel, ".dylib"@) || has_suffix(rel, "~"@) || has_suffix(rel, ".swp"@)
        || has_suffix(rel, ".swo"@) || contains_seq(rel, ".DS_Store"@) {
        false
    } else {
        true
    }
}

/// Determine if a file change should trigger a status refresh. A path
/// outside the repository root never triggers.
pub fn should_trigger_refresh(path: &str, repo_root: &str) -> (r: bool)
    ensures
        r == (rel_of(path@, repo_root@) matches Some(rel) && refresh_trigger_spec(rel)),
{
    let rel = match text::relative_to(path, repo_root) {
        Some(rel) => rel,
        None => {
            return false;
        },
    };

    // key .git files that indicate state changes
    if text::str_eq(rel, ".git/index") || text::str_eq(rel, ".git/HEAD") || text::starts_with(
        rel,
        ".git/refs/",
    ) {
        return true;
    }

    // internal git files that change frequently but do not affect status
    if text::starts_with(rel, ".git/objects/") || text::starts_with(rel, ".git/logs/")
        || text::starts_with(rel, ".git/hooks/") || text::starts_with(rel, ".git/info/")
        || text::contains_sub(rel, ".git/fsmonitor") || text::ends_with(rel, ".lock") {
        return false;
    }

    // other .git internals not explicitly allowed above
    if text::starts_with(rel, ".git/") {
        return false;
    }

    // common build and dependency directories
    if text::starts_with(rel, "node_modules/") || text::starts_with(rel, "target/")
        || text::starts_with(rel, ".build/") || text::starts_with(rel, "build/")
        || text::starts_with(rel, "dist/") || text::starts_with(rel, ".next/")
        || text::starts_with(rel, "__pycache__/") || text::starts_with(rel, ".pytest_cache/")
        || text::starts_with(rel, "venv/") || text::starts_with(rel, ".venv/") {
        return false;
    }

    // common temporary and generated files
    if text::ends_with(rel, ".pyc") || text::ends_with(rel, ".pyo") || text::ends_with(
        rel,
        ".class",
    ) || text::ends_with(rel, ".o") || text::ends_with(rel, ".a") || text::ends_with(rel, ".so")
        || text::ends_with(rel, ".dylib") || text::ends_with(rel, "~") || text::ends_with(
        rel,
        ".swp",
    ) || text::ends_with(rel, ".swo") || text::contains_sub(rel, ".DS_Store") {
        return false;
    }

    true
}

} // verus!
