//! Classification of raw repository status flags.
//!
//! The status layer reports one flag word per file, with the bit layout of
//! the underlying version-control library; the functions here turn a flag
//! word into the buckets and labels the frontend shows. Reading the
//! repository stays outside this crate.

use vstd::prelude::*;

verus! {

/// Status of a single file in the repository.
#[derive(Debug, Clone)]
pub struct FileStatus {
    pub path: String,
    pub status: String,
}

/// Full git status for a repository.
#[derive(Debug, Clone)]
pub struct GitStatus {
    pub staged: Vec<FileStatus>,
    pub unstaged: Vec<FileStatus>,
    pub untracked: Vec<FileStatus>,
    pub branch: Option<String>,
    pub repo_path: String,
}

/// The index (staged) side of a status flag word.
pub const STATUS_INDEX_NEW: u32 = 1;

pub const STATUS_INDEX_MODIFIED: u32 = 2;

pub const STATUS_INDEX_DELETED: u32 = 4;

pub const STATUS_INDEX_RENAMED: u32 = 8;

pub const STATUS_INDEX_TYPECHANGE: u32 = 16;

/// The working-tree (unstaged) side of a status flag word.
pub const STATUS_WT_NEW: u32 = 128;

pub const STATUS_WT_MODIFIED: u32 = 256;

pub const STATUS_WT_DELETED: u32 = 512;

pub const STATUS_WT_TYPECHANGE: u32 = 1024;

pub const STATUS_WT_RENAMED: u32 = 2048;

/// The label for a status flag word, read on its index side when `staged`
/// and on its working-tree side otherwise, with the same precedence the
/// flags are tested in.
pub open spec fn status_label_spec(status: u32, staged: bool) -> Seq<char> {
    if staged {
        if status & STATUS_INDEX_NEW != 0 {
            "added"@
        } else if status & STATUS_INDEX_MODIFIED != 0 {
            "modified"@
        } else if status & STATUS_INDEX_DELETED != 0 {
            "deleted"@
        } else if status & STATUS_INDEX_RENAMED != 0 {
            "renamed"@
        } else if status & STATUS_INDEX_TYPECHANGE != 0 {
            "typechange"@
        } else {
            "unknown"@
        }
    } else {
        if status & STATUS_WT_NEW != 0 {
            "untracked"@
        } else if status & STATUS_WT_MODIFIED != 0 {
            "modified"@
        } else if status & STATUS_WT_DELETED != 0 {
            "deleted"@
        } else if status & STATUS_WT_RENAMED != 0 {
            "renamed"@
        } else if status & STATUS_WT_TYPECHANGE != 0 {
            "typechange"@
        } else {
            "unknown"@
        }
    }
}

/// Convert a status flag word to a human-readable status string.
pub fn status_to_string(status: u32, staged: bool) -> (r: &'static str)
    ensures
        r@ == status_label_spec(status, staged),
{
    if staged {
        if status & STATUS_INDEX_NEW != 0 {
            "added"
        } else if status & STATUS_INDEX_MODIFIED != 0 {
            "modified"
        } else if status & STATUS_INDEX_DELETED != 0 {
            "deleted"
        } else if status & STATUS_INDEX_RENAMED != 0 {
            "renamed"
        } else if status & STATUS_INDEX_TYPECHANGE != 0 {
            "typechange"
        } else {
            "unknown"
        }
    } else {
        if status & STATUS_WT_NEW != 0 {
            "untracked"
        } else if status & STATUS_WT_MODIFIED != 0 {
            "modified"
        } else if status & STATUS_WT_DELETED != 0 {
            "deleted"
        } else if status & STATUS_WT_RENAMED != 0 {
            "renamed"
        } else if status & STATUS_WT_TYPECHANGE != 0 {
            "typechange"
        } else {
            "unknown"
        }
    }
}

/// Whether a flag word carries staged (index-side) changes.
pub open spec fn is_staged_entry(status: u32) -> bool {
    status & (STATUS_INDEX_NEW | STATUS_INDEX_MODIFIED | STATUS_INDEX_DELETED
        | STATUS_INDEX_RENAMED | STATUS_INDEX_TYPECHANGE) != 0
}

/// Whether a flag word carries unstaged (working-tree) changes, untracked
/// files aside.
pub open spec fn is_unstaged_entry(status: u32) -> bool {
    status & (STATUS_WT_MODIFIED | STATUS_WT_DELETED | STATUS_WT_RENAMED | STATUS_WT_TYPECHANGE)
        != 0
}

/// Whether a flag word marks an untracked file.
pub open spec fn is_untracked_entry(status: u32) -> bool {
    status & STATUS_WT_NEW != 0
}

/// Sort one status flag word into the three buckets the frontend shows:
/// staged, unstaged, untracked. One entry can land in several.
pub fn classify_status_entry(status: u32) -> (r: (bool, bool, bool))
    ensures
        r.0 == is_staged_entry(status),
        r.1 == is_unstaged_entry(status),
        r.2 == is_untracked_entry(status),
{
    let staged = status & (STATUS_INDEX_NEW | STATUS_INDEX_MODIFIED | STATUS_INDEX_DELETED
        | STATUS_INDEX_RENAMED | STATUS_INDEX_TYPECHANGE) != 0;
    let unstaged = status & (STATUS_WT_MODIFIED | STATUS_WT_DELETED | STATUS_WT_RENAMED
        | STATUS_WT_TYPECHANGE) != 0;
    let untracked = status & STATUS_WT_NEW != 0;
    (staged, unstaged, untracked)
}

} // verus!
