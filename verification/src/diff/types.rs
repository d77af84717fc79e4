//! Core data types for the diff viewer.
//!
//! These types carry the minimal information needed to display diffs and
//! track reviews; they are plain, short-lived values built per diff request.

use vstd::prelude::*;

use crate::text;

verus! {

/// Identifies a diff between two repository states.
///
/// - `before`: a ref (branch name, tag), SHA, or "HEAD"
/// - `after`: a ref, SHA, or "@" for the working tree
#[derive(Debug, Clone)]
pub struct DiffId {
    pub before: String,
    pub after: String,
}

impl DiffId {
    pub fn new(before: String, after: String) -> (r: Self)
        ensures
            r.before == before,
            r.after == after,
    {
        Self { before, after }
    }

    /// Returns true if this diff includes the working tree.
    pub fn is_working_tree(&self) -> (b: bool)
        ensures
            b == (self.after@ == "@"@),
    {
        text::str_eq(self.after.as_str(), "@")
    }
}

/// A file with its path and content.
#[derive(Debug, Clone)]
pub struct File {
    pub path: String,
    pub content: FileContent,
}

/// The type of change a file underwent.
#[derive(Debug, Clone, Copy, PartialEq, Eq, Structural)]
pub enum ChangeKind {
    Added,
    Modified,
    Deleted,
}

/// Content of a file at a specific state.
#[derive(Debug, Clone)]
pub enum FileContent {
    Text { lines: Vec<String> },
    Binary,
}

/// How far into a buffer the binary heuristic looks for a NUL byte.
pub const BINARY_SNIFF_LEN: usize = 8192;

/// The binary heuristic: a NUL byte anywhere in the first
/// [`BINARY_SNIFF_LEN`] bytes.
pub open spec fn spec_is_binary(bytes: Seq<u8>) -> bool {
    exists|i: int|
        0 <= i < bytes.len() && i < BINARY_SNIFF_LEN && bytes[i] == 0
}

impl FileContent {
    /// The lines of the content; binary content has none.
    pub open spec fn spec_lines(&self) -> Seq<String> {
        match self {
            FileContent::Text { lines } => lines@,
            FileContent::Binary => Seq::empty(),
        }
    }

    /// Create text content from a string, splitting into lines.
    pub fn from_text(content: &str) -> (r: Self)
        ensures
            r matches FileContent::Text { lines } && lines.deep_view() == text::spec_lines_of(
                content@,
            ),
    {
        let lines = text::split_lines(content);
        Self::Text { lines }
    }

    /// Check whether raw content appears to be binary: a NUL byte in the
    /// first 8 KiB. A heuristic, not a charset detector.
    pub fn is_binary_data(bytes: &[u8]) -> (r: bool)
        ensures
            r == spec_is_binary(bytes@),
    {
        let check_len = if bytes.len() < BINARY_SNIFF_LEN {
            bytes.len()
        } else {
            BINARY_SNIFF_LEN
        };
        let mut i: usize = 0;
        while i < check_len
            invariant
                check_len == if bytes@.len() < BINARY_SNIFF_LEN {
                    bytes@.len() as int
                } else {
                    BINARY_SNIFF_LEN as int
                },
                0 <= i <= check_len,
                forall|k: int| 0 <= k < i ==> bytes@[k] != 0,
            decreases check_len - i,
        {
            if *vstd::slice::slice_index_get(bytes, i) == 0 {
                return true;
            }
            i = i + 1;
        }
        false
    }

    /// Get the lines if this is text content; binary content yields none.
    pub fn lines(&self) -> (r: Vec<String>)
        ensures
            r@ == self.spec_lines(),
    {
        match self {
            FileContent::Text { lines } => {
                let r = lines.clone();
                proof {
                    assert(r@ =~= lines@);
                }
                r
            },
            FileContent::Binary => Vec::new(),
        }
    }
}

/// The diff for a single file between two states.
#[derive(Debug, Clone)]
pub struct FileDiff {
    /// The file before the change (None if the file was added).
    pub before: Option<File>,
    /// The file after the change (None if the file was deleted).
    pub after: Option<File>,
    /// Alignments mapping regions between before and after, for scroll
    /// sync and display.
    pub alignments: Vec<Alignment>,
}

impl FileDiff {
    /// Returns the primary path for this diff (prefers after, falls back to
    /// before, then to the empty string).
    pub fn path(&self) -> (r: &str)
        ensures
            self.after matches Some(f) ==> r@ == f.path@,
            self.after is None ==> (self.before matches Some(f) ==> r@ == f.path@),
            self.after is None && self.before is None ==> r@ == Seq::<char>::empty(),
    {
        match &self.after {
            Some(f) => f.path.as_str(),
            None => match &self.before {
                Some(f) => f.path.as_str(),
                None => {
                    let r = "";
                    proof {
                        reveal_strlit("");
                    }
                    r
                },
            },
        }
    }

    /// Returns the kind of change this file underwent.
    pub fn change_kind(&self) -> (k: ChangeKind)
        ensures
            k == (match (self.before, self.after) {
                (Option::None, Option::Some(_)) => ChangeKind::Added,
                (Option::Some(_), Option::None) => ChangeKind::Deleted,
                _ => ChangeKind::Modified,
            }),
    {
        match (&self.before, &self.after) {
            (None, Some(_)) => ChangeKind::Added,
            (Some(_), None) => ChangeKind::Deleted,
            (Some(_), Some(_)) => ChangeKind::Modified,
            // a diff entry with neither side should not arise
            (None, None) => ChangeKind::Modified,
        }
    }

    /// Returns true if this is a rename: both sides present with different
    /// paths.
    pub fn is_rename(&self) -> (r: bool)
        ensures
            r == (self.before matches Some(b) && self.after matches Some(a) && b.path@ != a.path@),
    {
        match (&self.before, &self.after) {
            (Some(b), Some(a)) => !text::str_eq(b.path.as_str(), a.path.as_str()),
            _ => false,
        }
    }

    /// Returns true if either side is binary.
    pub fn is_binary(&self) -> (r: bool)
        ensures
            r == ((self.before matches Some(b) && b.content is Binary) || (self.after matches Some(
                a,
            ) && a.content is Binary)),
    {
        let before_bin = match &self.before {
            Some(f) => match &f.content {
                FileContent::Binary => true,
                FileContent::Text { .. } => false,
            },
            None => false,
        };
        let after_bin = match &self.after {
            Some(f) => match &f.content {
                FileContent::Binary => true,
                FileContent::Text { .. } => false,
            },
            None => false,
        };
        before_bin || after_bin
    }
}

/// The number of lines on one optional side of a file diff.
pub open spec fn opt_file_line_count(f: Option<File>) -> nat {
    match f {
        Option::Some(file) => file.content.spec_lines().len(),
        Option::None => 0,
    }
}

/// An alignment between a region in the before file and a region in the
/// after file.
///
/// A full alignment sequence exhaustively partitions both files: every line
/// belongs to exactly one alignment. Used for scroll synchronization and for
/// drawing connectors between the two panes.
#[derive(Debug, Clone, Copy)]
pub struct Alignment {
    pub before: Span,
    pub after: Span,
    /// True if this region contains changes (content differs between
    /// before and after).
    pub changed: bool,
}

/// A contiguous range of lines (0-indexed, exclusive end).
#[derive(Debug, Clone, Copy, PartialEq, Eq, Structural)]
pub struct Span {
    pub start: u32,
    pub end: u32,
}

impl Span {
    /// A span is ordinarily well formed: its end does not precede its start.
    pub open spec fn wf(self) -> bool {
        self.start <= self.end
    }

    /// The number of lines covered, saturating at zero for a malformed span.
    pub open spec fn spec_len(self) -> u32 {
        if self.start <= self.end {
            (self.end - self.start) as u32
        } else {
            0
        }
    }

    pub fn new(start: u32, end: u32) -> (s: Self)
        ensures
            s.start == start,
            s.end == end,
    {
        Self { start, end }
    }

    pub fn len(&self) -> (n: u32)
        ensures
            n == self.spec_len(),
    {
        if self.end >= self.start {
            self.end - self.start
        } else {
            0
        }
    }

    pub fn is_empty(&self) -> (b: bool)
        ensures
            b == (self.spec_len() == 0),
    {
        self.len() == 0
    }
}

} // verus!
