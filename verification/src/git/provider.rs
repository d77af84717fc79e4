//! Status providers: the interface the status layer implements, the
//! adaptive switch between a library-based and a CLI-based fetch, and the
//! parser for `git status --porcelain` output.
//!
//! Fetching status does I/O and lives outside this crate; the decision of
//! when to switch strategies and the parsing of what came back live here.

use vstd::prelude::*;

use crate::git::status::{FileStatus, GitStatus};
use crate::git::GitError;
use crate::text;
use crate::text::{match_at, rfind_from, spec_lines_of};

verus! {

use vstd::string::{StrSliceExecFns, StringExecFns};

/// Result of a status fetch, including how long it took (in milliseconds)
/// and which strategy produced it.
#[derive(Debug, Clone)]
pub struct StatusResult {
    pub status: GitStatus,
    pub duration_ms: u64,
    pub used_cli: bool,
}

/// A source of repository status. Implementations fetch the status of the
/// repository at `repo_path`; `reset` clears any adaptive state when the
/// watched repository changes.
pub trait StatusProvider {
    fn get_status(&self, repo_path: &str) -> Result<StatusResult, GitError>;

    fn reset(&self);
}

/// The decision state of the adaptive strategy: fetch through the library
/// while it is fast, switch to the CLI once a fetch exceeded the threshold.
#[derive(Debug, Clone, Copy, PartialEq, Eq, Structural)]
pub struct AdaptiveProvider {
    /// Whether fetches should now go through the CLI.
    pub use_cli: bool,
    /// The fetch duration, in milliseconds, above which the provider
    /// switches to the CLI.
    pub cli_threshold_ms: u64,
}

impl AdaptiveProvider {
    pub fn new(cli_threshold_ms: u64) -> (r: Self)
        ensures
            r.use_cli == false,
            r.cli_threshold_ms == cli_threshold_ms,
    {
        Self { use_cli: false, cli_threshold_ms }
    }

    /// Record how long a library-based fetch took: one fetch over the
    /// threshold switches all later fetches to the CLI.
    pub fn record_fetch_duration(&mut self, duration_ms: u64)
        ensures
            final(self).use_cli == (old(self).use_cli || duration_ms > old(
                self,
            ).cli_threshold_ms),
            final(self).cli_threshold_ms == old(self).cli_threshold_ms,
    {
        if duration_ms > self.cli_threshold_ms {
            self.use_cli = true;
        }
    }

    /// Forget the adaptive state (when switching repositories).
    pub fn reset(&mut self)
        ensures
            final(self).use_cli == false,
            final(self).cli_threshold_ms == old(self).cli_threshold_ms,
    {
        self.use_cli = false;
    }
}

impl Default for AdaptiveProvider {
    /// The default threshold: half a second.
    fn default() -> (r: Self)
        ensures
            r.use_cli == false,
            r.cli_threshold_ms == 500,
    {
        Self::new(500)
    }
}

/// The label for one porcelain status letter.
pub open spec fn porcelain_status_of(c: char) -> Seq<char> {
    if c == 'M' {
        "modified"@
    } else if c == 'A' {
        "added"@
    } else if c == 'D' {
        "deleted"@
    } else if c == 'R' {
        "renamed"@
    } else if c == 'C' {
        "copied"@
    } else if c == 'T' {
        "typechange"@
    } else if c == 'U' {
        "unmerged"@
    } else {
        "unknown"@
    }
}

pub fn porcelain_char_to_status(c: char) -> (r: String)
    ensures
        r@ == porcelain_status_of(c),
{
    let s: &str = match c {
        'M' => "modified",
        'A' => "added",
        'D' => "deleted",
        'R' => "renamed",
        'C' => "copied",
        'T' => "typechange",
        'U' => "unmerged",
        _ => "unknown",
    };
    String::from_str(s)
}

/// The path on a porcelain line, rename arrows resolved: what follows the
/// last " -> ", or the whole text when there is none.
pub open spec fn porcelain_path_of(raw: Seq<char>) -> Seq<char> {
    if raw.len() >= 4 {
        let r = rfind_from(raw, " -> "@, raw.len() - 4);
        if r >= 0 {
            raw.skip(r + 4)
        } else {
            raw
        }
    } else {
        raw
    }
}

/// Resolve a rename arrow in a porcelain path field.
fn porcelain_path(raw: &str) -> (r: String)
    ensures
        r@ == porcelain_path_of(raw@),
{
    let n = raw.unicode_len();
    proof {
        reveal_strlit(" -> ");
    }
    if n < 4 {
        return raw.to_owned();
    }
    let mut last: Option<usize> = None;
    let mut i: usize = 0;
    while i <= n - 4
        invariant
            n == raw@.len(),
            4 <= n,
            " -> "@.len() == 4,
            0 <= i <= n - 4 + 1,
            last matches Some(f) ==> 0 <= f < i && match_at(raw@, " -> "@, f as int) && (forall|
                x: int,
            |
                f < x < i ==> !match_at(raw@, " -> "@, x)),
            last is None ==> forall|x: int| 0 <= x < i ==> !match_at(raw@, " -> "@, x),
        decreases n - 4 + 1 - i,
    {
        if text::is_match_at(raw, " -> ", i) {
            last = Some(i);
        }
        i = i + 1;
    }
    match last {
        Some(f) => {
            proof {
                lemma_porcelain_rfind(raw@, f as int, n as int);
            }
            raw.substring_char(f + 4, n).to_owned()
        },
        None => {
            proof {
                lemma_porcelain_rfind_none(raw@, n as int);
            }
            raw.to_owned()
        },
    }
}

proof fn lemma_porcelain_rfind(raw: Seq<char>, f: int, n: int)
    requires
        n == raw.len(),
        n >= 4,
        0 <= f <= n - 4,
        match_at(raw, " -> "@, f),
        forall|x: int| f < x < n - 4 + 1 ==> !match_at(raw, " -> "@, x),
    ensures
        rfind_from(raw, " -> "@, n - 4) == f,
{
    reveal_strlit(" -> ");
    text::lemma_rfind_from_is(raw, " -> "@, n - 4, f);
}

proof fn lemma_porcelain_rfind_none(raw: Seq<char>, n: int)
    requires
        n == raw.len(),
        n >= 4,
        forall|x: int| 0 <= x < n - 4 + 1 ==> !match_at(raw, " -> "@, x),
    ensures
        rfind_from(raw, " -> "@, n - 4) == -1,
{
    reveal_strlit(" -> ");
    assert forall|x: int| -1 < x <= n - 4 implies !match_at(raw, " -> "@, x) by {
        assert(0 <= x < n - 4 + 1);
    }
    text::lemma_rfind_from_is(raw, " -> "@, n - 4, -1);
}

/// The view of one parsed file status: its path and its label.
pub open spec fn fs_view(f: FileStatus) -> (Seq<char>, Seq<char>) {
    (f.path@, f.status@)
}

pub open spec fn statuses_view(fs: Seq<FileStatus>) -> Seq<(Seq<char>, Seq<char>)> {
    fs.map_values(|f: FileStatus| fs_view(f))
}

/// What one porcelain line contributes to the staged bucket. The first
/// column is the index status; an untracked marker claims the whole line.
/// Lines of fewer than three characters are noise and contribute nothing.
pub open spec fn line_staged(line: Seq<char>) -> Seq<(Seq<char>, Seq<char>)> {
    if line.len() < 3 {
        Seq::empty()
    } else if line[0] == '?' {
        Seq::empty()
    } else if line[0] != ' ' {
        seq![(porcelain_path_of(line.skip(3)), porcelain_status_of(line[0]))]
    } else {
        Seq::empty()
    }
}

/// What one porcelain line contributes to the unstaged bucket: the second
/// column, the worktree status.
pub open spec fn line_unstaged(line: Seq<char>) -> Seq<(Seq<char>, Seq<char>)> {
    if line.len() < 3 {
        Seq::empty()
    } else if line[0] == '?' {
        Seq::empty()
    } else if line[1] != ' ' && line[1] != '?' {
        seq![(porcelain_path_of(line.skip(3)), porcelain_status_of(line[1]))]
    } else {
        Seq::empty()
    }
}

/// What one porcelain line contributes to the untracked bucket.
pub open spec fn line_untracked(line: Seq<char>) -> Seq<(Seq<char>, Seq<char>)> {
    if line.len() < 3 {
        Seq::empty()
    } else if line[0] == '?' {
        seq![(porcelain_path_of(line.skip(3)), "untracked"@)]
    } else {
        Seq::empty()
    }
}

pub open spec fn porcelain_staged(lines: Seq<Seq<char>>) -> Seq<(Seq<char>, Seq<char>)>
    decreases lines.len(),
{
    if lines.len() == 0 {
        Seq::empty()
    } else {
        line_staged(lines.first()) + porcelain_staged(lines.drop_first())
    }
}

pub open spec fn porcelain_unstaged(lines: Seq<Seq<char>>) -> Seq<(Seq<char>, Seq<char>)>
    decreases lines.len(),
{
    if lines.len() == 0 {
        Seq::empty()
    } else {
        line_unstaged(lines.first()) + porcelain_unstaged(lines.drop_first())
    }
}

pub open spec fn porcelain_untracked(lines: Seq<Seq<char>>) -> Seq<(Seq<char>, Seq<char>)>
    decreases lines.len(),
{
    if lines.len() == 0 {
        Seq::empty()
    } else {
        line_untracked(lines.first()) + porcelain_untracked(lines.drop_first())
    }
}

/// Parse `git status --porcelain` output into categorized file lists:
/// (staged, unstaged, untracked).
///
/// Porcelain format: `XY PATH`, where `X` is the index status, `Y` the
/// worktree status; `?` marks an untracked file, and a rename is written
/// `old -> new`. Columns are read as characters.
pub fn parse_porcelain_status(output: &str) -> (r: (
    Vec<FileStatus>,
    Vec<FileStatus>,
    Vec<FileStatus>,
))
    ensures
        statuses_view(r.0@) == porcelain_staged(spec_lines_of(output@)),
        statuses_view(r.1@) == porcelain_unstaged(spec_lines_of(output@)),
        statuses_view(r.2@) == porcelain_untracked(spec_lines_of(output@)),
{
    let ghost lv = spec_lines_of(output@);
    let lines = text::split_lines(output);
    let mut staged: Vec<FileStatus> = Vec::new();
    let mut unstaged: Vec<FileStatus> = Vec::new();
    let mut untracked: Vec<FileStatus> = Vec::new();
    let mut i: usize = 0;
    proof {
        assert(lv.skip(0) =~= lv);
        assert(statuses_view(staged@) =~= Seq::<(Seq<char>, Seq<char>)>::empty());
        assert(statuses_view(staged@) + porcelain_staged(lv) =~= porcelain_staged(lv));
        assert(statuses_view(unstaged@) + porcelain_unstaged(lv) =~= porcelain_unstaged(lv));
        assert(statuses_view(untracked@) + porcelain_untracked(lv) =~= porcelain_untracked(lv));
    }
    while i < lines.len()
        invariant
            lv == spec_lines_of(output@),
            lines.deep_view() == lv,
            0 <= i <= lines@.len(),
            porcelain_staged(lv) == statuses_view(staged@) + porcelain_staged(lv.skip(i as int)),
            porcelain_unstaged(lv) == statuses_view(unstaged@) + porcelain_unstaged(
                lv.skip(i as int),
            ),
            porcelain_untracked(lv) == statuses_view(untracked@) + porcelain_untracked(
                lv.skip(i as int),
            ),
        decreases lines@.len() - i,
    {
        let ghost rem = lv.skip(i as int);
        let ghost pre_staged = staged@;
        let ghost pre_unstaged = unstaged@;
        let ghost pre_untracked = untracked@;
        proof {
            assert(rem.first() == lv[i as int]);
            assert(lv[i as int] == lines@[i as int]@);
            assert(rem.drop_first() =~= lv.skip(i as int + 1));
        }
        let line = &lines[i];
        let n = line.as_str().unicode_len();
        if n >= 3 {
            let x = line.as_str().get_char(0);
            let y = line.as_str().get_char(1);
            let raw = line.as_str().substring_char(3, n);
            let path = porcelain_path(raw);
            proof {
                assert(raw@ =~= rem.first().skip(3));
            }
            if x == '?' {
                untracked.push(
                    FileStatus { path, status: String::from_str("untracked") },
                );
                proof {
                    assert(statuses_view(untracked@) =~= statuses_view(pre_untracked)
                        + line_untracked(rem.first()));
                }
            } else {
                if x != ' ' {
                    let status = porcelain_char_to_status(x);
                    staged.push(FileStatus { path: path.clone(), status });
                    proof {
                        assert(statuses_view(staged@) =~= statuses_view(pre_staged) + line_staged(
                            rem.first(),
                        ));
                    }
                }
                if y != ' ' && y != '?' {
                    let status = porcelain_char_to_status(y);
                    unstaged.push(FileStatus { path, status });
                    proof {
                        assert(statuses_view(unstaged@) =~= statuses_view(pre_unstaged)
                            + line_unstaged(rem.first()));
                    }
                }
            }
        }
        proof {
            assert(statuses_view(staged@) =~= statuses_view(pre_staged) + line_staged(rem.first()));
            assert(statuses_view(unstaged@) =~= statuses_view(pre_unstaged) + line_unstaged(
                rem.first(),
            ));
            assert(statuses_view(untracked@) =~= statuses_view(pre_untracked) + line_untracked(
                rem.first(),
            ));
            assert(porcelain_staged(rem) =~= line_staged(rem.first()) + porcelain_staged(
                lv.skip(i as int + 1),
            ));
            assert(statuses_view(pre_staged) + (line_staged(rem.first()) + porcelain_staged(
                lv.skip(i as int + 1),
            )) =~= (statuses_view(pre_staged) + line_staged(rem.first())) + porcelain_staged(
                lv.skip(i as int + 1),
            ));
            assert(porcelain_unstaged(rem) =~= line_unstaged(rem.first()) + porcelain_unstaged(
                lv.skip(i as int + 1),
            ));
            assert(statuses_view(pre_unstaged) + (line_unstaged(rem.first()) + porcelain_unstaged(
                lv.skip(i as int + 1),
            )) =~= (statuses_view(pre_unstaged) + line_unstaged(rem.first())) + porcelain_unstaged(
                lv.skip(i as int + 1),
            ));
            assert(porcelain_untracked(rem) =~= line_untracked(rem.first()) + porcelain_untracked(
                lv.skip(i as int + 1),
            ));
            assert(statuses_view(pre_untracked) + (line_untracked(rem.first())
                + porcelain_untracked(lv.skip(i as int + 1))) =~= (statuses_view(pre_untracked)
                + line_untracked(rem.first())) + porcelain_untracked(lv.skip(i as int + 1)));
        }
        i = i + 1;
    }
    proof {
        assert(lv.skip(lines@.len() as int) =~= Seq::<Seq<char>>::empty());
    }
    (staged, unstaged, untracked)
}

} // verus!
