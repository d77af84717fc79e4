//! Review data: comments and edits attached to a diff, and the markdown
//! export of a review.
//!
//! Reviews are stored by a storage layer outside this crate, keyed by
//! [`DiffId`]; the selection codec here fixes how a comment's location is
//! flattened into plain columns and read back.

use vstd::prelude::*;

use crate::diff::types::{DiffId, Span};
use crate::text;
use crate::text::{dec_str, has_suffix, lex_lt};

verus! {

use vstd::string::{StrSliceExecFns, StringExecFns};

/// A review attached to a specific diff.
#[derive(Debug, Clone)]
pub struct Review {
    pub id: DiffId,
    /// Paths that have been marked as reviewed.
    pub reviewed: Vec<String>,
    /// Comments attached to specific locations.
    pub comments: Vec<Comment>,
    /// Edits made during review (stored as diffs).
    pub edits: Vec<Edit>,
}

impl Review {
    pub fn new(id: DiffId) -> (r: Self)
        ensures
            r.id == id,
            r.reviewed@.len() == 0,
            r.comments@.len() == 0,
            r.edits@.len() == 0,
    {
        Self { id, reviewed: Vec::new(), comments: Vec::new(), edits: Vec::new() }
    }
}

/// Relies on uuid::Uuid::new_v4 and its hyphenated display form: a fresh
/// random identifier rendered as 36 characters. Nothing more can be promised
/// of a random value. Note that new_v4 draws from the operating system's
/// randomness source and does not return if that source fails — an
/// environmental failure of the same kind as running out of memory.
#[verifier::external_body]
fn new_uuid_string() -> (r: String)
    ensures
        r@.len() == 36,
{
    uuid::Uuid::new_v4().to_string()
}

/// A comment attached to a specific location in a file.
#[derive(Debug, Clone)]
pub struct Comment {
    pub id: String,
    pub path: String,
    pub selection: Selection,
    pub content: String,
}

impl Comment {
    /// A new comment under a fresh random id.
    pub fn new(path: String, selection: Selection, content: String) -> (c: Self)
        ensures
            c.path == path,
            c.selection == selection,
            c.content == content,
            c.id@.len() == 36,
    {
        Self { id: new_uuid_string(), path, selection, content }
    }
}

/// Where a comment applies.
#[derive(Debug, Clone, Copy, PartialEq, Eq, Structural)]
pub enum Selection {
    /// Applies to the whole file.
    Global,
    /// Applies to a specific line (0-indexed).
    Line { line: u32 },
    /// Applies to a range of lines.
    Range { span: Span },
}

/// An edit made during review, stored as a unified diff.
#[derive(Debug, Clone)]
pub struct Edit {
    pub id: String,
    pub path: String,
    /// Unified diff format.
    pub diff: String,
}

impl Edit {
    /// A new edit under a fresh random id.
    pub fn new(path: String, diff: String) -> (e: Self)
        ensures
            e.path == path,
            e.diff == diff,
            e.id@.len() == 36,
    {
        Self { id: new_uuid_string(), path, diff }
    }
}

/// Input for creating a new comment (from the frontend).
#[derive(Debug, Clone)]
pub struct NewComment {
    pub path: String,
    pub selection: Selection,
    pub content: String,
}

/// Input for recording a new edit (from the frontend).
#[derive(Debug, Clone)]
pub struct NewEdit {
    pub path: String,
    pub diff: String,
}

/// Error type for review storage operations.
#[derive(Debug, Clone)]
pub struct ReviewError(pub String);

impl ReviewError {
    pub fn new(msg: String) -> (r: Self)
        ensures
            r.0 == msg,
    {
        Self(msg)
    }
}

/// How a selection is flattened into storage columns: a tag, a line, and a
/// range start and end.
pub open spec fn selection_parts_of(sel: Selection) -> (
    Seq<char>,
    Option<u32>,
    Option<u32>,
    Option<u32>,
) {
    match sel {
        Selection::Global => ("global"@, Option::None, Option::None, Option::None),
        Selection::Line { line } => ("line"@, Option::Some(line), Option::None, Option::None),
        Selection::Range { span } => (
            "range"@,
            Option::None,
            Option::Some(span.start),
            Option::Some(span.end),
        ),
    }
}

/// Flatten a selection into storage columns.
pub fn selection_to_parts(sel: &Selection) -> (r: (
    &'static str,
    Option<u32>,
    Option<u32>,
    Option<u32>,
))
    ensures
        (r.0@, r.1, r.2, r.3) == selection_parts_of(*sel),
{
    match sel {
        Selection::Global => ("global", None, None, None),
        Selection::Line { line } => ("line", Some(*line), None, None),
        Selection::Range { span } => ("range", None, Some(span.start), Some(span.end)),
    }
}

/// How storage columns are read back: an unknown tag falls back to a global
/// selection, and a missing column to zero.
pub open spec fn selection_of_parts(
    tag: Seq<char>,
    line: Option<u32>,
    start: Option<u32>,
    end: Option<u32>,
) -> Selection {
    if tag == "line"@ {
        Selection::Line {
            line: if line is Some {
                line->0
            } else {
                0
            },
        }
    } else if tag == "range"@ {
        Selection::Range {
            span: Span {
                start: if start is Some {
                    start->0
                } else {
                    0
                },
                end: if end is Some {
                    end->0
                } else {
                    0
                },
            },
        }
    } else {
        Selection::Global
    }
}

/// Read a selection back from storage columns.
pub fn selection_from_parts(
    tag: &str,
    line: Option<u32>,
    start: Option<u32>,
    end: Option<u32>,
) -> (r: Selection)
    ensures
        r == selection_of_parts(tag@, line, start, end),
{
    if text::str_eq(tag, "line") {
        Selection::Line {
            line: match line {
                Some(l) => l,
                None => 0,
            },
        }
    } else if text::str_eq(tag, "range") {
        Selection::Range {
            span: Span {
                start: match start {
                    Some(s) => s,
                    None => 0,
                },
                end: match end {
                    Some(e) => e,
                    None => 0,
                },
            },
        }
    } else {
        Selection::Global
    }
}

/// A selection written to storage columns and read back is itself: the codec
/// round-trips.
pub proof fn lemma_selection_codec_round_trip(sel: Selection)
    ensures
        ({
            let (tag, line, start, end) = selection_parts_of(sel);
            selection_of_parts(tag, line, start, end) == sel
        }),
{
    broadcast use vstd::string::group_string_axioms;

    reveal_strlit("global");
    reveal_strlit("line");
    reveal_strlit("range");
    assert("global"@.len() == 6);
    assert("line"@.len() == 4);
    assert("range"@.len() == 5);
}

/// The location label of a comment in the markdown export: 1-indexed for
/// display.
pub open spec fn location_of(sel: Selection) -> Seq<char> {
    match sel {
        Selection::Global => "File"@,
        Selection::Line { line } => "Line "@ + dec_str(line as nat + 1),
        Selection::Range { span } => "Lines "@ + dec_str(span.start as nat + 1) + "-"@ + dec_str(
            span.end as nat,
        ),
    }
}

fn location_string(sel: &Selection) -> (r: String)
    ensures
        r@ == location_of(*sel),
{
    match sel {
        Selection::Global => String::from_str("File"),
        Selection::Line { line } => {
            let mut r = String::from_str("Line ");
            let num = text::u64_to_string(*line as u64 + 1);
            r.append(num.as_str());
            r
        },
        Selection::Range { span } => {
            let mut r = String::from_str("Lines ");
            let num = text::u64_to_string(span.start as u64 + 1);
            r.append(num.as_str());
            r.append("-");
            let num2 = text::u64_to_string(span.end as u64);
            r.append(num2.as_str());
            r
        },
    }
}

/// The comment bullet lines of one file's section, in comment order.
pub open spec fn comment_lines_md(cs: Seq<Comment>, p: Seq<char>) -> Seq<char>
    decreases cs.len(),
{
    if cs.len() == 0 {
        Seq::empty()
    } else {
        (if cs.first().path@ == p {
            "- **"@ + location_of(cs.first().selection) + "**: "@ + cs.first().content@ + seq![
                '\n',
            ]
        } else {
            Seq::empty()
        }) + comment_lines_md(cs.drop_first(), p)
    }
}

/// One edit's block: the diff fenced as such, a newline supplied when the
/// diff lacks its own.
pub open spec fn edit_block_of(e: Edit) -> Seq<char> {
    "**Edit applied:**\n```diff\n"@ + e.diff@ + (if has_suffix(e.diff@, "\n"@) {
        Seq::<char>::empty()
    } else {
        seq!['\n']
    }) + "```\n\n"@
}

/// The edit blocks of one file's section, in edit order.
pub open spec fn edit_blocks_md(es: Seq<Edit>, p: Seq<char>) -> Seq<char>
    decreases es.len(),
{
    if es.len() == 0 {
        Seq::empty()
    } else {
        (if es.first().path@ == p {
            edit_block_of(es.first())
        } else {
            Seq::empty()
        }) + edit_blocks_md(es.drop_first(), p)
    }
}

pub open spec fn any_comment_for(cs: Seq<Comment>, p: Seq<char>) -> bool {
    exists|k: int| 0 <= k < cs.len() && (#[trigger] cs[k]).path@ == p
}

pub open spec fn any_edit_for(es: Seq<Edit>, p: Seq<char>) -> bool {
    exists|k: int| 0 <= k < es.len() && (#[trigger] es[k]).path@ == p
}

/// One file's section: heading, its comments (followed by a blank line, when
/// there are any), then its edits.
pub open spec fn file_md(p: Seq<char>, cs: Seq<Comment>, es: Seq<Edit>) -> Seq<char> {
    "## "@ + p + "\n\n"@ + (if any_comment_for(cs, p) {
        comment_lines_md(cs, p) + seq!['\n']
    } else {
        Seq::<char>::empty()
    }) + edit_blocks_md(es, p)
}

pub open spec fn files_md(files: Seq<String>, cs: Seq<Comment>, es: Seq<Edit>) -> Seq<char>
    decreases files.len(),
{
    if files.len() == 0 {
        Seq::empty()
    } else {
        file_md(files.first()@, cs, es) + files_md(files.drop_first(), cs, es)
    }
}

/// A path inserted into a sorted list of distinct paths, compared by
/// content: already-present paths are not duplicated.
pub open spec fn insert_sorted_spec(p: String, files: Seq<String>) -> Seq<String>
    decreases files.len(),
{
    if files.len() == 0 {
        seq![p]
    } else if p@ == files.first()@ {
        files
    } else if lex_lt(p@, files.first()@) {
        seq![p] + files
    } else {
        seq![files.first()] + insert_sorted_spec(p, files.drop_first())
    }
}

/// The file list after the comments' paths are inserted, in order.
pub open spec fn files_of_comments(cs: Seq<Comment>, acc: Seq<String>) -> Seq<String>
    decreases cs.len(),
{
    if cs.len() == 0 {
        acc
    } else {
        files_of_comments(cs.drop_first(), insert_sorted_spec(cs.first().path, acc))
    }
}

/// The file list after the edits' paths are inserted, in order.
pub open spec fn files_of_edits(es: Seq<Edit>, acc: Seq<String>) -> Seq<String>
    decreases es.len(),
{
    if es.len() == 0 {
        acc
    } else {
        files_of_edits(es.drop_first(), insert_sorted_spec(es.first().path, acc))
    }
}

/// Every file mentioned by a comment or an edit, sorted, without duplicates.
pub open spec fn collected_files(r: Review) -> Seq<String> {
    files_of_edits(r.edits@, files_of_comments(r.comments@, Seq::empty()))
}

/// The full markdown export of a review.
pub open spec fn export_md_of(r: Review) -> Seq<char> {
    let md = files_md(collected_files(r), r.comments@, r.edits@);
    if md.len() == 0 {
        "No comments or edits.\n"@
    } else {
        md
    }
}

/// Insert a path into the sorted file list, unless an equal path is already
/// there.
fn insert_sorted(files: &mut Vec<String>, p: String)
    ensures
        final(files)@ == insert_sorted_spec(p, old(files)@),
{
    let ghost orig = files@;
    let mut k: usize = 0;
    proof {
        assert(orig.take(0) =~= Seq::<String>::empty());
        assert(orig.skip(0) =~= orig);
        assert(Seq::<String>::empty() + insert_sorted_spec(p, orig) =~= insert_sorted_spec(
            p,
            orig,
        ));
    }
    while k < files.len()
        invariant
            orig == old(files)@,
            files@ == orig,
            0 <= k <= orig.len(),
            insert_sorted_spec(p, orig) == orig.take(k as int) + insert_sorted_spec(
                p,
                orig.skip(k as int),
            ),
        decreases orig.len() - k,
    {
        let ghost rem = orig.skip(k as int);
        proof {
            assert(rem.first() == orig[k as int]);
            assert(rem.drop_first() =~= orig.skip(k as int + 1));
        }
        if text::str_eq(p.as_str(), files[k].as_str()) {
            proof {
                assert(insert_sorted_spec(p, rem) == rem);
                assert(orig.take(k as int) + rem =~= orig);
            }
            return ;
        }
        if text::str_lt(p.as_str(), files[k].as_str()) {
            proof {
                assert(insert_sorted_spec(p, rem) == seq![p] + rem);
                assert(orig.take(k as int) + (seq![p] + rem) =~= orig.insert(k as int, p));
            }
            files.insert(k, p);
            return ;
        }
        proof {
            assert(insert_sorted_spec(p, rem) == seq![rem.first()] + insert_sorted_spec(
                p,
                rem.drop_first(),
            ));
            assert(orig.take(k as int) + (seq![rem.first()] + insert_sorted_spec(
                p,
                orig.skip(k as int + 1),
            )) =~= orig.take(k as int + 1) + insert_sorted_spec(p, orig.skip(k as int + 1)));
        }
        k = k + 1;
    }
    proof {
        assert(orig.skip(orig.len() as int) =~= Seq::<String>::empty());
        assert(insert_sorted_spec(p, orig.skip(orig.len() as int)) == seq![p]);
        assert(orig.take(orig.len() as int) =~= orig);
        assert(orig + seq![p] =~= orig.push(p));
    }
    files.push(p);
}

/// Whether any comment applies to the given file.
fn has_comment_for(comments: &Vec<Comment>, p: &str) -> (r: bool)
    ensures
        r == any_comment_for(comments@, p@),
{
    let mut i: usize = 0;
    while i < comments.len()
        invariant
            0 <= i <= comments@.len(),
            forall|k: int| 0 <= k < i ==> (#[trigger] comments@[k]).path@ != p@,
        decreases comments@.len() - i,
    {
        if text::str_eq(comments[i].path.as_str(), p) {
            return true;
        }
        i = i + 1;
    }
    false
}

/// Export a review as markdown: one section per file, its comments as
/// bullets with 1-indexed locations, its edits as fenced diffs; a fixed note
/// when the review holds nothing.
pub fn export_markdown(review: &Review) -> (r: String)
    ensures
        r@ == export_md_of(*review),
{
    let ghost cs = review.comments@;
    let ghost es = review.edits@;

    // collect the files that have comments or edits, sorted, without
    // duplicates
    let mut files: Vec<String> = Vec::new();
    let mut i: usize = 0;
    proof {
        assert(cs.skip(0) =~= cs);
    }
    while i < review.comments.len()
        invariant
            cs == review.comments@,
            0 <= i <= cs.len(),
            files_of_comments(cs, Seq::empty()) == files_of_comments(cs.skip(i as int), files@),
        decreases cs.len() - i,
    {
        let ghost rem = cs.skip(i as int);
        proof {
            assert(rem.first() == cs[i as int]);
            assert(rem.drop_first() =~= cs.skip(i as int + 1));
        }
        insert_sorted(&mut files, review.comments[i].path.clone());
        i = i + 1;
    }
    proof {
        assert(cs.skip(cs.len() as int) =~= Seq::<Comment>::empty());
        assert(es.skip(0) =~= es);
    }
    let mut j: usize = 0;
    while j < review.edits.len()
        invariant
            cs == review.comments@,
            es == review.edits@,
            0 <= j <= es.len(),
            collected_files(*review) == files_of_edits(es.skip(j as int), files@),
        decreases es.len() - j,
    {
        let ghost rem = es.skip(j as int);
        proof {
            assert(rem.first() == es[j as int]);
            assert(rem.drop_first() =~= es.skip(j as int + 1));
        }
        insert_sorted(&mut files, review.edits[j].path.clone());
        j = j + 1;
    }
    proof {
        assert(es.skip(es.len() as int) =~= Seq::<Edit>::empty());
    }

    // build the sections in file order
    let mut md = String::new();
    let ghost fv = files@;
    let mut f: usize = 0;
    proof {
        assert(fv.skip(0) =~= fv);
        assert(md@ + files_md(fv, cs, es) =~= files_md(fv, cs, es));
    }
    while f < files.len()
        invariant
            cs == review.comments@,
            es == review.edits@,
            fv == files@,
            0 <= f <= fv.len(),
            files_md(fv, cs, es) == md@ + files_md(fv.skip(f as int), cs, es),
        decreases fv.len() - f,
    {
        let ghost rem = fv.skip(f as int);
        let ghost pre = md@;
        proof {
            assert(rem.first() == fv[f as int]);
            assert(rem.drop_first() =~= fv.skip(f as int + 1));
        }
        let file = &files[f];
        md.append("## ");
        md.append(file.as_str());
        md.append("\n\n");

        if has_comment_for(&review.comments, file.as_str()) {
            let ghost pre_c = md@;
            let mut ci: usize = 0;
            proof {
                assert(cs.skip(0) =~= cs);
                assert(md@ + comment_lines_md(cs, file@) =~= pre_c + comment_lines_md(cs, file@));
            }
            while ci < review.comments.len()
                invariant
                    cs == review.comments@,
                    0 <= ci <= cs.len(),
                    pre_c + comment_lines_md(cs, file@) == md@ + comment_lines_md(
                        cs.skip(ci as int),
                        file@,
                    ),
                decreases cs.len() - ci,
            {
                let ghost crem = cs.skip(ci as int);
                let ghost pre_line = md@;
                proof {
                    assert(crem.first() == cs[ci as int]);
                    assert(crem.drop_first() =~= cs.skip(ci as int + 1));
                }
                let c = &review.comments[ci];
                if text::str_eq(c.path.as_str(), file.as_str()) {
                    md.append("- **");
                    let loc = location_string(&c.selection);
                    md.append(loc.as_str());
                    md.append("**: ");
                    md.append(c.content.as_str());
                    text::push_char(&mut md, '\n');
                    proof {
                        let piece = "- **"@ + location_of(c.selection) + "**: "@ + c.content@
                            + seq!['\n'];
                        assert(loc@ == location_of(c.selection));
                        assert(md@ =~= pre_line + piece);
                        assert(comment_lines_md(crem, file@) =~= piece + comment_lines_md(
                            cs.skip(ci as int + 1),
                            file@,
                        ));
                        assert(pre_line + (piece + comment_lines_md(cs.skip(ci as int + 1), file@))
                            =~= (pre_line + piece) + comment_lines_md(
                            cs.skip(ci as int + 1),
                            file@,
                        ));
                    }
                } else {
                    proof {
                        assert(comment_lines_md(crem, file@) =~= comment_lines_md(
                            cs.skip(ci as int + 1),
                            file@,
                        ));
                    }
                }
                ci = ci + 1;
            }
            text::push_char(&mut md, '\n');
            proof {
                assert(cs.skip(cs.len() as int) =~= Seq::<Comment>::empty());
                assert(md@ =~= pre_c + (comment_lines_md(cs, file@) + seq!['\n']));
            }
        }

        let ghost pre_e = md@;
        let mut ei: usize = 0;
        proof {
            assert(es.skip(0) =~= es);
            assert(md@ + edit_blocks_md(es, file@) =~= pre_e + edit_blocks_md(es, file@));
        }
        while ei < review.edits.len()
            invariant
                es == review.edits@,
                0 <= ei <= es.len(),
                pre_e + edit_blocks_md(es, file@) == md@ + edit_blocks_md(
                    es.skip(ei as int),
                    file@,
                ),
            decreases es.len() - ei,
        {
            let ghost erem = es.skip(ei as int);
            let ghost pre_block = md@;
            proof {
                assert(erem.first() == es[ei as int]);
                assert(erem.drop_first() =~= es.skip(ei as int + 1));
            }
            let e = &review.edits[ei];
            if text::str_eq(e.path.as_str(), file.as_str()) {
                md.append("**Edit applied:**\n```diff\n");
                md.append(e.diff.as_str());
                if !text::ends_with(e.diff.as_str(), "\n") {
                    text::push_char(&mut md, '\n');
                }
                md.append("```\n\n");
                proof {
                    assert(md@ =~= pre_block + edit_block_of(*e));
                    assert(edit_blocks_md(erem, file@) =~= edit_block_of(*e) + edit_blocks_md(
                        es.skip(ei as int + 1),
                        file@,
                    ));
                    assert(pre_block + (edit_block_of(*e) + edit_blocks_md(
                        es.skip(ei as int + 1),
                        file@,
                    )) =~= (pre_block + edit_block_of(*e)) + edit_blocks_md(
                        es.skip(ei as int + 1),
                        file@,
                    ));
                }
            } else {
                proof {
                    assert(edit_blocks_md(erem, file@) =~= edit_blocks_md(
                        es.skip(ei as int + 1),
                        file@,
                    ));
                }
            }
            ei = ei + 1;
        }
        proof {
            assert(es.skip(es.len() as int) =~= Seq::<Edit>::empty());
            assert(md@ =~= pre + file_md(rem.first()@, cs, es));
            assert(files_md(rem, cs, es) =~= file_md(rem.first()@, cs, es) + files_md(
                fv.skip(f as int + 1),
                cs,
                es,
            ));
            assert(pre + (file_md(rem.first()@, cs, es) + files_md(fv.skip(f as int + 1), cs, es))
                =~= (pre + file_md(rem.first()@, cs, es)) + files_md(fv.skip(f as int + 1), cs, es));
        }
        f = f + 1;
    }
    proof {
        assert(fv.skip(fv.len() as int) =~= Seq::<String>::empty());
    }

    if md.as_str().unicode_len() == 0 {
        String::from_str("No comments or edits.\n")
    } else {
        md
    }
}

} // verus!
