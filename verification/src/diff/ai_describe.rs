//! Natural-language hunk descriptions: the prompt handed to an external
//! description tool, and the parsing of its reply.
//!
//! Running the tool is the caller's business; this module only builds the
//! prompt text and reads the `BEFORE:` / `AFTER:` lines out of the reply.

use vstd::prelude::*;

use crate::text;
use crate::text::{join_nl_spec, spec_lines_of, trim_of};

verus! {

use vstd::string::StrSliceExecFns;
use vstd::string::StringExecFns;

/// Result of describing a hunk: what the old and the new code do, one line
/// each.
#[derive(Debug, Clone)]
pub struct HunkDescription {
    pub before: String,
    pub after: String,
}

/// The value of the first line that, once trimmed, starts with `field`: what
/// follows the field on that line, trimmed. None when no line carries the
/// field.
pub open spec fn extract_field_spec(lines: Seq<Seq<char>>, field: Seq<char>) -> Option<Seq<char>>
    decreases lines.len(),
{
    if lines.len() == 0 {
        Option::None
    } else {
        let t = trim_of(lines.first());
        if text::has_prefix(t, field) {
            Option::Some(trim_of(t.skip(field.len() as int)))
        } else {
            extract_field_spec(lines.drop_first(), field)
        }
    }
}

/// Find the first line of `response` that, trimmed, starts with `field`, and
/// return what follows the field on it, trimmed.
pub fn extract_field(response: &str, field: &str) -> (r: Option<String>)
    ensures
        r is Some <==> extract_field_spec(spec_lines_of(response@), field@) is Some,
        r matches Some(v) ==> v@ == extract_field_spec(spec_lines_of(response@), field@)->0,
{
    let ghost lv = spec_lines_of(response@);
    let lines = text::split_lines(response);
    let m = field.unicode_len();
    let mut i: usize = 0;
    proof {
        assert(lv.skip(0) =~= lv);
    }
    while i < lines.len()
        invariant
            lv == spec_lines_of(response@),
            lines.deep_view() == lv,
            m == field@.len(),
            0 <= i <= lines@.len(),
            extract_field_spec(lv, field@) == extract_field_spec(lv.skip(i as int), field@),
        decreases lines@.len() - i,
    {
        let ghost rem = lv.skip(i as int);
        proof {
            assert(rem.first() == lv[i as int]);
            assert(rem.drop_first() =~= lv.skip(i as int + 1));
            assert(lv[i as int] == lines@[i as int]@);
        }
        let trimmed = text::trim(lines[i].as_str());
        if text::starts_with(trimmed, field) {
            let n = trimmed.unicode_len();
            let value = trimmed.substring_char(m, n);
            proof {
                assert(trimmed@ == trim_of(rem.first()));
                assert(text::has_prefix(trim_of(rem.first()), field@));
                assert(extract_field_spec(rem, field@) == Option::Some(
                    trim_of(trim_of(rem.first()).skip(field@.len() as int)),
                ));
                assert(value@ =~= trim_of(rem.first()).skip(field@.len() as int));
            }
            let out = text::trim(value);
            return Some(out.to_owned());
        }
        i = i + 1;
    }
    proof {
        assert(lv.skip(lines@.len() as int) =~= Seq::<Seq<char>>::empty());
    }
    None
}

/// What a description field falls back to when the reply cannot be parsed.
pub open spec fn field_or(parsed: Option<Seq<char>>, fallback: Seq<char>) -> Seq<char> {
    if parsed is Some {
        parsed->0
    } else {
        fallback
    }
}

/// Parse a description reply: trim it, then read its `BEFORE:` and `AFTER:`
/// lines, falling back to a fixed note for a field that cannot be found.
pub fn parse_hunk_description(response: &str) -> (r: HunkDescription)
    ensures
        r.before@ == field_or(
            extract_field_spec(spec_lines_of(trim_of(response@)), "BEFORE:"@),
            "Could not parse before description"@,
        ),
        r.after@ == field_or(
            extract_field_spec(spec_lines_of(trim_of(response@)), "AFTER:"@),
            "Could not parse after description"@,
        ),
{
    let trimmed = text::trim(response);
    let before = match extract_field(trimmed, "BEFORE:") {
        Some(v) => v,
        None => String::from_str("Could not parse before description"),
    };
    let after = match extract_field(trimmed, "AFTER:") {
        Some(v) => v,
        None => String::from_str("Could not parse after description"),
    };
    HunkDescription { before, after }
}

/// The stand-in text for an empty side of the change.
pub open spec fn side_or_placeholder(lines: Seq<Seq<char>>, placeholder: Seq<char>) -> Seq<char> {
    if lines.len() == 0 {
        placeholder
    } else {
        join_nl_spec(lines)
    }
}

/// The full prompt for one hunk.
pub open spec fn hunk_prompt_of(
    path: Seq<char>,
    before_lines: Seq<Seq<char>>,
    after_lines: Seq<Seq<char>>,
) -> Seq<char> {
    "Describe this code change concisely. Output EXACTLY in this format with no other text:\n\nBEFORE: <one line describing what the old code did>\nAFTER: <one line describing what the new code does>\n\nFile: "@
        + path + "\n\nOld code:\n```\n"@ + side_or_placeholder(
        before_lines,
        "(empty - new content)"@,
    ) + "\n```\n\nNew code:\n```\n"@ + side_or_placeholder(
        after_lines,
        "(empty - deleted content)"@,
    ) + "\n```"@
}

/// Build the prompt asking for a description of one code change.
pub fn build_hunk_prompt(
    file_path: &str,
    before_lines: &Vec<String>,
    after_lines: &Vec<String>,
) -> (r: String)
    ensures
        r@ == hunk_prompt_of(file_path@, before_lines.deep_view(), after_lines.deep_view()),
{
    let mut prompt = String::from_str(
        "Describe this code change concisely. Output EXACTLY in this format with no other text:\n\nBEFORE: <one line describing what the old code did>\nAFTER: <one line describing what the new code does>\n\nFile: ",
    );
    prompt.append(file_path);
    prompt.append("\n\nOld code:\n```\n");
    if before_lines.len() == 0 {
        prompt.append("(empty - new content)");
    } else {
        let joined = text::join_nl(before_lines);
        prompt.append(joined.as_str());
    }
    prompt.append("\n```\n\nNew code:\n```\n");
    if after_lines.len() == 0 {
        prompt.append("(empty - deleted content)");
    } else {
        let joined = text::join_nl(after_lines);
        prompt.append(joined.as_str());
    }
    prompt.append("\n```");
    prompt
}

} // verus!
