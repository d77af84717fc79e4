//! Verified string utilities: character-level equality, line splitting and
//! prefix/suffix/substring tests over `Seq<char>` views.
//!
//! The executable functions here read strings one character at a time, which
//! costs O(n) per access on multi-byte text; inputs are per-file,
//! interactive-scale, so clarity wins over speed.

use vstd::prelude::*;
use vstd::string::{StrSliceExecFns, StringExecFns};

verus! {

/// Character-for-character string equality.
pub fn str_eq(a: &str, b: &str) -> (r: bool)
    ensures
        r == (a@ == b@),
{
    let n = a.unicode_len();
    if n != b.unicode_len() {
        proof {
            assert(a@.len() != b@.len());
        }
        return false;
    }
    let mut i: usize = 0;
    while i < n
        invariant
            n == a@.len(),
            n == b@.len(),
            0 <= i <= n,
            forall|k: int| 0 <= k < i ==> a@[k] == b@[k],
        decreases n - i,
    {
        if a.get_char(i) != b.get_char(i) {
            return false;
        }
        i = i + 1;
    }
    proof {
        assert(a@ =~= b@);
    }
    true
}

/// The position of the first newline character in `s`, or `s.len()` if
/// there is none.
pub open spec fn first_nl(s: Seq<char>) -> int
    decreases s.len(),
{
    if s.len() == 0 {
        0
    } else if s[0] == '\n' {
        0
    } else {
        1 + first_nl(s.drop_first())
    }
}

pub proof fn lemma_first_nl_bounds(s: Seq<char>)
    ensures
        0 <= first_nl(s) <= s.len(),
        first_nl(s) < s.len() ==> s[first_nl(s)] == '\n',
        forall|k: int| 0 <= k < first_nl(s) ==> s[k] != '\n',
    decreases s.len(),
{
    if s.len() == 0 {
    } else if s[0] == '\n' {
    } else {
        lemma_first_nl_bounds(s.drop_first());
        assert forall|k: int| 0 <= k < first_nl(s) implies s[k] != '\n' by {
            if k > 0 {
                assert(s.drop_first()[k - 1] == s[k]);
            }
        }
    }
}

/// Conversely: if no newline stands before `i`, and `i` is either the end of
/// the string or a newline, then `i` is the first newline position.
pub proof fn lemma_first_nl_is(s: Seq<char>, i: int)
    requires
        0 <= i <= s.len(),
        forall|k: int| 0 <= k < i ==> s[k] != '\n',
        i < s.len() ==> s[i] == '\n',
    ensures
        first_nl(s) == i,
    decreases s.len(),
{
    if s.len() == 0 {
    } else if s[0] == '\n' {
    } else {
        assert forall|k: int| 0 <= k < i - 1 implies s.drop_first()[k] != '\n' by {
            assert(s.drop_first()[k] == s[k + 1]);
        }
        lemma_first_nl_is(s.drop_first(), i - 1);
    }
}

/// A line terminated by a newline may carry a carriage return just before
/// it; that carriage return belongs to the line ending, not to the line.
pub open spec fn chomp_cr(line: Seq<char>) -> Seq<char> {
    if line.len() > 0 && line.last() == '\r' {
        line.drop_last()
    } else {
        line
    }
}

/// The lines of a text, split at `\n` or `\r\n`, line terminators excluded.
/// A final line ending is optional: text ending in a terminator yields the
/// same lines as the same text without it. A carriage return not followed by
/// a newline stays part of its line.
pub open spec fn spec_lines_of(s: Seq<char>) -> Seq<Seq<char>>
    decreases s.len(),
{
    if s.len() == 0 {
        Seq::empty()
    } else {
        let i = first_nl(s);
        proof {
            lemma_first_nl_bounds(s);
        }
        if i == s.len() {
            seq![s]
        } else {
            seq![chomp_cr(s.take(i))] + spec_lines_of(s.skip(i + 1))
        }
    }
}

/// Split a text into its lines, as [`spec_lines_of`] describes.
pub fn split_lines(s: &str) -> (r: Vec<String>)
    ensures
        r.deep_view() == spec_lines_of(s@),
{
    let n = s.unicode_len();
    let mut out: Vec<String> = Vec::new();
    let mut i: usize = 0;
    proof {
        assert(s@.skip(0) =~= s@);
    }
    while i < n
        invariant
            n == s@.len(),
            0 <= i <= n,
            spec_lines_of(s@) == out.deep_view() + spec_lines_of(s@.skip(i as int)),
        decreases n - i,
    {
        let ghost pre_out = out.deep_view();
        let ghost rem = s@.skip(i as int);
        // find the next newline at or after i
        let mut j: usize = i;
        while j < n && s.get_char(j) != '\n'
            invariant
                n == s@.len(),
                i <= j <= n,
                forall|k: int| i <= k < j ==> s@[k] != '\n',
            decreases n - j,
        {
            j = j + 1;
        }
        proof {
            assert forall|k: int| 0 <= k < j - i implies rem[k] != '\n' by {
                assert(rem[k] == s@[i + k]);
            }
            if j < n {
                assert(rem[j - i] == s@[j as int]);
            }
            lemma_first_nl_is(rem, j - i);
        }
        if j >= n {
            // no further newline: the rest is the final line, kept as it is
            let line = s.substring_char(i, n);
            out.push(line.to_owned());
            proof {
                assert(s@.subrange(i as int, n as int) =~= rem);
                assert(out.deep_view() =~= pre_out + seq![rem]);
                assert(spec_lines_of(rem) =~= seq![rem]);
                assert(s@.skip(n as int) =~= Seq::<char>::empty());
                assert(pre_out + seq![rem] + spec_lines_of(s@.skip(n as int)) =~= pre_out + (seq![
                    rem,
                ] + spec_lines_of(s@.skip(n as int))));
            }
            i = n;
        } else {
            // the segment [i, j) is a line; drop a carriage return that
            // stands immediately before the newline
            let seg_end = if j > i && s.get_char(j - 1) == '\r' {
                j - 1
            } else {
                j
            };
            let line = s.substring_char(i, seg_end);
            out.push(line.to_owned());
            proof {
                let seg = rem.take(j - i);
                assert(seg =~= s@.subrange(i as int, j as int));
                if j > i && s@[j - 1] == '\r' {
                    assert(seg.last() == s@[j - 1]);
                    assert(chomp_cr(seg) =~= s@.subrange(i as int, j - 1));
                } else {
                    if seg.len() > 0 {
                        assert(seg.last() == s@[j - 1]);
                    }
                    assert(chomp_cr(seg) =~= seg);
                }
                assert(s@.subrange(i as int, seg_end as int) =~= chomp_cr(seg));
                assert(out.deep_view() =~= pre_out + seq![chomp_cr(seg)]);
                assert(rem.skip(j - i + 1) =~= s@.skip(j + 1));
                assert(spec_lines_of(rem) =~= seq![chomp_cr(seg)] + spec_lines_of(s@.skip(j + 1)));
                assert(pre_out + seq![chomp_cr(seg)] + spec_lines_of(s@.skip(j + 1)) =~= pre_out
                    + (seq![chomp_cr(seg)] + spec_lines_of(s@.skip(j + 1))));
            }
            i = j + 1;
        }
    }
    proof {
        assert(s@.skip(n as int) =~= Seq::<char>::empty());
    }
    out
}

/// One character appended to a string.
///
/// Relies on String::push: appends exactly the given character.
#[verifier::external_body]
pub fn push_char(s: &mut String, c: char)
    ensures
        final(s)@ == old(s)@.push(c),
{
    s.push(c);
}

/// Lexicographic order on character sequences by scalar value — the order
/// `str` comparison uses, since UTF-8 preserves code point order.
pub open spec fn lex_lt(a: Seq<char>, b: Seq<char>) -> bool
    decreases a.len(),
{
    if b.len() == 0 {
        false
    } else if a.len() == 0 {
        true
    } else if (a[0] as u32) < (b[0] as u32) {
        true
    } else if a[0] == b[0] {
        lex_lt(a.drop_first(), b.drop_first())
    } else {
        false
    }
}

/// Character-for-character lexicographic comparison.
pub fn str_lt(a: &str, b: &str) -> (r: bool)
    ensures
        r == lex_lt(a@, b@),
{
    let n = a.unicode_len();
    let m = b.unicode_len();
    let mut i: usize = 0;
    proof {
        assert(a@.skip(0) =~= a@);
        assert(b@.skip(0) =~= b@);
    }
    loop
        invariant
            n == a@.len(),
            m == b@.len(),
            0 <= i <= n,
            i <= m,
            forall|k: int| 0 <= k < i ==> a@[k] == b@[k],
            lex_lt(a@, b@) == lex_lt(a@.skip(i as int), b@.skip(i as int)),
        ensures
            lex_lt(a@, b@) == (if i < n && i < m {
                (a@[i as int] as u32) < (b@[i as int] as u32)
            } else {
                i >= n && i < m
            }),
        decreases n - i,
    {
        let ghost ra = a@.skip(i as int);
        let ghost rb = b@.skip(i as int);
        if i >= n || i >= m {
            proof {
                if i >= n && i < m {
                    assert(ra.len() == 0 && rb.len() > 0);
                } else if i >= m {
                    assert(rb.len() == 0);
                }
            }
            break ;
        }
        let ca = a.get_char(i);
        let cb = b.get_char(i);
        proof {
            assert(ra[0] == a@[i as int]);
            assert(rb[0] == b@[i as int]);
        }
        if ca as u32 != cb as u32 {
            proof {
                if (ra[0] as u32) < (rb[0] as u32) {
                    assert(lex_lt(ra, rb));
                } else {
                    assert(ra[0] != rb[0]);
                    assert(!lex_lt(ra, rb));
                }
            }
            break ;
        }
        proof {
            assert(ra[0] == rb[0]);
            assert(ra.drop_first() =~= a@.skip(i as int + 1));
            assert(rb.drop_first() =~= b@.skip(i as int + 1));
        }
        i = i + 1;
    }
    if i < n {
        if i < m {
            (a.get_char(i) as u32) < (b.get_char(i) as u32)
        } else {
            false
        }
    } else {
        i < m
    }
}

/// The decimal digit character for a value below ten.
pub open spec fn digit_char(d: nat) -> char {
    ((48 + d) as u8) as char
}

/// The decimal rendering of a number, most significant digit first, with no
/// leading zeros (zero itself rendered as one digit).
pub open spec fn dec_str(n: nat) -> Seq<char>
    decreases n,
{
    if n < 10 {
        seq![digit_char(n)]
    } else {
        dec_str(n / 10) + seq![digit_char(n % 10)]
    }
}

/// Render a number in decimal.
pub fn u64_to_string(n: u64) -> (r: String)
    ensures
        r@ == dec_str(n as nat),
{
    // digits come out least significant first
    let mut digits: Vec<u8> = Vec::new();
    let mut m = n;
    loop
        invariant_except_break
            dec_str(n as nat) == dec_str(m as nat) + digits@.map_values(
                |d: u8| d as char,
            ).reverse(),
            forall|k: int| 0 <= k < digits@.len() ==> 48 <= #[trigger] digits@[k] < 58,
        ensures
            dec_str(n as nat) == digits@.map_values(|d: u8| d as char).reverse(),
            forall|k: int| 0 <= k < digits@.len() ==> 48 <= #[trigger] digits@[k] < 58,
            digits@.len() >= 1,
        decreases m,
    {
        let ghost pre = digits@;
        let d: u8 = 48 + (m % 10) as u8;
        digits.push(d);
        proof {
            let cs = |x: u8| x as char;
            assert(digits@.map_values(cs) =~= pre.map_values(cs).push(d as char));
            assert(digits@.map_values(cs).reverse() =~= seq![d as char] + pre.map_values(
                cs,
            ).reverse());
            if m >= 10 {
                assert(dec_str(m as nat) == dec_str((m as nat) / 10) + seq![
                    digit_char((m as nat) % 10),
                ]);
                assert((dec_str((m / 10) as nat) + seq![d as char]) + pre.map_values(cs).reverse()
                    =~= dec_str((m / 10) as nat) + (seq![d as char] + pre.map_values(cs).reverse()));
            } else {
                assert(dec_str(m as nat) =~= seq![d as char]);
                assert((Seq::<char>::empty() + seq![d as char]) + pre.map_values(cs).reverse() =~= seq![
                    d as char,
                ] + pre.map_values(cs).reverse());
            }
        }
        if m < 10 {
            break ;
        }
        m = m / 10;
    }
    let mut r = String::new();
    let k = digits.len();
    let mut i: usize = 0;
    while i < k
        invariant
            k == digits@.len(),
            0 <= i <= k,
            r@ =~= digits@.map_values(|d: u8| d as char).reverse().take(i as int),
        decreases k - i,
    {
        let ghost pre = r@;
        let d = digits[k - 1 - i];
        push_char(&mut r, d as char);
        proof {
            let cs = |x: u8| x as char;
            let rev = digits@.map_values(cs).reverse();
            assert(rev[i as int] == digits@.map_values(cs)[k - 1 - i as int]);
            assert(r@ =~= rev.take(i as int + 1));
        }
        i = i + 1;
    }
    proof {
        assert(digits@.map_values(|d: u8| d as char).reverse().take(k as int) =~= digits@.map_values(
            |d: u8| d as char,
        ).reverse());
    }
    r
}

/// Whether `p` stands at position `i` of `s`.
pub open spec fn match_at(s: Seq<char>, p: Seq<char>, i: int) -> bool {
    0 <= i && i + p.len() <= s.len() && s.subrange(i, i + p.len()) == p
}

/// Check whether `p` stands at position `i` of `s`.
pub fn is_match_at(s: &str, p: &str, i: usize) -> (r: bool)
    requires
        i <= s@.len(),
    ensures
        r == match_at(s@, p@, i as int),
{
    let n = s.unicode_len();
    let m = p.unicode_len();
    if m > n - i {
        proof {
            assert(!match_at(s@, p@, i as int));
        }
        return false;
    }
    let mut k: usize = 0;
    while k < m
        invariant
            n == s@.len(),
            m == p@.len(),
            0 <= i,
            i + m <= n,
            0 <= k <= m,
            forall|x: int| 0 <= x < k ==> s@[i + x] == p@[x],
        decreases m - k,
    {
        if s.get_char(i + k) != p.get_char(k) {
            proof {
                assert(s@.subrange(i as int, i + p@.len())[k as int] == s@[i + k]);
            }
            return false;
        }
        k = k + 1;
    }
    proof {
        assert(s@.subrange(i as int, i + p@.len()) =~= p@);
    }
    true
}

/// Whether `s` begins with `p`.
pub open spec fn has_prefix(s: Seq<char>, p: Seq<char>) -> bool {
    match_at(s, p, 0)
}

pub fn starts_with(s: &str, p: &str) -> (r: bool)
    ensures
        r == has_prefix(s@, p@),
{
    is_match_at(s, p, 0)
}

/// Whether `s` ends with `p`.
pub open spec fn has_suffix(s: Seq<char>, p: Seq<char>) -> bool {
    p.len() <= s.len() && match_at(s, p, s.len() - p.len())
}

pub fn ends_with(s: &str, p: &str) -> (r: bool)
    ensures
        r == has_suffix(s@, p@),
{
    let n = s.unicode_len();
    let m = p.unicode_len();
    if m > n {
        return false;
    }
    is_match_at(s, p, n - m)
}

/// Whether `p` occurs anywhere in `s`.
pub open spec fn contains_seq(s: Seq<char>, p: Seq<char>) -> bool {
    exists|i: int| match_at(s, p, i)
}

pub fn contains_sub(s: &str, p: &str) -> (r: bool)
    ensures
        r == contains_seq(s@, p@),
{
    let n = s.unicode_len();
    let m = p.unicode_len();
    if m > n {
        proof {
            assert forall|i: int| !match_at(s@, p@, i) by {}
        }
        return false;
    }
    if m == 0 {
        proof {
            assert(s@.subrange(0, 0) =~= p@);
            assert(match_at(s@, p@, 0));
        }
        return true;
    }
    let mut i: usize = 0;
    while i <= n - m
        invariant
            n == s@.len(),
            m == p@.len(),
            1 <= m <= n,
            0 <= i <= n - m + 1,
            forall|x: int| 0 <= x < i ==> !match_at(s@, p@, x),
        decreases n - m + 1 - i,
    {
        if is_match_at(s, p, i) {
            return true;
        }
        i = i + 1;
    }
    proof {
        assert forall|x: int| !match_at(s@, p@, x) by {
            if 0 <= x <= n - m {
                assert(!match_at(s@, p@, x));
            }
        }
    }
    false
}

/// The position of the last occurrence of `p` in `s` at or below `from`, or
/// -1 if there is none.
pub open spec fn rfind_from(s: Seq<char>, p: Seq<char>, from: int) -> int
    decreases from + 1,
        when -1 <= from
{
    if from < 0 {
        -1
    } else if match_at(s, p, from) {
        from
    } else {
        rfind_from(s, p, from - 1)
    }
}

/// Conversely: a match position with no later match up to `from` is the
/// last occurrence.
pub proof fn lemma_rfind_from_is(s: Seq<char>, p: Seq<char>, from: int, f: int)
    requires
        -1 <= f <= from,
        f >= 0 ==> match_at(s, p, f),
        forall|x: int| f < x <= from ==> !match_at(s, p, x),
    ensures
        rfind_from(s, p, from) == f,
    decreases from + 1,
{
    if from < 0 {
    } else if match_at(s, p, from) {
    } else {
        lemma_rfind_from_is(s, p, from - 1, f);
    }
}

/// Whether a character counts as whitespace.
///
/// Relies on char::is_whitespace: the Unicode white-space property of the
/// character, a function of the character alone.
pub uninterp spec fn spec_is_whitespace(c: char) -> bool;

/// Relies on char::is_whitespace: tests the character's Unicode white-space
/// property.
#[verifier::external_body]
pub fn is_ws(c: char) -> (r: bool)
    ensures
        r == spec_is_whitespace(c),
{
    c.is_whitespace()
}

/// The position of the first non-whitespace character, or `s.len()`.
pub open spec fn first_non_ws(s: Seq<char>) -> int
    decreases s.len(),
{
    if s.len() == 0 {
        0
    } else if !spec_is_whitespace(s[0]) {
        0
    } else {
        1 + first_non_ws(s.drop_first())
    }
}

pub proof fn lemma_first_non_ws_is(s: Seq<char>, i: int)
    requires
        0 <= i <= s.len(),
        forall|k: int| 0 <= k < i ==> spec_is_whitespace(#[trigger] s[k]),
        i < s.len() ==> !spec_is_whitespace(s[i]),
    ensures
        first_non_ws(s) == i,
    decreases s.len(),
{
    if s.len() == 0 {
    } else if !spec_is_whitespace(s[0]) {
    } else {
        assert forall|k: int| 0 <= k < i - 1 implies spec_is_whitespace(
            #[trigger] s.drop_first()[k],
        ) by {
            assert(s.drop_first()[k] == s[k + 1]);
        }
        lemma_first_non_ws_is(s.drop_first(), i - 1);
    }
}

/// The position of the last non-whitespace character, or -1.
pub open spec fn last_non_ws(s: Seq<char>) -> int
    decreases s.len(),
{
    if s.len() == 0 {
        -1
    } else if !spec_is_whitespace(s.last()) {
        s.len() - 1
    } else {
        last_non_ws(s.drop_last())
    }
}

pub proof fn lemma_last_non_ws_is(s: Seq<char>, i: int)
    requires
        -1 <= i < s.len(),
        forall|k: int| i < k < s.len() ==> spec_is_whitespace(#[trigger] s[k]),
        i >= 0 ==> !spec_is_whitespace(s[i]),
    ensures
        last_non_ws(s) == i,
    decreases s.len(),
{
    if s.len() == 0 {
    } else if !spec_is_whitespace(s.last()) {
    } else {
        assert forall|k: int| i < k < s.drop_last().len() implies spec_is_whitespace(
            #[trigger] s.drop_last()[k],
        ) by {
            assert(s.drop_last()[k] == s[k]);
        }
        if i >= 0 {
            assert(s.drop_last()[i] == s[i]);
        }
        lemma_last_non_ws_is(s.drop_last(), i);
    }
}

/// A text with leading and trailing whitespace removed.
pub open spec fn trim_of(s: Seq<char>) -> Seq<char> {
    if first_non_ws(s) == s.len() {
        Seq::empty()
    } else {
        s.subrange(first_non_ws(s), last_non_ws(s) + 1)
    }
}

/// Remove leading and trailing whitespace.
pub fn trim<'a>(s: &'a str) -> (r: &'a str)
    ensures
        r@ == trim_of(s@),
{
    let n = s.unicode_len();
    let mut a: usize = 0;
    while a < n && is_ws(s.get_char(a))
        invariant
            n == s@.len(),
            0 <= a <= n,
            forall|k: int| 0 <= k < a ==> spec_is_whitespace(#[trigger] s@[k]),
        decreases n - a,
    {
        a = a + 1;
    }
    if a >= n {
        proof {
            lemma_first_non_ws_is(s@, n as int);
        }
        let r = s.substring_char(n, n);
        proof {
            assert(r@ =~= trim_of(s@));
        }
        return r;
    }
    proof {
        lemma_first_non_ws_is(s@, a as int);
    }
    let mut b: usize = n;
    while b > a && is_ws(s.get_char(b - 1))
        invariant
            n == s@.len(),
            a <= b <= n,
            a < n,
            !spec_is_whitespace(s@[a as int]),
            forall|k: int| b <= k < n ==> spec_is_whitespace(#[trigger] s@[k]),
        decreases b,
    {
        b = b - 1;
    }
    proof {
        if b == a {
            assert(spec_is_whitespace(s@[a as int]));
        }
        lemma_last_non_ws_is(s@, b - 1);
    }
    s.substring_char(a, b)
}

/// Lines joined with a newline between consecutive lines (none trailing).
pub open spec fn join_nl_spec(lines: Seq<Seq<char>>) -> Seq<char>
    decreases lines.len(),
{
    if lines.len() == 0 {
        Seq::empty()
    } else if lines.len() == 1 {
        lines[0]
    } else {
        lines.first() + seq!['\n'] + join_nl_spec(lines.drop_first())
    }
}

/// Join lines with newlines between them.
pub fn join_nl(lines: &Vec<String>) -> (r: String)
    ensures
        r@ == join_nl_spec(lines.deep_view()),
{
    let ghost lv = lines.deep_view();
    let mut r = String::new();
    let n = lines.len();
    let mut i: usize = 0;
    proof {
        assert(lv.skip(0) =~= lv);
        assert(r@ + join_nl_spec(lv) =~= join_nl_spec(lv));
    }
    while i < n
        invariant
            lines.deep_view() == lv,
            n == lv.len(),
            0 <= i <= n,
            join_nl_spec(lv) == r@ + join_nl_spec(lv.skip(i as int)),
        decreases n - i,
    {
        let ghost pre = r@;
        let ghost rem = lv.skip(i as int);
        proof {
            assert(rem.first() == lv[i as int]);
            assert(lv[i as int] == lines@[i as int]@);
            assert(rem.drop_first() =~= lv.skip(i as int + 1));
        }
        r.append(lines[i].as_str());
        if i + 1 < n {
            push_char(&mut r, '\n');
            proof {
                assert(rem.len() >= 2);
                assert(join_nl_spec(rem) =~= rem.first() + seq!['\n'] + join_nl_spec(
                    rem.drop_first(),
                ));
                assert(r@ =~= pre + (rem.first() + seq!['\n']));
                assert(pre + (rem.first() + seq!['\n'] + join_nl_spec(rem.drop_first())) =~= (pre
                    + (rem.first() + seq!['\n'])) + join_nl_spec(rem.drop_first()));
            }
        } else {
            proof {
                assert(rem.len() == 1);
                assert(join_nl_spec(rem) == rem[0]);
                assert(lv.skip(i as int + 1) =~= Seq::<Seq<char>>::empty());
                assert(r@ + join_nl_spec(lv.skip(i as int + 1)) =~= r@);
                assert(r@ =~= pre + rem[0]);
            }
        }
        i = i + 1;
    }
    proof {
        assert(lv.skip(n as int) =~= Seq::<Seq<char>>::empty());
    }
    r
}

/// A path made relative to a root: the root itself maps to the empty
/// relative path; a path under `root/` maps to what follows the separator.
/// Paths are compared textually; the root is expected without a trailing
/// separator.
pub open spec fn rel_of(path: Seq<char>, root: Seq<char>) -> Option<Seq<char>> {
    if path == root {
        Option::Some(Seq::empty())
    } else if has_prefix(path, root + "/"@) {
        Option::Some(path.skip(root.len() as int + 1))
    } else {
        Option::None
    }
}

/// Strip a root directory from a path, textually.
pub fn relative_to<'a>(path: &'a str, root: &str) -> (r: Option<&'a str>)
    ensures
        r is Some <==> rel_of(path@, root@) is Some,
        r matches Some(v) ==> v@ == rel_of(path@, root@)->0,
{
    if str_eq(path, root) {
        let r = path.substring_char(0, 0);
        proof {
            assert(r@ =~= Seq::<char>::empty());
        }
        return Some(r);
    }
    let mut root_slash = root.to_owned();
    root_slash.append("/");
    if starts_with(path, root_slash.as_str()) {
        let n = path.unicode_len();
        let m = root.unicode_len();
        proof {
            reveal_strlit("/");
            assert(root_slash@.len() == root@.len() + 1);
            assert(m + 1 <= n);
        }
        let r = path.substring_char(m + 1, n);
        proof {
            assert(r@ =~= path@.skip(root@.len() as int + 1));
        }
        Some(r)
    } else {
        None
    }
}

} // verus!
