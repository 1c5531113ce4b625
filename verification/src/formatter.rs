//! Formats RLF definition files and definition bodies within Rust files.
//!
//! Works on the text rather than on a parsed tree, so that comments and
//! escape sequences of the host file stay as they are.
use vstd::prelude::*;
use crate::text::{is_ws, trim, trim_start, trim_end, lines, join, starts_with, utf8_len};

verus! {

// ---------------------------------------------------------------------------
// Character classes
// ---------------------------------------------------------------------------

/// What `char::is_alphanumeric` returns for a character (Unicode
/// `Alphabetic` or `Numeric`).
pub uninterp spec fn unicode_alnum(c: char) -> bool;

/// `char::is_alphanumeric`: whether `c` has the Unicode `Alphabetic` or
/// `Numeric` property. The contract names the result and states nothing
/// about which characters have the property.
#[verifier::external_body]
fn char_is_alphanumeric(c: char) -> (r: bool)
    ensures
        r == unicode_alnum(c),
{
    c.is_alphanumeric()
}

/// Characters of a tag or annotation name.
pub open spec fn is_tag_char(c: char) -> bool {
    unicode_alnum(c) || c == '_'
}

fn char_is_tag(c: char) -> (r: bool)
    ensures
        r == is_tag_char(c),
{
    char_is_alphanumeric(c) || c == '_'
}

/// End of the run of tag characters starting at `j`.
pub open spec fn tag_end(s: Seq<char>, j: int) -> int
    decreases s.len() - j,
{
    if j < 0 || j >= s.len() || !is_tag_char(s[j]) {
        j
    } else {
        tag_end(s, j + 1)
    }
}

pub proof fn lemma_tag_end(s: Seq<char>, j: int)
    requires
        0 <= j <= s.len(),
    ensures
        j <= tag_end(s, j) <= s.len(),
        tag_end(s, j) < s.len() ==> !is_tag_char(s[tag_end(s, j)]),
        forall|k: int| j <= k < tag_end(s, j) ==> is_tag_char(#[trigger] s[k]),
    decreases s.len() - j,
{
    if j < s.len() && is_tag_char(s[j]) {
        lemma_tag_end(s, j + 1);
    }
}

/// Scans the run of tag characters starting at `j`.
fn scan_tag(s: &[char], j: usize) -> (r: usize)
    requires
        j <= s.len(),
    ensures
        r as int == tag_end(s@, j as int),
{
    let mut i = j;
    while i < s.len() && char_is_tag(s[i])
        invariant
            j <= i <= s.len(),
            tag_end(s@, j as int) == tag_end(s@, i as int),
        decreases s.len() - i,
    {
        i = i + 1;
    }
    i
}

// ---------------------------------------------------------------------------
// Tag spacing: `:tag{` becomes `:tag {` outside strings
// ---------------------------------------------------------------------------

/// Output of the tag-spacing pass from position `i` with string state `ins`.
pub open spec fn fix_from(s: Seq<char>, i: int, ins: bool) -> Seq<char>
    decreases s.len() - i,
{
    if i < 0 || i >= s.len() {
        seq![]
    } else {
        let ch = s[i];
        if ch == '\\' && ins && i + 1 < s.len() {
            seq![ch, s[i + 1]] + fix_from(s, i + 2, ins)
        } else if ch == '"' {
            seq![ch] + fix_from(s, i + 1, !ins)
        } else if !ins && ch == ':' && i + 1 < s.len() && unicode_alnum(s[i + 1]) {
            proof {
                lemma_tag_end(s, i + 1);
            }
            let j = tag_end(s, i + 1);
            seq![ch] + s.subrange(i + 1, j) + (if j < s.len() && s[j] == '{' && j > i + 1 {
                seq![' ']
            } else {
                seq![]
            }) + fix_from(s, j, ins)
        } else {
            seq![ch] + fix_from(s, i + 1, ins)
        }
    }
}

/// Inserts a space between a tag and a following `{` (`:tag{` → `:tag {`),
/// leaving text inside string literals alone.
pub fn fix_tag_spacing(s: &[char]) -> (r: Vec<char>)
    ensures
        r@ == fix_from(s@, 0, false),
{
    let mut r: Vec<char> = Vec::new();
    let mut i: usize = 0;
    let mut ins = false;
    let len = s.len();
    while i < len
        invariant
            len == s.len(),
            i <= len,
            r@ + fix_from(s@, i as int, ins) == fix_from(s@, 0, false),
        decreases len - i,
    {
        let ghost old_r = r@;
        let ghost old_i = i as int;
        let ghost old_ins = ins;
        let ch = s[i];
        if ch == '\\' && ins && i + 1 < len {
            r.push(ch);
            r.push(s[i + 1]);
            i = i + 2;
            assert(r@ + fix_from(s@, i as int, ins) =~= old_r + fix_from(s@, old_i, old_ins));
            continue;
        }
        if ch == '"' {
            ins = !ins;
            r.push(ch);
            i = i + 1;
            assert(r@ + fix_from(s@, i as int, ins) =~= old_r + fix_from(s@, old_i, old_ins));
            continue;
        }
        if !ins && ch == ':' && i + 1 < len && char_is_alphanumeric(s[i + 1]) {
            r.push(ch);
            let tag_start = i + 1;
            let j = scan_tag(s, tag_start);
            proof {
                lemma_tag_end(s@, tag_start as int);
            }
            let mut k = tag_start;
            while k < j
                invariant
                    tag_start <= k <= j <= len,
                    len == s.len(),
                    r@ == old_r.push(':') + s@.subrange(tag_start as int, k as int),
                decreases j - k,
            {
                r.push(s[k]);
                assert(s@.subrange(tag_start as int, k as int + 1) =~= s@.subrange(
                    tag_start as int,
                    k as int,
                ).push(s@[k as int]));
                k = k + 1;
            }
            if j < len && s[j] == '{' && j > tag_start {
                r.push(' ');
            }
            i = j;
            assert(r@ + fix_from(s@, i as int, ins) =~= old_r + fix_from(s@, old_i, old_ins));
            continue;
        }
        r.push(ch);
        i = i + 1;
        assert(r@ + fix_from(s@, i as int, ins) =~= old_r + fix_from(s@, old_i, old_ins));
    }
    assert(r@ =~= r@ + fix_from(s@, i as int, ins));
    r
}

// ---------------------------------------------------------------------------
// Trailing commas: `, }` becomes ` }` outside strings
// ---------------------------------------------------------------------------

/// First position at or after `j` that is not a space.
pub open spec fn skip_spaces(s: Seq<char>, j: int) -> int
    decreases s.len() - j,
{
    if j < 0 || j >= s.len() || s[j] != ' ' {
        j
    } else {
        skip_spaces(s, j + 1)
    }
}

pub proof fn lemma_skip_spaces(s: Seq<char>, j: int)
    requires
        0 <= j <= s.len(),
    ensures
        j <= skip_spaces(s, j) <= s.len(),
    decreases s.len() - j,
{
    if j < s.len() && s[j] == ' ' {
        lemma_skip_spaces(s, j + 1);
    }
}

/// Output of the trailing-comma pass from position `i`.
pub open spec fn trailing_from(s: Seq<char>, i: int, ins: bool) -> Seq<char>
    decreases s.len() - i,
{
    if i < 0 || i >= s.len() {
        seq![]
    } else {
        let ch = s[i];
        if ch == '\\' && ins && i + 1 < s.len() {
            seq![ch, s[i + 1]] + trailing_from(s, i + 2, ins)
        } else if ch == '"' {
            seq![ch] + trailing_from(s, i + 1, !ins)
        } else if !ins && ch == ',' && skip_spaces(s, i + 1) < s.len() && s[skip_spaces(
            s,
            i + 1,
        )] == '}' {
            proof {
                lemma_skip_spaces(s, i + 1);
            }
            seq![' '] + trailing_from(s, skip_spaces(s, i + 1), ins)
        } else {
            seq![ch] + trailing_from(s, i + 1, ins)
        }
    }
}

/// Replaces a comma (and the spaces after it) that stands before `}` by a
/// single space, outside string literals.
pub fn normalize_trailing_commas(s: &[char]) -> (r: Vec<char>)
    ensures
        r@ == trailing_from(s@, 0, false),
{
    let mut r: Vec<char> = Vec::new();
    let mut i: usize = 0;
    let mut ins = false;
    let len = s.len();
    while i < len
        invariant
            len == s.len(),
            i <= len,
            r@ + trailing_from(s@, i as int, ins) == trailing_from(s@, 0, false),
        decreases len - i,
    {
        let ghost old_r = r@;
        let ghost old_i = i as int;
        let ghost old_ins = ins;
        let ch = s[i];
        if ch == '\\' && ins && i + 1 < len {
            r.push(ch);
            r.push(s[i + 1]);
            i = i + 2;
            assert(r@ + trailing_from(s@, i as int, ins) =~= old_r + trailing_from(
                s@,
                old_i,
                old_ins,
            ));
            continue;
        }
        if ch == '"' {
            ins = !ins;
            r.push(ch);
            i = i + 1;
            assert(r@ + trailing_from(s@, i as int, ins) =~= old_r + trailing_from(
                s@,
                old_i,
                old_ins,
            ));
            continue;
        }
        if !ins && ch == ',' {
            let mut j = i + 1;
            while j < len && s[j] == ' '
                invariant
                    i < j <= len,
                    len == s.len(),
                    skip_spaces(s@, i as int + 1) == skip_spaces(s@, j as int),
                decreases len - j,
            {
                j = j + 1;
            }
            if j < len && s[j] == '}' {
                r.push(' ');
                i = j;
                assert(r@ + trailing_from(s@, i as int, ins) =~= old_r + trailing_from(
                    s@,
                    old_i,
                    old_ins,
                ));
                continue;
            }
        }
        r.push(ch);
        i = i + 1;
        assert(r@ + trailing_from(s@, i as int, ins) =~= old_r + trailing_from(
            s@,
            old_i,
            old_ins,
        ));
    }
    assert(r@ =~= r@ + trailing_from(s@, i as int, ins));
    r
}

// ---------------------------------------------------------------------------
// Blocks
// ---------------------------------------------------------------------------

/// Position of the first `{` outside string literals, scanning from `i`.
pub open spec fn first_open(s: Seq<char>, i: int, ins: bool) -> Option<int>
    decreases s.len() - i,
{
    if i < 0 || i >= s.len() {
        None
    } else if s[i] == '\\' && ins && i + 1 < s.len() {
        first_open(s, i + 2, ins)
    } else if s[i] == '"' {
        first_open(s, i + 1, !ins)
    } else if !ins && s[i] == '{' {
        Some(i)
    } else {
        first_open(s, i + 1, ins)
    }
}

/// Position of the `}` that brings the brace depth back to zero, scanning
/// from `j` with depth `depth`.
pub open spec fn match_close(s: Seq<char>, j: int, ins: bool, depth: int) -> Option<int>
    decreases s.len() - j,
{
    if j < 0 || j >= s.len() {
        None
    } else if s[j] == '\\' && ins && j + 1 < s.len() {
        match_close(s, j + 2, ins, depth)
    } else if s[j] == '"' {
        match_close(s, j + 1, !ins, depth)
    } else if !ins && s[j] == '{' {
        match_close(s, j + 1, ins, depth + 1)
    } else if !ins && s[j] == '}' {
        if depth - 1 == 0 {
            Some(j)
        } else {
            match_close(s, j + 1, ins, depth - 1)
        }
    } else {
        match_close(s, j + 1, ins, depth)
    }
}

pub proof fn lemma_first_open(s: Seq<char>, i: int, ins: bool)
    requires
        0 <= i,
    ensures
        first_open(s, i, ins) matches Some(k) ==> i <= k < s.len() && s[k] == '{',
    decreases s.len() - i,
{
    if 0 <= i < s.len() {
        if s[i] == '\\' && ins && i + 1 < s.len() {
            lemma_first_open(s, i + 2, ins);
        } else if s[i] == '"' {
            lemma_first_open(s, i + 1, !ins);
        } else if !ins && s[i] == '{' {
        } else {
            lemma_first_open(s, i + 1, ins);
        }
    }
}

pub proof fn lemma_match_close(s: Seq<char>, j: int, ins: bool, depth: int)
    requires
        0 <= j,
    ensures
        match_close(s, j, ins, depth) matches Some(k) ==> j <= k < s.len(),
    decreases s.len() - j,
{
    if 0 <= j < s.len() {
        if s[j] == '\\' && ins && j + 1 < s.len() {
            lemma_match_close(s, j + 2, ins, depth);
        } else if s[j] == '"' {
            lemma_match_close(s, j + 1, !ins, depth);
        } else if !ins && s[j] == '{' {
            lemma_match_close(s, j + 1, ins, depth + 1);
        } else if !ins && s[j] == '}' {
            if depth - 1 != 0 {
                lemma_match_close(s, j + 1, ins, depth - 1);
            }
        } else {
            lemma_match_close(s, j + 1, ins, depth);
        }
    }
}

/// The outermost structural block of `s`: the text before its `{` (with
/// trailing whitespace removed), the text between the braces, and the text
/// after the closing `}`.
pub open spec fn outermost_block(s: Seq<char>) -> Option<(Seq<char>, Seq<char>, Seq<char>)> {
    match first_open(s, 0, false) {
        None => None,
        Some(start) => match match_close(s, start, false, 0) {
            None => None,
            Some(end) => Some(
                (trim_end(s.take(start)), s.subrange(start + 1, end), s.skip(end + 1)),
            ),
        },
    }
}

/// Finds the outermost structural `{` `}` block: returns the prefix before
/// it (trailing whitespace removed), the block's content and the suffix.
fn scan_first_open(s: &[char]) -> (r: Option<usize>)
    ensures
        match r {
            None => first_open(s@, 0, false) is None,
            Some(k) => first_open(s@, 0, false) == Some(k as int),
        },
{
    let len = s.len();
    let mut ins = false;
    let mut i: usize = 0;
    while i < len
        invariant
            len == s.len(),
            i <= len,
            first_open(s@, 0, false) == first_open(s@, i as int, ins),
        decreases len - i,
    {
        let ch = s[i];
        if ch == '\\' && ins && i + 1 < len {
            i = i + 2;
            continue;
        }
        if ch == '"' {
            ins = !ins;
            i = i + 1;
            continue;
        }
        if !ins && ch == '{' {
            return Some(i);
        }
        i = i + 1;
    }
    None
}

fn scan_match_close(s: &[char], start: usize) -> (r: Option<usize>)
    requires
        start < s.len(),
        s@[start as int] == '{',
    ensures
        match r {
            None => match_close(s@, start as int, false, 0) is None,
            Some(k) => match_close(s@, start as int, false, 0) == Some(k as int) && start < k
                < s.len(),
        },
{
    let len = s.len();
    let mut depth: usize = 1;
    let mut ins = false;
    let mut j = start + 1;
    while j < len
        invariant
            len == s.len(),
            start < j <= len,
            1 <= depth <= j,
            match_close(s@, start as int, false, 0) == match_close(
                s@,
                j as int,
                ins,
                depth as int,
            ),
        decreases len - j,
    {
        let ch = s[j];
        if ch == '\\' && ins && j + 1 < len {
            j = j + 2;
            continue;
        }
        if ch == '"' {
            ins = !ins;
            j = j + 1;
            continue;
        }
        if !ins {
            if ch == '{' {
                depth = depth + 1;
            } else if ch == '}' {
                if depth - 1 == 0 {
                    return Some(j);
                }
                depth = depth - 1;
            }
        }
        j = j + 1;
    }
    None
}

/// Finds the outermost structural `{` `}` block: returns the prefix before
/// it (trailing whitespace removed), the block's content and the suffix.
pub fn find_outermost_block(s: &[char]) -> (r: Option<(Vec<char>, Vec<char>, Vec<char>)>)
    ensures
        match r {
            None => outermost_block(s@) is None,
            Some((p, c, x)) => outermost_block(s@) == Some((p@, c@, x@)),
        },
{
    let start = match scan_first_open(s) {
        None => return None,
        Some(k) => k,
    };
    proof {
        lemma_first_open(s@, 0, false);
    }
    let end = match scan_match_close(s, start) {
        None => return None,
        Some(k) => k,
    };
    proof {
        lemma_match_close(s@, start as int, false, 0);
    }
    let before = crate::text::slice_range(s, 0, start);
    let prefix = crate::text::trim_end_chars(&before);
    let content = crate::text::slice_range(s, start + 1, end);
    let suffix = crate::text::slice_range(s, end + 1, s.len());
    assert(before@ =~= s@.take(start as int));
    assert(suffix@ =~= s@.skip(end as int + 1));
    Some((prefix, content, suffix))
}

// ---------------------------------------------------------------------------
// Structural commas
// ---------------------------------------------------------------------------

/// The entries of `s` split at commas outside strings and nested braces,
/// scanning from `i` with the current entry `cur`. Each entry is trimmed;
/// a last entry that is empty after trimming is dropped.
pub open spec fn split_from(s: Seq<char>, i: int, ins: bool, depth: int, cur: Seq<char>) -> Seq<
    Seq<char>,
>
    decreases s.len() - i,
{
    if i < 0 || i >= s.len() {
        if trim(cur).len() > 0 {
            seq![trim(cur)]
        } else {
            seq![]
        }
    } else {
        let ch = s[i];
        if ch == '\\' && ins && i + 1 < s.len() {
            split_from(s, i + 2, ins, depth, cur + seq![ch, s[i + 1]])
        } else if ch == '"' {
            split_from(s, i + 1, !ins, depth, cur.push(ch))
        } else if !ins && ch == '{' {
            split_from(s, i + 1, ins, depth + 1, cur.push(ch))
        } else if !ins && ch == '}' {
            split_from(s, i + 1, ins, depth - 1, cur.push(ch))
        } else if !ins && ch == ',' && depth == 0 {
            seq![trim(cur)] + split_from(s, i + 1, ins, depth, seq![])
        } else {
            split_from(s, i + 1, ins, depth, cur.push(ch))
        }
    }
}

/// Splits content at commas of depth zero, respecting strings and nested
/// braces; entries are trimmed.
pub fn split_by_structural_commas(s: &[char]) -> (r: Vec<Vec<char>>)
    ensures
        r.deep_view() == split_from(s@, 0, false, 0, seq![]),
{
    let mut entries: Vec<Vec<char>> = Vec::new();
    let mut cur: Vec<char> = Vec::new();
    let mut depth: i128 = 0;
    let mut ins = false;
    let len = s.len();
    let mut i: usize = 0;
    assert(entries.deep_view() + split_from(s@, 0, false, 0, seq![]) =~= split_from(
        s@,
        0,
        false,
        0,
        seq![],
    ));
    while i < len
        invariant
            len == s.len(),
            i <= len,
            -(i as int) <= depth <= i as int,
            entries.deep_view() + split_from(s@, i as int, ins, depth as int, cur@) == split_from(
                s@,
                0,
                false,
                0,
                seq![],
            ),
        decreases len - i,
    {
        let ch = s[i];
        if ch == '\\' && ins && i + 1 < len {
            let ghost old_cur = cur@;
            cur.push(ch);
            cur.push(s[i + 1]);
            assert(cur@ =~= old_cur + seq![ch, s@[i as int + 1]]);
            i = i + 2;
            continue;
        }
        if ch == '"' {
            ins = !ins;
            cur.push(ch);
            i = i + 1;
            continue;
        }
        if !ins {
            if ch == '{' {
                depth = depth + 1;
                cur.push(ch);
            } else if ch == '}' {
                depth = depth - 1;
                cur.push(ch);
            } else if ch == ',' && depth == 0 {
                let ghost old_entries = entries.deep_view();
                let ghost old_cur = cur@;
                let t = crate::text::trim_chars(&cur);
                assert(t.deep_view() =~= t@);
                entries.push(t);
                assert(entries.deep_view() =~~= old_entries.push(trim(old_cur)));
                assert(entries.deep_view() + split_from(s@, i as int + 1, ins, depth as int, seq![])
                    =~= old_entries + (seq![trim(old_cur)] + split_from(
                    s@,
                    i as int + 1,
                    ins,
                    depth as int,
                    seq![],
                )));
                cur = Vec::new();
            } else {
                cur.push(ch);
            }
        } else {
            cur.push(ch);
        }
        i = i + 1;
    }
    let ghost old_entries = entries.deep_view();
    let remaining = crate::text::trim_chars(&cur);
    if remaining.len() > 0 {
        assert(remaining.deep_view() =~= remaining@);
        entries.push(remaining);
        assert(entries.deep_view() =~~= old_entries + seq![trim(cur@)]);
    } else {
        assert(old_entries + split_from(s@, i as int, ins, depth as int, cur@) =~= old_entries);
    }
    entries
}

// ---------------------------------------------------------------------------
// Definition completeness
// ---------------------------------------------------------------------------

/// Brace balance (`{` minus `}`) outside string literals from position `i`;
/// a backslash in a string skips the next character.
pub open spec fn brace_balance(s: Seq<char>, i: int, ins: bool) -> int
    decreases s.len() - i,
{
    if i < 0 || i >= s.len() {
        0
    } else {
        let ch = s[i];
        if ch == '\\' && ins {
            brace_balance(s, if i + 2 <= s.len() { i + 2 } else { s.len() as int }, ins)
        } else if ch == '"' {
            brace_balance(s, i + 1, !ins)
        } else if !ins && ch == '{' {
            1 + brace_balance(s, i + 1, ins)
        } else if !ins && ch == '}' {
            -1 + brace_balance(s, i + 1, ins)
        } else {
            brace_balance(s, i + 1, ins)
        }
    }
}

/// The accumulated lines form a complete definition: joined (each line
/// trimmed, joined with spaces) and trimmed at the end, the text ends with
/// `;` and its braces outside strings balance.
pub open spec fn definition_complete_spec(ls: Seq<Seq<char>>) -> bool {
    let joined = join(ls.map_values(|l: Seq<char>| trim(l)), seq![' ']);
    let t = trim_end(joined);
    t.len() > 0 && t.last() == ';' && brace_balance(t, 0, false) == 0
}

/// Whether accumulated lines form a complete definition.
pub fn definition_complete(ls: &Vec<Vec<char>>) -> (r: bool)
    ensures
        r == definition_complete_spec(ls.deep_view()),
{
    let mut trimmed_lines: Vec<Vec<char>> = Vec::new();
    let mut k: usize = 0;
    while k < ls.len()
        invariant
            k <= ls.len(),
            trimmed_lines.deep_view() == ls.deep_view().take(k as int).map_values(
                |l: Seq<char>| trim(l),
            ),
        decreases ls.len() - k,
    {
        let ghost old_t = trimmed_lines.deep_view();
        let t = crate::text::trim_chars(&ls[k]);
        assert(t.deep_view() =~= t@);
        trimmed_lines.push(t);
        assert(ls.deep_view()[k as int] == ls[k as int]@);
        assert(trimmed_lines.deep_view() =~~= old_t.push(trim(ls[k as int]@)));
        assert(ls.deep_view().take(k as int + 1).map_values(|l: Seq<char>| trim(l))
            =~= ls.deep_view().take(k as int).map_values(|l: Seq<char>| trim(l)).push(
            trim(ls.deep_view()[k as int]),
        ));
        k = k + 1;
    }
    assert(ls.deep_view().take(ls.len() as int) =~= ls.deep_view());
    let space = vec![' '];
    let joined = crate::text::join_chars(&trimmed_lines, &space);
    assert(space@ =~= seq![' ']);
    let t = crate::text::trim_end_chars(&joined);
    if t.len() == 0 || t[t.len() - 1] != ';' {
        return false;
    }
    let len = t.len();
    let mut opens: usize = 0;
    let mut closes: usize = 0;
    let mut ins = false;
    let mut i: usize = 0;
    while i < len
        invariant
            len == t.len(),
            i <= len,
            opens + closes <= i,
            brace_balance(t@, 0, false) == (opens - closes) + brace_balance(t@, i as int, ins),
        decreases len - i,
    {
        let ch = t[i];
        if ch == '\\' && ins {
            i = if len - i >= 2 {
                i + 2
            } else {
                len
            };
            continue;
        }
        if ch == '"' {
            ins = !ins;
            i = i + 1;
            continue;
        }
        if !ins {
            if ch == '{' {
                opens = opens + 1;
            } else if ch == '}' {
                closes = closes + 1;
            }
        }
        i = i + 1;
    }
    opens == closes
}

// ---------------------------------------------------------------------------
// Widths and literal pieces
// ---------------------------------------------------------------------------

/// Byte length of `s` as `str::len` reports it (saturated at `usize::MAX`,
/// which no string in memory reaches).
pub open spec fn width(s: Seq<char>) -> nat {
    if utf8_len(s) <= usize::MAX {
        utf8_len(s)
    } else {
        usize::MAX as nat
    }
}

/// Largest width among lines.
pub open spec fn max_width_of(ls: Seq<Seq<char>>) -> nat
    decreases ls.len(),
{
    if ls.len() == 0 {
        0
    } else {
        let m = max_width_of(ls.drop_last());
        if width(ls.last()) > m {
            width(ls.last())
        } else {
            m
        }
    }
}

/// Width of the longest line of `s` (0 when it has none).
pub open spec fn max_line(s: Seq<char>) -> nat {
    max_width_of(lines(s))
}

pub open spec fn four_spaces() -> Seq<char> {
    seq![' ', ' ', ' ', ' ']
}

fn spaces4() -> (r: Vec<char>)
    ensures
        r@ == four_spaces(),
{
    let r = vec![' ', ' ', ' ', ' '];
    assert(r@ =~= four_spaces());
    r
}

fn width_of(s: &[char]) -> (r: usize)
    ensures
        r as nat == width(s@),
{
    crate::text::utf8_byte_len(s)
}

fn max_line_of(s: &[char]) -> (r: usize)
    ensures
        r as nat == max_line(s@),
{
    let ls = crate::text::split_lines(s);
    let mut m: usize = 0;
    let mut k: usize = 0;
    while k < ls.len()
        invariant
            k <= ls.len(),
            ls.deep_view() == lines(s@),
            m as nat == max_width_of(ls.deep_view().take(k as int)),
        decreases ls.len() - k,
    {
        let w = width_of(&ls[k]);
        assert(ls.deep_view().take(k as int + 1).drop_last() =~= ls.deep_view().take(k as int));
        assert(ls.deep_view()[k as int] == ls[k as int]@);
        if w > m {
            m = w;
        }
        k = k + 1;
    }
    assert(ls.deep_view().take(ls.len() as int) =~= ls.deep_view());
    m
}

/// Concatenation of two character vectors.
fn cat(a: &[char], b: &[char]) -> (r: Vec<char>)
    ensures
        r@ == a@ + b@,
{
    let mut r: Vec<char> = Vec::new();
    crate::text::extend_chars(&mut r, a);
    crate::text::extend_chars(&mut r, b);
    assert(r@ =~= a@ + b@);
    r
}

// ---------------------------------------------------------------------------
// Annotations
// ---------------------------------------------------------------------------

/// End of a parenthesized argument list starting at `i`: just after the `)`
/// that brings the depth back to zero, or the end of `r`.
pub open spec fn paren_end(r: Seq<char>, i: int, depth: int) -> int
    decreases r.len() - i,
{
    if i < 0 || i >= r.len() {
        r.len() as int
    } else if r[i] == '(' {
        paren_end(r, i + 1, depth + 1)
    } else if r[i] == ')' {
        if depth - 1 == 0 {
            i + 1
        } else {
            paren_end(r, i + 1, depth - 1)
        }
    } else {
        paren_end(r, i + 1, depth)
    }
}

pub proof fn lemma_paren_end(r: Seq<char>, i: int, depth: int)
    requires
        0 <= i <= r.len(),
    ensures
        i <= paren_end(r, i, depth) <= r.len(),
    decreases r.len() - i,
{
    if i < r.len() {
        if r[i] == '(' {
            lemma_paren_end(r, i + 1, depth + 1);
        } else if r[i] == ')' {
            if depth - 1 != 0 {
                lemma_paren_end(r, i + 1, depth - 1);
            }
        } else {
            lemma_paren_end(r, i + 1, depth);
        }
    }
}

/// Length of the annotation at the start of `r` (which starts with `:`):
/// the name and an optional parenthesized argument list.
pub open spec fn ann_end(r: Seq<char>) -> int {
    let i = tag_end(r, 1);
    if i < r.len() && r[i] == '(' {
        paren_end(r, i, 0)
    } else {
        i
    }
}

pub proof fn lemma_ann_end(r: Seq<char>)
    requires
        r.len() >= 1,
    ensures
        1 <= ann_end(r) <= r.len(),
{
    lemma_tag_end(r, 1);
    let i = tag_end(r, 1);
    if i < r.len() && r[i] == '(' {
        lemma_paren_end(r, i, 0);
    }
}

/// The annotation-splitting loop on the remaining text `rem` with the
/// annotations `anns` collected so far.
pub open spec fn split_ann(rem: Seq<char>, anns: Seq<char>) -> (Seq<char>, Seq<char>)
    decreases rem.len(),
{
    let r = trim_start(rem);
    if !(r.len() > 0 && r[0] == ':') {
        (anns, trim(rem))
    } else {
        proof {
            crate::text::lemma_trim_start_len(rem);
            lemma_ann_end(r);
        }
        let i = ann_end(r);
        let anns2 = if anns.len() > 0 {
            anns.push(' ') + r.take(i)
        } else {
            r.take(i)
        };
        let rest = r.skip(i);
        let next = trim_start(rest);
        if next.len() > 0 && (next[0] == '{' || next[0] == '"') {
            (anns2, trim(rest))
        } else {
            split_ann(rest, anns2)
        }
    }
}

/// Splits a definition's right-hand side into its leading annotations
/// (`:tag`, `:from($x)`, `:match($x)`, separated by single spaces) and the
/// remaining body.
pub open spec fn split_annotations_spec(rhs: Seq<char>) -> (Seq<char>, Seq<char>) {
    split_ann(trim(rhs), seq![])
}

fn paren_scan(r: &[char], start: usize) -> (e: usize)
    requires
        start < r.len(),
        r@[start as int] == '(',
    ensures
        e as int == paren_end(r@, start as int, 0),
{
    let len = r.len();
    let mut i = start + 1;
    let mut depth: usize = 1;
    while i < len
        invariant
            len == r.len(),
            start < i <= len,
            1 <= depth <= i,
            paren_end(r@, start as int, 0) == paren_end(r@, i as int, depth as int),
        decreases len - i,
    {
        if r[i] == '(' {
            depth = depth + 1;
        } else if r[i] == ')' {
            if depth - 1 == 0 {
                return i + 1;
            }
            depth = depth - 1;
        }
        i = i + 1;
    }
    len
}

/// Splits the right-hand side of a definition into its leading annotations
/// (`:tag`, `:from($x)`, `:match($x)`) and the remaining body.
pub fn split_annotations(rhs: &str) -> (r: (String, String))
    ensures
        (r.0@, r.1@) == split_annotations_spec(rhs@),
{
    let v = crate::text::chars_of(rhs);
    let (a, b) = split_annotations_chars(&v);
    (crate::text::string_of(&a), crate::text::string_of(&b))
}

fn split_annotations_chars(rhs: &[char]) -> (r: (Vec<char>, Vec<char>))
    ensures
        (r.0@, r.1@) == split_annotations_spec(rhs@),
{
    let mut remaining = crate::text::trim_chars(rhs);
    let mut anns: Vec<char> = Vec::new();
    loop
        invariant
            split_ann(remaining@, anns@) == split_annotations_spec(rhs@),
        decreases remaining@.len(),
    {
        let r = crate::text::trim_start_chars(&remaining);
        proof {
            crate::text::lemma_trim_start_len(remaining@);
        }
        if !(r.len() > 0 && r[0] == ':') {
            let t = crate::text::trim_chars(&remaining);
            return (anns, t);
        }
        proof {
            lemma_ann_end(r@);
        }
        let i0 = scan_tag(&r, 1);
        proof {
            lemma_tag_end(r@, 1);
        }
        let i = if i0 < r.len() && r[i0] == '(' {
            paren_scan(&r, i0)
        } else {
            i0
        };
        let annotation = crate::text::slice_range(&r, 0, i);
        assert(annotation@ =~= r@.take(i as int));
        let ghost old_anns = anns@;
        if anns.len() > 0 {
            anns.push(' ');
        }
        crate::text::extend_chars(&mut anns, &annotation);
        let rest = crate::text::slice_range(&r, i, r.len());
        assert(rest@ =~= r@.skip(i as int));
        let next = crate::text::trim_start_chars(&rest);
        if next.len() > 0 && (next[0] == '{' || next[0] == '"') {
            let t = crate::text::trim_chars(&rest);
            return (anns, t);
        }
        remaining = rest;
    }
}

// ---------------------------------------------------------------------------
// Breaking after `=`
// ---------------------------------------------------------------------------

/// Position of the first `=` outside string literals, scanning from `i`;
/// a backslash in a string skips the next character.
pub open spec fn first_eq(s: Seq<char>, i: int, ins: bool) -> Option<int>
    decreases s.len() - i,
{
    if i < 0 || i >= s.len() {
        None
    } else if s[i] == '\\' && ins {
        first_eq(s, if i + 2 <= s.len() { i + 2 } else { s.len() as int }, ins)
    } else if s[i] == '"' {
        first_eq(s, i + 1, !ins)
    } else if !ins && s[i] == '=' {
        Some(i)
    } else {
        first_eq(s, i + 1, ins)
    }
}

pub proof fn lemma_first_eq(s: Seq<char>, i: int, ins: bool)
    requires
        0 <= i,
    ensures
        first_eq(s, i, ins) matches Some(k) ==> i <= k < s.len(),
    decreases s.len() - i,
{
    if 0 <= i < s.len() {
        if s[i] == '\\' && ins {
            lemma_first_eq(s, if i + 2 <= s.len() { i + 2 } else { s.len() as int }, ins);
        } else if s[i] == '"' {
            lemma_first_eq(s, i + 1, !ins);
        } else if !ins && s[i] == '=' {
        } else {
            lemma_first_eq(s, i + 1, ins);
        }
    }
}

pub open spec fn eq_nl() -> Seq<char> {
    seq![' ', '=', '\n']
}

pub open spec fn eq_sp() -> Seq<char> {
    seq![' ', '=', ' ']
}

/// The definition broken after `=` (and after its annotations), if some
/// layout fits in `max_width`.
pub open spec fn break_spec(def: Seq<char>, indent: Seq<char>, max_width: nat) -> Option<Seq<char>> {
    match first_eq(def, 0, false) {
        None => None,
        Some(eq) => {
            let lhs = trim_end(def.take(eq));
            let rhs = trim(def.skip(eq + 1));
            let (ann, body) = split_annotations_spec(rhs);
            let ind = indent + four_spaces();
            if ann.len() == 0 {
                let res = indent + lhs + eq_nl() + ind + rhs;
                if max_line(res) <= max_width {
                    Some(res)
                } else {
                    None
                }
            } else {
                let first = indent + lhs + eq_sp() + ann;
                let res1 = first + seq!['\n'] + ind + body;
                let res2 = indent + lhs + eq_nl() + ind + ann + seq!['\n'] + ind + body;
                if width(first) <= max_width && max_line(res1) <= max_width {
                    Some(res1)
                } else if max_line(res2) <= max_width {
                    Some(res2)
                } else {
                    None
                }
            }
        },
    }
}

fn scan_first_eq(s: &[char]) -> (r: Option<usize>)
    ensures
        match r {
            None => first_eq(s@, 0, false) is None,
            Some(k) => first_eq(s@, 0, false) == Some(k as int),
        },
{
    let len = s.len();
    let mut ins = false;
    let mut i: usize = 0;
    while i < len
        invariant
            len == s.len(),
            i <= len,
            first_eq(s@, 0, false) == first_eq(s@, i as int, ins),
        decreases len - i,
    {
        let ch = s[i];
        if ch == '\\' && ins {
            i = if len - i >= 2 {
                i + 2
            } else {
                len
            };
            continue;
        }
        if ch == '"' {
            ins = !ins;
            i = i + 1;
            continue;
        }
        if !ins && ch == '=' {
            return Some(i);
        }
        i = i + 1;
    }
    None
}

/// Tries to break a definition after its `=` when it has no block body.
pub fn try_break_at_equals(def: &[char], indent: &[char], max_width: usize) -> (r: Option<Vec<char>>)
    ensures
        match r {
            None => break_spec(def@, indent@, max_width as nat) is None,
            Some(v) => break_spec(def@, indent@, max_width as nat) == Some(v@),
        },
{
    let eq = match scan_first_eq(def) {
        None => return None,
        Some(k) => k,
    };
    proof {
        lemma_first_eq(def@, 0, false);
    }
    assert(eq < def.len());
    let before = crate::text::slice_range(def, 0, eq);
    let lhs = crate::text::trim_end_chars(&before);
    let after = crate::text::slice_range(def, eq + 1, def.len());
    let rhs = crate::text::trim_chars(&after);
    assert(before@ =~= def@.take(eq as int));
    assert(after@ =~= def@.skip(eq as int + 1));
    let (ann, body) = split_annotations_chars(&rhs);
    let ind = cat(indent, &spaces4());
    let eqnl = vec![' ', '=', '\n'];
    assert(eqnl@ =~= eq_nl());
    let nl = vec!['\n'];
    assert(nl@ =~= seq!['\n']);
    if ann.len() == 0 {
        let res = cat(&cat(&cat(&cat(indent, &lhs), &eqnl), &ind), &rhs);
        if max_line_of(&res) <= max_width {
            return Some(res);
        }
    } else {
        let eqsp = vec![' ', '=', ' '];
        assert(eqsp@ =~= eq_sp());
        let first = cat(&cat(&cat(indent, &lhs), &eqsp), &ann);
        let res1 = cat(&cat(&cat(&first, &nl), &ind), &body);
        if width_of(&first) <= max_width && max_line_of(&res1) <= max_width {
            return Some(res1);
        }
        let res2 = cat(
            &cat(&cat(&cat(&cat(&cat(&cat(indent, &lhs), &eqnl), &ind), &ann), &nl), &ind),
            &body,
        );
        if max_line_of(&res2) <= max_width {
            return Some(res2);
        }
    }
    None
}

// ---------------------------------------------------------------------------
// Expanding blocks
// ---------------------------------------------------------------------------

pub open spec fn open_nl() -> Seq<char> {
    seq![' ', '{', '\n']
}

/// Nested entries, one per line at indent `nind`, each followed by `,`.
pub open spec fn nested_lines(ns: Seq<Seq<char>>, nind: Seq<char>) -> Seq<char>
    decreases ns.len(),
{
    if ns.len() == 0 {
        seq![]
    } else {
        let t = trim(ns.last());
        nested_lines(ns.drop_last(), nind) + if t.len() > 0 {
            nind + t + seq![',', '\n']
        } else {
            seq![]
        }
    }
}

/// A variant entry that holds a nested block, laid out over several lines.
pub open spec fn nested_spec(entry: Seq<char>, ind: Seq<char>, max_width: nat) -> Option<Seq<char>> {
    match outermost_block(entry) {
        None => None,
        Some((ep, bc, es)) => {
            let nested = split_from(bc, 0, false, 0, seq![]);
            if nested.len() == 0 {
                None
            } else {
                let single = ind + entry + seq![','];
                if width(single) <= max_width {
                    Some(single)
                } else {
                    Some(
                        ind + ep + open_nl() + nested_lines(nested, ind + four_spaces()) + ind
                            + seq!['}'] + es + seq![','],
                    )
                }
            }
        },
    }
}

/// The line for one entry of an expanded block (empty for an empty entry).
pub open spec fn entry_text(e: Seq<char>, ind: Seq<char>, max_width: nat) -> Seq<char> {
    let t = trim(e);
    if t.len() == 0 {
        seq![]
    } else {
        let line = ind + t + seq![','];
        let f = if width(line) > max_width && nested_spec(t, ind, max_width) is Some {
            nested_spec(t, ind, max_width)->0
        } else {
            line
        };
        f + seq!['\n']
    }
}

pub open spec fn expand_entries(es: Seq<Seq<char>>, ind: Seq<char>, max_width: nat) -> Seq<char>
    decreases es.len(),
{
    if es.len() == 0 {
        seq![]
    } else {
        expand_entries(es.drop_last(), ind, max_width) + entry_text(es.last(), ind, max_width)
    }
}

/// The definition with its outermost block laid out one entry per line.
pub open spec fn expand_spec(def: Seq<char>, indent: Seq<char>, max_width: nat) -> Option<Seq<char>> {
    match outermost_block(def) {
        None => None,
        Some((prefix, content, suffix)) => {
            let entries = split_from(content, 0, false, 0, seq![]);
            if entries.len() == 0 {
                None
            } else {
                Some(
                    indent + prefix + open_nl() + expand_entries(
                        entries,
                        indent + four_spaces(),
                        max_width,
                    ) + indent + seq!['}'] + suffix,
                )
            }
        },
    }
}

/// Tries to expand a nested block within a variant entry.
pub fn try_expand_nested_entry(entry: &[char], ind: &[char], max_width: usize) -> (r: Option<
    Vec<char>,
>)
    ensures
        match r {
            None => nested_spec(entry@, ind@, max_width as nat) is None,
            Some(v) => nested_spec(entry@, ind@, max_width as nat) == Some(v@),
        },
{
    let (ep, bc, es) = match find_outermost_block(entry) {
        None => return None,
        Some(t) => t,
    };
    let nind = cat(ind, &spaces4());
    let nested = split_by_structural_commas(&bc);
    if nested.len() == 0 {
        return None;
    }
    let comma = vec![','];
    assert(comma@ =~= seq![',']);
    let single = cat(&cat(ind, entry), &comma);
    if width_of(&single) <= max_width {
        return Some(single);
    }
    let on = vec![' ', '{', '\n'];
    assert(on@ =~= open_nl());
    let mut body: Vec<char> = Vec::new();
    let mut k: usize = 0;
    let ccnl = vec![',', '\n'];
    assert(ccnl@ =~= seq![',', '\n']);
    while k < nested.len()
        invariant
            k <= nested.len(),
            nind@ == ind@ + four_spaces(),
            ccnl@ == seq![',', '\n'],
            body@ == nested_lines(nested.deep_view().take(k as int), nind@),
        decreases nested.len() - k,
    {
        let t = crate::text::trim_chars(&nested[k]);
        assert(nested.deep_view().take(k as int + 1).drop_last() =~= nested.deep_view().take(
            k as int,
        ));
        assert(nested.deep_view()[k as int] == nested[k as int]@);
        if t.len() > 0 {
            let piece = cat(&cat(&nind, &t), &ccnl);
            crate::text::extend_chars(&mut body, &piece);
        } else {
            assert(body@ =~= body@ + Seq::<char>::empty());
        }
        k = k + 1;
    }
    assert(nested.deep_view().take(nested.len() as int) =~= nested.deep_view());
    let close = vec!['}'];
    assert(close@ =~= seq!['}']);
    let r = cat(
        &cat(&cat(&cat(&cat(&cat(ind, &ep), &on), &body), ind), &close),
        &cat(&es, &comma),
    );
    assert(r@ =~= ind@ + ep@ + open_nl() + body@ + ind@ + seq!['}'] + es@ + seq![',']);
    Some(r)
}

/// Tries to expand a block-style definition to one entry per line.
pub fn try_expand_blocks(def: &[char], indent: &[char], max_width: usize) -> (r: Option<Vec<char>>)
    ensures
        match r {
            None => expand_spec(def@, indent@, max_width as nat) is None,
            Some(v) => expand_spec(def@, indent@, max_width as nat) == Some(v@),
        },
{
    let (prefix, content, suffix) = match find_outermost_block(def) {
        None => return None,
        Some(t) => t,
    };
    let ind = cat(indent, &spaces4());
    let entries = split_by_structural_commas(&content);
    if entries.len() == 0 {
        return None;
    }
    let comma = vec![','];
    assert(comma@ =~= seq![',']);
    let nl = vec!['\n'];
    assert(nl@ =~= seq!['\n']);
    let mut body: Vec<char> = Vec::new();
    let mut k: usize = 0;
    while k < entries.len()
        invariant
            k <= entries.len(),
            ind@ == indent@ + four_spaces(),
            comma@ == seq![','],
            nl@ == seq!['\n'],
            body@ == expand_entries(entries.deep_view().take(k as int), ind@, max_width as nat),
        decreases entries.len() - k,
    {
        let t = crate::text::trim_chars(&entries[k]);
        assert(entries.deep_view().take(k as int + 1).drop_last() =~= entries.deep_view().take(
            k as int,
        ));
        assert(entries.deep_view()[k as int] == entries[k as int]@);
        if t.len() > 0 {
            let line = cat(&cat(&ind, &t), &comma);
            let mut chosen = line;
            if width_of(&chosen) > max_width {
                match try_expand_nested_entry(&t, &ind, max_width) {
                    Some(e) => {
                        chosen = e;
                    },
                    None => {},
                }
            }
            let piece = cat(&chosen, &nl);
            crate::text::extend_chars(&mut body, &piece);
        } else {
            assert(body@ =~= body@ + Seq::<char>::empty());
        }
        k = k + 1;
    }
    assert(entries.deep_view().take(entries.len() as int) =~= entries.deep_view());
    let on = vec![' ', '{', '\n'];
    assert(on@ =~= open_nl());
    let close = vec!['}'];
    assert(close@ =~= seq!['}']);
    let r = cat(&cat(&cat(&cat(&cat(indent, &prefix), &on), &body), indent), &cat(&close, &suffix));
    assert(r@ =~= indent@ + prefix@ + open_nl() + body@ + indent@ + seq!['}'] + suffix@);
    Some(r)
}

// ---------------------------------------------------------------------------
// One definition
// ---------------------------------------------------------------------------

/// The non-empty trimmed lines, in order.
pub open spec fn nonempty_trims(ls: Seq<Seq<char>>) -> Seq<Seq<char>>
    decreases ls.len(),
{
    if ls.len() == 0 {
        seq![]
    } else {
        let p = nonempty_trims(ls.drop_last());
        let t = trim(ls.last());
        if t.len() > 0 {
            p.push(t)
        } else {
            p
        }
    }
}

/// A multi-line definition as one logical line: the non-empty trimmed
/// lines joined with single spaces.
pub open spec fn joined_definition(ls: Seq<Seq<char>>) -> Seq<char> {
    join(nonempty_trims(ls), seq![' '])
}

/// The formatted text of one definition: on one line if it fits, else with
/// its block expanded, else broken after `=`, else on one line anyway.
pub open spec fn format_definition_spec(ls: Seq<Seq<char>>, indent: Seq<char>, max_width: nat) -> Seq<
    char,
> {
    let fixed = fix_from(joined_definition(ls), 0, false);
    let single = indent + trailing_from(fixed, 0, false);
    if width(single) <= max_width {
        single
    } else if expand_spec(fixed, indent, max_width) is Some {
        expand_spec(fixed, indent, max_width)->0
    } else if break_spec(fixed, indent, max_width) is Some {
        break_spec(fixed, indent, max_width)->0
    } else {
        single
    }
}

/// Joins multi-line definition text into a single logical line.
pub fn join_definition_lines(ls: &Vec<Vec<char>>) -> (r: Vec<char>)
    ensures
        r@ == joined_definition(ls.deep_view()),
{
    let mut parts: Vec<Vec<char>> = Vec::new();
    let mut k: usize = 0;
    while k < ls.len()
        invariant
            k <= ls.len(),
            parts.deep_view() == nonempty_trims(ls.deep_view().take(k as int)),
        decreases ls.len() - k,
    {
        let ghost old_parts = parts.deep_view();
        let t = crate::text::trim_chars(&ls[k]);
        assert(ls.deep_view().take(k as int + 1).drop_last() =~= ls.deep_view().take(k as int));
        assert(ls.deep_view()[k as int] == ls[k as int]@);
        if t.len() > 0 {
            assert(t.deep_view() =~= t@);
            parts.push(t);
            assert(parts.deep_view() =~~= old_parts.push(trim(ls[k as int]@)));
        }
        k = k + 1;
    }
    assert(ls.deep_view().take(ls.len() as int) =~= ls.deep_view());
    let space = vec![' '];
    assert(space@ =~= seq![' ']);
    crate::text::join_chars(&parts, &space)
}

/// Formats a single definition (which may span several input lines).
pub fn format_definition(ls: &Vec<Vec<char>>, indent: &[char], max_width: usize) -> (r: Vec<char>)
    ensures
        r@ == format_definition_spec(ls.deep_view(), indent@, max_width as nat),
{
    let joined = join_definition_lines(ls);
    let fixed = fix_tag_spacing(&joined);
    let normalized = normalize_trailing_commas(&fixed);
    let single = cat(indent, &normalized);
    if width_of(&single) <= max_width {
        return single;
    }
    if let Some(r) = try_expand_blocks(&fixed, indent, max_width) {
        return r;
    }
    if let Some(r) = try_break_at_equals(&fixed, indent, max_width) {
        return r;
    }
    single
}

// ---------------------------------------------------------------------------
// Files
// ---------------------------------------------------------------------------

/// What a piece of the input is: a blank line, a comment line (with its
/// output text), or the lines of one definition.
pub enum ChunkModel {
    Blank,
    Comment(Seq<char>),
    Definition(Seq<Seq<char>>),
}

/// A piece of the input: a blank line, a comment line, or the lines of one
/// definition.
pub enum Chunk {
    BlankLine,
    Comment(Vec<char>),
    Definition(Vec<Vec<char>>),
}

impl View for Chunk {
    type V = ChunkModel;

    open spec fn view(&self) -> ChunkModel {
        match self {
            Chunk::BlankLine => ChunkModel::Blank,
            Chunk::Comment(c) => ChunkModel::Comment(c@),
            Chunk::Definition(ls) => ChunkModel::Definition(ls.deep_view()),
        }
    }
}

pub open spec fn slash2() -> Seq<char> {
    seq!['/', '/']
}

/// The chunks of the lines `ls`, with `pending` the lines of an unfinished
/// definition. A definition collects lines until they form a complete
/// definition; a comment keeps its trimmed text behind `indent`.
pub open spec fn chunks_spec(ls: Seq<Seq<char>>, indent: Seq<char>, pending: Seq<Seq<char>>) -> Seq<
    ChunkModel,
>
    decreases ls.len(),
{
    if ls.len() == 0 {
        if pending.len() > 0 {
            seq![ChunkModel::Definition(pending)]
        } else {
            seq![]
        }
    } else {
        let line = ls[0];
        let rest = ls.drop_first();
        let t = trim(line);
        if pending.len() > 0 || !(t.len() == 0 || starts_with(t, slash2())) {
            let p2 = pending.push(line);
            if definition_complete_spec(p2) {
                seq![ChunkModel::Definition(p2)] + chunks_spec(rest, indent, seq![])
            } else {
                chunks_spec(rest, indent, p2)
            }
        } else if t.len() == 0 {
            seq![ChunkModel::Blank] + chunks_spec(rest, indent, seq![])
        } else {
            seq![ChunkModel::Comment(indent + t)] + chunks_spec(rest, indent, seq![])
        }
    }
}

/// The output text of chunks: a newline after each.
pub open spec fn render_chunks(cs: Seq<ChunkModel>, indent: Seq<char>, max_width: nat) -> Seq<char>
    decreases cs.len(),
{
    if cs.len() == 0 {
        seq![]
    } else {
        render_chunks(cs.drop_last(), indent, max_width) + match cs.last() {
            ChunkModel::Blank => seq!['\n'],
            ChunkModel::Comment(c) => c.push('\n'),
            ChunkModel::Definition(ls) => format_definition_spec(ls, indent, max_width).push('\n'),
        }
    }
}

/// Drops trailing newlines.
pub open spec fn trim_newlines(s: Seq<char>) -> Seq<char>
    decreases s.len(),
{
    if s.len() > 0 && s.last() == '\n' {
        trim_newlines(s.drop_last())
    } else {
        s
    }
}

/// The formatted text of definition-file content: the rendered chunks with
/// exactly one final newline, or nothing when they are empty.
pub open spec fn format_definitions_spec(input: Seq<char>, indent: Seq<char>, max_width: nat) -> Seq<
    char,
> {
    let t = trim_newlines(render_chunks(chunks_spec(lines(input), indent, seq![]), indent, max_width));
    if t.len() == 0 {
        seq![]
    } else {
        t.push('\n')
    }
}

fn starts_with_slashes(t: &[char]) -> (r: bool)
    ensures
        r == starts_with(t@, slash2()),
{
    if t.len() >= 2 && t[0] == '/' && t[1] == '/' {
        assert(t@.take(2) =~= slash2());
        true
    } else {
        if t.len() >= 2 {
            assert(t@.take(2)[0] == t@[0]);
            assert(t@.take(2)[1] == t@[1]);
        }
        false
    }
}

fn clone_lines(ls: &Vec<Vec<char>>) -> (r: Vec<Vec<char>>)
    ensures
        r.deep_view() == ls.deep_view(),
{
    let mut r: Vec<Vec<char>> = Vec::new();
    let mut k: usize = 0;
    while k < ls.len()
        invariant
            k <= ls.len(),
            r.deep_view() == ls.deep_view().take(k as int),
        decreases ls.len() - k,
    {
        let ghost old_r = r.deep_view();
        let c = crate::text::slice_range(&ls[k], 0, ls[k].len());
        assert(c@ =~= ls[k as int]@);
        assert(c.deep_view() =~= c@);
        r.push(c);
        assert(ls.deep_view()[k as int] =~= ls[k as int]@);
        assert(r.deep_view() =~~= old_r.push(ls[k as int]@));
        assert(ls.deep_view().take(k as int + 1) =~= ls.deep_view().take(k as int).push(
            ls.deep_view()[k as int],
        ));
        k = k + 1;
    }
    assert(ls.deep_view().take(ls.len() as int) =~= ls.deep_view());
    r
}

pub open spec fn chunk_views(cs: Seq<Chunk>) -> Seq<ChunkModel> {
    cs.map_values(|c: Chunk| c@)
}

/// Splits input lines into chunks: blank lines, comment lines, and
/// definitions (lines collected until a line ends the definition).
pub fn split_into_chunks(ls: &Vec<Vec<char>>, indent: &[char]) -> (r: Vec<Chunk>)
    ensures
        chunk_views(r@) == chunks_spec(ls.deep_view(), indent@, seq![]),
{
    let mut chunks: Vec<Chunk> = Vec::new();
    let mut def_lines: Vec<Vec<char>> = Vec::new();
    let mut k: usize = 0;
    assert(ls.deep_view().skip(0) =~= ls.deep_view());
    assert(def_lines.deep_view() =~= Seq::<Seq<char>>::empty());
    assert(chunk_views(chunks@) + chunks_spec(ls.deep_view(), indent@, seq![]) =~= chunks_spec(
        ls.deep_view(),
        indent@,
        seq![],
    ));
    while k < ls.len()
        invariant
            k <= ls.len(),
            chunk_views(chunks@) + chunks_spec(
                ls.deep_view().skip(k as int),
                indent@,
                def_lines.deep_view(),
            ) == chunks_spec(ls.deep_view(), indent@, seq![]),
        decreases ls.len() - k,
    {
        let ghost rest = ls.deep_view().skip(k as int);
        let ghost old_chunks = chunk_views(chunks@);
        let ghost old_pending = def_lines.deep_view();
        assert(rest[0] =~= ls[k as int]@);
        assert(rest.drop_first() =~= ls.deep_view().skip(k as int + 1));
        let line = crate::text::slice_range(&ls[k], 0, ls[k].len());
        assert(line@ =~= ls[k as int]@);
        let t = crate::text::trim_chars(&line);
        let ghost tt = trim(rest[0]);
        assert(t@ == tt);
        let ghost tail = ls.deep_view().skip(k as int + 1);
        if def_lines.len() > 0 || !(t.len() == 0 || starts_with_slashes(&t)) {
            assert(chunks_spec(rest, indent@, old_pending) == if definition_complete_spec(
                old_pending.push(rest[0]),
            ) {
                seq![ChunkModel::Definition(old_pending.push(rest[0]))] + chunks_spec(
                    tail,
                    indent@,
                    seq![],
                )
            } else {
                chunks_spec(tail, indent@, old_pending.push(rest[0]))
            });
            assert(line.deep_view() =~= line@);
            def_lines.push(line);
            assert(def_lines.deep_view() =~~= old_pending.push(ls[k as int]@));
            if definition_complete(&def_lines) {
                let d = clone_lines(&def_lines);
                chunks.push(Chunk::Definition(d));
                assert(chunk_views(chunks@) =~= old_chunks.push(
                    ChunkModel::Definition(old_pending.push(ls[k as int]@)),
                ));
                def_lines = Vec::new();
                assert(def_lines.deep_view() =~= Seq::<Seq<char>>::empty());
                assert(chunk_views(chunks@) + chunks_spec(tail, indent@, def_lines.deep_view())
                    =~= old_chunks + chunks_spec(rest, indent@, old_pending));
            } else {
                assert(chunk_views(chunks@) =~= old_chunks);
                assert(chunk_views(chunks@) + chunks_spec(tail, indent@, def_lines.deep_view())
                    =~= old_chunks + chunks_spec(rest, indent@, old_pending));
            }
        } else if t.len() == 0 {
            assert(chunks_spec(rest, indent@, old_pending) == seq![ChunkModel::Blank] + chunks_spec(
                tail,
                indent@,
                seq![],
            ));
            assert(def_lines.deep_view() =~= Seq::<Seq<char>>::empty());
            chunks.push(Chunk::BlankLine);
            assert(chunk_views(chunks@) =~= old_chunks.push(ChunkModel::Blank));
        } else {
            assert(chunks_spec(rest, indent@, old_pending) == seq![ChunkModel::Comment(indent@ + tt)]
                + chunks_spec(tail, indent@, seq![]));
            assert(def_lines.deep_view() =~= Seq::<Seq<char>>::empty());
            let c = cat(indent, &t);
            chunks.push(Chunk::Comment(c));
            assert(chunk_views(chunks@) =~= old_chunks.push(ChunkModel::Comment(indent@ + trim(ls[k as int]@))));
        }
        assert(chunk_views(chunks@) + chunks_spec(
            ls.deep_view().skip(k as int + 1),
            indent@,
            def_lines.deep_view(),
        ) =~= old_chunks + chunks_spec(rest, indent@, old_pending));
        k = k + 1;
    }
    let ghost old_chunks = chunk_views(chunks@);
    assert(ls.deep_view().skip(k as int) =~= Seq::<Seq<char>>::empty());
    if def_lines.len() > 0 {
        chunks.push(Chunk::Definition(def_lines));
        assert(chunk_views(chunks@) =~= old_chunks.push(ChunkModel::Definition(def_lines.deep_view())));
    } else {
        assert(chunk_views(chunks@) =~= old_chunks + Seq::<ChunkModel>::empty());
    }
    chunks
}

/// Formats definition text with the given base indent, wrapping lines to
/// `max_width` bytes.
pub fn format_definitions(input: &str, base_indent: &str, max_width: usize) -> (r: String)
    ensures
        r@ == format_definitions_spec(input@, base_indent@, max_width as nat),
{
    let text = crate::text::chars_of(input);
    let indent = crate::text::chars_of(base_indent);
    let ls = crate::text::split_lines(&text);
    let chunks = split_into_chunks(&ls, &indent);
    let mut result: Vec<char> = Vec::new();
    let mut k: usize = 0;
    while k < chunks.len()
        invariant
            k <= chunks.len(),
            result@ == render_chunks(chunk_views(chunks@).take(k as int), indent@, max_width as nat),
        decreases chunks.len() - k,
    {
        assert(chunk_views(chunks@).take(k as int + 1).drop_last() =~= chunk_views(chunks@).take(
            k as int,
        ));
        assert(chunk_views(chunks@).take(k as int + 1).last() == chunks@[k as int]@);
        match &chunks[k] {
            Chunk::BlankLine => {
                result.push('\n');
            },
            Chunk::Comment(line) => {
                crate::text::extend_chars(&mut result, line);
                result.push('\n');
            },
            Chunk::Definition(lines) => {
                let formatted = format_definition(lines, &indent, max_width);
                crate::text::extend_chars(&mut result, &formatted);
                result.push('\n');
            },
        }
        k = k + 1;
    }
    assert(chunk_views(chunks@).take(chunks.len() as int) =~= chunk_views(chunks@));
    let mut end = result.len();
    assert(result@.take(end as int) =~= result@);
    while end > 0 && result[end - 1] == '\n'
        invariant
            end <= result.len(),
            trim_newlines(result@) == trim_newlines(result@.take(end as int)),
        decreases end,
    {
        assert(result@.take(end as int).drop_last() =~= result@.take(end as int - 1));
        end = end - 1;
    }
    assert(end > 0 ==> result@.take(end as int).last() == result@[end as int - 1]);
    if end == 0 {
        return String::new();
    }
    let mut out = crate::text::slice_range(&result, 0, end);
    out.push('\n');
    crate::text::string_of(&out)
}

/// Formats a complete `.rlf` file, wrapping lines to `max_width` bytes.
pub fn format_file(input: &str, max_width: usize) -> (r: String)
    ensures
        r@ == format_definitions_spec(input@, seq![], max_width as nat),
{
    let empty = String::new();
    format_definitions(input, empty.as_str(), max_width)
}

} // verus!
