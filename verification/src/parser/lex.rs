//! Character classes, runs and positions shared by the template and file
//! grammars. Positions are indices into the character sequence of the input.
use vstd::prelude::*;
use crate::text::{
    is_ascii_ws, is_ascii_digit, is_ident_char, utf8_len, char_is_ascii_ws, char_is_ascii_digit,
    char_is_ident, utf8_byte_len,
};

verus! {

/// The character classes that the grammars take runs of.
#[derive(Clone, Copy, PartialEq, Eq, Structural)]
pub enum CharClass {
    /// ASCII letters, digits and `_`.
    Ident,
    /// ASCII whitespace.
    Space,
    /// ASCII digits.
    Digit,
    /// ASCII letters, digits, `_` and `.` (variant keys, transform contexts).
    Dotted,
    /// Anything but a newline.
    NotNewline,
}

pub open spec fn in_class(c: char, k: CharClass) -> bool {
    match k {
        CharClass::Ident => is_ident_char(c),
        CharClass::Space => is_ascii_ws(c),
        CharClass::Digit => is_ascii_digit(c),
        CharClass::Dotted => is_ident_char(c) || c == '.',
        CharClass::NotNewline => c != '\n',
    }
}

/// End of the longest run of characters of class `k` starting at `p`.
pub open spec fn run_end(s: Seq<char>, p: int, k: CharClass) -> int
    decreases s.len() - p,
{
    if 0 <= p < s.len() && in_class(s[p], k) {
        run_end(s, p + 1, k)
    } else {
        p
    }
}

pub proof fn lemma_run_end(s: Seq<char>, p: int, k: CharClass)
    requires
        0 <= p <= s.len(),
    ensures
        p <= run_end(s, p, k) <= s.len(),
        forall|i: int| p <= i < run_end(s, p, k) ==> in_class(#[trigger] s[i], k),
        run_end(s, p, k) < s.len() ==> !in_class(s[run_end(s, p, k)], k),
    decreases s.len() - p,
{
    if p < s.len() && in_class(s[p], k) {
        lemma_run_end(s, p + 1, k);
    }
}

pub fn char_in_class(c: char, k: CharClass) -> (r: bool)
    ensures
        r == in_class(c, k),
{
    match k {
        CharClass::Ident => char_is_ident(c),
        CharClass::Space => char_is_ascii_ws(c),
        CharClass::Digit => char_is_ascii_digit(c),
        CharClass::Dotted => char_is_ident(c) || c == '.',
        CharClass::NotNewline => c != '\n',
    }
}

pub fn scan(s: &Vec<char>, p: usize, k: CharClass) -> (r: usize)
    requires
        p <= s.len(),
    ensures
        r as int == run_end(s@, p as int, k),
        p <= r <= s.len(),
{
    let mut i = p;
    while i < s.len() && char_in_class(s[i], k)
        invariant
            p <= i <= s.len(),
            run_end(s@, i as int, k) == run_end(s@, p as int, k),
        decreases s.len() - i,
    {
        i = i + 1;
    }
    i
}

/// End of a run of at least one character of class `k` (`take_while(1..)`).
pub open spec fn run1(s: Seq<char>, p: int, k: CharClass) -> Option<int> {
    if run_end(s, p, k) > p {
        Some(run_end(s, p, k))
    } else {
        None
    }
}

pub fn scan1(s: &Vec<char>, p: usize, k: CharClass) -> (r: Option<usize>)
    requires
        p <= s.len(),
    ensures
        r matches Some(e) ==> run1(s@, p as int, k) == Some(e as int) && p < e <= s.len(),
        r is None ==> run1(s@, p as int, k) is None,
{
    let e = scan(s, p, k);
    if e > p {
        Some(e)
    } else {
        None
    }
}

/// Whether `s` holds character `c` at position `p`.
pub open spec fn at(s: Seq<char>, p: int, c: char) -> bool {
    0 <= p < s.len() && s[p] == c
}

pub fn char_at(s: &Vec<char>, p: usize, c: char) -> (r: bool)
    ensures
        r == at(s@, p as int, c),
{
    p < s.len() && s[p] == c
}

/// Skips whitespace and `//` line comments (the file grammar's separator).
pub open spec fn skip_wc(s: Seq<char>, p: int) -> int
    decreases s.len() - p,
{
    if 0 <= p < s.len() && is_ascii_ws(s[p]) {
        skip_wc(s, p + 1)
    } else if 0 <= p && at(s, p, '/') && at(s, p + 1, '/') {
        proof {
            lemma_run_end(s, p + 2, CharClass::NotNewline);
        }
        skip_wc(s, run_end(s, p + 2, CharClass::NotNewline))
    } else {
        p
    }
}

pub proof fn lemma_skip_wc(s: Seq<char>, p: int)
    requires
        0 <= p <= s.len(),
    ensures
        p <= skip_wc(s, p) <= s.len(),
    decreases s.len() - p,
{
    if p < s.len() && is_ascii_ws(s[p]) {
        lemma_skip_wc(s, p + 1);
    } else if at(s, p, '/') && at(s, p + 1, '/') {
        lemma_run_end(s, p + 2, CharClass::NotNewline);
        lemma_skip_wc(s, run_end(s, p + 2, CharClass::NotNewline));
    }
}

pub fn skip_ws_and_comments(s: &Vec<char>, p: usize) -> (r: usize)
    requires
        p <= s.len(),
    ensures
        r as int == skip_wc(s@, p as int),
        p <= r <= s.len(),
{
    let mut i = p;
    loop
        invariant
            p <= i <= s.len(),
            skip_wc(s@, i as int) == skip_wc(s@, p as int),
        decreases s.len() - i,
    {
        if i < s.len() && char_is_ascii_ws(s[i]) {
            i = i + 1;
        } else if char_at(s, i, '/') && char_at(s, i + 1, '/') {
            proof {
                lemma_run_end(s@, i + 2, CharClass::NotNewline);
            }
            i = scan(s, i + 2, CharClass::NotNewline);
        } else {
            return i;
        }
    }
}

/// Skips ASCII whitespace (the interpolation grammar's separator).
pub open spec fn skip_ws(s: Seq<char>, p: int) -> int {
    run_end(s, p, CharClass::Space)
}

pub fn skip_ws_exec(s: &Vec<char>, p: usize) -> (r: usize)
    requires
        p <= s.len(),
    ensures
        r as int == skip_ws(s@, p as int),
        p <= r <= s.len(),
{
    scan(s, p, CharClass::Space)
}

// ---------------------------------------------------------------------------
// Positions
// ---------------------------------------------------------------------------

pub open spec fn count_newlines(t: Seq<char>) -> nat
    decreases t.len(),
{
    if t.len() == 0 {
        0
    } else {
        count_newlines(t.drop_last()) + if t.last() == '\n' {
            1nat
        } else {
            0nat
        }
    }
}

/// The characters after the last newline of `t` (all of `t` when it has
/// none).
pub open spec fn since_newline(t: Seq<char>) -> Seq<char>
    decreases t.len(),
{
    if t.len() == 0 {
        t
    } else if t.last() == '\n' {
        Seq::empty()
    } else {
        since_newline(t.drop_last()).push(t.last())
    }
}

pub open spec fn saturate(n: nat) -> nat {
    if n <= usize::MAX {
        n
    } else {
        usize::MAX as nat
    }
}

/// Line (1-based) and column of the character at index `k` of `s`. The column
/// is 1 plus the number of UTF-8 bytes between the last newline before `k`
/// and `k`, as the byte offsets of `str` give it. Both saturate at
/// `usize::MAX`.
pub open spec fn position_of(s: Seq<char>, k: int) -> (nat, nat) {
    (
        saturate(count_newlines(s.take(k)) + 1),
        saturate(utf8_len(since_newline(s.take(k))) + 1),
    )
}

proof fn lemma_count_newlines_bound(t: Seq<char>)
    ensures
        count_newlines(t) <= t.len(),
    decreases t.len(),
{
    if t.len() > 0 {
        lemma_count_newlines_bound(t.drop_last());
    }
}

/// Line and column of the character at index `k` (`calculate_position`).
pub fn calculate_position(s: &Vec<char>, k: usize) -> (r: (usize, usize))
    requires
        k <= s.len(),
    ensures
        (r.0 as nat, r.1 as nat) == position_of(s@, k as int),
{
    let mut lines: usize = 0;
    let mut last: usize = 0;
    let mut i: usize = 0;
    while i < k
        invariant
            i <= k <= s.len(),
            lines as nat == count_newlines(s@.take(i as int)),
            last <= i,
            since_newline(s@.take(i as int)) =~= s@.subrange(last as int, i as int),
        decreases k - i,
    {
        assert(s@.take(i as int + 1).drop_last() =~= s@.take(i as int));
        proof {
            lemma_count_newlines_bound(s@.take(i as int));
        }
        if s[i] == '\n' {
            lines = lines + 1;
            last = i + 1;
        }
        i = i + 1;
    }
    let tail = crate::text::slice_range(s.as_slice(), last, k);
    let bytes = utf8_byte_len(tail.as_slice());
    let line = if lines == usize::MAX {
        usize::MAX
    } else {
        lines + 1
    };
    let column = if bytes == usize::MAX {
        usize::MAX
    } else {
        bytes + 1
    };
    (line, column)
}

} // verus!
