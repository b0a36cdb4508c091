//! Low-level scanning: character classes, whitespace and digit runs, blank
//! lines, and the two bullet recognizers.
//!
//! Every position is a character index into the input, modelled as a
//! `Seq<char>`.  The spec functions here are the ground truth that the
//! executable parser is proved against.

use vstd::prelude::*;
use vstd::string::StrSliceExecFns;

verus! {

/// The input's characters as a vector, for position-indexed scanning.
pub(crate) fn to_chars(text: &str) -> (v: Vec<char>)
    ensures
        v@ == text@,
{
    let n = text.unicode_len();
    let mut v: Vec<char> = Vec::new();
    let mut i: usize = 0;
    while i < n
        invariant
            n == text@.len(),
            i <= n,
            v@ == text@.subrange(0, i as int),
        decreases n - i,
    {
        let c = text.get_char(i);
        v.push(c);
        proof {
            assert(v@ =~= text@.subrange(0, i + 1 as int));
        }
        i = i + 1;
    }
    proof {
        assert(v@ =~= text@);
    }
    v
}

/// Whitespace as the bullet recognizers skip it between the opening line
/// break and the marker: space, tab, carriage return, line feed.
pub open spec fn is_ws_char(c: char) -> bool {
    c == ' ' || c == '\t' || c == '\r' || c == '\n'
}

/// ASCII decimal digit.
pub open spec fn is_digit_char(c: char) -> bool {
    48 <= c as u32 && c as u32 <= 57
}

/// First position at or after `i` that does not hold whitespace.
pub open spec fn skip_ws(s: Seq<char>, i: int) -> int
    decreases s.len() - i,
{
    if 0 <= i && i < s.len() && is_ws_char(s[i]) {
        skip_ws(s, i + 1)
    } else {
        i
    }
}

/// First position at or after `i` that does not hold a decimal digit.
pub open spec fn skip_digits(s: Seq<char>, i: int) -> int
    decreases s.len() - i,
{
    if 0 <= i && i < s.len() && is_digit_char(s[i]) {
        skip_digits(s, i + 1)
    } else {
        i
    }
}

/// A blank line: two consecutive line feeds starting at `i`.
pub open spec fn blank_at(s: Seq<char>, i: int) -> bool {
    &&& 0 <= i
    &&& i + 2 <= s.len()
    &&& s[i] == '\n'
    &&& s[i + 1] == '\n'
}

/// Where the digits of an ordered bullet opened at `i` would start.
pub open spec fn ob_digits_start(s: Seq<char>, i: int) -> int {
    skip_ws(s, i + 1)
}

/// Where the digits of an ordered bullet opened at `i` would end.
pub open spec fn ob_digits_end(s: Seq<char>, i: int) -> int {
    skip_digits(s, ob_digits_start(s, i))
}

/// An ordered-list bullet begins at `i`: a line break, any run of
/// whitespace, one or more decimal digits, then the two characters `". "`.
/// The digits are recognized but their value is never interpreted.
pub open spec fn ordered_bullet_at(s: Seq<char>, i: int) -> bool {
    &&& 0 <= i && i < s.len()
    &&& s[i] == '\n'
    &&& ob_digits_start(s, i) < ob_digits_end(s, i)
    &&& ob_digits_end(s, i) + 2 <= s.len()
    &&& s[ob_digits_end(s, i)] == '.'
    &&& s[ob_digits_end(s, i) + 1] == ' '
}

/// Position immediately after the `". "` of the ordered bullet at `i`.
pub open spec fn ordered_bullet_end(s: Seq<char>, i: int) -> int {
    ob_digits_end(s, i) + 2
}

/// Where the `"- "` marker of an unordered bullet opened at `i` would start.
pub open spec fn ub_marker_start(s: Seq<char>, i: int) -> int {
    skip_ws(s, i + 1)
}

/// An unordered-list bullet begins at `i`: a line break, any run of
/// whitespace, then the two characters `"- "`.
pub open spec fn unordered_bullet_at(s: Seq<char>, i: int) -> bool {
    &&& 0 <= i && i < s.len()
    &&& s[i] == '\n'
    &&& ub_marker_start(s, i) + 2 <= s.len()
    &&& s[ub_marker_start(s, i)] == '-'
    &&& s[ub_marker_start(s, i) + 1] == ' '
}

/// Position immediately after the `"- "` of the unordered bullet at `i`.
pub open spec fn unordered_bullet_end(s: Seq<char>, i: int) -> int {
    ub_marker_start(s, i) + 2
}

/// `skip_ws` stays within bounds, skips only whitespace, and stops at the
/// first non-whitespace character.
pub proof fn lemma_skip_ws_props(s: Seq<char>, i: int)
    requires
        0 <= i <= s.len(),
    ensures
        i <= skip_ws(s, i) <= s.len(),
        forall|k: int| i <= k < skip_ws(s, i) ==> is_ws_char(s[k]),
        skip_ws(s, i) < s.len() ==> !is_ws_char(s[skip_ws(s, i)]),
    decreases s.len() - i,
{
    if i < s.len() && is_ws_char(s[i]) {
        lemma_skip_ws_props(s, i + 1);
    }
}

/// A position `e` bounding a pure whitespace run from `i` and holding no
/// whitespace itself is exactly where `skip_ws` lands.
pub proof fn lemma_skip_ws_exact(s: Seq<char>, i: int, e: int)
    requires
        0 <= i <= e <= s.len(),
        forall|k: int| i <= k < e ==> is_ws_char(s[k]),
        e < s.len() ==> !is_ws_char(s[e]),
    ensures
        skip_ws(s, i) == e,
    decreases e - i,
{
    if i < e {
        lemma_skip_ws_exact(s, i + 1, e);
    }
}

/// `skip_digits` stays within bounds, skips only digits, and stops at the
/// first non-digit character.
pub proof fn lemma_skip_digits_props(s: Seq<char>, i: int)
    requires
        0 <= i <= s.len(),
    ensures
        i <= skip_digits(s, i) <= s.len(),
        forall|k: int| i <= k < skip_digits(s, i) ==> is_digit_char(s[k]),
        skip_digits(s, i) < s.len() ==> !is_digit_char(s[skip_digits(s, i)]),
    decreases s.len() - i,
{
    if i < s.len() && is_digit_char(s[i]) {
        lemma_skip_digits_props(s, i + 1);
    }
}

/// A position `e` bounding a pure digit run from `i` and holding no digit
/// itself is exactly where `skip_digits` lands.
pub proof fn lemma_skip_digits_exact(s: Seq<char>, i: int, e: int)
    requires
        0 <= i <= e <= s.len(),
        forall|k: int| i <= k < e ==> is_digit_char(s[k]),
        e < s.len() ==> !is_digit_char(s[e]),
    ensures
        skip_digits(s, i) == e,
    decreases e - i,
{
    if i < e {
        lemma_skip_digits_exact(s, i + 1, e);
    }
}

/// An ordered bullet occupies at least the four characters `"\n1. "`, and
/// ends within the input.
pub proof fn lemma_ordered_bullet_bounds(s: Seq<char>, i: int)
    requires
        ordered_bullet_at(s, i),
    ensures
        i + 4 <= ordered_bullet_end(s, i) <= s.len(),
{
    lemma_skip_ws_props(s, i + 1);
    lemma_skip_digits_props(s, ob_digits_start(s, i));
}

/// An unordered bullet occupies at least the three characters `"\n- "`, and
/// ends within the input.
pub proof fn lemma_unordered_bullet_bounds(s: Seq<char>, i: int)
    requires
        unordered_bullet_at(s, i),
    ensures
        i + 3 <= unordered_bullet_end(s, i) <= s.len(),
{
    lemma_skip_ws_props(s, i + 1);
}

pub(crate) fn is_ws_x(c: char) -> (r: bool)
    ensures
        r == is_ws_char(c),
{
    c == ' ' || c == '\t' || c == '\r' || c == '\n'
}

pub(crate) fn is_digit_x(c: char) -> (r: bool)
    ensures
        r == is_digit_char(c),
{
    let u = c as u32;
    48 <= u && u <= 57
}

pub(crate) fn skip_ws_x(s: &Vec<char>, i: usize) -> (r: usize)
    requires
        i <= s.len(),
    ensures
        r == skip_ws(s@, i as int),
        i <= r <= s.len(),
{
    let mut j = i;
    while j < s.len() && is_ws_x(s[j])
        invariant
            i <= j <= s.len(),
            skip_ws(s@, i as int) == skip_ws(s@, j as int),
        decreases s.len() - j,
    {
        j = j + 1;
    }
    j
}

pub(crate) fn skip_digits_x(s: &Vec<char>, i: usize) -> (r: usize)
    requires
        i <= s.len(),
    ensures
        r == skip_digits(s@, i as int),
        i <= r <= s.len(),
{
    let mut j = i;
    while j < s.len() && is_digit_x(s[j])
        invariant
            i <= j <= s.len(),
            skip_digits(s@, i as int) == skip_digits(s@, j as int),
        decreases s.len() - j,
    {
        j = j + 1;
    }
    j
}

pub(crate) fn blank_at_x(s: &Vec<char>, i: usize) -> (r: bool)
    requires
        i <= s.len(),
    ensures
        r == blank_at(s@, i as int),
{
    if i < s.len() && i + 1 < s.len() {
        s[i] == '\n' && s[i + 1] == '\n'
    } else {
        false
    }
}

/// Recognizes an ordered bullet at `i`; on success returns the position
/// just past its `". "`.
pub(crate) fn ordered_bullet_x(s: &Vec<char>, i: usize) -> (r: Option<usize>)
    requires
        i <= s.len(),
    ensures
        r is Some <==> ordered_bullet_at(s@, i as int),
        r is Some ==> r->Some_0 == ordered_bullet_end(s@, i as int) && i + 4 <= r->Some_0
            <= s.len(),
{
    if i < s.len() && s[i] == '\n' {
        let j = skip_ws_x(s, i + 1);
        let k = skip_digits_x(s, j);
        if k > j && k < s.len() && k + 1 < s.len() && s[k] == '.' && s[k + 1] == ' ' {
            Some(k + 2)
        } else {
            None
        }
    } else {
        None
    }
}

/// Recognizes an unordered bullet at `i`; on success returns the position
/// just past its `"- "`.
pub(crate) fn unordered_bullet_x(s: &Vec<char>, i: usize) -> (r: Option<usize>)
    requires
        i <= s.len(),
    ensures
        r is Some <==> unordered_bullet_at(s@, i as int),
        r is Some ==> r->Some_0 == unordered_bullet_end(s@, i as int) && i + 3 <= r->Some_0
            <= s.len(),
{
    if i < s.len() && s[i] == '\n' {
        let j = skip_ws_x(s, i + 1);
        if j < s.len() && j + 1 < s.len() && s[j] == '-' && s[j + 1] == ' ' {
            Some(j + 2)
        } else {
            None
        }
    } else {
        None
    }
}

} // verus!
