//! Locality of the grammar: every recognizer and parser reads the input only
//! from its current position on.  Two inputs with equal suffixes are parsed
//! alike, position for position.  These lemmas carry the foreword-discard
//! law and the round-trip law across concatenations.

use vstd::prelude::*;

use crate::blocks::ulist_parse;
use crate::blocks::uitem_parse;
use crate::inline::frag_parse;
use crate::inline::frag_term_at;
use crate::inline::em_at;
use crate::inline::em_delim;
use crate::inline::inside_stop_at;
use crate::inline::lemma_next_span_bounds;
use crate::inline::next_span;
use crate::inline::pair_of;
use crate::inline::plain_end;
use crate::inline::plain_stop_at;
use crate::inline::scan_inside;
use crate::inline::single_of;
use crate::inline::strong_at;
use crate::inline::strong_delim;
use crate::inline::tag_at;
use crate::parser::recipes_parse;
use crate::scan::blank_at;
use crate::scan::lemma_ordered_bullet_bounds;
use crate::scan::lemma_unordered_bullet_bounds;
use crate::scan::ordered_bullet_at;
use crate::scan::ordered_bullet_end;
use crate::scan::skip_digits;
use crate::scan::skip_ws;
use crate::scan::unordered_bullet_at;
use crate::scan::unordered_bullet_end;

verus! {

/// The inputs `s` and `t` agree from positions `i` and `j` on.
pub open spec fn suffix_eq(s: Seq<char>, i: int, t: Seq<char>, j: int) -> bool {
    &&& 0 <= i <= s.len()
    &&& 0 <= j <= t.len()
    &&& s.len() - i == t.len() - j
    &&& forall|m: int| 0 <= m < s.len() - i ==> #[trigger] s[i + m] == t[j + m]
}

/// On equal suffixes, equal subranges.
pub proof fn lemma_subrange_suffix(s: Seq<char>, i: int, t: Seq<char>, j: int, a: int, b: int)
    requires
        suffix_eq(s, i, t, j),
        0 <= a <= b <= s.len() - i,
    ensures
        s.subrange(i + a, i + b) == t.subrange(j + a, j + b),
{
    assert forall|k: int| 0 <= k < b - a implies #[trigger] s.subrange(i + a, i + b)[k]
        == t.subrange(j + a, j + b)[k] by {
        assert(s[i + (a + k)] == t[j + (a + k)]);
        assert(s.subrange(i + a, i + b)[k] == s[i + (a + k)]);
        assert(t.subrange(j + a, j + b)[k] == t[j + (a + k)]);
    }
    assert(s.subrange(i + a, i + b) =~= t.subrange(j + a, j + b));
}

pub proof fn lemma_skip_ws_suffix(s: Seq<char>, i: int, t: Seq<char>, j: int, d: int)
    requires
        suffix_eq(s, i, t, j),
        0 <= d <= s.len() - i,
    ensures
        skip_ws(s, i + d) - i == skip_ws(t, j + d) - j,
    decreases s.len() - i - d,
{
    if i + d < s.len() {
        assert(s[i + d] == t[j + d]);
        if crate::scan::is_ws_char(s[i + d]) {
            lemma_skip_ws_suffix(s, i, t, j, d + 1);
        }
    }
}

pub proof fn lemma_skip_digits_suffix(s: Seq<char>, i: int, t: Seq<char>, j: int, d: int)
    requires
        suffix_eq(s, i, t, j),
        0 <= d <= s.len() - i,
    ensures
        skip_digits(s, i + d) - i == skip_digits(t, j + d) - j,
    decreases s.len() - i - d,
{
    if i + d < s.len() {
        assert(s[i + d] == t[j + d]);
        if crate::scan::is_digit_char(s[i + d]) {
            lemma_skip_digits_suffix(s, i, t, j, d + 1);
        }
    }
}

pub proof fn lemma_blank_suffix(s: Seq<char>, i: int, t: Seq<char>, j: int, d: int)
    requires
        suffix_eq(s, i, t, j),
        0 <= d <= s.len() - i,
    ensures
        blank_at(s, i + d) == blank_at(t, j + d),
{
    if i + d + 2 <= s.len() {
        assert(s[i + d] == t[j + d]);
        assert(s[i + (d + 1)] == t[j + (d + 1)]);
    }
}

pub proof fn lemma_ordered_bullet_suffix(s: Seq<char>, i: int, t: Seq<char>, j: int, d: int)
    requires
        suffix_eq(s, i, t, j),
        0 <= d <= s.len() - i,
    ensures
        ordered_bullet_at(s, i + d) == ordered_bullet_at(t, j + d),
        ordered_bullet_at(s, i + d) ==> ordered_bullet_end(s, i + d) - i == ordered_bullet_end(
            t,
            j + d,
        ) - j,
{
    if i + d < s.len() {
        assert(s[i + d] == t[j + d]);
        if s[i + d] == '\n' {
            lemma_skip_ws_suffix(s, i, t, j, d + 1);
            let ds = skip_ws(s, i + d + 1) - i;
            crate::scan::lemma_skip_ws_props(s, i + d + 1);
            lemma_skip_digits_suffix(s, i, t, j, ds);
            let ke = skip_digits(s, i + ds) - i;
            crate::scan::lemma_skip_digits_props(s, i + ds);
            if i + ke < s.len() {
                assert(s[i + ke] == t[j + ke]);
            }
            if i + ke + 1 < s.len() {
                assert(s[i + (ke + 1)] == t[j + (ke + 1)]);
            }
        }
    }
}

pub proof fn lemma_unordered_bullet_suffix(s: Seq<char>, i: int, t: Seq<char>, j: int, d: int)
    requires
        suffix_eq(s, i, t, j),
        0 <= d <= s.len() - i,
    ensures
        unordered_bullet_at(s, i + d) == unordered_bullet_at(t, j + d),
        unordered_bullet_at(s, i + d) ==> unordered_bullet_end(s, i + d) - i
            == unordered_bullet_end(t, j + d) - j,
{
    if i + d < s.len() {
        assert(s[i + d] == t[j + d]);
        if s[i + d] == '\n' {
            lemma_skip_ws_suffix(s, i, t, j, d + 1);
            let ms = skip_ws(s, i + d + 1) - i;
            crate::scan::lemma_skip_ws_props(s, i + d + 1);
            if i + ms < s.len() {
                assert(s[i + ms] == t[j + ms]);
            }
            if i + ms + 1 < s.len() {
                assert(s[i + (ms + 1)] == t[j + (ms + 1)]);
            }
        }
    }
}

pub proof fn lemma_tag_suffix(s: Seq<char>, i: int, t: Seq<char>, j: int, d: int, g: Seq<char>)
    requires
        suffix_eq(s, i, t, j),
        0 <= d <= s.len() - i,
    ensures
        tag_at(s, i + d, g) == tag_at(t, j + d, g),
{
    if tag_at(s, i + d, g) {
        assert forall|k: int| 0 <= k < g.len() implies t[j + d + k] == g[k] by {
            assert(s[i + (d + k)] == t[j + (d + k)]);
            assert(s[i + d + k] == g[k]);
        }
    }
    if tag_at(t, j + d, g) {
        assert forall|k: int| 0 <= k < g.len() implies s[i + d + k] == g[k] by {
            assert(s[i + (d + k)] == t[j + (d + k)]);
            assert(t[j + d + k] == g[k]);
        }
    }
}

pub proof fn lemma_scan_inside_suffix(
    s: Seq<char>,
    i: int,
    t: Seq<char>,
    j: int,
    d: int,
    g: Seq<char>,
)
    requires
        suffix_eq(s, i, t, j),
        0 <= d <= s.len() - i,
    ensures
        scan_inside(s, i + d, g) - i == scan_inside(t, j + d, g) - j,
    decreases s.len() - i - d,
{
    lemma_tag_suffix(s, i, t, j, d, g);
    lemma_blank_suffix(s, i, t, j, d);
    if i + d < s.len() && !inside_stop_at(s, i + d, g) {
        lemma_scan_inside_suffix(s, i, t, j, d + 1, g);
    }
}

pub proof fn lemma_plain_stop_suffix(s: Seq<char>, i: int, t: Seq<char>, j: int, d: int)
    requires
        suffix_eq(s, i, t, j),
        0 <= d <= s.len() - i,
    ensures
        plain_stop_at(s, i + d) == plain_stop_at(t, j + d),
{
    lemma_blank_suffix(s, i, t, j, d);
    lemma_ordered_bullet_suffix(s, i, t, j, d);
    lemma_unordered_bullet_suffix(s, i, t, j, d);
    if i + d < s.len() {
        assert(s[i + d] == t[j + d]);
    }
}

pub proof fn lemma_plain_end_suffix(s: Seq<char>, i: int, t: Seq<char>, j: int, d: int)
    requires
        suffix_eq(s, i, t, j),
        0 <= d <= s.len() - i,
    ensures
        plain_end(s, i + d) - i == plain_end(t, j + d) - j,
    decreases s.len() - i - d,
{
    lemma_plain_stop_suffix(s, i, t, j, d);
    if !plain_stop_at(s, i + d) {
        lemma_plain_end_suffix(s, i, t, j, d + 1);
    }
}

pub proof fn lemma_frag_term_suffix(s: Seq<char>, i: int, t: Seq<char>, j: int, d: int)
    requires
        suffix_eq(s, i, t, j),
        0 <= d <= s.len() - i,
    ensures
        frag_term_at(s, i + d) == frag_term_at(t, j + d),
{
    lemma_blank_suffix(s, i, t, j, d);
    lemma_ordered_bullet_suffix(s, i, t, j, d);
    lemma_unordered_bullet_suffix(s, i, t, j, d);
}

pub proof fn lemma_next_span_suffix(s: Seq<char>, i: int, t: Seq<char>, j: int, d: int)
    requires
        suffix_eq(s, i, t, j),
        0 <= d <= s.len() - i,
    ensures
        next_span(s, i + d).0 == next_span(t, j + d).0,
        next_span(s, i + d).1 - i == next_span(t, j + d).1 - j,
{
    lemma_tag_suffix(s, i, t, j, d, pair_of('*'));
    lemma_tag_suffix(s, i, t, j, d, pair_of('_'));
    if i + d < s.len() {
        assert(s[i + d] == t[j + d]);
    }
    if i + d + 1 < s.len() {
        assert(s[i + (d + 1)] == t[j + (d + 1)]);
    }
    assert(strong_at(s, i + d) == strong_at(t, j + d));
    assert(em_at(s, i + d) == em_at(t, j + d));
    if strong_at(s, i + d) {
        let c = strong_delim(s, i + d);
        assert(strong_delim(t, j + d) == c);
        lemma_scan_inside_suffix(s, i, t, j, d + 2, pair_of(c));
        let e = scan_inside(s, i + d + 2, pair_of(c)) - i;
        crate::inline::lemma_scan_inside_props(s, i + d + 2, pair_of(c));
        if i + e < s.len() {
            assert(s[i + e] == t[j + e]);
        }
        if i + e + 1 < s.len() {
            assert(s[i + (e + 1)] == t[j + (e + 1)]);
        }
        lemma_subrange_suffix(s, i, t, j, d + 2, e);
    } else if em_at(s, i + d) {
        let c = em_delim(s, i + d);
        assert(em_delim(t, j + d) == c);
        lemma_scan_inside_suffix(s, i, t, j, d + 1, single_of(c));
        let e = scan_inside(s, i + d + 1, single_of(c)) - i;
        crate::inline::lemma_scan_inside_props(s, i + d + 1, single_of(c));
        if i + e < s.len() {
            assert(s[i + e] == t[j + e]);
        }
        lemma_subrange_suffix(s, i, t, j, d + 1, e);
    } else {
        lemma_plain_end_suffix(s, i, t, j, d);
        let e = plain_end(s, i + d) - i;
        crate::inline::lemma_plain_end_props(s, i + d);
        lemma_subrange_suffix(s, i, t, j, d, e);
    }
}

pub proof fn lemma_frag_parse_suffix(s: Seq<char>, i: int, t: Seq<char>, j: int, d: int)
    requires
        suffix_eq(s, i, t, j),
        0 <= d <= s.len() - i,
    ensures
        frag_parse(s, i + d).0 == frag_parse(t, j + d).0,
        frag_parse(s, i + d).1 - i == frag_parse(t, j + d).1 - j,
    decreases s.len() - i - d,
{
    lemma_frag_term_suffix(s, i, t, j, d);
    if !frag_term_at(s, i + d) {
        lemma_next_span_suffix(s, i, t, j, d);
        lemma_next_span_bounds(s, i + d);
        lemma_next_span_bounds(t, j + d);
        let d2 = next_span(s, i + d).1 - i;
        lemma_frag_parse_suffix(s, i, t, j, d2);
    }
}

pub proof fn lemma_ulist_parse_suffix(s: Seq<char>, i: int, t: Seq<char>, j: int, d: int)
    requires
        suffix_eq(s, i, t, j),
        0 <= d <= s.len() - i,
    ensures
        ulist_parse(s, i + d).0 == ulist_parse(t, j + d).0,
        ulist_parse(s, i + d).1 - i == ulist_parse(t, j + d).1 - j,
    decreases s.len() - i - d,
{
    lemma_unordered_bullet_suffix(s, i, t, j, d);
    if unordered_bullet_at(s, i + d) {
        lemma_unordered_bullet_bounds(s, i + d);
        let b = unordered_bullet_end(s, i + d) - i;
        lemma_frag_parse_suffix(s, i, t, j, b);
        crate::inline::lemma_frag_parse_props(s, i + b);
        let d2 = uitem_parse(s, i + d).1 - i;
        lemma_ulist_parse_suffix(s, i, t, j, d2);
    }
}

pub proof fn lemma_recipes_parse_suffix(s: Seq<char>, i: int, t: Seq<char>, j: int, d: int)
    requires
        suffix_eq(s, i, t, j),
        0 <= d <= s.len() - i,
    ensures
        recipes_parse(s, i + d) == recipes_parse(t, j + d),
    decreases s.len() - i - d,
{
    lemma_ordered_bullet_suffix(s, i, t, j, d);
    if ordered_bullet_at(s, i + d) {
        lemma_ordered_bullet_bounds(s, i + d);
        let b = ordered_bullet_end(s, i + d) - i;
        lemma_frag_parse_suffix(s, i, t, j, b);
        crate::inline::lemma_frag_parse_props(s, i + b);
        let nj = frag_parse(s, i + b).1 - i;
        lemma_unordered_bullet_suffix(s, i, t, j, nj);
        if unordered_bullet_at(s, i + nj) {
            lemma_ulist_parse_suffix(s, i, t, j, nj);
            crate::blocks::lemma_ulist_parse_props(s, i + nj);
            let e = ulist_parse(s, i + nj).1 - i;
            lemma_recipes_parse_suffix(s, i, t, j, e);
        }
    }
}

} // verus!
