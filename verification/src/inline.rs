//! The inline span tokenizer and the fragment assembler.
//!
//! A span is strong (`**..**` or `__..__`), emphasized (`*..*` or `_.._`),
//! or a plain run.  At every position strong is tried first, then emphasis,
//! then plain.  The interior of a delimited span runs to the next matching
//! closing delimiter, which is consumed, and is truncated at a blank line or
//! at the input's end, which are not consumed.  A fragment accumulates spans
//! until a blank line, a bullet, or the input's end is ahead; the terminator
//! is left for the caller.

use vstd::prelude::*;
use vstd::string::StrSliceExecFns;

use crate::elem::MdElemView;
use crate::elem::MdElement;
use crate::elem::ParseError;
use crate::scan::blank_at;
use crate::scan::blank_at_x;
use crate::scan::ordered_bullet_at;
use crate::scan::ordered_bullet_x;
use crate::scan::to_chars;
use crate::scan::unordered_bullet_at;
use crate::scan::unordered_bullet_x;

verus! {

/// The literal `t` occurs at `i`.
pub open spec fn tag_at(s: Seq<char>, i: int, t: Seq<char>) -> bool {
    &&& 0 <= i
    &&& i + t.len() <= s.len()
    &&& forall|k: int| 0 <= k < t.len() ==> s[i + k] == t[k]
}

/// The interior of a delimited span stops before its closing literal `t` or
/// before a blank line.
pub open spec fn inside_stop_at(s: Seq<char>, i: int, t: Seq<char>) -> bool {
    tag_at(s, i, t) || blank_at(s, i)
}

/// First position at or after `i` where the interior of a span closed by `t`
/// stops; the input's end if it never does.
pub open spec fn scan_inside(s: Seq<char>, i: int, t: Seq<char>) -> int
    decreases s.len() - i,
{
    if i < s.len() && !inside_stop_at(s, i, t) {
        scan_inside(s, i + 1, t)
    } else {
        i
    }
}

/// `scan_inside` stays within bounds, stops only at a stop position, and
/// skips no stop position.
pub proof fn lemma_scan_inside_props(s: Seq<char>, i: int, t: Seq<char>)
    requires
        0 <= i <= s.len(),
    ensures
        i <= scan_inside(s, i, t) <= s.len(),
        scan_inside(s, i, t) == s.len() || inside_stop_at(s, scan_inside(s, i, t), t),
        forall|k: int| i <= k < scan_inside(s, i, t) ==> !inside_stop_at(s, k, t),
    decreases s.len() - i,
{
    if i < s.len() && !inside_stop_at(s, i, t) {
        lemma_scan_inside_props(s, i + 1, t);
    }
}

/// A position `e` with a stop, preceded from `i` by no stop, is exactly
/// where `scan_inside` lands; so is the input's end when no stop occurs.
pub proof fn lemma_scan_inside_exact(s: Seq<char>, i: int, t: Seq<char>, e: int)
    requires
        0 <= i <= e <= s.len(),
        forall|k: int| i <= k < e ==> !inside_stop_at(s, k, t),
        e == s.len() || inside_stop_at(s, e, t),
    ensures
        scan_inside(s, i, t) == e,
    decreases e - i,
{
    if i < e {
        lemma_scan_inside_exact(s, i + 1, t, e);
    }
}

/// The doubled delimiter `cc` occurs at `i`.
pub open spec fn delim2_at(s: Seq<char>, i: int, c: char) -> bool {
    &&& 0 <= i
    &&& i + 2 <= s.len()
    &&& s[i] == c
    &&& s[i + 1] == c
}

/// The single delimiter `c` occurs at `i`.
pub open spec fn delim1_at(s: Seq<char>, i: int, c: char) -> bool {
    0 <= i && i < s.len() && s[i] == c
}

/// A strong span opens at `i`.
pub open spec fn strong_at(s: Seq<char>, i: int) -> bool {
    delim2_at(s, i, '*') || delim2_at(s, i, '_')
}

/// The delimiter character of the strong span opened at `i` (the `*` form is
/// recognized before the `_` form, in the fixed alternation order).
pub open spec fn strong_delim(s: Seq<char>, i: int) -> char {
    if delim2_at(s, i, '*') {
        '*'
    } else {
        '_'
    }
}

/// The doubled delimiter as a literal.
pub open spec fn pair_of(c: char) -> Seq<char> {
    seq![c, c]
}

/// Parse the strong span at `i`: the interior runs to the next doubled
/// delimiter, which is consumed, or is truncated at a blank line or at the
/// input's end, which are not.  Returns the interior and the next position.
pub open spec fn strong_parse(s: Seq<char>, i: int) -> (Seq<char>, int) {
    let c = strong_delim(s, i);
    let e = scan_inside(s, i + 2, pair_of(c));
    if delim2_at(s, e, c) {
        (s.subrange(i + 2, e), e + 2)
    } else {
        (s.subrange(i + 2, e), e)
    }
}

/// An emphasis span opens at `i`.
pub open spec fn em_at(s: Seq<char>, i: int) -> bool {
    delim1_at(s, i, '*') || delim1_at(s, i, '_')
}

/// The delimiter character of the emphasis span opened at `i`.
pub open spec fn em_delim(s: Seq<char>, i: int) -> char {
    if delim1_at(s, i, '*') {
        '*'
    } else {
        '_'
    }
}

/// The single delimiter as a literal.
pub open spec fn single_of(c: char) -> Seq<char> {
    seq![c]
}

/// Parse the emphasis span at `i`, with the same closing and truncation
/// rules as a strong span but a single closing delimiter.
pub open spec fn em_parse(s: Seq<char>, i: int) -> (Seq<char>, int) {
    let c = em_delim(s, i);
    let e = scan_inside(s, i + 1, single_of(c));
    if delim1_at(s, e, c) {
        (s.subrange(i + 1, e), e + 1)
    } else {
        (s.subrange(i + 1, e), e)
    }
}

/// A plain run stops before: the input's end, a blank line, an inline
/// delimiter character, or either bullet.
pub open spec fn plain_stop_at(s: Seq<char>, i: int) -> bool {
    ||| i >= s.len()
    ||| blank_at(s, i)
    ||| (0 <= i && i < s.len() && (s[i] == '*' || s[i] == '_'))
    ||| ordered_bullet_at(s, i)
    ||| unordered_bullet_at(s, i)
}

/// First position at or after `i` where a plain run stops.
pub open spec fn plain_end(s: Seq<char>, i: int) -> int
    decreases s.len() - i,
{
    if !plain_stop_at(s, i) {
        plain_end(s, i + 1)
    } else {
        i
    }
}

/// `plain_end` stays within bounds, stops at a stop position, and skips no
/// stop position.
pub proof fn lemma_plain_end_props(s: Seq<char>, i: int)
    requires
        0 <= i <= s.len(),
    ensures
        i <= plain_end(s, i) <= s.len(),
        plain_stop_at(s, plain_end(s, i)),
        forall|k: int| i <= k < plain_end(s, i) ==> !plain_stop_at(s, k),
    decreases s.len() - i,
{
    if !plain_stop_at(s, i) {
        lemma_plain_end_props(s, i + 1);
    }
}

/// A stop position `e` preceded from `i` by no stop is exactly where
/// `plain_end` lands.
pub proof fn lemma_plain_end_exact(s: Seq<char>, i: int, e: int)
    requires
        0 <= i <= e <= s.len(),
        forall|k: int| i <= k < e ==> !plain_stop_at(s, k),
        plain_stop_at(s, e),
    ensures
        plain_end(s, i) == e,
    decreases e - i,
{
    if i < e {
        lemma_plain_end_exact(s, i + 1, e);
    }
}

/// A fragment terminates before: the input's end, a blank line, or either
/// bullet.  The terminator is never consumed.
pub open spec fn frag_term_at(s: Seq<char>, i: int) -> bool {
    ||| i >= s.len()
    ||| blank_at(s, i)
    ||| ordered_bullet_at(s, i)
    ||| unordered_bullet_at(s, i)
}

/// Produce the single inline span at `i`: strong is tried first, then
/// emphasis, then a plain run.  Returns the span and the next position.
pub open spec fn next_span(s: Seq<char>, i: int) -> (MdElemView, int) {
    if strong_at(s, i) {
        let (t, j) = strong_parse(s, i);
        (MdElemView::Strong(t), j)
    } else if em_at(s, i) {
        let (t, j) = em_parse(s, i);
        (MdElemView::Em(t), j)
    } else {
        (MdElemView::Text(s.subrange(i, plain_end(s, i))), plain_end(s, i))
    }
}

/// The tokenizer stays within bounds, and consumes at least one character
/// whenever it is invoked away from a fragment terminator.
pub proof fn lemma_next_span_bounds(s: Seq<char>, i: int)
    requires
        0 <= i <= s.len(),
    ensures
        i <= next_span(s, i).1 <= s.len(),
        !frag_term_at(s, i) ==> i < next_span(s, i).1,
{
    if strong_at(s, i) {
        lemma_scan_inside_props(s, i + 2, pair_of(strong_delim(s, i)));
    } else if em_at(s, i) {
        lemma_scan_inside_props(s, i + 1, single_of(em_delim(s, i)));
    } else {
        lemma_plain_end_props(s, i);
    }
}

/// Assemble the inline fragment at `i`: spans accumulate until a fragment
/// terminator is ahead.  Returns the spans and the terminator's position.
pub open spec fn frag_parse(s: Seq<char>, i: int) -> (Seq<MdElemView>, int)
    decreases s.len() - i,
        when 0 <= i <= s.len()
        via frag_parse_decreases
{
    if frag_term_at(s, i) {
        (Seq::<MdElemView>::empty(), i)
    } else {
        let (sp, j) = next_span(s, i);
        let (rest, e) = frag_parse(s, j);
        (seq![sp] + rest, e)
    }
}

#[via_fn]
proof fn frag_parse_decreases(s: Seq<char>, i: int) {
    lemma_next_span_bounds(s, i);
}

/// The fragment assembler stays within bounds and stops exactly at a
/// fragment terminator, which it does not consume.
pub proof fn lemma_frag_parse_props(s: Seq<char>, i: int)
    requires
        0 <= i <= s.len(),
    ensures
        i <= frag_parse(s, i).1 <= s.len(),
        frag_term_at(s, frag_parse(s, i).1),
    decreases s.len() - i,
{
    if !frag_term_at(s, i) {
        lemma_next_span_bounds(s, i);
        lemma_frag_parse_props(s, next_span(s, i).1);
    }
}

pub(crate) fn tag_at_x(s: &Vec<char>, i: usize, t: &Vec<char>) -> (r: bool)
    requires
        i <= s.len(),
    ensures
        r == tag_at(s@, i as int, t@),
{
    if t.len() > s.len() - i {
        return false;
    }
    let mut k: usize = 0;
    while k < t.len()
        invariant
            i + t.len() <= s.len(),
            k <= t.len(),
            forall|m: int| 0 <= m < k ==> s@[i + m] == t@[m],
        decreases t.len() - k,
    {
        if s[i + k] != t[k] {
            return false;
        }
        k = k + 1;
    }
    true
}

pub(crate) fn inside_stop_x(s: &Vec<char>, i: usize, t: &Vec<char>) -> (r: bool)
    requires
        i <= s.len(),
    ensures
        r == inside_stop_at(s@, i as int, t@),
{
    tag_at_x(s, i, t) || blank_at_x(s, i)
}

pub(crate) fn scan_inside_x(s: &Vec<char>, i: usize, t: &Vec<char>) -> (r: usize)
    requires
        i <= s.len(),
    ensures
        r == scan_inside(s@, i as int, t@),
        i <= r <= s.len(),
{
    let mut j = i;
    while j < s.len() && !inside_stop_x(s, j, t)
        invariant
            i <= j <= s.len(),
            scan_inside(s@, i as int, t@) == scan_inside(s@, j as int, t@),
        decreases s.len() - j,
    {
        j = j + 1;
    }
    j
}

pub(crate) fn plain_stop_x(s: &Vec<char>, i: usize) -> (r: bool)
    requires
        i <= s.len(),
    ensures
        r == plain_stop_at(s@, i as int),
{
    if i >= s.len() {
        true
    } else if blank_at_x(s, i) {
        true
    } else if s[i] == '*' || s[i] == '_' {
        true
    } else if ordered_bullet_x(s, i).is_some() {
        true
    } else {
        unordered_bullet_x(s, i).is_some()
    }
}

pub(crate) fn plain_end_x(s: &Vec<char>, i: usize) -> (r: usize)
    requires
        i <= s.len(),
    ensures
        r == plain_end(s@, i as int),
        i <= r <= s.len(),
{
    let mut j = i;
    while !plain_stop_x(s, j)
        invariant
            i <= j <= s.len(),
            plain_end(s@, i as int) == plain_end(s@, j as int),
        decreases s.len() - j,
    {
        j = j + 1;
    }
    j
}

pub(crate) fn frag_term_x(s: &Vec<char>, i: usize) -> (r: bool)
    requires
        i <= s.len(),
    ensures
        r == frag_term_at(s@, i as int),
{
    if i >= s.len() {
        true
    } else if blank_at_x(s, i) {
        true
    } else if ordered_bullet_x(s, i).is_some() {
        true
    } else {
        unordered_bullet_x(s, i).is_some()
    }
}

/// Parses the strong span at `i` of `s`, the character view of `text`.
pub(crate) fn strong_x(text: &str, s: &Vec<char>, i: usize) -> (r: Option<(String, usize)>)
    requires
        text@ == s@,
        i <= s.len(),
    ensures
        r is Some <==> strong_at(s@, i as int),
        r is Some ==> ({
            let (t, j) = strong_parse(s@, i as int);
            &&& r->Some_0.0@ == t
            &&& r->Some_0.1 == j
            &&& i < j <= s.len()
        }),
{
    if i < s.len() && i + 1 < s.len() && (s[i] == '*' || s[i] == '_') && s[i + 1] == s[i] {
        let c = s[i];
        let mut pair: Vec<char> = Vec::new();
        pair.push(c);
        pair.push(c);
        proof {
            assert(pair@ =~= pair_of(c));
            assert(strong_delim(s@, i as int) == c);
        }
        let e = scan_inside_x(s, i + 2, &pair);
        let t = text.substring_char(i + 2, e).to_owned();
        if e < s.len() && e + 1 < s.len() && s[e] == c && s[e + 1] == c {
            Some((t, e + 2))
        } else {
            Some((t, e))
        }
    } else {
        None
    }
}

/// Parses the emphasis span at `i` of `s`, the character view of `text`.
pub(crate) fn em_x(text: &str, s: &Vec<char>, i: usize) -> (r: Option<(String, usize)>)
    requires
        text@ == s@,
        i <= s.len(),
    ensures
        r is Some <==> em_at(s@, i as int),
        r is Some ==> ({
            let (t, j) = em_parse(s@, i as int);
            &&& r->Some_0.0@ == t
            &&& r->Some_0.1 == j
            &&& i < j <= s.len()
        }),
{
    if i < s.len() && (s[i] == '*' || s[i] == '_') {
        let c = s[i];
        let mut single: Vec<char> = Vec::new();
        single.push(c);
        proof {
            assert(single@ =~= single_of(c));
            assert(em_delim(s@, i as int) == c);
        }
        let e = scan_inside_x(s, i + 1, &single);
        let t = text.substring_char(i + 1, e).to_owned();
        if e < s.len() && s[e] == c {
            Some((t, e + 1))
        } else {
            Some((t, e))
        }
    } else {
        None
    }
}

/// Produces the single inline span at `i` of `s`, the character view of
/// `text`, trying strong, then emphasis, then a plain run.
pub(crate) fn next_span_x(text: &str, s: &Vec<char>, i: usize) -> (r: (MdElement, usize))
    requires
        text@ == s@,
        i <= s.len(),
    ensures
        r.0@ == next_span(s@, i as int).0,
        r.1 == next_span(s@, i as int).1,
        i <= r.1 <= s.len(),
{
    match strong_x(text, s, i) {
        Some((t, j)) => (MdElement::Strong(t), j),
        None => match em_x(text, s, i) {
            Some((t, j)) => (MdElement::Em(t), j),
            None => {
                let e = plain_end_x(s, i);
                let t = text.substring_char(i, e).to_owned();
                (MdElement::Text(t), e)
            },
        },
    }
}

/// Assembles the inline fragment at `i` of `s`, the character view of
/// `text`.  Returns the spans and the terminator's position.
pub(crate) fn frag_x(text: &str, s: &Vec<char>, i: usize) -> (r: (Vec<MdElement>, usize))
    requires
        text@ == s@,
        i <= s.len(),
    ensures
        r.0.deep_view() == frag_parse(s@, i as int).0,
        r.1 == frag_parse(s@, i as int).1,
        i <= r.1 <= s.len(),
{
    let mut out: Vec<MdElement> = Vec::new();
    let mut j = i;
    proof {
        assert(out.deep_view() =~= Seq::<MdElemView>::empty());
    }
    while !frag_term_x(s, j)
        invariant
            text@ == s@,
            i <= j <= s.len(),
            frag_parse(s@, i as int).0 =~= out.deep_view() + frag_parse(s@, j as int).0,
            frag_parse(s@, i as int).1 == frag_parse(s@, j as int).1,
        decreases s.len() - j,
    {
        let ghost prev = out.deep_view();
        let (sp, j2) = next_span_x(text, s, j);
        proof {
            lemma_next_span_bounds(s@, j as int);
        }
        out.push(sp);
        proof {
            assert(out.deep_view() =~= prev.push(sp@));
            assert(prev + frag_parse(s@, j as int).0 =~= out.deep_view() + frag_parse(
                s@,
                j2 as int,
            ).0);
        }
        j = j2;
    }
    proof {
        assert(frag_parse(s@, i as int).0 =~= out.deep_view());
    }
    (out, j)
}

/// Consumes the interior of a delimited span: everything before the first
/// occurrence of `stop_tag` or of a blank line, or the whole input when
/// neither occurs.  Returns the remaining input and the interior.
pub fn md_elem_inside(stop_tag: &str, input: &str) -> (r: Result<(String, String), ParseError>)
    ensures
        r is Ok,
        r matches Ok(v) ==> ({
            let e = scan_inside(input@, 0, stop_tag@);
            &&& v.0@ == input@.subrange(e, input@.len() as int)
            &&& v.1@ == input@.subrange(0, e)
        }),
{
    let s = to_chars(input);
    let t = to_chars(stop_tag);
    let e = scan_inside_x(&s, 0, &t);
    let inside = input.substring_char(0, e).to_owned();
    let rest = input.substring_char(e, s.len()).to_owned();
    Ok((rest, inside))
}

/// Parses a strong span at the start of the input.  Returns the remaining
/// input and the span's interior; fails when no doubled delimiter opens the
/// input.
pub fn md_strong(input: &str) -> (r: Result<(String, String), ParseError>)
    ensures
        r is Ok <==> strong_at(input@, 0),
        r matches Ok(v) ==> ({
            let (t, j) = strong_parse(input@, 0);
            &&& v.0@ == input@.subrange(j, input@.len() as int)
            &&& v.1@ == t
        }),
{
    let s = to_chars(input);
    match strong_x(input, &s, 0) {
        Some((t, j)) => {
            let rest = input.substring_char(j, s.len()).to_owned();
            Ok((rest, t))
        },
        None => Err(ParseError),
    }
}

/// Parses an emphasis span at the start of the input.  Returns the remaining
/// input and the span's interior; fails when no single delimiter opens the
/// input.
pub fn md_emphasis(input: &str) -> (r: Result<(String, String), ParseError>)
    ensures
        r is Ok <==> em_at(input@, 0),
        r matches Ok(v) ==> ({
            let (t, j) = em_parse(input@, 0);
            &&& v.0@ == input@.subrange(j, input@.len() as int)
            &&& v.1@ == t
        }),
{
    let s = to_chars(input);
    match em_x(input, &s, 0) {
        Some((t, j)) => {
            let rest = input.substring_char(j, s.len()).to_owned();
            Ok((rest, t))
        },
        None => Err(ParseError),
    }
}

/// Parses a delimited span at the start of the input, a strong one before an
/// emphasized one.  Fails when no delimiter opens the input.
pub fn md_special_text(input: &str) -> (r: Result<(String, MdElement), ParseError>)
    ensures
        r is Ok <==> (strong_at(input@, 0) || em_at(input@, 0)),
        r matches Ok(v) ==> ({
            let (sp, j) = next_span(input@, 0);
            &&& v.0@ == input@.subrange(j, input@.len() as int)
            &&& v.1@ == sp
        }),
{
    let s = to_chars(input);
    match strong_x(input, &s, 0) {
        Some((t, j)) => {
            let rest = input.substring_char(j, s.len()).to_owned();
            Ok((rest, MdElement::Strong(t)))
        },
        None => match em_x(input, &s, 0) {
            Some((t, j)) => {
                let rest = input.substring_char(j, s.len()).to_owned();
                Ok((rest, MdElement::Em(t)))
            },
            None => Err(ParseError),
        },
    }
}

/// Parses the plain run at the start of the input, which may be empty.
/// Never fails: the input's end is one of the run's stop conditions.
pub fn md_plain_text(input: &str) -> (r: Result<(String, MdElement), ParseError>)
    ensures
        r is Ok,
        r matches Ok(v) ==> ({
            let e = plain_end(input@, 0);
            &&& v.0@ == input@.subrange(e, input@.len() as int)
            &&& v.1@ == MdElemView::Text(input@.subrange(0, e))
        }),
{
    let s = to_chars(input);
    let e = plain_end_x(&s, 0);
    let t = input.substring_char(0, e).to_owned();
    let rest = input.substring_char(e, s.len()).to_owned();
    Ok((rest, MdElement::Text(t)))
}

/// Assembles one inline fragment at the start of the input, leaving the
/// terminating blank line, bullet, or input end unconsumed.  Never fails; an
/// empty fragment is a legal result.
pub fn md_text(input: &str) -> (r: Result<(String, Vec<MdElement>), ParseError>)
    ensures
        r is Ok,
        r matches Ok(v) ==> ({
            let (f, e) = frag_parse(input@, 0);
            &&& v.0@ == input@.subrange(e, input@.len() as int)
            &&& v.1.deep_view() == f
        }),
{
    let s = to_chars(input);
    let (frag, e) = frag_x(input, &s, 0);
    let rest = input.substring_char(e, s.len()).to_owned();
    Ok((rest, frag))
}

} // verus!
