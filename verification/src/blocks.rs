//! Block assemblers: one ordered-list item (a recipe title) and a run of
//! one-or-more unordered-list items (the instruction list).

use vstd::prelude::*;
use vstd::string::StrSliceExecFns;

use crate::elem::MdElemView;
use crate::elem::MdElement;
use crate::elem::ParseError;
use crate::inline::frag_parse;
use crate::inline::frag_x;
use crate::inline::lemma_frag_parse_props;
use crate::scan::lemma_unordered_bullet_bounds;
use crate::scan::ob_digits_end;
use crate::scan::ob_digits_start;
use crate::scan::ordered_bullet_at;
use crate::scan::ordered_bullet_end;
use crate::scan::ordered_bullet_x;
use crate::scan::skip_digits_x;
use crate::scan::skip_ws_x;
use crate::scan::to_chars;
use crate::scan::ub_marker_start;
use crate::scan::unordered_bullet_at;
use crate::scan::unordered_bullet_end;
use crate::scan::unordered_bullet_x;

verus! {

/// Parse the ordered-list item at `i`: its bullet, then one fragment, which
/// becomes a recipe title.  Meaningful only where `ordered_bullet_at` holds.
pub open spec fn title_parse(s: Seq<char>, i: int) -> (Seq<MdElemView>, int) {
    frag_parse(s, ordered_bullet_end(s, i))
}

/// Parse the unordered-list item at `i`: its bullet, then one fragment, one
/// instruction line.  Meaningful only where `unordered_bullet_at` holds.
pub open spec fn uitem_parse(s: Seq<char>, i: int) -> (Seq<MdElemView>, int) {
    frag_parse(s, unordered_bullet_end(s, i))
}

/// Parse unordered-list items at `i` for as long as their bullets keep
/// matching.  Returns the instruction lines and the next position.
pub open spec fn ulist_parse(s: Seq<char>, i: int) -> (Seq<Seq<MdElemView>>, int)
    decreases s.len() - i,
        when 0 <= i <= s.len()
        via ulist_parse_decreases
{
    if unordered_bullet_at(s, i) {
        let (f, j) = uitem_parse(s, i);
        let (rest, e) = ulist_parse(s, j);
        (seq![f] + rest, e)
    } else {
        (Seq::<Seq<MdElemView>>::empty(), i)
    }
}

#[via_fn]
proof fn ulist_parse_decreases(s: Seq<char>, i: int) {
    if unordered_bullet_at(s, i) {
        lemma_unordered_bullet_bounds(s, i);
        lemma_frag_parse_props(s, unordered_bullet_end(s, i));
    }
}

/// The list parser stays within bounds; it consumes at least one character
/// and yields at least one item exactly when a bullet opens the input.
pub proof fn lemma_ulist_parse_props(s: Seq<char>, i: int)
    requires
        0 <= i <= s.len(),
    ensures
        i <= ulist_parse(s, i).1 <= s.len(),
        unordered_bullet_at(s, i) ==> i < ulist_parse(s, i).1 && ulist_parse(s, i).0.len() >= 1,
        !unordered_bullet_at(s, i) ==> ulist_parse(s, i).0.len() == 0 && ulist_parse(s, i).1 == i,
    decreases s.len() - i,
{
    if unordered_bullet_at(s, i) {
        lemma_unordered_bullet_bounds(s, i);
        lemma_frag_parse_props(s, unordered_bullet_end(s, i));
        lemma_ulist_parse_props(s, uitem_parse(s, i).1);
    }
}

/// Parses unordered-list items at `i` of `s`, the character view of `text`,
/// while their bullets keep matching.
pub(crate) fn ulist_x(text: &str, s: &Vec<char>, i: usize) -> (r: (Vec<Vec<MdElement>>, usize))
    requires
        text@ == s@,
        i <= s.len(),
    ensures
        r.0.deep_view() == ulist_parse(s@, i as int).0,
        r.1 == ulist_parse(s@, i as int).1,
        i <= r.1 <= s.len(),
{
    let mut out: Vec<Vec<MdElement>> = Vec::new();
    let mut j = i;
    proof {
        assert(out.deep_view() =~= Seq::<Seq<MdElemView>>::empty());
        assert(ulist_parse(s@, i as int).0 =~= out.deep_view() + ulist_parse(s@, i as int).0);
    }
    loop
        invariant
            text@ == s@,
            i <= j <= s.len(),
            ulist_parse(s@, i as int).0 =~= out.deep_view() + ulist_parse(s@, j as int).0,
            ulist_parse(s@, i as int).1 == ulist_parse(s@, j as int).1,
        ensures
            i <= j <= s.len(),
            !unordered_bullet_at(s@, j as int),
            ulist_parse(s@, i as int).0 =~= out.deep_view() + ulist_parse(s@, j as int).0,
            ulist_parse(s@, i as int).1 == ulist_parse(s@, j as int).1,
        decreases s.len() - j,
    {
        let b = match unordered_bullet_x(s, j) {
            Some(b) => b,
            None => {
                break ;
            },
        };
        let ghost prev = out.deep_view();
        let (f, j2) = frag_x(text, s, b);
        proof {
            lemma_frag_parse_props(s@, b as int);
        }
        out.push(f);
        proof {
            assert(out.deep_view() =~= prev.push(f.deep_view()));
            assert(prev + ulist_parse(s@, j as int).0 =~= out.deep_view() + ulist_parse(
                s@,
                j2 as int,
            ).0);
        }
        j = j2;
    }
    proof {
        assert(ulist_parse(s@, i as int).0 =~= out.deep_view());
    }
    (out, j)
}

/// Parses the ordered bullet at the start of the input.  Returns the
/// remaining input and the bullet's digits; fails when no ordered bullet
/// opens the input.
pub fn ordered_list_bullet(input: &str) -> (r: Result<(String, String), ParseError>)
    ensures
        r is Ok <==> ordered_bullet_at(input@, 0),
        r matches Ok(v) ==> ({
            &&& v.0@ == input@.subrange(ordered_bullet_end(input@, 0), input@.len() as int)
            &&& v.1@ == input@.subrange(ob_digits_start(input@, 0), ob_digits_end(input@, 0))
        }),
{
    let s = to_chars(input);
    if s.len() > 0 && s[0] == '\n' {
        let j = skip_ws_x(&s, 1);
        let k = skip_digits_x(&s, j);
        if k > j && k < s.len() && k + 1 < s.len() && s[k] == '.' && s[k + 1] == ' ' {
            let digits = input.substring_char(j, k).to_owned();
            let rest = input.substring_char(k + 2, s.len()).to_owned();
            Ok((rest, digits))
        } else {
            Err(ParseError)
        }
    } else {
        Err(ParseError)
    }
}

/// Parses the unordered bullet at the start of the input.  Returns the
/// remaining input and the matched `"- "` marker; fails when no unordered
/// bullet opens the input.
pub fn unordered_list_bullet(input: &str) -> (r: Result<(String, String), ParseError>)
    ensures
        r is Ok <==> unordered_bullet_at(input@, 0),
        r matches Ok(v) ==> ({
            let m = ub_marker_start(input@, 0);
            &&& v.0@ == input@.subrange(unordered_bullet_end(input@, 0), input@.len() as int)
            &&& v.1@ == input@.subrange(m, m + 2)
        }),
{
    let s = to_chars(input);
    if s.len() > 0 && s[0] == '\n' {
        let j = skip_ws_x(&s, 1);
        if j < s.len() && j + 1 < s.len() && s[j] == '-' && s[j + 1] == ' ' {
            let marker = input.substring_char(j, j + 2).to_owned();
            let rest = input.substring_char(j + 2, s.len()).to_owned();
            Ok((rest, marker))
        } else {
            Err(ParseError)
        }
    } else {
        Err(ParseError)
    }
}

/// Parses one ordered-list item at the start of the input: the bullet, then
/// one fragment.  Fails when no ordered bullet opens the input.
pub fn ordered_list_item(input: &str) -> (r: Result<(String, Vec<MdElement>), ParseError>)
    ensures
        r is Ok <==> ordered_bullet_at(input@, 0),
        r matches Ok(v) ==> ({
            let (f, e) = title_parse(input@, 0);
            &&& v.0@ == input@.subrange(e, input@.len() as int)
            &&& v.1.deep_view() == f
        }),
{
    let s = to_chars(input);
    match ordered_bullet_x(&s, 0) {
        Some(b) => {
            let (frag, e) = frag_x(input, &s, b);
            let rest = input.substring_char(e, s.len()).to_owned();
            Ok((rest, frag))
        },
        None => Err(ParseError),
    }
}

/// Parses one unordered-list item at the start of the input: the bullet,
/// then one fragment.  Fails when no unordered bullet opens the input.
pub fn unordered_list_item(input: &str) -> (r: Result<(String, Vec<MdElement>), ParseError>)
    ensures
        r is Ok <==> unordered_bullet_at(input@, 0),
        r matches Ok(v) ==> ({
            let (f, e) = uitem_parse(input@, 0);
            &&& v.0@ == input@.subrange(e, input@.len() as int)
            &&& v.1.deep_view() == f
        }),
{
    let s = to_chars(input);
    match unordered_bullet_x(&s, 0) {
        Some(b) => {
            let (frag, e) = frag_x(input, &s, b);
            let rest = input.substring_char(e, s.len()).to_owned();
            Ok((rest, frag))
        },
        None => Err(ParseError),
    }
}

/// Parses one-or-more unordered-list items at the start of the input.
/// Fails only when not even the first bullet matches.
pub fn unordered_list(input: &str) -> (r: Result<(String, Vec<Vec<MdElement>>), ParseError>)
    ensures
        r is Ok <==> unordered_bullet_at(input@, 0),
        r matches Ok(v) ==> ({
            let (items, e) = ulist_parse(input@, 0);
            &&& v.0@ == input@.subrange(e, input@.len() as int)
            &&& v.1.deep_view() == items
            &&& v.1.len() >= 1
        }),
{
    let s = to_chars(input);
    let is_list = match unordered_bullet_x(&s, 0) {
        Some(_) => true,
        None => false,
    };
    if is_list {
        let (items, e) = ulist_x(input, &s, 0);
        proof {
            lemma_ulist_parse_props(s@, 0);
        }
        let rest = input.substring_char(e, s.len()).to_owned();
        Ok((rest, items))
    } else {
        Err(ParseError)
    }
}

} // verus!
