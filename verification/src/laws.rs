//! The grammar's laws, proved once and for all.
//!
//! The termination law — the fragment assembler stops exactly at a
//! terminator and never consumes it — is
//! [`crate::inline::lemma_frag_parse_props`]; the laws here build on it.

use vstd::prelude::*;

use crate::blocks::uitem_parse;
use crate::blocks::ulist_parse;
use crate::elem::MdElemView;
use crate::elem::RecipeView;
use crate::inline::delim2_at;
use crate::inline::em_at;
use crate::inline::frag_parse;
use crate::inline::frag_term_at;
use crate::inline::lemma_frag_parse_props;
use crate::inline::lemma_plain_end_exact;
use crate::inline::lemma_scan_inside_exact;
use crate::inline::next_span;
use crate::inline::pair_of;
use crate::inline::plain_stop_at;
use crate::inline::scan_inside;
use crate::inline::single_of;
use crate::inline::strong_at;
use crate::inline::strong_delim;
use crate::inline::strong_parse;
use crate::inline::tag_at;
use crate::parser::parse_spec;
use crate::parser::recipes_parse;
use crate::render::render_frag;
use crate::render::render_instrs;
use crate::render::render_recipe;
use crate::render::render_recipes_spec;
use crate::render::render_span;
use crate::scan::blank_at;
use crate::scan::lemma_skip_digits_exact;
use crate::scan::lemma_skip_ws_exact;
use crate::scan::ordered_bullet_at;
use crate::scan::ordered_bullet_end;
use crate::scan::unordered_bullet_at;
use crate::scan::unordered_bullet_end;
use crate::suffix::lemma_recipes_parse_suffix;
use crate::suffix::suffix_eq;

verus! {

/// Foreword discard: the fragment assembled and dropped at the input's start
/// ends at a fragment terminator, and the parse's whole result is a function
/// of the input from that position on alone, so the discarded text can never
/// appear in any output fragment.
pub proof fn lemma_foreword_discarded(s: Seq<char>)
    ensures
        ({
            let f = frag_parse(s, 0).1;
            &&& 0 <= f <= s.len()
            &&& frag_term_at(s, f)
            &&& parse_spec(s) == recipes_parse(s.subrange(f, s.len() as int), 0)
        }),
{
    lemma_frag_parse_props(s, 0);
    let f = frag_parse(s, 0).1;
    let t = s.subrange(f, s.len() as int);
    assert forall|m: int| 0 <= m < s.len() - f implies #[trigger] s[f + m] == t[0 + m] by {
        assert(t[m] == s[f + m]);
    }
    assert(suffix_eq(s, f, t, 0));
    lemma_recipes_parse_suffix(s, f, t, 0, 0);
}

/// Tie-break order: wherever a doubled delimiter opens a span, the tokenizer
/// yields one strong span — never two emphasis spans.
pub proof fn lemma_strong_tried_first(s: Seq<char>, i: int)
    requires
        strong_at(s, i),
    ensures
        next_span(s, i).0 is Strong,
        next_span(s, i).0 == MdElemView::Strong(strong_parse(s, i).0),
        next_span(s, i).1 == strong_parse(s, i).1,
{
}

/// Blank-line truncation: a strong span whose interior meets a blank line
/// before any closing delimiter is truncated there, rather than failing; the
/// blank line is not consumed, and it terminates the enclosing fragment.
pub proof fn lemma_strong_blank_truncation(s: Seq<char>, i: int)
    requires
        strong_at(s, i),
        blank_at(s, scan_inside(s, i + 2, pair_of(strong_delim(s, i)))),
    ensures
        ({
            let e = scan_inside(s, i + 2, pair_of(strong_delim(s, i)));
            &&& next_span(s, i).0 == MdElemView::Strong(s.subrange(i + 2, e))
            &&& next_span(s, i).1 == e
            &&& frag_term_at(s, e)
        }),
{
    let c = strong_delim(s, i);
    let e = scan_inside(s, i + 2, pair_of(c));
    assert(s[e] == '\n');
    assert(c == '*' || c == '_');
    assert(!delim2_at(s, e, c));
}

/// Lenient driver: an input without a single ordered-list bullet parses to
/// the empty recipe sequence — and `parse` returns it as a success, never an
/// error, as its own contract states.
pub proof fn lemma_no_bullet_no_recipes(s: Seq<char>)
    requires
        forall|i: int| !ordered_bullet_at(s, i),
    ensures
        parse_spec(s) == Seq::<RecipeView>::empty(),
{
    lemma_frag_parse_props(s, 0);
    let f = frag_parse(s, 0).1;
    assert(!ordered_bullet_at(s, f));
    assert(recipes_parse(s, f) =~= Seq::<RecipeView>::empty());
}

/// Span text that renders and re-parses unambiguously: free of the two
/// delimiter characters and of line breaks.
pub open spec fn clean_text(t: Seq<char>) -> bool {
    forall|k: int| #![trigger t[k]] 0 <= k < t.len() ==> t[k] != '*' && t[k] != '_' && t[k] != '\n'
}

/// A span that survives a render and re-parse: its text is clean, and an
/// emphasis or plain span is non-empty (an empty emphasis would render as a
/// strong opening, and the tokenizer never produces an empty plain run).
pub open spec fn renderable_span(sp: MdElemView) -> bool {
    match sp {
        MdElemView::Text(t) => clean_text(t) && t.len() > 0,
        MdElemView::Em(t) => clean_text(t) && t.len() > 0,
        MdElemView::Strong(t) => clean_text(t),
    }
}

/// A fragment that survives a render and re-parse: every span renderable,
/// and no two adjacent plain runs (the tokenizer always merges the pair).
pub open spec fn renderable_frag(f: Seq<MdElemView>) -> bool {
    &&& forall|k: int| 0 <= k < f.len() ==> renderable_span(#[trigger] f[k])
    &&& forall|k: int| 0 < k < f.len() ==> !((#[trigger] f[k]) is Text && f[k - 1] is Text)
}

/// A recipe that survives a render and re-parse: renderable fragments and at
/// least one instruction line, as the grammar demands.
pub open spec fn renderable_recipe(r: RecipeView) -> bool {
    &&& renderable_frag(r.name)
    &&& r.instructions.len() >= 1
    &&& forall|k: int|
        0 <= k < r.instructions.len() ==> renderable_frag(#[trigger] r.instructions[k])
}

pub open spec fn renderable_recipes(rs: Seq<RecipeView>) -> bool {
    forall|k: int| 0 <= k < rs.len() ==> renderable_recipe(#[trigger] rs[k])
}

/// A literal splits across a concatenation.
proof fn lemma_tag_split(u: Seq<char>, i: int, a: Seq<char>, b: Seq<char>)
    requires
        tag_at(u, i, a + b),
    ensures
        tag_at(u, i, a),
        tag_at(u, i + a.len(), b),
{
    assert forall|k: int| 0 <= k < a.len() implies #[trigger] u[i + k] == a[k] by {
        assert(u[i + k] == (a + b)[k]);
    }
    assert forall|k: int| 0 <= k < b.len() implies #[trigger] u[i + a.len() + k] == b[k] by {
        assert(u[i + (a.len() + k)] == (a + b)[a.len() + k]);
        assert(i + (a.len() + k) == i + a.len() + k);
    }
}

/// The tokenizer reads a rendered renderable span back as exactly that span.
/// Where the span is a plain run, a stop condition must follow it, as it
/// does after every renderable fragment's rendering.
proof fn lemma_span_round_trip(u: Seq<char>, i: int, sp: MdElemView)
    requires
        renderable_span(sp),
        tag_at(u, i, render_span(sp)),
        sp is Text ==> plain_stop_at(u, i + render_span(sp).len()),
    ensures
        next_span(u, i) == (sp, i + render_span(sp).len()),
{
    match sp {
        MdElemView::Text(t) => {
            assert(u[i + 0] == t[0]);
            assert(!strong_at(u, i));
            assert(!em_at(u, i));
            assert forall|k: int| i <= k < i + t.len() implies !plain_stop_at(u, k) by {
                assert(u[i + (k - i)] == t[k - i]);
            }
            lemma_plain_end_exact(u, i, i + t.len());
            assert(u.subrange(i, i + t.len()) =~= t);
        },
        MdElemView::Em(t) => {
            let w = render_span(sp);
            assert(w == seq!['*'] + t + seq!['*']);
            assert(w.len() == t.len() + 2);
            assert(u[i + 0] == w[0] && w[0] == '*');
            assert(u[i + 1] == w[1] && w[1] == t[0]);
            assert(!strong_at(u, i));
            assert(em_at(u, i));
            let e = i + 1 + t.len();
            assert forall|k: int|
                i + 1 <= k < e implies !crate::inline::inside_stop_at(u, k, single_of('*')) by {
                assert(u[i + (k - i)] == w[k - i]);
                assert(w[k - i] == t[k - i - 1]);
            }
            assert(u[i + (1 + t.len())] == w[1 + t.len() as int] && w[1 + t.len() as int] == '*');
            assert(tag_at(u, e, single_of('*')));
            lemma_scan_inside_exact(u, i + 1, single_of('*'), e);
            assert forall|k: int| 0 <= k < t.len() implies u.subrange(i + 1, e)[k] == t[k] by {
                assert(u[i + (1 + k)] == w[1 + k]);
                assert(w[1 + k] == t[k]);
                assert(u.subrange(i + 1, e)[k] == u[i + (1 + k)]);
            }
            assert(u.subrange(i + 1, e) =~= t);
        },
        MdElemView::Strong(t) => {
            let w = render_span(sp);
            assert(w == seq!['*', '*'] + t + seq!['*', '*']);
            assert(w.len() == t.len() + 4);
            assert(u[i + 0] == w[0] && w[0] == '*');
            assert(u[i + 1] == w[1] && w[1] == '*');
            assert(strong_at(u, i));
            assert(strong_delim(u, i) == '*');
            let e = i + 2 + t.len();
            assert forall|k: int|
                i + 2 <= k < e implies !crate::inline::inside_stop_at(u, k, pair_of('*')) by {
                assert(u[i + (k - i)] == w[k - i]);
                assert(w[k - i] == t[k - i - 2]);
            }
            assert(u[i + (2 + t.len())] == w[2 + t.len() as int] && w[2 + t.len() as int] == '*');
            assert(u[i + (3 + t.len())] == w[3 + t.len() as int] && w[3 + t.len() as int] == '*');
            assert(tag_at(u, e, pair_of('*')));
            lemma_scan_inside_exact(u, i + 2, pair_of('*'), e);
            assert(delim2_at(u, e, '*'));
            assert forall|k: int| 0 <= k < t.len() implies u.subrange(i + 2, e)[k] == t[k] by {
                assert(u[i + (2 + k)] == w[2 + k]);
                assert(w[2 + k] == t[k]);
                assert(u.subrange(i + 2, e)[k] == u[i + (2 + k)]);
            }
            assert(u.subrange(i + 2, e) =~= t);
        },
    }
}

/// The fragment assembler reads a rendered renderable fragment back as
/// exactly its spans, stopping at the terminator that follows it.
proof fn lemma_frag_round_trip(u: Seq<char>, i: int, f: Seq<MdElemView>)
    requires
        renderable_frag(f),
        tag_at(u, i, render_frag(f)),
        frag_term_at(u, i + render_frag(f).len()),
    ensures
        frag_parse(u, i) == (f, i + render_frag(f).len()),
    decreases f.len(),
{
    if f.len() == 0 {
        assert(frag_parse(u, i) == (Seq::<MdElemView>::empty(), i));
        assert(f =~= Seq::<MdElemView>::empty());
    } else {
        let sp = f[0];
        let rest = f.drop_first();
        let w = render_span(sp);
        assert(render_frag(f) == w + render_frag(rest));
        lemma_tag_split(u, i, w, render_frag(rest));
        assert(w.len() >= 1) by {
            match sp {
                MdElemView::Text(t) => {},
                MdElemView::Em(t) => {},
                MdElemView::Strong(t) => {},
            }
        }
        // the fragment does not terminate at the span's start
        assert(u[i + 0] == w[0]);
        assert(w[0] != '\n') by {
            match sp {
                MdElemView::Text(t) => {
                    assert(w[0] == t[0]);
                },
                MdElemView::Em(t) => {},
                MdElemView::Strong(t) => {},
            }
        }
        assert(i + render_frag(f).len() <= u.len());
        assert(!frag_term_at(u, i));
        // a plain run is always followed by a stop: the next span's opening
        // delimiter, or the fragment's own terminator
        if sp is Text {
            if rest.len() == 0 {
                assert(i + w.len() == i + render_frag(f).len());
                assert(render_frag(rest).len() == 0);
                assert(plain_stop_at(u, i + w.len()));
            } else {
                assert(!(rest[0] is Text)) by {
                    assert(rest[0] == f[1]);
                }
                assert(render_frag(rest) == render_span(rest[0]) + render_frag(
                    rest.drop_first(),
                ));
                assert(render_span(rest[0])[0] == '*') by {
                    match rest[0] {
                        MdElemView::Text(t) => {},
                        MdElemView::Em(t) => {},
                        MdElemView::Strong(t) => {},
                    }
                }
                assert(render_frag(rest)[0] == '*');
                assert(u[i + w.len() + 0] == render_frag(rest)[0]);
                assert(render_span(rest[0]).len() >= 1);
                assert(plain_stop_at(u, i + w.len()));
            }
        }
        lemma_span_round_trip(u, i, sp);
        assert(renderable_frag(rest)) by {
            assert forall|k: int| 0 <= k < rest.len() implies renderable_span(
                #[trigger] rest[k],
            ) by {
                assert(rest[k] == f[k + 1]);
            }
            assert forall|k: int|
                0 < k < rest.len() implies !((#[trigger] rest[k]) is Text && rest[k - 1]
                is Text) by {
                assert(rest[k] == f[k + 1]);
                assert(rest[k - 1] == f[k]);
            }
        }
        lemma_frag_round_trip(u, i + w.len(), rest);
        assert(seq![sp] + rest =~= f);
    }
}

/// The instruction-list parser reads rendered renderable instruction lines
/// back as exactly those lines, as long as what follows the rendering is a
/// fragment terminator other than an unordered bullet.
proof fn lemma_instrs_round_trip(u: Seq<char>, i: int, instrs: Seq<Seq<MdElemView>>)
    requires
        forall|k: int| 0 <= k < instrs.len() ==> renderable_frag(#[trigger] instrs[k]),
        tag_at(u, i, render_instrs(instrs)),
        frag_term_at(u, i + render_instrs(instrs).len()),
        !unordered_bullet_at(u, i + render_instrs(instrs).len()),
    ensures
        ulist_parse(u, i) == (instrs, i + render_instrs(instrs).len()),
    decreases instrs.len(),
{
    if instrs.len() == 0 {
        assert(!unordered_bullet_at(u, i));
        assert(instrs =~= Seq::<Seq<MdElemView>>::empty());
    } else {
        let f0 = instrs[0];
        let rest = instrs.drop_first();
        let wf = render_frag(f0);
        assert(render_instrs(instrs) == seq!['\n', '-', ' '] + (wf + render_instrs(rest))) by {
            assert(seq!['\n', '-', ' '] + wf + render_instrs(rest) =~= seq!['\n', '-', ' '] + (wf
                + render_instrs(rest)));
        }
        lemma_tag_split(u, i, seq!['\n', '-', ' '], wf + render_instrs(rest));
        lemma_tag_split(u, i + 3, wf, render_instrs(rest));
        assert(u[i + 0] == '\n');
        assert(u[i + 1] == '-');
        assert(u[i + 2] == ' ');
        lemma_skip_ws_exact(u, i + 1, i + 1);
        assert(unordered_bullet_at(u, i));
        assert(unordered_bullet_end(u, i) == i + 3);
        let b = i + 3 + wf.len();
        // the fragment's terminator: the next bullet, or the list's end
        if rest.len() == 0 {
            assert(render_instrs(rest).len() == 0);
            assert(b == i + render_instrs(instrs).len());
        } else {
            assert(render_instrs(rest) == seq!['\n', '-', ' '] + render_frag(rest[0])
                + render_instrs(rest.drop_first()));
            assert(u[i + 3 + wf.len() + 0] == render_instrs(rest)[0]);
            assert(u[i + 3 + wf.len() + 1] == render_instrs(rest)[1]);
            assert(u[i + 3 + wf.len() + 2] == render_instrs(rest)[2]);
            assert(u[b + 0] == '\n' && u[b + 1] == '-' && u[b + 2] == ' ');
            lemma_skip_ws_exact(u, b + 1, b + 1);
            assert(unordered_bullet_at(u, b));
        }
        assert(frag_term_at(u, b));
        lemma_frag_round_trip(u, i + 3, f0);
        assert(uitem_parse(u, i) == (f0, b));
        assert forall|k: int| 0 <= k < rest.len() implies renderable_frag(#[trigger] rest[k]) by {
            assert(rest[k] == instrs[k + 1]);
        }
        lemma_instrs_round_trip(u, b, rest);
        assert(seq![f0] + rest =~= instrs);
    }
}

/// The driver reads rendered renderable recipes back as exactly those
/// recipes, provided the rendering reaches the input's end.
proof fn lemma_recipes_round_trip(u: Seq<char>, i: int, rs: Seq<RecipeView>)
    requires
        renderable_recipes(rs),
        tag_at(u, i, render_recipes_spec(rs)),
        i + render_recipes_spec(rs).len() == u.len(),
    ensures
        recipes_parse(u, i) == rs,
    decreases rs.len(),
{
    if rs.len() == 0 {
        assert(i == u.len());
        assert(!ordered_bullet_at(u, i));
        assert(rs =~= Seq::<RecipeView>::empty());
        assert(recipes_parse(u, i) =~= Seq::<RecipeView>::empty());
    } else {
        let r0 = rs[0];
        let rest = rs.drop_first();
        let wn = render_frag(r0.name);
        let wi = render_instrs(r0.instructions);
        assert(render_recipes_spec(rs) == seq!['\n', '1', '.', ' '] + (wn + (wi
            + render_recipes_spec(rest)))) by {
            assert(render_recipe(r0) == seq!['\n', '1', '.', ' '] + wn + wi);
            assert((seq!['\n', '1', '.', ' '] + wn + wi) + render_recipes_spec(rest) =~= seq![
                '\n',
                '1',
                '.',
                ' ',
            ] + (wn + (wi + render_recipes_spec(rest))));
        }
        lemma_tag_split(u, i, seq!['\n', '1', '.', ' '], wn + (wi + render_recipes_spec(rest)));
        lemma_tag_split(u, i + 4, wn, wi + render_recipes_spec(rest));
        lemma_tag_split(u, i + 4 + wn.len(), wi, render_recipes_spec(rest));
        assert(u[i + 0] == '\n');
        assert(u[i + 1] == '1');
        assert(u[i + 2] == '.');
        assert(u[i + 3] == ' ');
        lemma_skip_ws_exact(u, i + 1, i + 1);
        lemma_skip_digits_exact(u, i + 1, i + 2);
        assert(ordered_bullet_at(u, i));
        assert(ordered_bullet_end(u, i) == i + 4);
        let j = i + 4 + wn.len();
        // the title's terminator: the first instruction's bullet
        assert(wi.len() >= 3) by {
            assert(r0.instructions.len() >= 1);
        }
        assert(u[i + 4 + wn.len() + 0] == wi[0] && wi[0] == '\n');
        assert(u[i + 4 + wn.len() + 1] == wi[1] && wi[1] == '-');
        assert(u[i + 4 + wn.len() + 2] == wi[2] && wi[2] == ' ');
        assert(u[j + 0] == '\n' && u[j + 1] == '-' && u[j + 2] == ' ');
        lemma_skip_ws_exact(u, j + 1, j + 1);
        assert(unordered_bullet_at(u, j));
        assert(frag_term_at(u, j));
        lemma_frag_round_trip(u, i + 4, r0.name);
        assert(frag_parse(u, i + 4) == (r0.name, j));
        // the list's end: the next title's bullet, or the input's end
        let e = j + wi.len();
        if rest.len() == 0 {
            assert(render_recipes_spec(rest).len() == 0);
            assert(e == u.len());
            assert(!unordered_bullet_at(u, e));
            assert(frag_term_at(u, e));
        } else {
            let wt = render_recipes_spec(rest);
            assert(wt == render_recipe(rest[0]) + render_recipes_spec(rest.drop_first()));
            assert(render_recipe(rest[0]) == seq!['\n', '1', '.', ' '] + render_frag(
                rest[0].name,
            ) + render_instrs(rest[0].instructions));
            assert(wt[0] == '\n' && wt[1] == '1' && wt[2] == '.' && wt[3] == ' ');
            assert(u[j + wi.len() + 0] == wt[0]);
            assert(u[j + wi.len() + 1] == wt[1]);
            assert(u[j + wi.len() + 2] == wt[2]);
            assert(u[j + wi.len() + 3] == wt[3]);
            assert(u[e + 0] == '\n' && u[e + 1] == '1' && u[e + 2] == '.' && u[e + 3] == ' ');
            lemma_skip_ws_exact(u, e + 1, e + 1);
            lemma_skip_digits_exact(u, e + 1, e + 2);
            assert(ordered_bullet_at(u, e));
            assert(!unordered_bullet_at(u, e));
            assert(frag_term_at(u, e));
        }
        lemma_instrs_round_trip(u, j, r0.instructions);
        assert(ulist_parse(u, j) == (r0.instructions, e));
        assert(renderable_recipes(rest)) by {
            assert forall|k: int| 0 <= k < rest.len() implies renderable_recipe(
                #[trigger] rest[k],
            ) by {
                assert(rest[k] == rs[k + 1]);
            }
        }
        lemma_recipes_round_trip(u, e, rest);
        assert(RecipeView { name: r0.name, instructions: r0.instructions } == r0);
        assert(seq![r0] + rest =~= rs);
    }
}

/// Idempotent re-parse: rendering recipes back into bullet and delimiter
/// syntax and parsing the result yields exactly the same recipes.  The
/// rendering starts with an ordered bullet, so the foreword the parse
/// discards is empty.
pub proof fn lemma_render_parse_round_trip(rs: Seq<RecipeView>)
    requires
        renderable_recipes(rs),
    ensures
        parse_spec(render_recipes_spec(rs)) == rs,
{
    let u = render_recipes_spec(rs);
    assert(tag_at(u, 0, u)) by {
        assert forall|k: int| 0 <= k < u.len() implies #[trigger] u[0 + k] == u[k] by {}
    }
    if rs.len() == 0 {
        assert(u.len() == 0);
        assert(frag_term_at(u, 0));
        assert(frag_parse(u, 0) == (Seq::<MdElemView>::empty(), 0int));
    } else {
        let r0 = rs[0];
        assert(u == render_recipe(r0) + render_recipes_spec(rs.drop_first()));
        assert(render_recipe(r0) == seq!['\n', '1', '.', ' '] + render_frag(r0.name)
            + render_instrs(r0.instructions));
        assert(u[0] == '\n' && u[1] == '1' && u[2] == '.' && u[3] == ' ');
        lemma_skip_ws_exact(u, 1, 1);
        lemma_skip_digits_exact(u, 1, 2);
        assert(ordered_bullet_at(u, 0));
        assert(frag_term_at(u, 0));
        assert(frag_parse(u, 0) == (Seq::<MdElemView>::empty(), 0int));
    }
    lemma_recipes_round_trip(u, 0, rs);
}

} // verus!
