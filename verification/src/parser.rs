//! The top-level driver: discard the foreword, then collect
//! (title, instructions) pairs until the grammar stops matching.
//!
//! The driver is deliberately lenient.  Wherever a title or an instruction
//! list fails to match, the loop ends and whatever was already collected is
//! the successful result; a title whose instruction list fails is discarded.
//! No input makes the parse fail.

use vstd::prelude::*;
use vstd::string::StrSliceExecFns;

use crate::blocks::lemma_ulist_parse_props;
use crate::blocks::ulist_parse;
use crate::blocks::ulist_x;
use crate::elem::MdElemView;
use crate::elem::MdElement;
use crate::elem::ParseError;
use crate::elem::Recipe;
use crate::elem::RecipeView;
use crate::inline::frag_parse;
use crate::inline::frag_x;
use crate::inline::lemma_frag_parse_props;
use crate::scan::lemma_ordered_bullet_bounds;
use crate::scan::ordered_bullet_at;
use crate::scan::ordered_bullet_end;
use crate::scan::ordered_bullet_x;
use crate::scan::to_chars;
use crate::scan::unordered_bullet_at;
use crate::scan::unordered_bullet_x;

verus! {

/// The driver's loop at `i`: while an ordered-list item (the title) and a
/// non-empty unordered list (the instructions) both match, collect a recipe
/// and continue after it; the first mismatch ends the sequence.
pub open spec fn recipes_parse(s: Seq<char>, i: int) -> Seq<RecipeView>
    decreases s.len() - i,
        when 0 <= i <= s.len()
        via recipes_parse_decreases
{
    if !ordered_bullet_at(s, i) {
        Seq::<RecipeView>::empty()
    } else {
        let (name, j) = frag_parse(s, ordered_bullet_end(s, i));
        if !unordered_bullet_at(s, j) {
            Seq::<RecipeView>::empty()
        } else {
            let (instrs, e) = ulist_parse(s, j);
            seq![RecipeView { name, instructions: instrs }] + recipes_parse(s, e)
        }
    }
}

#[via_fn]
proof fn recipes_parse_decreases(s: Seq<char>, i: int) {
    if ordered_bullet_at(s, i) {
        lemma_ordered_bullet_bounds(s, i);
        lemma_frag_parse_props(s, ordered_bullet_end(s, i));
        let j = frag_parse(s, ordered_bullet_end(s, i)).1;
        if unordered_bullet_at(s, j) {
            lemma_ulist_parse_props(s, j);
        }
    }
}

/// The whole parse of an input: one fragment is assembled at the start and
/// discarded (the foreword), then the driver's loop runs.
pub open spec fn parse_spec(s: Seq<char>) -> Seq<RecipeView> {
    recipes_parse(s, frag_parse(s, 0).1)
}

/// Every recipe the driver collects has at least one instruction line.
pub proof fn lemma_recipes_parse_instructions_nonempty(s: Seq<char>, i: int)
    requires
        0 <= i <= s.len(),
    ensures
        forall|k: int|
            0 <= k < recipes_parse(s, i).len() ==> recipes_parse(
                s,
                i,
            )[k].instructions.len() >= 1,
    decreases s.len() - i,
{
    if ordered_bullet_at(s, i) {
        lemma_ordered_bullet_bounds(s, i);
        lemma_frag_parse_props(s, ordered_bullet_end(s, i));
        let j = frag_parse(s, ordered_bullet_end(s, i)).1;
        if unordered_bullet_at(s, j) {
            lemma_ulist_parse_props(s, j);
            lemma_recipes_parse_instructions_nonempty(s, ulist_parse(s, j).1);
            let rest = recipes_parse(s, ulist_parse(s, j).1);
            assert forall|k: int|
                0 <= k < recipes_parse(s, i).len() implies recipes_parse(
                s,
                i,
            )[k].instructions.len() >= 1 by {
                if k > 0 {
                    assert(recipes_parse(s, i)[k] == rest[k - 1]);
                }
            }
        }
    }
}

/// Extracts every recipe from the input.  The result is always `Ok`: any
/// point where the grammar stops matching ends the parse successfully with
/// whatever was already collected, and an input with no recognizable list
/// yields an empty sequence.
pub fn parse(input: &str) -> (r: Result<Vec<Recipe>, ParseError>)
    ensures
        r is Ok,
        r matches Ok(v) ==> v.deep_view() == parse_spec(input@),
{
    let s = to_chars(input);
    let (_foreword, start) = frag_x(input, &s, 0);
    let mut recipes: Vec<Recipe> = Vec::new();
    let mut pos = start;
    proof {
        assert(recipes.deep_view() =~= Seq::<RecipeView>::empty());
        assert(parse_spec(s@) =~= recipes.deep_view() + recipes_parse(s@, pos as int));
    }
    loop
        invariant
            input@ == s@,
            pos <= s.len(),
            parse_spec(s@) =~= recipes.deep_view() + recipes_parse(s@, pos as int),
        ensures
            parse_spec(s@) =~= recipes.deep_view() + recipes_parse(s@, pos as int),
            recipes_parse(s@, pos as int) =~= Seq::<RecipeView>::empty(),
        decreases s.len() - pos,
    {
        let b = match ordered_bullet_x(&s, pos) {
            Some(b) => b,
            None => {
                break ;
            },
        };
        let (name, j) = frag_x(input, &s, b);
        match unordered_bullet_x(&s, j) {
            Some(_) => {},
            None => {
                break ;
            },
        }
        let (instructions, e) = ulist_x(input, &s, j);
        proof {
            lemma_ulist_parse_props(s@, j as int);
        }
        let ghost prev = recipes.deep_view();
        recipes.push(Recipe { name, instructions });
        proof {
            assert(recipes.deep_view() =~= prev.push(
                RecipeView {
                    name: frag_parse(s@, ordered_bullet_end(s@, pos as int)).0,
                    instructions: ulist_parse(s@, j as int).0,
                },
            ));
            assert(prev + recipes_parse(s@, pos as int) =~= recipes.deep_view() + recipes_parse(
                s@,
                e as int,
            ));
        }
        pos = e;
        if pos >= s.len() {
            break ;
        }
    }
    proof {
        assert(recipes.deep_view() =~= parse_spec(s@));
    }
    Ok(recipes)
}

/// A fragment holding one plain-text span.
fn text_frag(t: &str) -> (r: Vec<MdElement>)
    ensures
        r.deep_view() == seq![MdElemView::Text(t@)],
{
    let mut v: Vec<MdElement> = Vec::new();
    v.push(MdElement::Text(t.to_owned()));
    proof {
        assert(v.deep_view() =~= seq![MdElemView::Text(t@)]);
    }
    v
}

/// A fragment holding one strong span.
fn strong_frag(t: &str) -> (r: Vec<MdElement>)
    ensures
        r.deep_view() == seq![MdElemView::Strong(t@)],
{
    let mut v: Vec<MdElement> = Vec::new();
    v.push(MdElement::Strong(t.to_owned()));
    proof {
        assert(v.deep_view() =~= seq![MdElemView::Strong(t@)]);
    }
    v
}

/// The model of [`dummy_recipes`]: three placeholder recipes with strong
/// titles and plain one-character instruction lines.
pub open spec fn dummy_recipes_view() -> Seq<RecipeView> {
    seq![
        RecipeView {
            name: seq![MdElemView::Strong("rec1:"@)],
            instructions: seq![
                seq![MdElemView::Text("a."@)],
                seq![MdElemView::Text("b."@)],
                seq![MdElemView::Text("c."@)],
                seq![MdElemView::Text("d."@)],
                seq![MdElemView::Text("e."@)],
            ],
        },
        RecipeView {
            name: seq![MdElemView::Strong("rec2:"@)],
            instructions: seq![
                seq![MdElemView::Text("a."@)],
                seq![MdElemView::Text("b."@)],
                seq![MdElemView::Text("c."@)],
                seq![MdElemView::Text("d."@)],
                seq![MdElemView::Text("e."@)],
                seq![MdElemView::Text("f."@)],
            ],
        },
        RecipeView {
            name: seq![MdElemView::Strong("rec3:"@)],
            instructions: seq![
                seq![MdElemView::Text("a."@)],
                seq![MdElemView::Text("b."@)],
                seq![MdElemView::Text("c."@)],
                seq![MdElemView::Text("d."@)],
            ],
        },
    ]
}

/// A fixed sample list of three recipes, for displaying the downstream
/// rendering without a parse.
pub fn dummy_recipes() -> (r: Vec<Recipe>)
    ensures
        r.deep_view() == dummy_recipes_view(),
{
    let mut instr1: Vec<Vec<MdElement>> = Vec::new();
    instr1.push(text_frag("a."));
    instr1.push(text_frag("b."));
    instr1.push(text_frag("c."));
    instr1.push(text_frag("d."));
    instr1.push(text_frag("e."));
    let rec1 = Recipe { name: strong_frag("rec1:"), instructions: instr1 };
    let mut instr2: Vec<Vec<MdElement>> = Vec::new();
    instr2.push(text_frag("a."));
    instr2.push(text_frag("b."));
    instr2.push(text_frag("c."));
    instr2.push(text_frag("d."));
    instr2.push(text_frag("e."));
    instr2.push(text_frag("f."));
    let rec2 = Recipe { name: strong_frag("rec2:"), instructions: instr2 };
    let mut instr3: Vec<Vec<MdElement>> = Vec::new();
    instr3.push(text_frag("a."));
    instr3.push(text_frag("b."));
    instr3.push(text_frag("c."));
    instr3.push(text_frag("d."));
    let rec3 = Recipe { name: strong_frag("rec3:"), instructions: instr3 };
    let mut r: Vec<Recipe> = Vec::new();
    r.push(rec1);
    r.push(rec2);
    r.push(rec3);
    proof {
        assert(r.deep_view()[0].instructions =~= dummy_recipes_view()[0].instructions);
        assert(r.deep_view()[1].instructions =~= dummy_recipes_view()[1].instructions);
        assert(r.deep_view()[2].instructions =~= dummy_recipes_view()[2].instructions);
        assert(r.deep_view()[0].name =~= dummy_recipes_view()[0].name);
        assert(r.deep_view()[1].name =~= dummy_recipes_view()[1].name);
        assert(r.deep_view()[2].name =~= dummy_recipes_view()[2].name);
        assert(r.deep_view() =~= dummy_recipes_view());
    }
    r
}

} // verus!
