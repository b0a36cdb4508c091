//! Rendering recipes back into the bullet and delimiter syntax the parser
//! reads: `"\n1. "` before a title, `"\n- "` before each instruction line,
//! `*..*` around emphasis, `**..**` around strong text.

use vstd::prelude::*;
use vstd::string::StringExecFns;

use crate::elem::MdElemView;
use crate::elem::MdElement;
use crate::elem::Recipe;
use crate::elem::RecipeView;

verus! {

/// The rendering of one span: its text inside its delimiters.
pub open spec fn render_span(sp: MdElemView) -> Seq<char> {
    match sp {
        MdElemView::Text(t) => t,
        MdElemView::Em(t) => seq!['*'] + t + seq!['*'],
        MdElemView::Strong(t) => seq!['*', '*'] + t + seq!['*', '*'],
    }
}

/// The rendering of a fragment: its spans in order.
pub open spec fn render_frag(f: Seq<MdElemView>) -> Seq<char>
    decreases f.len(),
{
    if f.len() == 0 {
        Seq::<char>::empty()
    } else {
        render_span(f[0]) + render_frag(f.drop_first())
    }
}

/// The rendering of instruction lines: an unordered bullet before each.
pub open spec fn render_instrs(instrs: Seq<Seq<MdElemView>>) -> Seq<char>
    decreases instrs.len(),
{
    if instrs.len() == 0 {
        Seq::<char>::empty()
    } else {
        seq!['\n', '-', ' '] + render_frag(instrs[0]) + render_instrs(instrs.drop_first())
    }
}

/// The rendering of one recipe: an ordered bullet, the title, then the
/// instruction lines.  The bullet's digit is a constant `1`; the parser
/// recognizes any digits and never reads their value.
pub open spec fn render_recipe(r: RecipeView) -> Seq<char> {
    seq!['\n', '1', '.', ' '] + render_frag(r.name) + render_instrs(r.instructions)
}

/// The rendering of a whole recipe sequence.
pub open spec fn render_recipes_spec(rs: Seq<RecipeView>) -> Seq<char>
    decreases rs.len(),
{
    if rs.len() == 0 {
        Seq::<char>::empty()
    } else {
        render_recipe(rs[0]) + render_recipes_spec(rs.drop_first())
    }
}

/// Fragment rendering distributes over concatenation.
pub proof fn lemma_render_frag_append(a: Seq<MdElemView>, b: Seq<MdElemView>)
    ensures
        render_frag(a + b) == render_frag(a) + render_frag(b),
    decreases a.len(),
{
    if a.len() == 0 {
        assert(a + b =~= b);
        assert(render_frag(a) + render_frag(b) =~= render_frag(b));
    } else {
        assert((a + b).drop_first() =~= a.drop_first() + b);
        lemma_render_frag_append(a.drop_first(), b);
        assert(render_span(a[0]) + (render_frag(a.drop_first()) + render_frag(b)) =~= (render_span(
            a[0],
        ) + render_frag(a.drop_first())) + render_frag(b));
    }
}

/// Instruction rendering distributes over concatenation.
pub proof fn lemma_render_instrs_append(a: Seq<Seq<MdElemView>>, b: Seq<Seq<MdElemView>>)
    ensures
        render_instrs(a + b) == render_instrs(a) + render_instrs(b),
    decreases a.len(),
{
    if a.len() == 0 {
        assert(a + b =~= b);
        assert(render_instrs(a) + render_instrs(b) =~= render_instrs(b));
    } else {
        assert((a + b).drop_first() =~= a.drop_first() + b);
        lemma_render_instrs_append(a.drop_first(), b);
        assert((seq!['\n', '-', ' '] + render_frag(a[0])) + (render_instrs(a.drop_first())
            + render_instrs(b)) =~= (seq!['\n', '-', ' '] + render_frag(a[0]) + render_instrs(
            a.drop_first(),
        )) + render_instrs(b));
    }
}

/// Recipe rendering distributes over concatenation.
pub proof fn lemma_render_recipes_append(a: Seq<RecipeView>, b: Seq<RecipeView>)
    ensures
        render_recipes_spec(a + b) == render_recipes_spec(a) + render_recipes_spec(b),
    decreases a.len(),
{
    if a.len() == 0 {
        assert(a + b =~= b);
        assert(render_recipes_spec(a) + render_recipes_spec(b) =~= render_recipes_spec(b));
    } else {
        assert((a + b).drop_first() =~= a.drop_first() + b);
        lemma_render_recipes_append(a.drop_first(), b);
        assert(render_recipe(a[0]) + (render_recipes_spec(a.drop_first()) + render_recipes_spec(b))
            =~= (render_recipe(a[0]) + render_recipes_spec(a.drop_first())) + render_recipes_spec(
            b,
        ));
    }
}

/// Renders one fragment.
pub fn render_fragment(f: &Vec<MdElement>) -> (out: String)
    ensures
        out@ == render_frag(f.deep_view()),
{
    let ghost dv = f.deep_view();
    let mut out = String::new();
    let mut k: usize = 0;
    proof {
        assert(dv.take(0) =~= Seq::<MdElemView>::empty());
    }
    while k < f.len()
        invariant
            k <= f.len(),
            dv == f.deep_view(),
            out@ == render_frag(dv.take(k as int)),
        decreases f.len() - k,
    {
        proof {
            reveal_strlit("*");
            reveal_strlit("**");
            assert("*"@ =~= seq!['*']);
            assert("**"@ =~= seq!['*', '*']);
            lemma_render_frag_append(dv.take(k as int), seq![dv[k as int]]);
            assert(dv.take(k + 1 as int) =~= dv.take(k as int) + seq![dv[k as int]]);
            assert(seq![dv[k as int]].drop_first() =~= Seq::<MdElemView>::empty());
            assert(render_frag(Seq::<MdElemView>::empty()) =~= Seq::<char>::empty());
            assert(render_frag(seq![dv[k as int]]) =~= render_span(dv[k as int]));
        }
        match &f[k] {
            MdElement::Text(t) => {
                out.append(t.as_str());
            },
            MdElement::Em(t) => {
                out.append("*");
                out.append(t.as_str());
                out.append("*");
                proof {
                    assert(out@ =~= render_frag(dv.take(k as int)) + render_span(dv[k as int]));
                }
            },
            MdElement::Strong(t) => {
                out.append("**");
                out.append(t.as_str());
                out.append("**");
                proof {
                    assert(out@ =~= render_frag(dv.take(k as int)) + render_span(dv[k as int]));
                }
            },
        }
        k = k + 1;
    }
    proof {
        assert(dv.take(f.len() as int) =~= dv);
    }
    out
}

/// Renders a whole recipe sequence back into list syntax.
pub fn render_recipes(rs: &Vec<Recipe>) -> (out: String)
    ensures
        out@ == render_recipes_spec(rs.deep_view()),
{
    let ghost dv = rs.deep_view();
    let mut out = String::new();
    let mut k: usize = 0;
    proof {
        assert(dv.take(0) =~= Seq::<RecipeView>::empty());
    }
    while k < rs.len()
        invariant
            k <= rs.len(),
            dv == rs.deep_view(),
            out@ == render_recipes_spec(dv.take(k as int)),
        decreases rs.len() - k,
    {
        proof {
            reveal_strlit("\n1. ");
            assert("\n1. "@ =~= seq!['\n', '1', '.', ' ']);
            lemma_render_recipes_append(dv.take(k as int), seq![dv[k as int]]);
            assert(dv.take(k + 1 as int) =~= dv.take(k as int) + seq![dv[k as int]]);
            assert(seq![dv[k as int]].drop_first() =~= Seq::<RecipeView>::empty());
            assert(render_recipes_spec(Seq::<RecipeView>::empty()) =~= Seq::<char>::empty());
            assert(render_recipes_spec(seq![dv[k as int]]) =~= render_recipe(dv[k as int]));
        }
        out.append("\n1. ");
        let name = render_fragment(&rs[k].name);
        out.append(name.as_str());
        let instrs = &rs[k].instructions;
        let ghost idv = instrs.deep_view();
        let mut m: usize = 0;
        proof {
            assert(idv.take(0) =~= Seq::<Seq<MdElemView>>::empty());
            assert(out@ =~= render_recipes_spec(dv.take(k as int)) + seq!['\n', '1', '.', ' ']
                + render_frag(dv[k as int].name) + render_instrs(idv.take(0)));
        }
        while m < instrs.len()
            invariant
                m <= instrs.len(),
                dv == rs.deep_view(),
                idv == instrs.deep_view(),
                k < rs.len(),
                idv == dv[k as int].instructions,
                idv.len() == instrs@.len(),
                out@ == render_recipes_spec(dv.take(k as int)) + seq!['\n', '1', '.', ' ']
                    + render_frag(dv[k as int].name) + render_instrs(idv.take(m as int)),
            decreases instrs.len() - m,
        {
            proof {
                reveal_strlit("\n- ");
                assert("\n- "@ =~= seq!['\n', '-', ' ']);
                lemma_render_instrs_append(idv.take(m as int), seq![idv[m as int]]);
                assert(idv.take(m + 1 as int) =~= idv.take(m as int) + seq![idv[m as int]]);
                assert(seq![idv[m as int]].drop_first() =~= Seq::<Seq<MdElemView>>::empty());
                assert(render_instrs(Seq::<Seq<MdElemView>>::empty()) =~= Seq::<char>::empty());
                assert(render_instrs(seq![idv[m as int]]) =~= seq!['\n', '-', ' '] + render_frag(
                    idv[m as int],
                ));
            }
            out.append("\n- ");
            let line = render_fragment(&instrs[m]);
            out.append(line.as_str());
            proof {
                assert(idv[m as int] == instrs@[m as int].deep_view());
                reveal_strlit("\n- ");
                assert("\n- "@ =~= seq!['\n', '-', ' ']);
                assert(out@ =~= render_recipes_spec(dv.take(k as int)) + seq!['\n', '1', '.', ' ']
                    + render_frag(dv[k as int].name) + render_instrs(idv.take(m + 1 as int)));
            }
            m = m + 1;
        }
        proof {
            assert(idv.take(instrs.len() as int) =~= idv);
            assert(out@ =~= render_recipes_spec(dv.take(k as int)) + render_recipe(dv[k as int]));
        }
        k = k + 1;
    }
    proof {
        assert(dv.take(rs.len() as int) =~= dv);
    }
    out
}

} // verus!
