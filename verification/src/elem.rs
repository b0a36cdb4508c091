//! The data model: inline spans and recipes, with their mathematical views.

use vstd::prelude::*;

verus! {

/// One run of inline text: emphasized (`*..*` or `_.._`), strongly
/// emphasized (`**..**` or `__..__`), or plain.  The payload is the span's
/// text with the delimiter characters stripped; it may contain single line
/// breaks, but never a blank line.
#[derive(Debug, Clone, PartialEq, Eq)]
pub enum MdElement {
    Em(String),
    Strong(String),
    Text(String),
}

/// Mathematical model of an [`MdElement`]: the same three variants over
/// character sequences.
pub enum MdElemView {
    Em(Seq<char>),
    Strong(Seq<char>),
    Text(Seq<char>),
}

impl View for MdElement {
    type V = MdElemView;

    open spec fn view(&self) -> MdElemView {
        match self {
            MdElement::Em(s) => MdElemView::Em(s@),
            MdElement::Strong(s) => MdElemView::Strong(s@),
            MdElement::Text(s) => MdElemView::Text(s@),
        }
    }
}

impl DeepView for MdElement {
    type V = MdElemView;

    open spec fn deep_view(&self) -> MdElemView {
        self.view()
    }
}

/// A recipe: a styled title (`name`) and its styled instruction lines.
/// The parser only ever produces recipes with at least one instruction.
#[derive(Debug, Clone, PartialEq, Eq)]
pub struct Recipe {
    pub name: Vec<MdElement>,
    pub instructions: Vec<Vec<MdElement>>,
}

/// Mathematical model of a [`Recipe`].
pub struct RecipeView {
    pub name: Seq<MdElemView>,
    pub instructions: Seq<Seq<MdElemView>>,
}

impl View for Recipe {
    type V = RecipeView;

    open spec fn view(&self) -> RecipeView {
        RecipeView { name: self.name.deep_view(), instructions: self.instructions.deep_view() }
    }
}

impl DeepView for Recipe {
    type V = RecipeView;

    open spec fn deep_view(&self) -> RecipeView {
        self.view()
    }
}

/// Parse-failure signal.  It is reserved for unrecoverable lower-level
/// conditions; the top-level driver absorbs every grammar mismatch, so for
/// the current grammar [`crate::parser::parse`] never returns it.
#[derive(Debug, Clone, Copy, PartialEq, Eq)]
pub struct ParseError;

} // verus!
