//! A verified parser that extracts structured recipe records from free-form,
//! loosely Markdown-formatted text.
//!
//! The input is a single UTF-8 string (typically the reply of a language
//! model asked for recipe suggestions).  The output is an ordered sequence of
//! [`elem::Recipe`] values: each has a styled title, taken from an
//! ordered-list item (`"1. ..."`), and a non-empty list of styled instruction
//! lines, taken from the unordered-list items (`"- ..."`) that follow it.
//! Inline `*emphasis*` and `**strong**` markup is kept as structured spans
//! rather than raw delimiter characters.
//!
//! The top-level driver is deliberately lenient: wherever the grammar stops
//! matching, the parse ends successfully with whatever was collected, so that
//! unpredictable model output never raises an error.

pub mod blocks;
pub mod elem;
pub mod inline;
pub mod laws;
pub mod parser;
pub mod render;
pub mod scan;
pub mod suffix;

pub use elem::MdElement;
pub use elem::ParseError;
pub use elem::Recipe;
pub use parser::dummy_recipes;
pub use parser::parse;
