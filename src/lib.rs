//! Linting and formatting of GROQ queries: a lexer and parser that build a
//! span-tracked syntax tree, a rule-based lint engine over that tree, and a
//! width-aware pretty printer.
use vstd::prelude::*;

pub mod span;
pub mod token;
pub mod lexer;
pub mod ast;
pub mod parser;
pub mod lint;
pub mod format;

pub use format::format_query;
pub use lint::{JsFinding, lint};

verus! {

} // verus!
