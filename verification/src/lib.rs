//! A tokenizer and macro preprocessor for a C-style configuration
//! language used by a game-engine content pipeline.
//!
//! Source text is tokenized into positioned lexical atoms
//! ([`tokens::TokenPair`]), then rewritten by a directive-driven
//! preprocessor that expands object-like and function-like macros,
//! honors conditional-inclusion directives, supports stringification,
//! and keeps a line/column counter consistent through expansions.
//! The renderer concatenates the rewritten stream back into source text.

pub mod ifstate;
pub mod preprocessor;
pub mod render;
pub mod reporting;
pub mod tokenizer;
pub mod lcc;
pub mod asc;
pub mod defines;
pub mod tokens;

use vstd::prelude::*;

verus! {

/// A single source position: a character offset together with a
/// (line, column) pair. Lines and columns are 1-based.
pub type Pos = (usize, (usize, usize));

/// The ghost mirror of [`Pos`], over unbounded integers.
pub type PosV = (int, (int, int));

/// The ghost value of a position.
pub open spec fn pos_view(p: Pos) -> PosV {
    (p.0 as int, (p.1.0 as int, p.1.1 as int))
}

} // verus!
