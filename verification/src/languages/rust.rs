//! The Rust language: which files it owns and which structural patterns
//! are counted for it.

use vstd::prelude::*;
use crate::language_utils::{Grammar, str_ends_with};

verus! {

/// The Rust language.
pub struct Rust {}

impl Rust {
    /// The aggregation key of this language.
    pub fn name(&self) -> (r: &'static str)
        ensures
            r@ == "Rust"@,
    {
        "Rust"
    }

    /// Rust owns `.rs` files.
    pub fn matches_filename(&self, filename: &str) -> (r: bool)
        ensures
            r == ".rs"@.is_suffix_of(filename@),
    {
        str_ends_with(filename, ".rs")
    }

    /// The grammar used for structural analysis.
    pub fn language(&self) -> (r: Option<Grammar>)
        ensures
            r == Some(Grammar::Rust),
    {
        Some(Grammar::Rust)
    }

    /// The pattern counting loop constructs.
    pub fn loop_query(&self) -> (r: Option<&'static str>)
        ensures
            r is Some,
            r->0@ == "(for_expression) (while_expression) (loop_expression)"@,
    {
        Some("(for_expression) (while_expression) (loop_expression)")
    }

    /// The pattern counting function definitions.
    pub fn function_query(&self) -> (r: Option<&'static str>)
        ensures
            r is Some,
            r->0@ == "(function_item)"@,
    {
        Some("(function_item)")
    }

    /// The pattern counting variable declarations.
    pub fn variable_query(&self) -> (r: Option<&'static str>)
        ensures
            r is Some,
            r->0@ == "(let_declaration) (const_item) (static_item)"@,
    {
        Some("(let_declaration) (const_item) (static_item)")
    }
}

} // verus!
