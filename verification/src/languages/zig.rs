//! The Zig language: which files it owns and which structural patterns
//! are counted for it.

use vstd::prelude::*;
use crate::language_utils::{Grammar, str_ends_with};

verus! {

/// The Zig language.
pub struct Zig {}

impl Zig {
    /// The aggregation key of this language.
    pub fn name(&self) -> (r: &'static str)
        ensures
            r@ == "Zig"@,
    {
        "Zig"
    }

    /// Zig owns `.zig` files.
    pub fn matches_filename(&self, filename: &str) -> (r: bool)
        ensures
            r == ".zig"@.is_suffix_of(filename@),
    {
        str_ends_with(filename, ".zig")
    }

    /// The grammar used for structural analysis.
    pub fn language(&self) -> (r: Option<Grammar>)
        ensures
            r == Some(Grammar::Zig),
    {
        Some(Grammar::Zig)
    }

    /// The pattern counting loop constructs.
    pub fn loop_query(&self) -> (r: Option<&'static str>)
        ensures
            r is Some,
            r->0@ == "(for_statement) (for_expression) (while_statement) (while_expression)"@,
    {
        Some("(for_statement) (for_expression) (while_statement) (while_expression)")
    }

    /// The pattern counting function definitions.
    pub fn function_query(&self) -> (r: Option<&'static str>)
        ensures
            r is Some,
            r->0@ == "(function_declaration)"@,
    {
        Some("(function_declaration)")
    }

    /// The pattern counting variable declarations.
    pub fn variable_query(&self) -> (r: Option<&'static str>)
        ensures
            r is Some,
            r->0@ == "(variable_declaration)"@,
    {
        Some("(variable_declaration)")
    }
}

} // verus!
