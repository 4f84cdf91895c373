//! The C++ language: which files it owns and which structural patterns
//! are counted for it.

use vstd::prelude::*;
use crate::language_utils::{Grammar, str_ends_with};

verus! {

/// The C++ language.
pub struct Cpp {}

impl Cpp {
    /// The user-facing name of this language.
    pub fn name(&self) -> (r: &'static str)
        ensures
            r@ == "C++"@,
    {
        "C++"
    }

    /// C++ owns `.cpp`, `.cc`, `.hpp` and `.hh` files.
    pub fn matches_filename(&self, filename: &str) -> (r: bool)
        ensures
            r == (".cpp"@.is_suffix_of(filename@) || ".cc"@.is_suffix_of(filename@)
                || ".hpp"@.is_suffix_of(filename@) || ".hh"@.is_suffix_of(filename@)),
    {
        str_ends_with(filename, ".cpp") || str_ends_with(filename, ".cc") || str_ends_with(
            filename,
            ".hpp",
        ) || str_ends_with(filename, ".hh")
    }

    /// The grammar used for structural analysis.
    pub fn language(&self) -> (r: Option<Grammar>)
        ensures
            r == Some(Grammar::Cpp),
    {
        Some(Grammar::Cpp)
    }

    /// The pattern counting loop constructs.
    pub fn loop_query(&self) -> (r: Option<&'static str>)
        ensures
            r is Some,
            r->0@ == "(for_range_loop) (for_statement) (while_statement) (do_statement)"@,
    {
        Some("(for_range_loop) (for_statement) (while_statement) (do_statement)")
    }

    /// The pattern counting function definitions.
    pub fn function_query(&self) -> (r: Option<&'static str>)
        ensures
            r is Some,
            r->0@ == "(function_definition)"@,
    {
        Some("(function_definition)")
    }

    /// The pattern counting variable declarations.
    pub fn variable_query(&self) -> (r: Option<&'static str>)
        ensures
            r is Some,
            r->0@ == "(declaration)"@,
    {
        Some("(declaration)")
    }
}

} // verus!
