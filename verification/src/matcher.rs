//! The pattern-matcher capability: parse a file's content under a
//! grammar and count the occurrences of a structural pattern.
//!
//! The parsing and query engine is an outside collaborator; each
//! grammar's counting function is taken on trust here, with its result
//! named by an uninterpreted function of the pattern and the content
//! (the engine is deterministic and side-effect-free for identical
//! inputs). Everything downstream of these counts is verified.

use vstd::prelude::*;
use crate::language_utils::Grammar;

verus! {

/// Whether the C grammar accepts `pattern` as a query.
pub uninterp spec fn c_query_ok(pattern: Seq<char>) -> bool;

/// Number of matches of `pattern` in `content` parsed as C.
pub uninterp spec fn c_matches(pattern: Seq<char>, content: Seq<char>) -> nat;

/// Whether the C++ grammar accepts `pattern` as a query.
pub uninterp spec fn cpp_query_ok(pattern: Seq<char>) -> bool;

/// Number of matches of `pattern` in `content` parsed as C++.
pub uninterp spec fn cpp_matches(pattern: Seq<char>, content: Seq<char>) -> nat;

/// Whether the Rust grammar accepts `pattern` as a query.
pub uninterp spec fn rust_query_ok(pattern: Seq<char>) -> bool;

/// Number of matches of `pattern` in `content` parsed as Rust.
pub uninterp spec fn rust_matches(pattern: Seq<char>, content: Seq<char>) -> nat;

/// Whether the Zig grammar accepts `pattern` as a query.
pub uninterp spec fn zig_query_ok(pattern: Seq<char>) -> bool;

/// Number of matches of `pattern` in `content` parsed as Zig.
pub uninterp spec fn zig_matches(pattern: Seq<char>, content: Seq<char>) -> nat;

/// Relies on tree_sitter's Parser, Query and QueryCursor with the
/// tree_sitter_c grammar: parsing always succeeds (the grammar's ABI
/// version lies in the range the linked runtime accepts, so
/// set_language and parse cannot fail), Query::new accepts or rejects
/// the pattern by its text alone, and the match count is a function of
/// pattern and content.
#[verifier::external_body]
fn try_count_c(pattern: &str, content: &str) -> (r: Option<usize>)
    ensures
        r is Some <==> c_query_ok(pattern@),
        r is Some ==> r->0 as nat == c_matches(pattern@, content@),
{
    let language = tree_sitter::Language::from(tree_sitter_c::LANGUAGE);
    let mut parser = tree_sitter::Parser::new();
    parser.set_language(&language).unwrap();
    let tree = parser.parse(content, None).unwrap();
    let query = match tree_sitter::Query::new(&language, pattern) {
        Ok(q) => q,
        Err(_) => return None,
    };
    let mut cursor = tree_sitter::QueryCursor::new();
    let found = cursor.matches(&query, tree.root_node(), content.as_bytes());
    Some(streaming_iterator::StreamingIterator::count(found))
}

/// Relies on tree_sitter with the tree_sitter_cpp grammar, as
/// `try_count_c` does with the C grammar.
#[verifier::external_body]
fn try_count_cpp(pattern: &str, content: &str) -> (r: Option<usize>)
    ensures
        r is Some <==> cpp_query_ok(pattern@),
        r is Some ==> r->0 as nat == cpp_matches(pattern@, content@),
{
    let language = tree_sitter::Language::from(tree_sitter_cpp::LANGUAGE);
    let mut parser = tree_sitter::Parser::new();
    parser.set_language(&language).unwrap();
    let tree = parser.parse(content, None).unwrap();
    let query = match tree_sitter::Query::new(&language, pattern) {
        Ok(q) => q,
        Err(_) => return None,
    };
    let mut cursor = tree_sitter::QueryCursor::new();
    let found = cursor.matches(&query, tree.root_node(), content.as_bytes());
    Some(streaming_iterator::StreamingIterator::count(found))
}

/// Relies on tree_sitter with the tree_sitter_rust grammar, as
/// `try_count_c` does with the C grammar.
#[verifier::external_body]
fn try_count_rust(pattern: &str, content: &str) -> (r: Option<usize>)
    ensures
        r is Some <==> rust_query_ok(pattern@),
        r is Some ==> r->0 as nat == rust_matches(pattern@, content@),
{
    let language = tree_sitter::Language::from(tree_sitter_rust::LANGUAGE);
    let mut parser = tree_sitter::Parser::new();
    parser.set_language(&language).unwrap();
    let tree = parser.parse(content, None).unwrap();
    let query = match tree_sitter::Query::new(&language, pattern) {
        Ok(q) => q,
        Err(_) => return None,
    };
    let mut cursor = tree_sitter::QueryCursor::new();
    let found = cursor.matches(&query, tree.root_node(), content.as_bytes());
    Some(streaming_iterator::StreamingIterator::count(found))
}

/// Relies on tree_sitter with the tree_sitter_zig grammar, as
/// `try_count_c` does with the C grammar.
#[verifier::external_body]
fn try_count_zig(pattern: &str, content: &str) -> (r: Option<usize>)
    ensures
        r is Some <==> zig_query_ok(pattern@),
        r is Some ==> r->0 as nat == zig_matches(pattern@, content@),
{
    let language = tree_sitter::Language::from(tree_sitter_zig::LANGUAGE);
    let mut parser = tree_sitter::Parser::new();
    parser.set_language(&language).unwrap();
    let tree = parser.parse(content, None).unwrap();
    let query = match tree_sitter::Query::new(&language, pattern) {
        Ok(q) => q,
        Err(_) => return None,
    };
    let mut cursor = tree_sitter::QueryCursor::new();
    let found = cursor.matches(&query, tree.root_node(), content.as_bytes());
    Some(streaming_iterator::StreamingIterator::count(found))
}

/// Whether `pattern` is a well-formed query under grammar `g`.
pub open spec fn grammar_query_ok(g: Grammar, pattern: Seq<char>) -> bool {
    match g {
        Grammar::C => c_query_ok(pattern),
        Grammar::Cpp => cpp_query_ok(pattern),
        Grammar::Rust => rust_query_ok(pattern),
        Grammar::Zig => zig_query_ok(pattern),
    }
}

/// Number of matches of `pattern` in `content` under grammar `g`.
pub open spec fn grammar_matches(g: Grammar, pattern: Seq<char>, content: Seq<char>) -> nat {
    match g {
        Grammar::C => c_matches(pattern, content),
        Grammar::Cpp => cpp_matches(pattern, content),
        Grammar::Rust => rust_matches(pattern, content),
        Grammar::Zig => zig_matches(pattern, content),
    }
}

/// Count the non-overlapping structural matches of `pattern` in
/// `content` parsed under grammar `g`. `None` exactly when the grammar
/// rejects the pattern: a defect in a descriptor table, which callers
/// must treat as fatal rather than as a zero count.
pub fn count_matches(g: &Grammar, pattern: &str, content: &str) -> (r: Option<usize>)
    ensures
        r is Some <==> grammar_query_ok(*g, pattern@),
        r is Some ==> r->0 as nat == grammar_matches(*g, pattern@, content@),
{
    match g {
        Grammar::C => try_count_c(pattern, content),
        Grammar::Cpp => try_count_cpp(pattern, content),
        Grammar::Rust => try_count_rust(pattern, content),
        Grammar::Zig => try_count_zig(pattern, content),
    }
}

} // verus!
