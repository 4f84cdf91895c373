//! The language registry: every registered language in priority order,
//! specific suffixes first and the catch-all bucket last, and the
//! first-match-wins classifier over it.

use vstd::prelude::*;
use crate::language_utils::{
    Grammar, LanguageDef, LanguageDefView, Operation, OperationView, QType, lemma_catch_all_matches,
};

pub mod c;
pub mod cpp;
pub mod other;
pub mod rust;
pub mod zig;

verus! {

/// A descriptor of a format without structural analysis.
pub open spec fn text_lang(name: Seq<char>, endings: Seq<Seq<char>>) -> LanguageDefView {
    LanguageDefView { name: name, endings: endings, grammar: None, queries: Seq::empty() }
}

/// A descriptor of a language analyzed under a grammar.
pub open spec fn code_lang(
    name: Seq<char>,
    endings: Seq<Seq<char>>,
    g: Grammar,
    queries: Seq<OperationView>,
) -> LanguageDefView {
    LanguageDefView { name: name, endings: endings, grammar: Some(g), queries: queries }
}

/// A pattern declaration.
pub open spec fn decl(t: QType, p: Seq<char>) -> OperationView {
    OperationView { qtype: t, pattern: p }
}

/// The registry this library ships: the same descriptors `languages`
/// constructs, as mathematical values.
pub open spec fn spec_languages() -> Seq<LanguageDefView> {
    seq![
        text_lang("Json"@, seq![".json"@]),
        text_lang("Makefile"@, seq!["Makefile"@, "makefile"@, ".make"@]),
        text_lang("CMake"@, seq!["CMakeLists.txt"@, ".cmake"@]),
        text_lang("Ninja"@, seq![".ninja"@]),
        text_lang("Markdown"@, seq![".md"@]),
        text_lang("Text"@, seq![".txt"@]),
        text_lang("Toml"@, seq![".toml"@]),
        text_lang("Xml"@, seq![".xml"@]),
        text_lang("Yaml"@, seq![".yaml"@, ".yml"@]),
        text_lang("Python"@, seq![".py"@]),
        text_lang("Java"@, seq![".java"@]),
        text_lang("JavaScript"@, seq![".js"@]),
        text_lang("TypeScript"@, seq![".ts"@]),
        text_lang("Lua"@, seq![".lua"@]),
        text_lang("Vim"@, seq![".vim"@]),
        text_lang("Shell"@, seq![".sh"@]),
        text_lang("Bash"@, seq![".bash"@]),
        text_lang("Zsh"@, seq![".zsh"@]),
        text_lang("Fish"@, seq![".fish"@]),
        text_lang("Go"@, seq![".go"@]),
        code_lang(
            "Rust"@,
            seq![".rs"@],
            Grammar::Rust,
            seq![
                decl(QType::Loops, "(for_expression) (while_expression) (loop_expression)"@),
                decl(QType::Functions, "(function_item)"@),
                decl(QType::Variables, "(let_declaration) (const_item) (static_item)"@),
            ],
        ),
        code_lang(
            "Cpp"@,
            seq![".cpp"@, ".hpp"@, ".cc"@, ".hh"@],
            Grammar::Cpp,
            seq![
                decl(
                    QType::Loops,
                    "(for_range_loop) (for_statement) (while_statement) (do_statement)"@,
                ),
                decl(QType::Functions, "(function_definition)"@),
                decl(QType::Variables, "(declaration)"@),
                decl(QType::Templates, "(template_declaration)"@),
                decl(QType::Defines, "(preproc_def)"@),
            ],
        ),
        code_lang(
            "C"@,
            seq![".c"@, ".h"@],
            Grammar::C,
            seq![
                decl(QType::Loops, "(for_statement) (while_statement) (do_statement)"@),
                decl(QType::Functions, "(function_definition)"@),
                decl(QType::Variables, "(declaration)"@),
            ],
        ),
        code_lang(
            "Zig"@,
            seq![".zig"@],
            Grammar::Zig,
            seq![
                decl(
                    QType::Loops,
                    "(for_statement) (for_expression) (while_statement) (while_expression)"@,
                ),
                decl(QType::Functions, "(function_declaration)"@),
                decl(QType::Variables, "(variable_declaration)"@),
            ],
        ),
        text_lang("Other"@, seq![""@]),
    ]
}

/// The descriptors a vector of them stands for.
pub open spec fn views_of(v: Seq<LanguageDef>) -> Seq<LanguageDefView> {
    Seq::new(v.len(), |i: int| v[i]@)
}

/// The names of one vector of strings.
pub open spec fn str_views(v: Seq<String>) -> Seq<Seq<char>> {
    Seq::new(v.len(), |i: int| v[i]@)
}

fn strings1(a: &str) -> (r: Vec<String>)
    ensures
        str_views(r@) =~~= seq![a@],
{
    let mut v: Vec<String> = Vec::new();
    v.push(a.to_owned());
    v
}

fn strings2(a: &str, b: &str) -> (r: Vec<String>)
    ensures
        str_views(r@) =~~= seq![a@, b@],
{
    let mut v: Vec<String> = Vec::new();
    v.push(a.to_owned());
    v.push(b.to_owned());
    v
}

fn strings3(a: &str, b: &str, c: &str) -> (r: Vec<String>)
    ensures
        str_views(r@) =~~= seq![a@, b@, c@],
{
    let mut v: Vec<String> = Vec::new();
    v.push(a.to_owned());
    v.push(b.to_owned());
    v.push(c.to_owned());
    v
}

fn strings4(a: &str, b: &str, c: &str, d: &str) -> (r: Vec<String>)
    ensures
        str_views(r@) =~~= seq![a@, b@, c@, d@],
{
    let mut v: Vec<String> = Vec::new();
    v.push(a.to_owned());
    v.push(b.to_owned());
    v.push(c.to_owned());
    v.push(d.to_owned());
    v
}

fn operation(t: QType, p: &str) -> (r: Operation)
    ensures
        r@ == decl(t, p@),
{
    Operation { qtype: t, pattern: p.to_owned() }
}

fn text_def(name: &str, endings: Vec<String>) -> (r: LanguageDef)
    ensures
        r@ =~~= text_lang(name@, str_views(endings@)),
{
    let r = LanguageDef { name: name.to_owned(), endings, grammar: None, queries: Vec::new() };
    r
}

fn code_def(name: &str, endings: Vec<String>, g: Grammar, queries: Vec<Operation>) -> (r:
    LanguageDef)
    ensures
        r@ =~~= code_lang(
            name@,
            str_views(endings@),
            g,
            Seq::new(queries@.len(), |i: int| queries@[i]@),
        ),
{
    let r = LanguageDef { name: name.to_owned(), endings, grammar: Some(g), queries };
    r
}

/// Build the registry, in priority order. The catch-all bucket comes
/// last, so no language with a registered suffix is ever shadowed.
pub fn languages() -> (r: Vec<LanguageDef>)
    ensures
        views_of(r@) =~~= spec_languages(),
        r@.len() == spec_languages().len(),
{
    let mut l: Vec<LanguageDef> = Vec::new();
    l.push(text_def("Json", strings1(".json")));
    l.push(text_def("Makefile", strings3("Makefile", "makefile", ".make")));
    l.push(text_def("CMake", strings2("CMakeLists.txt", ".cmake")));
    l.push(text_def("Ninja", strings1(".ninja")));
    l.push(text_def("Markdown", strings1(".md")));
    l.push(text_def("Text", strings1(".txt")));
    l.push(text_def("Toml", strings1(".toml")));
    l.push(text_def("Xml", strings1(".xml")));
    l.push(text_def("Yaml", strings2(".yaml", ".yml")));
    l.push(text_def("Python", strings1(".py")));
    l.push(text_def("Java", strings1(".java")));
    l.push(text_def("JavaScript", strings1(".js")));
    l.push(text_def("TypeScript", strings1(".ts")));
    l.push(text_def("Lua", strings1(".lua")));
    l.push(text_def("Vim", strings1(".vim")));
    l.push(text_def("Shell", strings1(".sh")));
    l.push(text_def("Bash", strings1(".bash")));
    l.push(text_def("Zsh", strings1(".zsh")));
    l.push(text_def("Fish", strings1(".fish")));
    l.push(text_def("Go", strings1(".go")));

    let mut rust_q: Vec<Operation> = Vec::new();
    rust_q.push(operation(QType::Loops, "(for_expression) (while_expression) (loop_expression)"));
    rust_q.push(operation(QType::Functions, "(function_item)"));
    rust_q.push(operation(QType::Variables, "(let_declaration) (const_item) (static_item)"));
    l.push(code_def("Rust", strings1(".rs"), Grammar::Rust, rust_q));

    let mut cpp_q: Vec<Operation> = Vec::new();
    cpp_q.push(
        operation(QType::Loops, "(for_range_loop) (for_statement) (while_statement) (do_statement)"),
    );
    cpp_q.push(operation(QType::Functions, "(function_definition)"));
    cpp_q.push(operation(QType::Variables, "(declaration)"));
    cpp_q.push(operation(QType::Templates, "(template_declaration)"));
    cpp_q.push(operation(QType::Defines, "(preproc_def)"));
    l.push(code_def("Cpp", strings4(".cpp", ".hpp", ".cc", ".hh"), Grammar::Cpp, cpp_q));

    let mut c_q: Vec<Operation> = Vec::new();
    c_q.push(operation(QType::Loops, "(for_statement) (while_statement) (do_statement)"));
    c_q.push(operation(QType::Functions, "(function_definition)"));
    c_q.push(operation(QType::Variables, "(declaration)"));
    l.push(code_def("C", strings2(".c", ".h"), Grammar::C, c_q));

    let mut zig_q: Vec<Operation> = Vec::new();
    zig_q.push(
        operation(
            QType::Loops,
            "(for_statement) (for_expression) (while_statement) (while_expression)",
        ),
    );
    zig_q.push(operation(QType::Functions, "(function_declaration)"));
    zig_q.push(operation(QType::Variables, "(variable_declaration)"));
    l.push(code_def("Zig", strings1(".zig"), Grammar::Zig, zig_q));

    l.push(text_def("Other", strings1("")));
    proof {
        assert forall|i: int| 0 <= i < l@.len() implies (#[trigger] views_of(l@)[i])
            =~~= spec_languages()[i] by {}
    }
    l
}

/// A registry is well formed when it is non-empty and ends in a
/// catch-all descriptor, so that classification is total.
pub open spec fn registry_wf(langs: Seq<LanguageDefView>) -> bool {
    langs.len() > 0 && langs.last().is_catch_all()
}

/// The shipped registry is well formed.
pub proof fn lemma_languages_wf()
    ensures
        registry_wf(spec_languages()),
{
    reveal_strlit("");
    let last = spec_languages().last();
    assert(last.endings[0].len() == 0);
    assert(last.is_catch_all());
}

/// The index of the first descriptor that owns `filename`, if any.
pub open spec fn first_match(langs: Seq<LanguageDefView>, filename: Seq<char>) -> Option<int>
    decreases langs.len(),
{
    if langs.len() == 0 {
        None
    } else if langs[0].matches(filename) {
        Some(0)
    } else {
        match first_match(langs.skip(1), filename) {
            None => None,
            Some(i) => Some(i + 1),
        }
    }
}

/// What `first_match` returns: the matching descriptor with the
/// smallest index, and `None` only when nothing matches.
pub proof fn lemma_first_match(langs: Seq<LanguageDefView>, filename: Seq<char>)
    ensures
        match first_match(langs, filename) {
            Some(i) => 0 <= i < langs.len() && langs[i].matches(filename) && forall|j: int|
                0 <= j < i ==> !(#[trigger] langs[j]).matches(filename),
            None => forall|j: int|
                0 <= j < langs.len() ==> !(#[trigger] langs[j]).matches(filename),
        },
    decreases langs.len(),
{
    if langs.len() > 0 && !langs[0].matches(filename) {
        let tail = langs.skip(1);
        lemma_first_match(tail, filename);
        assert(forall|j: int| 0 <= j < langs.len() - 1 ==> tail[j] == langs[j + 1]);
        match first_match(tail, filename) {
            None => {
                assert forall|j: int| 0 <= j < langs.len() implies !(#[trigger] langs[j]).matches(
                    filename,
                ) by {
                    if j > 0 {
                        assert(tail[j - 1] == langs[j]);
                    }
                }
            },
            Some(i) => {
                assert(first_match(langs, filename) == Some(i + 1));
                assert(tail[i] == langs[i + 1]);
                assert forall|j: int| 0 <= j < i + 1 implies !(#[trigger] langs[j]).matches(
                    filename,
                ) by {
                    if j > 0 {
                        assert(tail[j - 1] == langs[j]);
                    }
                }
            },
        }
    }
}

/// Classification is total: a well-formed registry owns every filename,
/// the owner is the first descriptor whose rule accepts it, and a
/// descriptor that accepts a filename no earlier descriptor accepts is
/// the one classification yields.
pub proof fn lemma_classification_totality(langs: Seq<LanguageDefView>, filename: Seq<char>)
    requires
        registry_wf(langs),
    ensures
        first_match(langs, filename) is Some,
        first_match(langs, filename) matches Some(i) ==> 0 <= i < langs.len() && langs[i].matches(
            filename,
        ) && forall|j: int| 0 <= j < i ==> !(#[trigger] langs[j]).matches(filename),
        forall|i: int|
            0 <= i < langs.len() && (#[trigger] langs[i]).matches(filename) && (forall|j: int|
                0 <= j < i ==> !(#[trigger] langs[j]).matches(filename)) ==> first_match(
                langs,
                filename,
            ) == Some(i),
{
    lemma_catch_all_matches(langs.last(), filename);
    lemma_first_match(langs, filename);
    if first_match(langs, filename) is None {
        assert(!langs[langs.len() - 1].matches(filename));
    }
    let w = first_match(langs, filename)->0;
    assert forall|i: int|
        0 <= i < langs.len() && (#[trigger] langs[i]).matches(filename) && (forall|j: int|
            0 <= j < i ==> !(#[trigger] langs[j]).matches(filename)) implies first_match(
        langs,
        filename,
    ) == Some(i) by {
        if i < w {
            assert(!langs[i].matches(filename));
        }
        if w < i {
            assert(!langs[w].matches(filename));
        }
    }
}

/// Select the owning descriptor of `filename`: the first whose rule
/// accepts it.
pub fn classify(languages: &Vec<LanguageDef>, filename: &str) -> (r: Option<usize>)
    ensures
        r matches Some(i) ==> first_match(views_of(languages@), filename@) == Some(i as int),
        r is None ==> first_match(views_of(languages@), filename@) is None,
{
    let mut i: usize = 0;
    while i < languages.len()
        invariant
            i <= languages@.len(),
            forall|j: int| 0 <= j < i ==> !(#[trigger] views_of(languages@)[j]).matches(filename@),
        decreases languages@.len() - i,
    {
        if languages[i].matches_filename(filename) {
            proof {
                lemma_first_match(views_of(languages@), filename@);
                assert(views_of(languages@)[i as int].matches(filename@));
            }
            return Some(i);
        }
        i += 1;
    }
    proof {
        lemma_first_match(views_of(languages@), filename@);
    }
    None
}

} // verus!
