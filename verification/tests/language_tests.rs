//! Classification, the line model, extensions, the per-language
//! structs, and the summary total.

use cod::analyze::{other_endings, parse_file, StatsMap};
use cod::language_utils::QType;
use cod::language_utils::{extension_of, str_ends_with};
use cod::languages::{classify, languages};
use cod::languages::c::C;
use cod::languages::cpp::Cpp;
use cod::languages::other::Other;
use cod::languages::rust::Rust;
use cod::languages::zig::Zig;
use cod::lines::count_lines;

#[test]
fn classification_is_first_match_wins() {
    let langs = languages();
    let rust = classify(&langs, "src/main.rs").expect("total");
    assert_eq!(langs[rust].name, "Rust");
    let c = classify(&langs, "kernel.h").expect("total");
    assert_eq!(langs[c].name, "C");
    let cpp = classify(&langs, "widget.hpp").expect("total");
    assert_eq!(langs[cpp].name, "Cpp");
    let other = classify(&langs, "README").expect("total");
    assert_eq!(langs[other].name, "Other");
    let makefile = classify(&langs, "project/Makefile").expect("total");
    assert_eq!(langs[makefile].name, "Makefile");
}

#[test]
fn line_counts_follow_the_line_model() {
    assert_eq!(count_lines(""), (0, 0));
    assert_eq!(count_lines("one line"), (1, 0));
    assert_eq!(count_lines("a\nb\n"), (2, 0));
    assert_eq!(count_lines("a\n\nb"), (3, 1));
    assert_eq!(count_lines("  \n\t\nx\n"), (3, 2));
    assert_eq!(count_lines("\n"), (1, 1));
    let (total, blank) = count_lines("fn x() {}\n\n\n");
    assert!(blank <= total);
    assert_eq!((total, blank), (3, 2));
}

#[test]
fn extensions_come_from_the_last_component() {
    assert_eq!(extension_of("a.rs"), Some("rs".to_string()));
    assert_eq!(extension_of("dir/archive.tar.gz"), Some("gz".to_string()));
    assert_eq!(extension_of(".gitignore"), None);
    assert_eq!(extension_of("dir.d/noext"), None);
    assert_eq!(extension_of("trailing."), Some("".to_string()));
    assert_eq!(extension_of("README"), None);
}

#[test]
fn suffix_matching_is_exact() {
    assert!(str_ends_with("main.rs", ".rs"));
    assert!(!str_ends_with("main.rst", ".rs"));
    assert!(str_ends_with("anything", ""));
    assert!(!str_ends_with("rs", "main.rs"));
}

#[test]
fn language_structs_describe_their_languages() {
    let c = C {};
    assert_eq!(c.name(), "C");
    assert!(c.matches_filename("x.c") && c.matches_filename("x.h"));
    assert!(!c.matches_filename("x.cpp"));
    assert!(c.loop_query().is_some() && c.function_query().is_some());
    assert!(c.variable_query().is_some());

    let cpp = Cpp {};
    assert_eq!(cpp.name(), "C++");
    assert!(cpp.matches_filename("x.cc") && cpp.matches_filename("x.hh"));
    assert!(!cpp.matches_filename("x.c"));

    let rust = Rust {};
    assert_eq!(rust.name(), "Rust");
    assert!(rust.matches_filename("lib.rs"));

    let zig = Zig {};
    assert_eq!(zig.name(), "Zig");
    assert!(zig.matches_filename("build.zig"));

    let other = Other::new();
    assert_eq!(other.name(), "Other");
    assert!(other.matches_filename("whatever"));
    assert!(other.file_endings.is_empty());
}

#[test]
fn other_bucket_records_distinct_endings() {
    let mut other = Other::new();
    other.filename_callback("a.xyz");
    other.filename_callback("b.xyz");
    other.filename_callback("c.abc");
    other.filename_callback("noext");
    assert_eq!(
        other.file_endings,
        vec!["xyz".to_string(), "abc".to_string()]
    );

    let langs = languages();
    let files: Vec<String> = vec![
        "a.xyz".to_string(),
        "main.rs".to_string(),
        "b.xyz".to_string(),
        "c.abc".to_string(),
    ];
    let endings = other_endings(&langs, &files);
    assert_eq!(endings, vec!["xyz".to_string(), "abc".to_string()]);
}

#[test]
fn markdown_has_lines_but_no_categories() {
    let langs = languages();
    let mut map = StatsMap::new();
    let ok = parse_file(&langs, &mut map, "notes.md", Some("# title\n\ntext\n"));
    assert!(ok);
    let md = map.get("Markdown").expect("Markdown entry");
    assert_eq!(md.files, 1);
    assert_eq!(md.total_lines, 3);
    assert_eq!(md.blank_lines, 1);
    assert_eq!(md.get_count(QType::Functions), None);
    assert_eq!(md.get_count(QType::Loops), None);
}

#[test]
fn total_row_sums_the_tracked_categories() {
    let langs = languages();
    let mut map = StatsMap::new();
    assert!(parse_file(&langs, &mut map, "a.rs", Some("fn a() {}\nfn b() {}\n")));
    assert!(parse_file(
        &langs,
        &mut map,
        "b.c",
        Some("int main(void) {\n    int x = 0;\n    return x;\n}\n")
    ));
    assert!(parse_file(&langs, &mut map, "notes.md", Some("text\n")));
    let total = map.total_stats();
    assert_eq!(total.name, "Total");
    assert_eq!(total.files, 3);
    assert_eq!(total.total_lines, 7);
    assert_eq!(total.get_count(QType::Functions), Some(3));
    assert_eq!(total.get_count(QType::Variables), Some(1));
    assert_eq!(total.get_count(QType::Loops), Some(0));
    assert_eq!(total.get_count(QType::Templates), None);
}
