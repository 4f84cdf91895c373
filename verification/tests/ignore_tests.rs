//! Ignore rules: gitignore lines turned into anchored glob patterns,
//! the one-pass filter over the scanned file list, and its idempotence.

use cod::ignore::{filter_files, gitignore_patterns, is_hidden, patterns_valid};

#[test]
fn gitignore_lines_become_anchored_patterns() {
    let content = "build\n# a comment\n\ntarget/*\n  docs  \n";
    let patterns = gitignore_patterns("root", content);
    assert_eq!(
        patterns,
        vec![
            "root/build*".to_string(),
            "root/target/*".to_string(),
            "root/docs*".to_string(),
        ]
    );
}

#[test]
fn gitignore_strips_leading_dot_slash() {
    let patterns = gitignore_patterns(".", "build\n");
    assert_eq!(patterns, vec!["build*".to_string()]);
    let patterns = gitignore_patterns("./src", "tmp\n");
    assert_eq!(patterns, vec!["src/tmp*".to_string()]);
}

#[test]
fn gitignore_excludes_whole_subtree() {
    let content = "build\n";
    let patterns = gitignore_patterns("root", content);
    let files: Vec<String> = vec![
        "root/build/main.o".to_string(),
        "root/build/deep/more.o".to_string(),
        "root/builddir/x.c".to_string(),
        "root/src/main.c".to_string(),
    ];
    let kept = filter_files(&files, &patterns).expect("valid patterns");
    assert_eq!(
        kept,
        vec!["root/src/main.c".to_string()]
    );
}

#[test]
fn filtering_is_idempotent() {
    let patterns: Vec<String> = vec!["*.o".to_string(), "root/tmp*".to_string()];
    let files: Vec<String> = vec![
        "root/a.c".to_string(),
        "root/a.o".to_string(),
        "root/tmp/x".to_string(),
        "root/b.rs".to_string(),
    ];
    let once = filter_files(&files, &patterns).expect("valid patterns");
    let twice = filter_files(&once, &patterns).expect("valid patterns");
    assert_eq!(once, twice);
    assert_eq!(once, vec!["root/a.c".to_string(), "root/b.rs".to_string()]);
}

#[test]
fn invalid_glob_is_a_fatal_configuration_error() {
    let patterns: Vec<String> = vec!["[".to_string()];
    assert!(!patterns_valid(&patterns));
    let files: Vec<String> = vec!["a.c".to_string()];
    assert!(filter_files(&files, &patterns).is_none());
}

#[test]
fn glob_matching_reaches_the_real_engine() {
    let patterns: Vec<String> = vec!["*.rs".to_string()];
    let files: Vec<String> = vec!["lib.rs".to_string(), "main.c".to_string()];
    let kept = filter_files(&files, &patterns).expect("valid patterns");
    assert_eq!(kept, vec!["main.c".to_string()]);
}

#[test]
fn no_patterns_keep_everything() {
    let patterns: Vec<String> = vec![];
    let files: Vec<String> = vec!["a.c".to_string(), "b.rs".to_string()];
    let kept = filter_files(&files, &patterns).expect("no patterns are trivially valid");
    assert_eq!(kept, files);
}

#[test]
fn empty_gitignore_contributes_nothing() {
    assert_eq!(gitignore_patterns("root", ""), Vec::<String>::new());
    assert_eq!(gitignore_patterns("root", "# only comments\n\n"), Vec::<String>::new());
}

#[test]
fn hidden_entries_are_recognized() {
    assert!(is_hidden(".git"));
    assert!(is_hidden(".gitignore"));
    assert!(!is_hidden("src"));
    assert!(!is_hidden(""));
}
