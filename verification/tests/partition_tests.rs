//! Partitioned processing: slice boundaries, and the merged result of
//! independent workers against the single-threaded aggregation.

use cod::analyze::StatsMap;
use cod::language_utils::{Grammar, LanguageDef, Operation, QType};
use cod::languages::languages;
use cod::partition::{process_files, slice_bounds};

fn sample_files() -> Vec<(String, Option<String>)> {
    vec![
        (
            "a.rs".to_string(),
            Some("fn one() {}\n\nfn two() {}\n".to_string()),
        ),
        (
            "b.c".to_string(),
            Some("int main(void) {\n    int x = 0;\n    return x;\n}\n".to_string()),
        ),
        ("notes.md".to_string(), Some("# notes\n\nplain text\n".to_string())),
        ("data.bin".to_string(), None),
        (
            "c.rs".to_string(),
            Some("fn three() { let x = 1; }\n".to_string()),
        ),
    ]
}

fn process_with_jobs(files: &Vec<(String, Option<String>)>, jobs: usize) -> StatsMap {
    let langs = languages();
    let bounds = slice_bounds(files.len(), jobs);
    let mut merged = StatsMap::new();
    for (lo, hi) in bounds {
        let slice: Vec<(String, Option<String>)> = files[lo..hi].to_vec();
        let mut part = StatsMap::new();
        let ok = process_files(&langs, &slice, &mut part);
        assert!(ok);
        merged.merge_from(&part);
    }
    merged
}

fn assert_maps_agree(a: &StatsMap, b: &StatsMap, names: &[&str]) {
    for name in names {
        match (a.get(name), b.get(name)) {
            (Some(x), Some(y)) => {
                assert_eq!(x.files, y.files);
                assert_eq!(x.total_lines, y.total_lines);
                assert_eq!(x.blank_lines, y.blank_lines);
                for q in [
                    QType::Loops,
                    QType::Functions,
                    QType::Variables,
                    QType::Templates,
                    QType::Defines,
                ] {
                    assert_eq!(x.get_count(q), y.get_count(q));
                }
            },
            (None, None) => {},
            _ => panic!("maps disagree on {}", name),
        }
    }
}

const ALL_NAMES: [&str; 6] = ["Rust", "C", "Markdown", "Binary", "Other", "Cpp"];

#[test]
fn slice_bounds_cover_contiguously() {
    let bounds = slice_bounds(10, 3);
    assert_eq!(bounds, vec![(0, 3), (3, 6), (6, 10)]);
    let bounds = slice_bounds(4, 1);
    assert_eq!(bounds, vec![(0, 4)]);
    let bounds = slice_bounds(2, 2);
    assert_eq!(bounds, vec![(0, 1), (1, 2)]);
}

#[test]
fn partition_counts_match_single_threaded() {
    let files = sample_files();
    let langs = languages();
    let mut single = StatsMap::new();
    assert!(process_files(&langs, &files, &mut single));
    for jobs in 1..=files.len() {
        let merged = process_with_jobs(&files, jobs);
        assert_maps_agree(&merged, &single, &ALL_NAMES);
    }
}

#[test]
fn two_workers_two_languages() {
    let files: Vec<(String, Option<String>)> = vec![
        ("one.rs".to_string(), Some("fn a() {}\n".to_string())),
        (
            "two.c".to_string(),
            Some("int main(void) { return 0; }\n".to_string()),
        ),
    ];
    let langs = languages();
    let merged = process_with_jobs(&files, 2);
    assert_eq!(merged.entries.len(), 2);

    let mut rust_alone = StatsMap::new();
    let rust_only: Vec<(String, Option<String>)> = vec![files[0].clone()];
    assert!(process_files(&langs, &rust_only, &mut rust_alone));
    let mut c_alone = StatsMap::new();
    let c_only: Vec<(String, Option<String>)> = vec![files[1].clone()];
    assert!(process_files(&langs, &c_only, &mut c_alone));

    assert_maps_agree(&merged, &rust_alone, &["Rust"]);
    assert_maps_agree(&merged, &c_alone, &["C"]);
}

#[test]
fn binary_files_land_in_binary_bucket() {
    let files: Vec<(String, Option<String>)> = vec![
        ("junk.rs".to_string(), None),
        ("junk2.png".to_string(), None),
    ];
    let langs = languages();
    let mut map = StatsMap::new();
    assert!(process_files(&langs, &files, &mut map));
    let binary = map.get("Binary").expect("Binary entry");
    assert_eq!(binary.files, 2);
    assert_eq!(binary.total_lines, 0);
    assert!(map.get("Rust").is_none());
}

#[test]
fn empty_file_list_yields_empty_aggregation() {
    let langs = languages();
    let files: Vec<(String, Option<String>)> = vec![];
    let mut map = StatsMap::new();
    assert!(process_files(&langs, &files, &mut map));
    assert_eq!(map.entries.len(), 0);
    let total = map.total_stats();
    assert_eq!(total.files, 0);
    assert_eq!(total.get_count(QType::Functions), Some(0));
}

#[test]
fn merging_an_empty_aggregation_changes_nothing() {
    let langs = languages();
    let files: Vec<(String, Option<String>)> =
        vec![("a.rs".to_string(), Some("fn a() {}\n".to_string()))];
    let mut map = StatsMap::new();
    assert!(process_files(&langs, &files, &mut map));
    let before_files = map.get("Rust").unwrap().files;
    let empty = StatsMap::new();
    map.merge_from(&empty);
    assert_eq!(map.entries.len(), 1);
    assert_eq!(map.get("Rust").unwrap().files, before_files);
}

#[test]
fn invalid_pattern_is_refused() {
    let broken = LanguageDef {
        name: "Broken".to_string(),
        endings: vec![".rs".to_string()],
        grammar: Some(Grammar::Rust),
        queries: vec![Operation {
            qtype: QType::Loops,
            pattern: "(this_is_not_a_node".to_string(),
        }],
    };
    let langs = vec![broken];
    let mut map = StatsMap::new();
    let ok = cod::analyze::parse_file(&langs, &mut map, "x.rs", Some("fn a() {}\n"));
    assert!(!ok);
    assert!(map.get("Broken").is_none());
}
