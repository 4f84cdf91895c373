//! The merge algebra on concrete statistics: pointwise sums,
//! commutativity and associativity, and the saturating counters.

use cod::language_utils::QType;
use cod::stats::{Stats, sat_add_u64};

fn sample(name: &str, files: u64, lines: u64, blanks: u64, ops: &[(QType, u64)]) -> Stats {
    let mut s = Stats::new(name);
    s.files = files;
    s.total_lines = lines;
    s.blank_lines = blanks;
    for (q, n) in ops {
        s.add_op(*q, *n);
    }
    s
}

fn assert_same(a: &Stats, b: &Stats) {
    assert_eq!(a.files, b.files);
    assert_eq!(a.total_lines, b.total_lines);
    assert_eq!(a.blank_lines, b.blank_lines);
    for q in [
        QType::Loops,
        QType::Functions,
        QType::Variables,
        QType::Templates,
        QType::Defines,
    ] {
        assert_eq!(a.get_count(q), b.get_count(q));
    }
}

#[test]
fn merge_adds_pointwise() {
    let a = sample("Rust", 1, 25, 2, &[(QType::Functions, 2), (QType::Loops, 3)]);
    let b = sample("Rust", 2, 50, 7, &[(QType::Functions, 5), (QType::Variables, 1)]);
    let mut merged = a.clone();
    merged.add(&b);
    assert_eq!(merged.files, 3);
    assert_eq!(merged.total_lines, 75);
    assert_eq!(merged.blank_lines, 9);
    assert_eq!(merged.get_count(QType::Functions), Some(7));
    assert_eq!(merged.get_count(QType::Loops), Some(3));
    assert_eq!(merged.get_count(QType::Variables), Some(1));
    assert_eq!(merged.get_count(QType::Templates), None);
}

#[test]
fn merge_commutes() {
    let a = sample("C", 1, 10, 1, &[(QType::Functions, 2)]);
    let b = sample("C", 4, 40, 9, &[(QType::Loops, 6)]);
    let mut ab = a.clone();
    ab.add(&b);
    let mut ba = b.clone();
    ba.add(&a);
    assert_same(&ab, &ba);
}

#[test]
fn merge_associates() {
    let a = sample("Zig", 1, 5, 0, &[(QType::Variables, 2)]);
    let b = sample("Zig", 2, 6, 1, &[(QType::Variables, 3), (QType::Loops, 1)]);
    let c = sample("Zig", 3, 7, 2, &[(QType::Functions, 4)]);
    let mut ab_c = a.clone();
    ab_c.add(&b);
    ab_c.add(&c);
    let mut bc = b.clone();
    bc.add(&c);
    let mut a_bc = a.clone();
    a_bc.add(&bc);
    assert_same(&ab_c, &a_bc);
    let mut ac = a.clone();
    ac.add(&c);
    let mut b_ac = b.clone();
    b_ac.add(&ac);
    assert_eq!(ab_c.files, b_ac.files);
    assert_eq!(ab_c.total_lines, b_ac.total_lines);
    assert_eq!(ab_c.get_count(QType::Variables), b_ac.get_count(QType::Variables));
}

#[test]
fn counters_saturate() {
    assert_eq!(sat_add_u64(u64::MAX - 1, 5), u64::MAX);
    assert_eq!(sat_add_u64(3, 4), 7);
    let a = sample("Text", u64::MAX, 1, 0, &[]);
    let b = sample("Text", 2, 1, 0, &[]);
    let mut merged = a.clone();
    merged.add(&b);
    assert_eq!(merged.files, u64::MAX);
    assert_eq!(merged.total_lines, 2);
}
