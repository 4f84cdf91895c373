//! Per-language analysis of one source file each, through the full
//! classify-and-analyze pipeline with the real grammars.

use cod::analyze::StatsMap;
use cod::analyze::parse_file;
use cod::language_utils::QType;
use cod::languages::languages;

#[test]
fn read_rust() {
    let content = "fn print(i: usize) {
    println!(\"{}\", i);
}

const global: usize = 10;
static static_global: usize = 10;

fn main() {
    let mut i = 0;
    while i < 10 {
        print(i);
        i += 1;
    }
    for j in 0..10 {
        print(global);
    }
    let k = 10;
    loop {
        print(k);
        i += 1;
        if i == 10 {
            break;
        }
    }
}
";
    let languages = languages();
    let mut language_map = StatsMap::new();
    let ok = parse_file(&languages, &mut language_map, "test_files/test.rs", Some(content));
    assert!(ok);
    let rust = language_map.get("Rust").expect("Rust entry");
    assert_eq!(rust.files, 1);
    assert_eq!(rust.total_lines, 25);
    assert_eq!(rust.blank_lines, 2);
    assert_eq!(rust.get_count(QType::Functions), Some(2));
    assert_eq!(rust.get_count(QType::Variables), Some(4));
    assert_eq!(rust.get_count(QType::Loops), Some(3));
}

#[test]
fn read_cpp() {
    let content = "#include <vector>

#define LIMIT 10

template <typename T>
T add(T a, T b) { return a + b; }

int main() {
    std::vector<int> values = {1, 2, 3};
    int total = 0;
    int i = 0;

    for (int v : values) {
        total = add(total, v);
    }

    for (int j = 0; j < LIMIT; j = j + 1) {
        total = add(total, j);
    }

    while (i < LIMIT) {
        i = i + 1;
    }

    do { total = add(total, 1); } while (total < LIMIT);

    total = add(total, 2);
    return total;
}
";
    let languages = languages();
    let mut language_map = StatsMap::new();
    let ok = parse_file(&languages, &mut language_map, "test_files/test.cpp", Some(content));
    assert!(ok);
    let cpp = language_map.get("Cpp").expect("Cpp entry");
    assert_eq!(cpp.files, 1);
    assert_eq!(cpp.total_lines, 29);
    assert_eq!(cpp.blank_lines, 8);
    assert_eq!(cpp.get_count(QType::Functions), Some(2));
    assert_eq!(cpp.get_count(QType::Variables), Some(4));
    assert_eq!(cpp.get_count(QType::Loops), Some(4));
    assert_eq!(cpp.get_count(QType::Templates), Some(1));
    assert_eq!(cpp.get_count(QType::Defines), Some(1));
}

#[test]
fn read_c() {
    let content = "#include <stdio.h>

int add(int a, int b) { return a + b; }

int main(void) {
    int i = 0;
    int total = 0;
    int limit = 10;

    while (i < limit) {
        total = add(total, i);
        i = i + 1;
    }

    for (int j = 0; j < limit; j = j + 1) {
        total = add(total, j);
    }

    do { total = add(total, 1); } while (total < 90);

    return 0;
}
";
    let languages = languages();
    let mut language_map = StatsMap::new();
    let ok = parse_file(&languages, &mut language_map, "test_files/test.c", Some(content));
    assert!(ok);
    let c = language_map.get("C").expect("C entry");
    assert_eq!(c.files, 1);
    assert_eq!(c.total_lines, 22);
    assert_eq!(c.blank_lines, 6);
    assert_eq!(c.get_count(QType::Functions), Some(2));
    assert_eq!(c.get_count(QType::Variables), Some(4));
    assert_eq!(c.get_count(QType::Loops), Some(3));
}

#[test]
fn read_zig() {
    let content = "const std = @import(\"std\");

fn add(a: i64, b: i64) i64 {
    return a + b;
}

pub fn main() void {
    const limit: i64 = 4;
    var i: i64 = 0;
    const items = [_]i64{ 1, 2, 3 };

    while (i < limit) : (i += 1) {
        const a = add(i, 1);
        const b = add(a, 2);
    }

    for (items) |item| {
        const c = add(item, 3);
    }

    while (i > limit) {
        const d = add(i, 4);
    }
    for (items) |item| {
        const e = add(item, 5);
    }
}
";
    let languages = languages();
    let mut language_map = StatsMap::new();
    let ok = parse_file(&languages, &mut language_map, "test_files/test.zig", Some(content));
    assert!(ok);
    let zig = language_map.get("Zig").expect("Zig entry");
    assert_eq!(zig.files, 1);
    assert_eq!(zig.total_lines, 27);
    assert_eq!(zig.blank_lines, 5);
    assert_eq!(zig.get_count(QType::Functions), Some(2));
    assert_eq!(zig.get_count(QType::Variables), Some(9));
    assert_eq!(zig.get_count(QType::Loops), Some(4));
}
