use rudd::path::{compare_path_bytes, compare_paths, PathOrder};
use std::path::Path;

#[test]
fn same_paths_compare_equal() {
    assert_eq!(compare_paths("a/b", "a//b/"), PathOrder::Equal);
    assert_eq!(compare_paths("a/./b", "a/b"), PathOrder::Equal);
    assert_eq!(compare_paths("/x/y", "//x/y"), PathOrder::Equal);
    assert_eq!(compare_paths("", ""), PathOrder::Equal);
}

#[test]
fn leading_dot_is_a_component() {
    assert_eq!(compare_paths("./a", "a"), PathOrder::Less);
    assert_eq!(compare_paths("a", "./a"), PathOrder::Greater);
    assert_eq!(compare_paths(".a", "a"), PathOrder::Less);
}

#[test]
fn paths_compare_by_components() {
    // '/' separates components, so "a/b" is before "a.txt" although '.' < '/'.
    assert_eq!(compare_paths("a/b", "a.txt"), PathOrder::Less);
    assert_eq!(compare_paths("a", "a/b"), PathOrder::Less);
    assert_eq!(compare_paths("b", "a/z"), PathOrder::Greater);
    // the root is before everything relative, the parent directory before any name
    assert_eq!(compare_paths("/z", "a"), PathOrder::Less);
    assert_eq!(compare_paths("../x", "-"), PathOrder::Less);
    assert_eq!(compare_paths("...", ".."), PathOrder::Greater);
}

#[test]
fn names_compare_by_bytes() {
    assert_eq!(compare_paths("B", "a"), PathOrder::Less);
    assert_eq!(compare_paths("é", "z"), PathOrder::Greater);
    assert_eq!(compare_path_bytes(&[0x61, 0xff], &[0x61, 0x80]), PathOrder::Greater);
}

#[test]
fn order_matches_std_path_order() {
    let samples = [
        "", "a", "a/b", "a.txt", "a/b/c", "./a", ".", "..", "../a", "/", "/a", "a//b", "a/./b",
        "b", "-", "...", ".a", "a/", "z/..", "é",
    ];
    for x in samples {
        for y in samples {
            let expected = match Path::new(x).cmp(Path::new(y)) {
                std::cmp::Ordering::Less => PathOrder::Less,
                std::cmp::Ordering::Equal => PathOrder::Equal,
                std::cmp::Ordering::Greater => PathOrder::Greater,
            };
            assert_eq!(compare_paths(x, y), expected, "comparing {:?} with {:?}", x, y);
        }
    }
}
