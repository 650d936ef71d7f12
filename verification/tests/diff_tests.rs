use rudd::{diff_directories, FileEntry, FileMap};

fn create_file_entry(rel_path: &str, abs_path: &str) -> FileEntry {
    FileEntry {
        relative_path: rel_path.to_string(),
        absolute_path: abs_path.to_string(),
        md5: None,
    }
}

#[test]
fn test_diff_no_common_files() {
    let mut main_files = FileMap::new();
    main_files.insert("a.txt".to_string(), create_file_entry("a.txt", "/main/a.txt"));

    let mut compare_files = FileMap::new();
    compare_files.insert("b.txt".to_string(), create_file_entry("b.txt", "/compare/b.txt"));

    let diff = diff_directories(main_files, compare_files, false);
    assert_eq!(diff.only_in_main.len(), 1);
    assert_eq!(diff.only_in_compare.len(), 1);
    assert_eq!(diff.in_both.len(), 0);
    assert_eq!(diff.different_content.len(), 0);
    assert!(diff.has_differences());
}

#[test]
fn test_diff_all_common_files() {
    let mut main_files = FileMap::new();
    main_files.insert("a.txt".to_string(), create_file_entry("a.txt", "/main/a.txt"));

    let mut compare_files = FileMap::new();
    compare_files.insert("a.txt".to_string(), create_file_entry("a.txt", "/compare/a.txt"));

    let diff = diff_directories(main_files, compare_files, false);
    assert_eq!(diff.only_in_main.len(), 0);
    assert_eq!(diff.only_in_compare.len(), 0);
    assert_eq!(diff.in_both.len(), 1);
    assert_eq!(diff.different_content.len(), 0);
    assert!(!diff.has_differences());
}

#[test]
fn test_diff_mixed() {
    let mut main_files = FileMap::new();
    main_files.insert(
        "common.txt".to_string(),
        create_file_entry("common.txt", "/main/common.txt"),
    );
    main_files.insert(
        "only_main.txt".to_string(),
        create_file_entry("only_main.txt", "/main/only_main.txt"),
    );

    let mut compare_files = FileMap::new();
    compare_files.insert(
        "common.txt".to_string(),
        create_file_entry("common.txt", "/compare/common.txt"),
    );
    compare_files.insert(
        "only_compare.txt".to_string(),
        create_file_entry("only_compare.txt", "/compare/only_compare.txt"),
    );

    let diff = diff_directories(main_files, compare_files, false);
    assert_eq!(diff.only_in_main.len(), 1);
    assert_eq!(diff.only_in_compare.len(), 1);
    assert_eq!(diff.in_both.len(), 1);
    assert_eq!(diff.different_content.len(), 0);
    assert!(diff.has_differences());
}

#[test]
fn test_diff_empty_directories() {
    let main_files = FileMap::new();
    let compare_files = FileMap::new();

    let diff = diff_directories(main_files, compare_files, false);
    assert_eq!(diff.total_files(), 0);
    assert!(!diff.has_differences());
}

#[test]
fn test_diff_md5_marks_different_content() {
    let mut main_files = FileMap::new();
    let mut main_entry = create_file_entry("same.txt", "/main/same.txt");
    main_entry.md5 = Some("aaa".to_string());
    main_files.insert("same.txt".to_string(), main_entry);

    let mut compare_files = FileMap::new();
    let mut compare_entry = create_file_entry("same.txt", "/compare/same.txt");
    compare_entry.md5 = Some("bbb".to_string());
    compare_files.insert("same.txt".to_string(), compare_entry);

    let diff = diff_directories(main_files, compare_files, true);
    assert_eq!(diff.in_both.len(), 0);
    assert_eq!(diff.different_content.len(), 1);
    assert!(diff.has_differences());
}

#[test]
fn test_diff_md5_disabled_keeps_common_files_together() {
    let mut main_files = FileMap::new();
    let mut main_entry = create_file_entry("same.txt", "/main/same.txt");
    main_entry.md5 = Some("aaa".to_string());
    main_files.insert("same.txt".to_string(), main_entry);

    let mut compare_files = FileMap::new();
    let mut compare_entry = create_file_entry("same.txt", "/compare/same.txt");
    compare_entry.md5 = Some("bbb".to_string());
    compare_files.insert("same.txt".to_string(), compare_entry);

    let diff = diff_directories(main_files, compare_files, false);
    assert_eq!(diff.in_both.len(), 1);
    assert_eq!(diff.different_content.len(), 0);
    assert!(!diff.has_differences());
}

fn names(entries: &[FileEntry]) -> Vec<String> {
    entries.iter().map(|e| e.relative_path.clone()).collect()
}

#[test]
fn diff_outputs_are_sorted_by_path_components() {
    let mut main_files = FileMap::new();
    for name in ["z.txt", "a.txt", "a/b", "m/n/o.txt", "b"] {
        main_files.insert(name.to_string(), create_file_entry(name, &format!("/main/{}", name)));
    }
    let compare_files = FileMap::new();
    let diff = diff_directories(main_files, compare_files, false);
    // "a/b" comes before "a.txt": its first component "a" is a prefix of "a.txt".
    assert_eq!(names(&diff.only_in_main), vec!["a/b", "a.txt", "b", "m/n/o.txt", "z.txt"]);
}

#[test]
fn diff_pairs_are_sorted_and_keep_both_entries() {
    let mut main_files = FileMap::new();
    let mut compare_files = FileMap::new();
    for name in ["c", "a", "b"] {
        main_files.insert(name.to_string(), create_file_entry(name, &format!("/main/{}", name)));
        compare_files.insert(name.to_string(), create_file_entry(name, &format!("/cmp/{}", name)));
    }
    let diff = diff_directories(main_files, compare_files, false);
    let firsts: Vec<String> = diff.in_both.iter().map(|p| p.0.relative_path.clone()).collect();
    assert_eq!(firsts, vec!["a", "b", "c"]);
    for (m, c) in &diff.in_both {
        assert_eq!(m.absolute_path, format!("/main/{}", m.relative_path));
        assert_eq!(c.absolute_path, format!("/cmp/{}", c.relative_path));
    }
}

#[test]
fn diff_matches_keys_as_paths() {
    let mut main_files = FileMap::new();
    main_files.insert("dir//file".to_string(), create_file_entry("dir//file", "/main/dir/file"));
    let mut compare_files = FileMap::new();
    compare_files.insert("dir/./file/".to_string(), create_file_entry("dir/file", "/cmp/dir/file"));
    let diff = diff_directories(main_files, compare_files, false);
    assert_eq!(diff.in_both.len(), 1);
    assert!(!diff.has_differences());
}

#[test]
fn diff_md5_needs_both_checksums() {
    let mut main_files = FileMap::new();
    let mut e = create_file_entry("x", "/main/x");
    e.md5 = Some("aaa".to_string());
    main_files.insert("x".to_string(), e);
    let mut compare_files = FileMap::new();
    compare_files.insert("x".to_string(), create_file_entry("x", "/cmp/x"));
    let diff = diff_directories(main_files, compare_files, true);
    assert_eq!(diff.in_both.len(), 1);
    assert_eq!(diff.different_content.len(), 0);
}

#[test]
fn diff_equal_checksums_are_common() {
    let mut main_files = FileMap::new();
    let mut e = create_file_entry("x", "/main/x");
    e.md5 = Some("abc".to_string());
    main_files.insert("x".to_string(), e);
    let mut compare_files = FileMap::new();
    let mut f = create_file_entry("x", "/cmp/x");
    f.md5 = Some("abc".to_string());
    compare_files.insert("x".to_string(), f);
    let diff = diff_directories(main_files, compare_files, true);
    assert_eq!(diff.in_both.len(), 1);
    assert!(!diff.has_differences());
}

#[test]
fn diff_counts_every_file_once() {
    // Law: the categories together hold |main| + |compare| - |shared paths|.
    let mut main_files = FileMap::new();
    let mut compare_files = FileMap::new();
    for name in ["a", "b", "c", "d"] {
        main_files.insert(name.to_string(), create_file_entry(name, name));
    }
    for name in ["c", "d", "e"] {
        compare_files.insert(name.to_string(), create_file_entry(name, name));
    }
    let diff = diff_directories(main_files, compare_files, false);
    assert_eq!(diff.total_files() + 2, 4 + 3);
    assert_eq!(diff.in_both.len() + diff.different_content.len(), 2);
}

#[test]
fn diff_of_a_map_with_itself_is_identical() {
    let build = || {
        let mut m = FileMap::new();
        for name in ["a", "b/c"] {
            let mut e = create_file_entry(name, name);
            e.md5 = Some(format!("{}-sum", name));
            m.insert(name.to_string(), e);
        }
        m
    };
    let diff = diff_directories(build(), build(), true);
    assert!(!diff.has_differences());
    assert_eq!(diff.in_both.len(), 2);
    for (a, b) in &diff.in_both {
        assert_eq!(a, b);
    }
}

#[test]
fn diff_does_not_depend_on_insertion_order() {
    let names = ["d", "a/x", "c", "a.txt", "b"];
    let build = |order: &[usize]| {
        let mut m = FileMap::new();
        for &i in order {
            m.insert(names[i].to_string(), create_file_entry(names[i], names[i]));
        }
        m
    };
    let mut compare = FileMap::new();
    compare.insert("c".to_string(), create_file_entry("c", "/cmp/c"));
    compare.insert("e".to_string(), create_file_entry("e", "/cmp/e"));
    let mut compare2 = FileMap::new();
    compare2.insert("e".to_string(), create_file_entry("e", "/cmp/e"));
    compare2.insert("c".to_string(), create_file_entry("c", "/cmp/c"));
    let d1 = diff_directories(build(&[0, 1, 2, 3, 4]), compare, false);
    let d2 = diff_directories(build(&[4, 3, 2, 1, 0]), compare2, false);
    assert_eq!(d1, d2);
    assert_eq!(names_of(&d1.only_in_main), vec!["a/x", "a.txt", "b", "d"]);
}

fn names_of(entries: &[FileEntry]) -> Vec<String> {
    entries.iter().map(|e| e.relative_path.clone()).collect()
}

#[test]
fn diff_in_the_other_direction_swaps_sides() {
    let make = |side: &str, names: &[&str]| {
        let mut m = FileMap::new();
        for n in names {
            let mut e = create_file_entry(n, &format!("/{}/{}", side, n));
            e.md5 = Some(format!("{}{}", n, if *n == "x" { side } else { "" }));
            m.insert(n.to_string(), e);
        }
        m
    };
    let ab = diff_directories(make("a", &["x", "y", "only_a"]), make("b", &["x", "y", "only_b"]), true);
    let ba = diff_directories(make("b", &["x", "y", "only_b"]), make("a", &["x", "y", "only_a"]), true);
    assert_eq!(ab.only_in_main, ba.only_in_compare);
    assert_eq!(ab.only_in_compare, ba.only_in_main);
    let swap = |v: &Vec<(FileEntry, FileEntry)>| -> Vec<(FileEntry, FileEntry)> {
        v.iter().map(|(p, q)| (q.clone(), p.clone())).collect()
    };
    assert_eq!(swap(&ab.in_both), ba.in_both);
    assert_eq!(swap(&ab.different_content), ba.different_content);
    assert_eq!(ab.different_content.len(), 1);
    assert_eq!(ab.in_both.len(), 1);
}

#[test]
fn diff_in_the_other_direction_keeps_the_path_order_of_pairs() {
    let make = |side: &str, names: &[&str]| {
        let mut m = FileMap::new();
        for n in names {
            let mut e = create_file_entry(n, &format!("/{}/{}", side, n));
            e.md5 = Some(if n.starts_with('d') { side.to_string() } else { "same".to_string() });
            m.insert(n.to_string(), e);
        }
        m
    };
    let left = ["z", "a.txt", "a/b", "d2", "d1", "m/n", "left"];
    let right = ["m/n", "d1", "a/b", "z", "a.txt", "d2", "right"];
    let ab = diff_directories(make("a", &left), make("b", &right), true);
    let ba = diff_directories(make("b", &right), make("a", &left), true);
    let firsts = |v: &Vec<(FileEntry, FileEntry)>| -> Vec<String> {
        v.iter().map(|(p, _)| p.relative_path.clone()).collect()
    };
    assert_eq!(firsts(&ab.in_both), vec!["a/b", "a.txt", "m/n", "z"]);
    assert_eq!(firsts(&ab.different_content), vec!["d1", "d2"]);
    let swap = |v: &Vec<(FileEntry, FileEntry)>| -> Vec<(FileEntry, FileEntry)> {
        v.iter().map(|(p, q)| (q.clone(), p.clone())).collect()
    };
    assert_eq!(swap(&ab.in_both), ba.in_both);
    assert_eq!(swap(&ab.different_content), ba.different_content);
    assert_eq!(ab.only_in_main, ba.only_in_compare);
    assert_eq!(ab.only_in_compare, ba.only_in_main);
    assert_eq!(ba.different_content[0].0.absolute_path, "/b/d1");
}

#[test]
fn file_maps_filled_in_any_order_hold_the_same_contents() {
    let names = ["m/n", "a", "a.b", "a/b", "z", "b/c/d"];
    let build = |order: &[usize]| {
        let mut m = FileMap::new();
        for &i in order {
            m.insert(names[i].to_string(), create_file_entry(names[i], &format!("/r/{}", names[i])));
        }
        m
    };
    let m1 = build(&[0, 1, 2, 3, 4, 5]);
    let m2 = build(&[5, 3, 1, 4, 0, 2]);
    assert_eq!(m1.len(), m2.len());
    for i in 0..m1.len() {
        assert_eq!(m1.key_at(i), m2.key_at(i));
        assert_eq!(m1.entry_at(i), m2.entry_at(i));
    }
    assert_eq!(m1.key_at(0).as_str(), "a");
    assert_eq!(m1.key_at(1).as_str(), "a/b");
    assert_eq!(m1.key_at(2).as_str(), "a.b");
}

#[test]
fn report_lists_each_path_once_and_pairs_share_their_path() {
    let mut main_files = FileMap::new();
    let mut compare_files = FileMap::new();
    for (n, sum) in [("same", "1"), ("changed", "1"), ("only_main", "1"), ("dir/x", "2")] {
        let mut e = create_file_entry(n, &format!("/main/{}", n));
        e.md5 = Some(sum.to_string());
        main_files.insert(n.to_string(), e);
    }
    for (n, sum) in [("same", "1"), ("changed", "2"), ("only_compare", "1"), ("dir/x", "2")] {
        let mut e = create_file_entry(n, &format!("/compare/{}", n));
        e.md5 = Some(sum.to_string());
        compare_files.insert(n.to_string(), e);
    }
    let d = diff_directories(main_files, compare_files, true);
    for (a, b) in d.in_both.iter().chain(d.different_content.iter()) {
        assert_eq!(a.relative_path, b.relative_path);
    }
    let mut listed: Vec<String> = names_of(&d.only_in_main);
    listed.extend(names_of(&d.only_in_compare));
    listed.extend(d.in_both.iter().map(|(a, _)| a.relative_path.clone()));
    listed.extend(d.different_content.iter().map(|(a, _)| a.relative_path.clone()));
    let mut unique = listed.clone();
    unique.sort();
    unique.dedup();
    assert_eq!(unique.len(), listed.len());
    assert_eq!(listed.len(), 5);
    assert_eq!(names_of(&d.only_in_main), vec!["only_main"]);
    assert_eq!(d.different_content[0].0.relative_path, "changed");
}
