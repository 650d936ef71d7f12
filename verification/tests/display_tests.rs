use rudd::display::{render_diff, render_summary, DisplayOptions, Span, Style};
use rudd::{DirectoryDiff, FileEntry};

fn create_file_entry(rel_path: &str, abs_path: &str) -> FileEntry {
    FileEntry {
        relative_path: rel_path.to_string(),
        absolute_path: abs_path.to_string(),
        md5: None,
    }
}

fn plain(lines: &[Vec<Span>]) -> Vec<String> {
    lines.iter().map(|l| l.iter().map(|s| s.text.clone()).collect::<String>()).collect()
}

#[test]
fn test_display_options() {
    let options = DisplayOptions { verbose: true, diff_only: false };
    assert!(options.verbose);
    assert!(!options.diff_only);
}

#[test]
fn test_display_diff_no_panic() {
    let diff = DirectoryDiff {
        only_in_main: vec![create_file_entry("test.txt", "/main/test.txt")],
        only_in_compare: vec![],
        in_both: vec![],
        different_content: vec![],
    };

    let options = DisplayOptions { verbose: false, diff_only: false };

    // Just ensure it doesn't panic
    let _ = render_diff(&diff, "/main", "/compare", &options);
}

#[test]
fn report_lines_for_a_small_comparison() {
    let diff = DirectoryDiff {
        only_in_main: vec![create_file_entry("test.txt", "/main/test.txt")],
        only_in_compare: vec![create_file_entry("new.txt", "/compare/new.txt")],
        in_both: vec![(
            create_file_entry("same.txt", "/main/same.txt"),
            create_file_entry("same.txt", "/compare/same.txt"),
        )],
        different_content: vec![],
    };
    let options = DisplayOptions { verbose: true, diff_only: false };
    let lines = render_diff(&diff, "/main", "/compare", &options);
    let rule = "=".repeat(80);
    let expected: Vec<String> = vec![
        "".to_string(),
        rule.clone(),
        "Directory Comparison: /main vs /compare".to_string(),
        rule.clone(),
        "".to_string(),
        "Summary:".to_string(),
        "  Status: DIFFERENT".to_string(),
        "  Total files compared: 3".to_string(),
        "  Only in main: 1".to_string(),
        "  Only in compare: 1".to_string(),
        "  Common files: 1".to_string(),
        "".to_string(),
        "━ Only in /main (1 files)".to_string(),
        "  ✗ test.txt".to_string(),
        "    /main/test.txt".to_string(),
        "".to_string(),
        "━ Only in /compare (1 files)".to_string(),
        "  + new.txt".to_string(),
        "    /compare/new.txt".to_string(),
        "".to_string(),
        "━ Common files (1 files)".to_string(),
        "  = same.txt".to_string(),
        "    /main/same.txt".to_string(),
        "".to_string(),
        rule.clone(),
        "✗ Directories differ".to_string(),
        rule.clone(),
        "".to_string(),
    ];
    assert_eq!(plain(&lines), expected);
    assert_eq!(lines[1][0].style, Style::BrightBlue);
    assert_eq!(lines[12][0].style, Style::RedBold);
    assert_eq!(lines[13][1].style, Style::Red);
    assert_eq!(lines[14][1].style, Style::Dimmed);
}

#[test]
fn identical_report_hides_common_files_in_diff_only_mode() {
    let diff = DirectoryDiff {
        only_in_main: vec![],
        only_in_compare: vec![],
        in_both: vec![(create_file_entry("a", "/m/a"), create_file_entry("a", "/c/a"))],
        different_content: vec![],
    };
    let options = DisplayOptions { verbose: false, diff_only: true };
    let text = plain(&render_diff(&diff, "m", "c", &options));
    assert!(text.contains(&"  Status: IDENTICAL".to_string()));
    assert!(text.contains(&"✓ Directories are identical".to_string()));
    assert!(!text.iter().any(|l| l.starts_with("━")));
    assert_eq!(text.len(), 5 + 6 + 5);
}

#[test]
fn summary_colors_zero_counts_green() {
    let diff = DirectoryDiff {
        only_in_main: vec![],
        only_in_compare: vec![create_file_entry("x", "/x")],
        in_both: vec![],
        different_content: vec![],
    };
    let lines = render_summary(&diff);
    assert_eq!(plain(&lines)[3], "  Only in main: 0");
    assert_eq!(lines[3][1].style, Style::Green);
    assert_eq!(lines[4][1].style, Style::Green);
    assert_eq!(lines[1][1].text, "DIFFERENT");
}

#[test]
fn files_with_different_content_are_listed_with_both_sides() {
    let diff = DirectoryDiff {
        only_in_main: vec![],
        only_in_compare: vec![],
        in_both: vec![],
        different_content: vec![(
            create_file_entry("photo.jpg", "/main/photo.jpg"),
            create_file_entry("photo.jpg", "/compare/photo.jpg"),
        )],
    };
    let options = DisplayOptions { verbose: true, diff_only: true };
    let lines = render_diff(&diff, "/main", "/compare", &options);
    let text = plain(&lines);
    assert_eq!(text[6], "  Status: DIFFERENT");
    assert_eq!(text[7], "  Total files compared: 1");
    assert_eq!(text[11], "");
    assert_eq!(text[12], "━ Different content (1 files)");
    assert_eq!(text[13], "  ≠ photo.jpg");
    assert_eq!(text[14], "    /main/photo.jpg");
    assert_eq!(text[15], "    /compare/photo.jpg");
    assert_eq!(text[16], "");
    assert_eq!(text[18], "✗ Directories differ");
    assert_eq!(text.len(), 5 + 6 + 5 + 5);
    assert_eq!(lines[12][0].style, Style::YellowBold);
    assert_eq!(lines[13][1].style, Style::Yellow);
    assert_eq!(lines[13][3].style, Style::Yellow);
    assert_eq!(lines[15][1].style, Style::Dimmed);
}

#[test]
fn different_content_without_verbose_names_the_path_once() {
    let diff = DirectoryDiff {
        only_in_main: vec![],
        only_in_compare: vec![],
        in_both: vec![(create_file_entry("a", "/m/a"), create_file_entry("a", "/c/a"))],
        different_content: vec![
            (create_file_entry("b", "/m/b"), create_file_entry("b", "/c/b")),
            (create_file_entry("c", "/m/c"), create_file_entry("c", "/c/c")),
        ],
    };
    let options = DisplayOptions { verbose: false, diff_only: false };
    let text = plain(&render_diff(&diff, "m", "c", &options));
    let start = text.iter().position(|l| l == "━ Different content (2 files)").unwrap();
    assert_eq!(text[start + 1], "  ≠ b");
    assert_eq!(text[start + 2], "  ≠ c");
    assert_eq!(text[start + 3], "");
    assert_eq!(text[start + 4], "━ Common files (1 files)");
    assert_eq!(text[start + 5], "  = a");
}
