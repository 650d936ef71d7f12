//! Laws of the report: what its lines say of a comparison, for every
//! comparison and every mode.

use vstd::prelude::*;
use crate::diff::DirectoryDiff;
use crate::display::{
    absolute_line, blank_line, blocks, common_section, compare_section, different_section,
    entry_block, entry_line, footer_lines, header_lines, main_section, only_in_heading, pair_block,
    report_lines, summary_lines, LineView, Listed, Style,
};
use crate::scanner::FileEntry;
use crate::text::decimal;

verus! {

/// The decimal rendering of zero is "0".
proof fn lemma_decimal_zero()
    ensures
        decimal(0) == "0"@,
{
    reveal_strlit("0");
    assert(decimal(0) =~= "0"@);
}

/// The lines that list entries: one line per entry, or two when verbose, the
/// entry's line first and its absolute path below it, in the order of the
/// entries.
pub proof fn lemma_entry_blocks(items: Seq<FileEntry>, marker: Seq<char>, style: Style, verbose: bool)
    ensures
        blocks(items, marker, style, verbose).len() == if verbose {
            2 * items.len()
        } else {
            items.len()
        },
        forall|k: int|
            0 <= k < items.len() ==> blocks(items, marker, style, verbose)[if verbose {
                2 * k
            } else {
                k
            }] == entry_line(#[trigger] items[k], marker, style),
        verbose ==> forall|k: int|
            0 <= k < items.len() ==> blocks(items, marker, style, verbose)[2 * k + 1]
                == absolute_line(#[trigger] items[k]),
    decreases items.len(),
{
    if items.len() > 0 {
        let rest = items.drop_last();
        lemma_entry_blocks(rest, marker, style, verbose);
        let last = items.last();
        let b = blocks(items, marker, style, verbose);
        let br = blocks(rest, marker, style, verbose);
        assert(last.block(marker, style, verbose) == entry_block(last, marker, style, verbose));
        assert(b == br + entry_block(last, marker, style, verbose));
        assert forall|k: int| 0 <= k < items.len() implies b[if verbose {
            2 * k
        } else {
            k
        }] == entry_line(#[trigger] items[k], marker, style) by {
            if k < rest.len() {
                assert(items[k] == rest[k]);
            }
        }
        if verbose {
            assert forall|k: int| 0 <= k < items.len() implies b[2 * k + 1] == absolute_line(
                #[trigger] items[k],
            ) by {
                if k < rest.len() {
                    assert(items[k] == rest[k]);
                }
            }
        }
    }
}

/// Whether a comparison found a difference: a file only in one directory,
/// or a file whose contents differ.
pub open spec fn found_difference(d: DirectoryDiff) -> bool {
    d.only_in_main@.len() > 0 || d.only_in_compare@.len() > 0 || d.different_content@.len() > 0
}

/// The summary gives each count as the number of entries it counts: the
/// files only in main (red, or green when none), only in compare (green),
/// the common files (white), and their total with the files of different
/// content (cyan); and its status is DIFFERENT exactly when a difference
/// was found. The report holds the summary after its five header lines.
pub proof fn lemma_summary_counts(
    d: DirectoryDiff,
    main_dir: Seq<char>,
    compare_dir: Seq<char>,
    verbose: bool,
    diff_only: bool,
)
    ensures
        ({
            let s = summary_lines(d);
            let m = d.only_in_main@.len();
            let c = d.only_in_compare@.len();
            &&& s.len() == 6
            &&& s[1] == seq![
                ("  Status: "@, Style::Plain),
                if found_difference(d) {
                    ("DIFFERENT"@, Style::RedBold)
                } else {
                    ("IDENTICAL"@, Style::GreenBold)
                },
            ]
            &&& s[2] == seq![
                ("  Total files compared: "@, Style::Plain),
                (
                    decimal(
                        m + c + d.in_both@.len() + d.different_content@.len(),
                    ),
                    Style::Cyan,
                ),
            ]
            &&& s[3] == seq![
                ("  Only in main: "@, Style::Plain),
                (decimal(m), if m == 0 { Style::Green } else { Style::Red }),
            ]
            &&& s[4] == seq![("  Only in compare: "@, Style::Plain), (decimal(c), Style::Green)]
            &&& s[5] == seq![
                ("  Common files: "@, Style::Plain),
                (decimal(d.in_both@.len()), Style::White),
            ]
            &&& report_lines(d, main_dir, compare_dir, verbose, diff_only).subrange(5, 11) == s
        }),
{
    lemma_decimal_zero();
    let r = report_lines(d, main_dir, compare_dir, verbose, diff_only);
    assert(r.subrange(5, 11) =~= summary_lines(d));
}

/// The verdict, on the line above the closing rule, reads "Directories
/// differ" exactly when some file is only in one directory or has different
/// content, and it agrees with the status in the summary, in every mode.
pub proof fn lemma_verdict(
    d: DirectoryDiff,
    main_dir: Seq<char>,
    compare_dir: Seq<char>,
    verbose: bool,
    diff_only: bool,
)
    ensures
        ({
            let r = report_lines(d, main_dir, compare_dir, verbose, diff_only);
            &&& r.len() >= 16
            &&& r[r.len() - 3] == if found_difference(d) {
                seq![("✗ Directories differ"@, Style::RedBold)]
            } else {
                seq![("✓ Directories are identical"@, Style::GreenBold)]
            }
            &&& (r[6][1].0 == "DIFFERENT"@) <==> (r[r.len() - 3][0].0 == "✗ Directories differ"@)
        }),
{
    reveal_strlit("DIFFERENT");
    reveal_strlit("IDENTICAL");
    reveal_strlit("✗ Directories differ");
    reveal_strlit("✓ Directories are identical");
    let r = report_lines(d, main_dir, compare_dir, verbose, diff_only);
    let k = r.len() - 5;
    assert(r[k + 2] == r[r.len() - 3]);
    assert("DIFFERENT"@[0] != "IDENTICAL"@[0]);
    assert("✗ Directories differ"@[0] != "✓ Directories are identical"@[0]);
}

/// The lines that list pairs: one line per pair, naming the entry in the
/// main directory, or three when verbose, with the absolute paths of the two
/// entries below it, the main one first.
pub proof fn lemma_pair_blocks(
    items: Seq<(FileEntry, FileEntry)>,
    marker: Seq<char>,
    style: Style,
    verbose: bool,
)
    ensures
        blocks(items, marker, style, verbose).len() == if verbose {
            3 * items.len()
        } else {
            items.len()
        },
        forall|k: int|
            0 <= k < items.len() ==> blocks(items, marker, style, verbose)[if verbose {
                3 * k
            } else {
                k
            }] == entry_line((#[trigger] items[k]).0, marker, style),
        verbose ==> forall|k: int|
            0 <= k < items.len() ==> blocks(items, marker, style, verbose)[3 * k + 1]
                == absolute_line((#[trigger] items[k]).0) && blocks(
                items,
                marker,
                style,
                verbose,
            )[3 * k + 2] == absolute_line(items[k].1),
    decreases items.len(),
{
    if items.len() > 0 {
        let rest = items.drop_last();
        lemma_pair_blocks(rest, marker, style, verbose);
        let last = items.last();
        let b = blocks(items, marker, style, verbose);
        let br = blocks(rest, marker, style, verbose);
        assert(last.block(marker, style, verbose) == pair_block(last, marker, style, verbose));
        assert(b == br + pair_block(last, marker, style, verbose));
        assert forall|k: int| 0 <= k < items.len() implies b[if verbose {
            3 * k
        } else {
            k
        }] == entry_line((#[trigger] items[k]).0, marker, style) by {
            if k < rest.len() {
                assert(items[k] == rest[k]);
            }
        }
        if verbose {
            assert forall|k: int| 0 <= k < items.len() implies b[3 * k + 1] == absolute_line(
                (#[trigger] items[k]).0,
            ) && b[3 * k + 2] == absolute_line(items[k].1) by {
                if k < rest.len() {
                    assert(items[k] == rest[k]);
                }
            }
        }
    }
}

proof fn lemma_section_at(
    r: Seq<LineView>,
    p: Seq<LineView>,
    heading: LineView,
    b: Seq<LineView>,
    rest: Seq<LineView>,
)
    requires
        r == p + (seq![blank_line(), heading] + b) + rest,
    ensures
        p.len() + 2 + b.len() <= r.len(),
        r[p.len() as int + 1] == heading,
        forall|i: int| 0 <= i < b.len() ==> r[p.len() + 2 + i] == #[trigger] b[i],
{
    let sec = seq![blank_line(), heading] + b;
    assert(r[p.len() as int + 1] == sec[1]);
    assert forall|i: int| 0 <= i < b.len() implies r[p.len() + 2 + i] == #[trigger] b[i] by {
        assert(r[p.len() + 2 + i] == sec[2 + i]);
    }
}

/// The files only in the main directory are listed in every mode, right
/// after the summary: when there are any, line 12 of the report is the
/// heading "━ Only in <main_dir> (<m> files)", with `m` the number of those
/// files, and below it each of them in order, marked "✗" in red, with its
/// absolute path below it when verbose.
pub proof fn lemma_main_only_listed(
    d: DirectoryDiff,
    main_dir: Seq<char>,
    compare_dir: Seq<char>,
    verbose: bool,
    diff_only: bool,
)
    ensures
        ({
            let r = report_lines(d, main_dir, compare_dir, verbose, diff_only);
            let m = d.only_in_main@.len();
            m > 0 ==> {
                &&& 13 + (if verbose {
                    2 * m
                } else {
                    m
                }) <= r.len()
                &&& r[12] == seq![
                    ("━ Only in "@ + main_dir + " ("@ + decimal(m) + " files)"@, Style::RedBold),
                ]
                &&& forall|k: int|
                    0 <= k < m ==> r[13 + (if verbose {
                        2 * k
                    } else {
                        k
                    })] == entry_line(#[trigger] d.only_in_main@[k], "✗"@, Style::Red)
                &&& verbose ==> forall|k: int|
                    0 <= k < m ==> r[14 + 2 * k] == absolute_line(#[trigger] d.only_in_main@[k])
            }
        }),
{
    let r = report_lines(d, main_dir, compare_dir, verbose, diff_only);
    let m = d.only_in_main@.len();
    if m > 0 {
        let items = d.only_in_main@;
        lemma_entry_blocks(items, "✗"@, Style::Red, verbose);
        let b = blocks(items, "✗"@, Style::Red, verbose);
        let p = header_lines(main_dir, compare_dir) + summary_lines(d);
        let heading = seq![(only_in_heading(main_dir, m), Style::RedBold)];
        let rest = compare_section(d, compare_dir, verbose) + different_section(d, verbose)
            + common_section(d, verbose, diff_only) + footer_lines(d);
        assert(r =~= p + (seq![blank_line(), heading] + b) + rest);
        lemma_section_at(r, p, heading, b, rest);
        assert forall|k: int| 0 <= k < m implies r[13 + (if verbose {
            2 * k
        } else {
            k
        })] == entry_line(#[trigger] items[k], "✗"@, Style::Red) by {
            let i = if verbose {
                2 * k
            } else {
                k
            };
            assert(r[p.len() + 2 + i] == b[i]);
        }
        if verbose {
            assert forall|k: int| 0 <= k < m implies r[14 + 2 * k] == absolute_line(
                #[trigger] items[k],
            ) by {
                assert(r[p.len() + 2 + (2 * k + 1)] == b[2 * k + 1]);
            }
        }
    }
}

/// The files only in the compared directory are listed in every mode: when
/// there are any, the report holds the heading "━ Only in <compare_dir> (<n>
/// files)", with `n` the number of those files, and right below it each of
/// them in order, marked "+" in green, with its absolute path below it when
/// verbose.
pub proof fn lemma_compare_only_listed(
    d: DirectoryDiff,
    main_dir: Seq<char>,
    compare_dir: Seq<char>,
    verbose: bool,
    diff_only: bool,
)
    ensures
        ({
            let r = report_lines(d, main_dir, compare_dir, verbose, diff_only);
            let n = d.only_in_compare@.len();
            n > 0 ==> exists|h: int|
                0 <= h && h + 1 + (if verbose {
                    2 * n
                } else {
                    n
                }) <= r.len() && r[h] == seq![
                    (
                        "━ Only in "@ + compare_dir + " ("@ + decimal(n) + " files)"@,
                        Style::GreenBold,
                    ),
                ] && (forall|k: int|
                    0 <= k < n ==> r[h + 1 + (if verbose {
                        2 * k
                    } else {
                        k
                    })] == entry_line(#[trigger] d.only_in_compare@[k], "+"@, Style::Green)) && (
                verbose ==> forall|k: int|
                    0 <= k < n ==> r[h + 2 + 2 * k] == absolute_line(
                        #[trigger] d.only_in_compare@[k],
                    ))
        }),
{
    let r = report_lines(d, main_dir, compare_dir, verbose, diff_only);
    let n = d.only_in_compare@.len();
    if n > 0 {
        let items = d.only_in_compare@;
        lemma_entry_blocks(items, "+"@, Style::Green, verbose);
        let b = blocks(items, "+"@, Style::Green, verbose);
        let p = header_lines(main_dir, compare_dir) + summary_lines(d) + main_section(
            d,
            main_dir,
            verbose,
        );
        let heading = seq![(only_in_heading(compare_dir, n), Style::GreenBold)];
        let rest = different_section(d, verbose) + common_section(d, verbose, diff_only)
            + footer_lines(d);
        assert(r =~= p + (seq![blank_line(), heading] + b) + rest);
        lemma_section_at(r, p, heading, b, rest);
        let h: int = p.len() as int + 1;
        assert forall|k: int| 0 <= k < n implies r[h + 1 + (if verbose {
            2 * k
        } else {
            k
        })] == entry_line(#[trigger] items[k], "+"@, Style::Green) by {
            let i = if verbose {
                2 * k
            } else {
                k
            };
            assert(r[p.len() + 2 + i] == b[i]);
        }
        if verbose {
            assert forall|k: int| 0 <= k < n implies r[h + 2 + 2 * k] == absolute_line(
                #[trigger] items[k],
            ) by {
                assert(r[p.len() + 2 + (2 * k + 1)] == b[2 * k + 1]);
            }
        }
    }
}

/// The files whose contents differ are listed in every mode: when there are
/// any, the report holds the heading "━ Different content (<n> files)", with
/// `n` the number of them, and right below it each of them in order, named
/// by its entry in the main directory and marked "≠" in yellow, with the
/// absolute paths of both entries below it when verbose, the main one first.
pub proof fn lemma_different_listed(
    d: DirectoryDiff,
    main_dir: Seq<char>,
    compare_dir: Seq<char>,
    verbose: bool,
    diff_only: bool,
)
    ensures
        ({
            let r = report_lines(d, main_dir, compare_dir, verbose, diff_only);
            let n = d.different_content@.len();
            n > 0 ==> exists|h: int|
                0 <= h && h + 1 + (if verbose {
                    3 * n
                } else {
                    n
                }) <= r.len() && r[h] == seq![
                    ("━ Different content ("@ + decimal(n) + " files)"@, Style::YellowBold),
                ] && (forall|k: int|
                    0 <= k < n ==> r[h + 1 + (if verbose {
                        3 * k
                    } else {
                        k
                    })] == entry_line((#[trigger] d.different_content@[k]).0, "≠"@, Style::Yellow))
                    && (verbose ==> forall|k: int|
                    0 <= k < n ==> r[h + 2 + 3 * k] == absolute_line(
                        (#[trigger] d.different_content@[k]).0,
                    ) && r[h + 3 + 3 * k] == absolute_line(d.different_content@[k].1))
        }),
{
    let r = report_lines(d, main_dir, compare_dir, verbose, diff_only);
    let n = d.different_content@.len();
    if n > 0 {
        let items = d.different_content@;
        lemma_pair_blocks(items, "≠"@, Style::Yellow, verbose);
        let b = blocks(items, "≠"@, Style::Yellow, verbose);
        let p = header_lines(main_dir, compare_dir) + summary_lines(d) + main_section(
            d,
            main_dir,
            verbose,
        ) + compare_section(d, compare_dir, verbose);
        let heading = seq![
            ("━ Different content ("@ + decimal(n) + " files)"@, Style::YellowBold),
        ];
        let rest = common_section(d, verbose, diff_only) + footer_lines(d);
        assert(r =~= p + (seq![blank_line(), heading] + b) + rest);
        lemma_section_at(r, p, heading, b, rest);
        let h: int = p.len() as int + 1;
        assert forall|k: int| 0 <= k < n implies r[h + 1 + (if verbose {
            3 * k
        } else {
            k
        })] == entry_line((#[trigger] items[k]).0, "≠"@, Style::Yellow) by {
            let i = if verbose {
                3 * k
            } else {
                k
            };
            assert(r[p.len() + 2 + i] == b[i]);
        }
        if verbose {
            assert forall|k: int| 0 <= k < n implies r[h + 2 + 3 * k] == absolute_line(
                (#[trigger] items[k]).0,
            ) && r[h + 3 + 3 * k] == absolute_line(items[k].1) by {
                assert(r[p.len() + 2 + (3 * k + 1)] == b[3 * k + 1]);
                assert(r[p.len() + 2 + (3 * k + 2)] == b[3 * k + 2]);
            }
        }
    }
}

/// The common files are listed unless only differences are shown: then,
/// when there are any, the report holds the heading "━ Common files (<n>
/// files)", with `n` the number of them, and right below it each of them in
/// order, named by its entry in the main directory and marked "=" in white,
/// with that entry's absolute path below it when verbose.
pub proof fn lemma_common_listed(
    d: DirectoryDiff,
    main_dir: Seq<char>,
    compare_dir: Seq<char>,
    verbose: bool,
)
    ensures
        ({
            let r = report_lines(d, main_dir, compare_dir, verbose, false);
            let n = d.in_both@.len();
            n > 0 ==> exists|h: int|
                0 <= h && h + 1 + (if verbose {
                    2 * n
                } else {
                    n
                }) <= r.len() && r[h] == seq![
                    ("━ Common files ("@ + decimal(n) + " files)"@, Style::WhiteBold),
                ] && (forall|k: int|
                    0 <= k < n ==> r[h + 1 + (if verbose {
                        2 * k
                    } else {
                        k
                    })] == entry_line((#[trigger] d.in_both@[k]).0, "="@, Style::White)) && (
                verbose ==> forall|k: int|
                    0 <= k < n ==> r[h + 2 + 2 * k] == absolute_line(
                        (#[trigger] d.in_both@[k]).0,
                    ))
        }),
{
    let r = report_lines(d, main_dir, compare_dir, verbose, false);
    let n = d.in_both@.len();
    if n > 0 {
        let items = d.in_both@.map_values(|p: (FileEntry, FileEntry)| p.0);
        lemma_entry_blocks(items, "="@, Style::White, verbose);
        let b = blocks(items, "="@, Style::White, verbose);
        let p = header_lines(main_dir, compare_dir) + summary_lines(d) + main_section(
            d,
            main_dir,
            verbose,
        ) + compare_section(d, compare_dir, verbose) + different_section(d, verbose);
        let heading = seq![("━ Common files ("@ + decimal(n) + " files)"@, Style::WhiteBold)];
        let rest = footer_lines(d);
        assert(r =~= p + (seq![blank_line(), heading] + b) + rest);
        lemma_section_at(r, p, heading, b, rest);
        let h: int = p.len() as int + 1;
        assert forall|k: int| 0 <= k < n implies r[h + 1 + (if verbose {
            2 * k
        } else {
            k
        })] == entry_line((#[trigger] d.in_both@[k]).0, "="@, Style::White) by {
            let i = if verbose {
                2 * k
            } else {
                k
            };
            assert(items[k] == d.in_both@[k].0);
            assert(r[p.len() + 2 + i] == b[i]);
        }
        if verbose {
            assert forall|k: int| 0 <= k < n implies r[h + 2 + 2 * k] == absolute_line(
                (#[trigger] d.in_both@[k]).0,
            ) by {
                assert(items[k] == d.in_both@[k].0);
                assert(r[p.len() + 2 + (2 * k + 1)] == b[2 * k + 1]);
            }
        }
    }
}

/// What showing only differences removes: the full report is the diff-only
/// report with the common-files section put in just before the final five
/// lines of the verdict, and that section is two lines (a blank and the
/// heading) and a block per common file, or nothing when there are none.
pub proof fn lemma_diff_only_removes_common_section(
    d: DirectoryDiff,
    main_dir: Seq<char>,
    compare_dir: Seq<char>,
    verbose: bool,
)
    ensures
        ({
            let t = report_lines(d, main_dir, compare_dir, verbose, true);
            let f = report_lines(d, main_dir, compare_dir, verbose, false);
            let n = d.in_both@.len();
            &&& t.len() >= 16
            &&& f.len() == t.len() + if n == 0 {
                0
            } else {
                2 + if verbose {
                    2 * n
                } else {
                    n
                }
            }
            &&& f.take(t.len() - 5) == t.take(t.len() - 5)
            &&& f.skip(f.len() - 5) == t.skip(t.len() - 5)
            &&& n > 0 ==> f[t.len() - 4] == seq![
                ("━ Common files ("@ + decimal(n) + " files)"@, Style::WhiteBold),
            ]
        }),
{
    let t = report_lines(d, main_dir, compare_dir, verbose, true);
    let f = report_lines(d, main_dir, compare_dir, verbose, false);
    let n = d.in_both@.len();
    let p = header_lines(main_dir, compare_dir) + summary_lines(d) + main_section(
        d,
        main_dir,
        verbose,
    ) + compare_section(d, compare_dir, verbose) + different_section(d, verbose);
    let c = common_section(d, verbose, false);
    assert(t =~= p + footer_lines(d));
    assert(f =~= p + c + footer_lines(d));
    let items = d.in_both@.map_values(|q: (FileEntry, FileEntry)| q.0);
    lemma_entry_blocks(items, "="@, Style::White, verbose);
    assert(t.take(t.len() - 5) =~= p);
    assert(f.take(t.len() - 5) =~= p);
    assert(f.skip(f.len() - 5) =~= footer_lines(d));
    assert(t.skip(t.len() - 5) =~= footer_lines(d));
    if n > 0 {
        assert(f[t.len() - 4] == c[1]);
    }
}

/// The header names the two directories compared, between two rules.
pub proof fn lemma_header_names_directories(
    d: DirectoryDiff,
    main_dir: Seq<char>,
    compare_dir: Seq<char>,
    verbose: bool,
    diff_only: bool,
)
    ensures
        ({
            let r = report_lines(d, main_dir, compare_dir, verbose, diff_only);
            &&& r.len() >= 16
            &&& r[2] == seq![
                ("Directory Comparison:"@, Style::BrightCyanBold),
                (" "@, Style::Plain),
                (main_dir, Style::Yellow),
                (" "@, Style::Plain),
                ("vs "@ + compare_dir, Style::Yellow),
            ]
            &&& r[1] == r[3]
            &&& r[1] == seq![(Seq::new(80, |i: int| '='), Style::BrightBlue)]
        }),
{
    let r = report_lines(d, main_dir, compare_dir, verbose, diff_only);
    let h = header_lines(main_dir, compare_dir);
    let rest = summary_lines(d) + main_section(d, main_dir, verbose) + compare_section(
        d,
        compare_dir,
        verbose,
    ) + different_section(d, verbose) + common_section(d, verbose, diff_only) + footer_lines(d);
    assert(r =~= h + rest);
    assert(summary_lines(d).len() == 6);
    assert(footer_lines(d).len() == 5);
    assert(r[1] == h[1] && r[2] == h[2] && r[3] == h[3]);
}

/// Showing only differences hides the common files and nothing else: when
/// there are no common files, the report is the same in both modes.
pub proof fn lemma_diff_only_hides_only_common(
    d: DirectoryDiff,
    main_dir: Seq<char>,
    compare_dir: Seq<char>,
    verbose: bool,
)
    requires
        d.in_both@.len() == 0,
    ensures
        report_lines(d, main_dir, compare_dir, verbose, true) == report_lines(
            d,
            main_dir,
            compare_dir,
            verbose,
            false,
        ),
{
}

} // verus!
