//! The report of a comparison, as lines of styled text. Printing the lines
//! in their colors is left to the caller.

use vstd::prelude::*;
use crate::diff::DirectoryDiff;
use crate::scanner::FileEntry;
use crate::text::{decimal, decimal_string};

verus! {

/// Options for displaying diff results
pub struct DisplayOptions {
    pub verbose: bool,
    pub diff_only: bool,
}

/// How a piece of text is shown.
#[derive(PartialEq, Eq, Structural, Clone, Copy, Debug)]
pub enum Style {
    Plain,
    BrightBlue,
    BrightCyanBold,
    BrightWhiteBold,
    Yellow,
    YellowBold,
    Cyan,
    Red,
    RedBold,
    Green,
    GreenBold,
    White,
    WhiteBold,
    Dimmed,
}

/// A piece of text with its style.
pub struct Span {
    pub text: String,
    pub style: Style,
}

/// A line: its pieces, in order.
pub type LineView = Seq<(Seq<char>, Style)>;

/// What a line holds.
pub open spec fn line_view(line: Seq<Span>) -> LineView {
    line.map_values(|s: Span| (s.text@, s.style))
}

/// What a sequence of lines holds.
pub open spec fn lines_view(lines: Seq<Vec<Span>>) -> Seq<LineView> {
    lines.map_values(|l: Vec<Span>| line_view(l@))
}

/// A line of 80 `=` in bright blue.
pub open spec fn rule_line() -> LineView {
    seq![(Seq::new(80, |i: int| '='), Style::BrightBlue)]
}

/// An empty line.
pub open spec fn blank_line() -> LineView {
    Seq::empty()
}

/// The line that names an entry: the marker and the relative path, indented
/// by two, in `style`.
pub open spec fn entry_line(e: FileEntry, marker: Seq<char>, style: Style) -> LineView {
    seq![("  "@, Style::Plain), (marker, style), (" "@, Style::Plain), (e.relative_path@, style)]
}

/// The line that gives an entry's absolute path, indented by four and dimmed.
pub open spec fn absolute_line(e: FileEntry) -> LineView {
    seq![("    "@, Style::Plain), (e.absolute_path@, Style::Dimmed)]
}

/// The lines that list one entry: its line and, when verbose, its absolute
/// path below it.
pub open spec fn entry_block(e: FileEntry, marker: Seq<char>, style: Style, verbose: bool) -> Seq<LineView> {
    if verbose {
        seq![entry_line(e, marker, style), absolute_line(e)]
    } else {
        seq![entry_line(e, marker, style)]
    }
}

/// The lines that list a pair of entries under one path: the line of the
/// entry in the main directory and, when verbose, the absolute paths of both
/// entries below it, the main one first.
pub open spec fn pair_block(
    p: (FileEntry, FileEntry),
    marker: Seq<char>,
    style: Style,
    verbose: bool,
) -> Seq<LineView> {
    if verbose {
        seq![entry_line(p.0, marker, style), absolute_line(p.0), absolute_line(p.1)]
    } else {
        seq![entry_line(p.0, marker, style)]
    }
}

/// Something that a report lists, in a block of lines per item.
pub trait Listed: Sized {
    /// The lines that list this item with `marker`, in `style`.
    spec fn block(self, marker: Seq<char>, style: Style, verbose: bool) -> Seq<LineView>;

    /// Appends the lines that list this item.
    fn push_block(&self, lines: &mut Vec<Vec<Span>>, marker: &str, style: Style, verbose: bool)
        ensures
            lines_view(final(lines)@) == lines_view(old(lines)@) + self.block(
                marker@,
                style,
                verbose,
            ),
    ;
}

/// The lines that list items, one block per item, in order.
pub open spec fn blocks<T: Listed>(items: Seq<T>, marker: Seq<char>, style: Style, verbose: bool) -> Seq<LineView>
    decreases items.len(),
{
    if items.len() == 0 {
        Seq::empty()
    } else {
        blocks(items.drop_last(), marker, style, verbose) + items.last().block(
            marker,
            style,
            verbose,
        )
    }
}

/// A count: "0" in green when there is nothing, else the number in `style`.
pub open spec fn count_span(n: nat, style: Style) -> (Seq<char>, Style) {
    if n == 0 {
        ("0"@, Style::Green)
    } else {
        (decimal(n), style)
    }
}

/// The summary: status, total, and the size of each category.
pub open spec fn summary_lines(d: DirectoryDiff) -> Seq<LineView> {
    let differs = d.only_in_main@.len() > 0 || d.only_in_compare@.len() > 0
        || d.different_content@.len() > 0;
    let total = d.only_in_main@.len() + d.only_in_compare@.len() + d.in_both@.len()
        + d.different_content@.len();
    seq![
        seq![("Summary:"@, Style::BrightWhiteBold)],
        seq![
            ("  Status: "@, Style::Plain),
            if differs {
                ("DIFFERENT"@, Style::RedBold)
            } else {
                ("IDENTICAL"@, Style::GreenBold)
            },
        ],
        seq![("  Total files compared: "@, Style::Plain), (decimal(total), Style::Cyan)],
        seq![("  Only in main: "@, Style::Plain), count_span(d.only_in_main@.len(), Style::Red)],
        seq![
            ("  Only in compare: "@, Style::Plain),
            count_span(d.only_in_compare@.len(), Style::Green),
        ],
        seq![("  Common files: "@, Style::Plain), (decimal(d.in_both@.len()), Style::White)],
    ]
}

/// A section heading: "━ Only in <dir> (<n> files)".
pub open spec fn only_in_heading(dir: Seq<char>, n: nat) -> Seq<char> {
    "━ Only in "@ + dir + " ("@ + decimal(n) + " files)"@
}

/// The lines before the summary: the directories compared, between rules.
pub open spec fn header_lines(main_dir: Seq<char>, compare_dir: Seq<char>) -> Seq<LineView> {
    seq![
        blank_line(),
        rule_line(),
        seq![
            ("Directory Comparison:"@, Style::BrightCyanBold),
            (" "@, Style::Plain),
            (main_dir, Style::Yellow),
            (" "@, Style::Plain),
            ("vs "@ + compare_dir, Style::Yellow),
        ],
        rule_line(),
        blank_line(),
    ]
}

/// The section for files only in the main directory, when there are any.
pub open spec fn main_section(d: DirectoryDiff, main_dir: Seq<char>, verbose: bool) -> Seq<LineView> {
    if d.only_in_main@.len() > 0 {
        seq![
            blank_line(),
            seq![(only_in_heading(main_dir, d.only_in_main@.len()), Style::RedBold)],
        ] + blocks(d.only_in_main@, "✗"@, Style::Red, verbose)
    } else {
        Seq::empty()
    }
}

/// The section for files only in the compared directory, when there are any.
pub open spec fn compare_section(d: DirectoryDiff, compare_dir: Seq<char>, verbose: bool) -> Seq<LineView> {
    if d.only_in_compare@.len() > 0 {
        seq![
            blank_line(),
            seq![(only_in_heading(compare_dir, d.only_in_compare@.len()), Style::GreenBold)],
        ] + blocks(d.only_in_compare@, "+"@, Style::Green, verbose)
    } else {
        Seq::empty()
    }
}

/// The section for files found under the same path in both directories
/// whose contents differ, when there are any. Differences are shown in every
/// mode.
pub open spec fn different_section(d: DirectoryDiff, verbose: bool) -> Seq<LineView> {
    if d.different_content@.len() > 0 {
        seq![
            blank_line(),
            seq![
                (
                    "━ Different content ("@ + decimal(d.different_content@.len()) + " files)"@,
                    Style::YellowBold,
                ),
            ],
        ] + blocks(d.different_content@, "≠"@, Style::Yellow, verbose)
    } else {
        Seq::empty()
    }
}

/// The section for common files, by their entries in the main directory,
/// unless only differences are shown or there are none.
pub open spec fn common_section(d: DirectoryDiff, verbose: bool, diff_only: bool) -> Seq<LineView> {
    if !diff_only && d.in_both@.len() > 0 {
        seq![
            blank_line(),
            seq![
                ("━ Common files ("@ + decimal(d.in_both@.len()) + " files)"@, Style::WhiteBold),
            ],
        ] + blocks(
            d.in_both@.map_values(|p: (FileEntry, FileEntry)| p.0),
            "="@,
            Style::White,
            verbose,
        )
    } else {
        Seq::empty()
    }
}

/// The verdict, between rules.
pub open spec fn footer_lines(d: DirectoryDiff) -> Seq<LineView> {
    let differs = d.only_in_main@.len() > 0 || d.only_in_compare@.len() > 0
        || d.different_content@.len() > 0;
    seq![
        blank_line(),
        rule_line(),
        if differs {
            seq![("✗ Directories differ"@, Style::RedBold)]
        } else {
            seq![("✓ Directories are identical"@, Style::GreenBold)]
        },
        rule_line(),
        blank_line(),
    ]
}

/// The whole report of a comparison of `main_dir` with `compare_dir`.
pub open spec fn report_lines(
    d: DirectoryDiff,
    main_dir: Seq<char>,
    compare_dir: Seq<char>,
    verbose: bool,
    diff_only: bool,
) -> Seq<LineView> {
    header_lines(main_dir, compare_dir) + summary_lines(d) + main_section(d, main_dir, verbose)
        + compare_section(d, compare_dir, verbose) + different_section(d, verbose) + common_section(
            d,
            verbose,
            diff_only,
        )
        + footer_lines(d)
}

fn text_span(text: &str, style: Style) -> (s: Span)
    ensures
        s.text@ == text@,
        s.style == style,
{
    Span { text: String::from_str(text), style }
}

fn push_line(lines: &mut Vec<Vec<Span>>, line: Vec<Span>)
    ensures
        lines_view(final(lines)@) == lines_view(old(lines)@).push(line_view(line@)),
{
    let ghost before = lines@;
    lines.push(line);
    assert(lines_view(lines@) =~= lines_view(before).push(line_view(line@)));
}

fn blank() -> (l: Vec<Span>)
    ensures
        line_view(l@) == blank_line(),
{
    let l = Vec::new();
    assert(line_view(l@) =~= blank_line());
    l
}

fn one_span_line(s: Span) -> (l: Vec<Span>)
    ensures
        line_view(l@) == seq![(s.text@, s.style)],
{
    let mut l = Vec::new();
    l.push(s);
    assert(line_view(l@) =~= seq![(s.text@, s.style)]);
    l
}

fn two_span_line(a: Span, b: Span) -> (l: Vec<Span>)
    ensures
        line_view(l@) == seq![(a.text@, a.style), (b.text@, b.style)],
{
    let mut l = Vec::new();
    l.push(a);
    l.push(b);
    assert(line_view(l@) =~= seq![(a.text@, a.style), (b.text@, b.style)]);
    l
}

fn rule() -> (l: Vec<Span>)
    ensures
        line_view(l@) == rule_line(),
{
    let mut t = String::new();
    let mut i: usize = 0;
    while i < 80
        invariant
            i <= 80,
            t@ == Seq::new(i as nat, |k: int| '='),
        decreases 80 - i,
    {
        t.append("=");
        proof {
            reveal_strlit("=");
        }
        assert(t@ =~= Seq::new((i + 1) as nat, |k: int| '='));
        i = i + 1;
    }
    let l = one_span_line(Span { text: t, style: Style::BrightBlue });
    assert(line_view(l@) =~= rule_line());
    l
}

fn count_text(n: usize, style: Style) -> (s: Span)
    ensures
        (s.text@, s.style) == count_span(n as nat, style),
{
    if n == 0 {
        text_span("0", Style::Green)
    } else {
        Span { text: decimal_string(n), style }
    }
}

/// The summary lines of a comparison.
pub fn render_summary(d: &DirectoryDiff) -> (lines: Vec<Vec<Span>>)
    requires
        d.only_in_main@.len() + d.only_in_compare@.len() + d.in_both@.len()
            + d.different_content@.len() <= usize::MAX,
    ensures
        lines_view(lines@) == summary_lines(*d),
{
    let mut lines: Vec<Vec<Span>> = Vec::new();
    push_line(&mut lines, one_span_line(text_span("Summary:", Style::BrightWhiteBold)));
    let status = if d.has_differences() {
        text_span("DIFFERENT", Style::RedBold)
    } else {
        text_span("IDENTICAL", Style::GreenBold)
    };
    push_line(&mut lines, two_span_line(text_span("  Status: ", Style::Plain), status));
    let total = d.total_files();
    push_line(
        &mut lines,
        two_span_line(
            text_span("  Total files compared: ", Style::Plain),
            Span { text: decimal_string(total), style: Style::Cyan },
        ),
    );
    push_line(
        &mut lines,
        two_span_line(
            text_span("  Only in main: ", Style::Plain),
            count_text(d.only_in_main.len(), Style::Red),
        ),
    );
    push_line(
        &mut lines,
        two_span_line(
            text_span("  Only in compare: ", Style::Plain),
            count_text(d.only_in_compare.len(), Style::Green),
        ),
    );
    push_line(
        &mut lines,
        two_span_line(
            text_span("  Common files: ", Style::Plain),
            Span { text: decimal_string(d.in_both.len()), style: Style::White },
        ),
    );
    assert(lines_view(lines@) =~= summary_lines(*d));
    lines
}

fn entry_span_line(e: &FileEntry, marker: &str, style: Style) -> (l: Vec<Span>)
    ensures
        line_view(l@) == entry_line(*e, marker@, style),
{
    let mut l = Vec::new();
    l.push(text_span("  ", Style::Plain));
    l.push(text_span(marker, style));
    l.push(text_span(" ", Style::Plain));
    l.push(Span { text: e.relative_path.clone(), style });
    assert(line_view(l@) =~= entry_line(*e, marker@, style));
    l
}

fn absolute_span_line(e: &FileEntry) -> (l: Vec<Span>)
    ensures
        line_view(l@) == absolute_line(*e),
{
    two_span_line(
        text_span("    ", Style::Plain),
        Span { text: e.absolute_path.clone(), style: Style::Dimmed },
    )
}

impl Listed for FileEntry {
    open spec fn block(self, marker: Seq<char>, style: Style, verbose: bool) -> Seq<LineView> {
        entry_block(self, marker, style, verbose)
    }

    fn push_block(&self, lines: &mut Vec<Vec<Span>>, marker: &str, style: Style, verbose: bool) {
        let ghost before = lines_view(lines@);
        push_line(lines, entry_span_line(self, marker, style));
        if verbose {
            push_line(lines, absolute_span_line(self));
        }
        assert(lines_view(lines@) =~= before + entry_block(*self, marker@, style, verbose));
    }
}

impl Listed for (FileEntry, FileEntry) {
    open spec fn block(self, marker: Seq<char>, style: Style, verbose: bool) -> Seq<LineView> {
        pair_block(self, marker, style, verbose)
    }

    fn push_block(&self, lines: &mut Vec<Vec<Span>>, marker: &str, style: Style, verbose: bool) {
        let ghost before = lines_view(lines@);
        push_line(lines, entry_span_line(&self.0, marker, style));
        if verbose {
            push_line(lines, absolute_span_line(&self.0));
            push_line(lines, absolute_span_line(&self.1));
        }
        assert(lines_view(lines@) =~= before + pair_block(*self, marker@, style, verbose));
    }
}

fn push_blocks<T: Listed>(
    lines: &mut Vec<Vec<Span>>,
    items: &Vec<T>,
    marker: &str,
    style: Style,
    verbose: bool,
)
    ensures
        lines_view(final(lines)@) == lines_view(old(lines)@) + blocks(
            items@,
            marker@,
            style,
            verbose,
        ),
{
    let ghost before = lines_view(lines@);
    let mut i: usize = 0;
    assert(items@.take(0) =~= Seq::<T>::empty());
    assert(before + blocks(Seq::<T>::empty(), marker@, style, verbose) =~= before);
    while i < items.len()
        invariant
            i <= items@.len(),
            lines_view(lines@) == before + blocks(items@.take(i as int), marker@, style, verbose),
        decreases items@.len() - i,
    {
        items[i].push_block(lines, marker, style, verbose);
        let ghost t = items@.take(i as int + 1);
        assert(t.drop_last() =~= items@.take(i as int));
        assert(t.last() == items@[i as int]);
        assert(lines_view(lines@) =~= before + blocks(t, marker@, style, verbose));
        i = i + 1;
    }
    assert(items@.take(items@.len() as int) =~= items@);
}

/// The first entry of each pair, in order.
fn first_entries(pairs: &Vec<(FileEntry, FileEntry)>) -> (firsts: Vec<FileEntry>)
    ensures
        firsts@ == pairs@.map_values(|p: (FileEntry, FileEntry)| p.0),
{
    let mut firsts: Vec<FileEntry> = Vec::new();
    let mut i: usize = 0;
    while i < pairs.len()
        invariant
            i <= pairs@.len(),
            firsts@ == pairs@.take(i as int).map_values(|p: (FileEntry, FileEntry)| p.0),
        decreases pairs@.len() - i,
    {
        firsts.push(pairs[i].0.clone());
        assert(pairs@.take(i as int + 1).map_values(|p: (FileEntry, FileEntry)| p.0)
            =~= pairs@.take(i as int).map_values(|p: (FileEntry, FileEntry)| p.0).push(
            pairs@[i as int].0,
        ));
        i = i + 1;
    }
    assert(pairs@.take(pairs@.len() as int) =~= pairs@);
    firsts
}

fn push_lines(lines: &mut Vec<Vec<Span>>, more: Vec<Vec<Span>>)
    ensures
        lines_view(final(lines)@) == lines_view(old(lines)@) + lines_view(more@),
{
    let ghost before = lines@;
    let ghost added = more@;
    let mut more = more;
    lines.append(&mut more);
    assert(lines_view(lines@) =~= lines_view(before) + lines_view(added)) by {
        assert(lines@ =~= before + added);
    }
}

fn heading(text: String, style: Style) -> (lines: Vec<Vec<Span>>)
    ensures
        lines_view(lines@) == seq![blank_line(), seq![(text@, style)]],
{
    let mut lines: Vec<Vec<Span>> = Vec::new();
    push_line(&mut lines, blank());
    push_line(&mut lines, one_span_line(Span { text, style }));
    assert(lines_view(lines@) =~= seq![blank_line(), seq![(text@, style)]]);
    lines
}

fn only_in_text(dir: &str, n: usize) -> (t: String)
    ensures
        t@ == only_in_heading(dir@, n as nat),
{
    let mut t = String::from_str("━ Only in ");
    t.append(dir);
    t.append(" (");
    let count = decimal_string(n);
    t.append(count.as_str());
    t.append(" files)");
    t
}

fn render_header(main_dir: &str, compare_dir: &str) -> (lines: Vec<Vec<Span>>)
    ensures
        lines_view(lines@) == header_lines(main_dir@, compare_dir@),
{
    let mut lines: Vec<Vec<Span>> = Vec::new();
    push_line(&mut lines, blank());
    push_line(&mut lines, rule());
    let mut title = Vec::new();
    title.push(text_span("Directory Comparison:", Style::BrightCyanBold));
    title.push(text_span(" ", Style::Plain));
    title.push(text_span(main_dir, Style::Yellow));
    title.push(text_span(" ", Style::Plain));
    let mut against = String::from_str("vs ");
    against.append(compare_dir);
    title.push(Span { text: against, style: Style::Yellow });
    assert(line_view(title@) =~= seq![
        ("Directory Comparison:"@, Style::BrightCyanBold),
        (" "@, Style::Plain),
        (main_dir@, Style::Yellow),
        (" "@, Style::Plain),
        ("vs "@ + compare_dir@, Style::Yellow),
    ]);
    push_line(&mut lines, title);
    push_line(&mut lines, rule());
    push_line(&mut lines, blank());
    assert(lines_view(lines@) =~= header_lines(main_dir@, compare_dir@));
    lines
}

fn render_main_section(d: &DirectoryDiff, main_dir: &str, verbose: bool) -> (lines: Vec<Vec<Span>>)
    ensures
        lines_view(lines@) == main_section(*d, main_dir@, verbose),
{
    let mut lines: Vec<Vec<Span>> = Vec::new();
    if d.only_in_main.len() > 0 {
        push_lines(&mut lines, heading(only_in_text(main_dir, d.only_in_main.len()), Style::RedBold));
        push_blocks(&mut lines, &d.only_in_main, "✗", Style::Red, verbose);
    }
    assert(lines_view(lines@) =~= main_section(*d, main_dir@, verbose));
    lines
}

fn render_compare_section(d: &DirectoryDiff, compare_dir: &str, verbose: bool) -> (lines: Vec<
    Vec<Span>,
>)
    ensures
        lines_view(lines@) == compare_section(*d, compare_dir@, verbose),
{
    let mut lines: Vec<Vec<Span>> = Vec::new();
    if d.only_in_compare.len() > 0 {
        push_lines(
            &mut lines,
            heading(only_in_text(compare_dir, d.only_in_compare.len()), Style::GreenBold),
        );
        push_blocks(&mut lines, &d.only_in_compare, "+", Style::Green, verbose);
    }
    assert(lines_view(lines@) =~= compare_section(*d, compare_dir@, verbose));
    lines
}

fn render_different_section(d: &DirectoryDiff, verbose: bool) -> (lines: Vec<Vec<Span>>)
    ensures
        lines_view(lines@) == different_section(*d, verbose),
{
    let mut lines: Vec<Vec<Span>> = Vec::new();
    if d.different_content.len() > 0 {
        let mut t = String::from_str("━ Different content (");
        let count = decimal_string(d.different_content.len());
        t.append(count.as_str());
        t.append(" files)");
        push_lines(&mut lines, heading(t, Style::YellowBold));
        push_blocks(&mut lines, &d.different_content, "≠", Style::Yellow, verbose);
    }
    assert(lines_view(lines@) =~= different_section(*d, verbose));
    lines
}

fn render_common_section(d: &DirectoryDiff, verbose: bool, diff_only: bool) -> (lines: Vec<
    Vec<Span>,
>)
    ensures
        lines_view(lines@) == common_section(*d, verbose, diff_only),
{
    let mut lines: Vec<Vec<Span>> = Vec::new();
    if !diff_only && d.in_both.len() > 0 {
        let mut t = String::from_str("━ Common files (");
        let count = decimal_string(d.in_both.len());
        t.append(count.as_str());
        t.append(" files)");
        push_lines(&mut lines, heading(t, Style::WhiteBold));
        let firsts = first_entries(&d.in_both);
        push_blocks(&mut lines, &firsts, "=", Style::White, verbose);
    }
    assert(lines_view(lines@) =~= common_section(*d, verbose, diff_only));
    lines
}

fn render_footer(d: &DirectoryDiff) -> (lines: Vec<Vec<Span>>)
    ensures
        lines_view(lines@) == footer_lines(*d),
{
    let mut lines: Vec<Vec<Span>> = Vec::new();
    push_line(&mut lines, blank());
    push_line(&mut lines, rule());
    if d.has_differences() {
        push_line(&mut lines, one_span_line(text_span("✗ Directories differ", Style::RedBold)));
    } else {
        push_line(
            &mut lines,
            one_span_line(text_span("✓ Directories are identical", Style::GreenBold)),
        );
    }
    push_line(&mut lines, rule());
    push_line(&mut lines, blank());
    assert(lines_view(lines@) =~= footer_lines(*d));
    lines
}

/// The report of a comparison of `main_dir` with `compare_dir`: a header, the
/// summary, a section for the files only in each directory, the files whose
/// contents differ, the common files unless only differences are shown, and
/// the verdict.
pub fn render_diff(d: &DirectoryDiff, main_dir: &str, compare_dir: &str, options: &DisplayOptions) -> (lines:
    Vec<Vec<Span>>)
    requires
        d.only_in_main@.len() + d.only_in_compare@.len() + d.in_both@.len()
            + d.different_content@.len() <= usize::MAX,
    ensures
        lines_view(lines@) == report_lines(
            *d,
            main_dir@,
            compare_dir@,
            options.verbose,
            options.diff_only,
        ),
{
    let mut lines = render_header(main_dir, compare_dir);
    push_lines(&mut lines, render_summary(d));
    push_lines(&mut lines, render_main_section(d, main_dir, options.verbose));
    push_lines(&mut lines, render_compare_section(d, compare_dir, options.verbose));
    push_lines(&mut lines, render_different_section(d, options.verbose));
    push_lines(&mut lines, render_common_section(d, options.verbose, options.diff_only));
    push_lines(&mut lines, render_footer(d));
    lines
}

} // verus!
