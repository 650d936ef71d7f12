//! Comparing the files of two directories.

use vstd::prelude::*;
use crate::file_map::{has_key, lookup, FileMap, FileMapView};
use crate::path::{
    compare_paths, lemma_path_order_chain, lemma_path_order_laws, path_order, text_bytes,
    PathOrder,
};
use crate::scanner::FileEntry;

verus! {

broadcast use vstd::seq_lib::group_to_multiset_ensures;

/// Result of comparing two directories.
#[derive(Debug, Clone, PartialEq, Eq)]
pub struct DirectoryDiff {
    /// Files only in the main directory
    pub only_in_main: Vec<FileEntry>,
    /// Files only in the comparison directory
    pub only_in_compare: Vec<FileEntry>,
    /// Files present in both directories
    pub in_both: Vec<(FileEntry, FileEntry)>,
    /// Files with the same relative path but different content
    pub different_content: Vec<(FileEntry, FileEntry)>,
}

/// Something kept in the order of a path of its own.
pub trait ByPath: Sized {
    /// The path by which it is ordered.
    spec fn sort_path(self) -> Seq<char>;

    /// The path by which it is ordered.
    fn sort_path_str(&self) -> (p: &str)
        ensures
            p@ == self.sort_path(),
    ;
}

/// An entry is ordered by its relative path.
impl ByPath for FileEntry {
    open spec fn sort_path(self) -> Seq<char> {
        self.relative_path@
    }

    fn sort_path_str(&self) -> (p: &str) {
        self.relative_path.as_str()
    }
}

/// A pair is ordered by the relative path of its first entry.
impl ByPath for (FileEntry, FileEntry) {
    open spec fn sort_path(self) -> Seq<char> {
        self.0.relative_path@
    }

    fn sort_path_str(&self) -> (p: &str) {
        self.0.relative_path.as_str()
    }
}

/// The order of two items: the order of their paths.
pub open spec fn item_order<T: ByPath>(a: T, b: T) -> PathOrder {
    path_order(text_bytes(a.sort_path()), text_bytes(b.sort_path()))
}

/// Items in the order of their paths.
pub open spec fn sorted_by_path<T: ByPath>(s: Seq<T>) -> bool {
    forall|i: int, j: int|
        0 <= i < j < s.len() ==> item_order(#[trigger] s[i], #[trigger] s[j]) != PathOrder::Greater
}

/// Entries in the order of their relative paths.
pub open spec fn entries_sorted(s: Seq<FileEntry>) -> bool {
    sorted_by_path(s)
}

/// Pairs in the order of the relative paths of their first entries.
pub open spec fn pairs_sorted(s: Seq<(FileEntry, FileEntry)>) -> bool {
    sorted_by_path(s)
}

/// Two entries of the same path count as different content: checksums are
/// compared, both entries have one, and the checksums differ.
pub open spec fn content_differs(compare_md5: bool, a: FileEntry, b: FileEntry) -> bool {
    &&& compare_md5
    &&& a.md5 is Some
    &&& b.md5 is Some
    &&& a.md5->0@ != b.md5->0@
}

/// The entries of `main` whose keys are not paths of `other`, in the order of
/// `main`.
pub open spec fn entries_missing_from(main: FileMapView, other: FileMapView) -> Seq<FileEntry>
    decreases main.len(),
{
    if main.len() == 0 {
        Seq::empty()
    } else {
        let rest = entries_missing_from(main.drop_last(), other);
        if has_key(other, main.last().0) {
            rest
        } else {
            rest.push(main.last().1)
        }
    }
}

/// The entries of `main` whose keys are paths of `other`, each with the entry
/// of `other` under that path, in the order of `main`; only those whose
/// contents count as different when `differing` holds, only the others when
/// it does not.
pub open spec fn common_pairs(
    main: FileMapView,
    other: FileMapView,
    compare_md5: bool,
    differing: bool,
) -> Seq<(FileEntry, FileEntry)>
    decreases main.len(),
{
    if main.len() == 0 {
        Seq::empty()
    } else {
        let rest = common_pairs(main.drop_last(), other, compare_md5, differing);
        let key = main.last().0;
        let entry = main.last().1;
        if has_key(other, key) && content_differs(
            compare_md5,
            entry,
            lookup(other, key).unwrap(),
        ) == differing {
            rest.push((entry, lookup(other, key).unwrap()))
        } else {
            rest
        }
    }
}

impl DirectoryDiff {
    /// Check if there are any differences between directories
    pub fn has_differences(&self) -> (b: bool)
        ensures
            b == (self.only_in_main@.len() > 0 || self.only_in_compare@.len() > 0
                || self.different_content@.len() > 0),
    {
        !self.only_in_main.is_empty() || !self.only_in_compare.is_empty()
            || !self.different_content.is_empty()
    }

    /// Get total number of files across all categories
    pub fn total_files(&self) -> (n: usize)
        requires
            self.only_in_main@.len() + self.only_in_compare@.len() + self.in_both@.len()
                + self.different_content@.len() <= usize::MAX,
        ensures
            n == self.only_in_main@.len() + self.only_in_compare@.len() + self.in_both@.len()
                + self.different_content@.len(),
    {
        self.only_in_main.len() + self.only_in_compare.len() + self.in_both.len()
            + self.different_content.len()
    }
}

/// Puts `e` into the sorted `v`, after the items whose paths do not come
/// after its path. The search starts from the end, so an item that belongs
/// last is placed at once.
fn insert_sorted<T: ByPath>(v: &mut Vec<T>, e: T)
    requires
        sorted_by_path(old(v)@),
    ensures
        sorted_by_path(final(v)@),
        final(v)@.to_multiset() == old(v)@.to_multiset().insert(e),
{
    let mut i: usize = v.len();
    while i > 0
        invariant
            i <= v@.len(),
            v@ == old(v)@,
            sorted_by_path(v@),
            forall|k: int| i <= k < v@.len() ==> item_order(#[trigger] v@[k], e) == PathOrder::Greater,
        ensures
            i <= v@.len(),
            v@ == old(v)@,
            forall|k: int| i <= k < v@.len() ==> item_order(#[trigger] v@[k], e) == PathOrder::Greater,
            i > 0 ==> item_order(v@[i - 1], e) != PathOrder::Greater,
        decreases i,
    {
        let o = compare_paths(v[i - 1].sort_path_str(), e.sort_path_str());
        if o != PathOrder::Greater {
            break;
        }
        i = i - 1;
    }
    let ghost before = v@;
    let ghost p = i as int;
    proof {
        assert forall|k: int| 0 <= k < p implies item_order(#[trigger] before[k], e)
            != PathOrder::Greater by {
            if k < p - 1 {
                lemma_path_order_chain(
                    text_bytes(before[k].sort_path()),
                    text_bytes(before[p - 1].sort_path()),
                    text_bytes(e.sort_path()),
                );
            }
        }
        assert forall|k: int| p <= k < before.len() implies item_order(e, #[trigger] before[k])
            == PathOrder::Less by {
            lemma_path_order_laws(
                text_bytes(e.sort_path()),
                text_bytes(before[k].sort_path()),
                text_bytes(e.sort_path()),
            );
        }
    }
    v.insert(i, e);
    proof {
        assert forall|x: int, y: int| 0 <= x < y < v@.len() implies item_order(
            #[trigger] v@[x],
            #[trigger] v@[y],
        ) != PathOrder::Greater by {
            if y < p {
                assert(v@[x] == before[x] && v@[y] == before[y]);
            } else if y == p {
                assert(v@[y] == e);
                assert(v@[x] == before[x]);
            } else if x < p {
                assert(v@[x] == before[x]);
                assert(v@[y] == before[y - 1]);
            } else if x == p {
                assert(v@[x] == e);
                assert(v@[y] == before[y - 1]);
            } else {
                assert(v@[x] == before[x - 1]);
                assert(v@[y] == before[y - 1]);
            }
        }
    }
}

/// `d` is the comparison of `main` with `other`: each category holds exactly
/// the entries, or pairs of entries, that the corresponding spec function
/// lists, in the order of their relative paths.
pub open spec fn is_diff_of(d: DirectoryDiff, main: FileMapView, other: FileMapView, compare_md5: bool) -> bool {
    &&& d.only_in_main@.to_multiset() == entries_missing_from(main, other).to_multiset()
    &&& d.only_in_compare@.to_multiset() == entries_missing_from(other, main).to_multiset()
    &&& d.in_both@.to_multiset() == common_pairs(main, other, compare_md5, false).to_multiset()
    &&& d.different_content@.to_multiset() == common_pairs(main, other, compare_md5, true).to_multiset()
    &&& entries_sorted(d.only_in_main@)
    &&& entries_sorted(d.only_in_compare@)
    &&& pairs_sorted(d.in_both@)
    &&& pairs_sorted(d.different_content@)
}

/// Whether two entries found under the same path count as different content.
fn contents_differ(compare_md5: bool, a: &FileEntry, b: &FileEntry) -> (r: bool)
    ensures
        r == content_differs(compare_md5, *a, *b),
{
    if !compare_md5 {
        return false;
    }
    match (&a.md5, &b.md5) {
        (Some(x), Some(y)) => !(*x == *y),
        _ => false,
    }
}

/// Compare two directories and return the differences: each category is
/// sorted by relative path.
pub fn diff_directories(main_files: FileMap, compare_files: FileMap, compare_md5: bool) -> (d:
    DirectoryDiff)
    ensures
        is_diff_of(d, main_files@, compare_files@, compare_md5),
{
    let mut only_in_main: Vec<FileEntry> = Vec::new();
    let mut only_in_compare: Vec<FileEntry> = Vec::new();
    let mut in_both: Vec<(FileEntry, FileEntry)> = Vec::new();
    let mut different_content: Vec<(FileEntry, FileEntry)> = Vec::new();
    let ghost m = main_files@;
    let ghost c = compare_files@;

    // Files only in main, or in both
    let n = main_files.len();
    let mut i: usize = 0;
    assert(m.take(0) =~= FileMapView::empty());
    while i < n
        invariant
            n == m.len(),
            m == main_files@,
            c == compare_files@,
            i <= n,
            only_in_main@.to_multiset() == entries_missing_from(m.take(i as int), c).to_multiset(),
            in_both@.to_multiset() == common_pairs(
                m.take(i as int),
                c,
                compare_md5,
                false,
            ).to_multiset(),
            different_content@.to_multiset() == common_pairs(
                m.take(i as int),
                c,
                compare_md5,
                true,
            ).to_multiset(),
            entries_sorted(only_in_main@),
            pairs_sorted(in_both@),
            pairs_sorted(different_content@),
        decreases n - i,
    {
        let key = main_files.key_at(i);
        let entry = main_files.entry_at(i);
        let ghost t = m.take(i as int + 1);
        assert(t.drop_last() =~= m.take(i as int));
        assert(t.last() == m[i as int]);
        match compare_files.get(key.as_str()) {
            Some(found) => {
                if contents_differ(compare_md5, entry, found) {
                    insert_sorted(&mut different_content, (entry.clone(), found.clone()));
                } else {
                    insert_sorted(&mut in_both, (entry.clone(), found.clone()));
                }
            },
            None => {
                insert_sorted(&mut only_in_main, entry.clone());
            },
        }
        i = i + 1;
    }
    assert(m.take(n as int) =~= m);

    // Files only in compare
    let n = compare_files.len();
    let mut j: usize = 0;
    assert(c.take(0) =~= FileMapView::empty());
    while j < n
        invariant
            n == c.len(),
            m == main_files@,
            c == compare_files@,
            j <= n,
            only_in_compare@.to_multiset() == entries_missing_from(
                c.take(j as int),
                m,
            ).to_multiset(),
            entries_sorted(only_in_compare@),
        decreases n - j,
    {
        let key = compare_files.key_at(j);
        let entry = compare_files.entry_at(j);
        let ghost t = c.take(j as int + 1);
        assert(t.drop_last() =~= c.take(j as int));
        assert(t.last() == c[j as int]);
        if !main_files.contains_key(key.as_str()) {
            insert_sorted(&mut only_in_compare, entry.clone());
        }
        j = j + 1;
    }
    assert(c.take(n as int) =~= c);

    DirectoryDiff { only_in_main, only_in_compare, in_both, different_content }
}

} // verus!
