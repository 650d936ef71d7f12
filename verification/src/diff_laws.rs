//! Laws of comparison: what every comparison reports, whatever the maps.

use vstd::prelude::*;
use crate::diff::{
    common_pairs, content_differs, entries_missing_from, entries_sorted, is_diff_of, item_order,
    pairs_sorted,
    DirectoryDiff,
};
use crate::file_map::{
    has_key, keys_distinct, keys_sorted, lemma_lookup_at, lemma_same_pairs_same_contents, lookup,
    FileMapView,
};
use crate::path::{components, lemma_path_order_laws, path_order, same_path, text_bytes, PathOrder};
use crate::scanner::FileEntry;

verus! {

broadcast use vstd::seq_lib::group_to_multiset_ensures;

/// The number of entries of `main` whose keys are paths of `other`.
pub open spec fn count_common(main: FileMapView, other: FileMapView) -> nat
    decreases main.len(),
{
    if main.len() == 0 {
        0
    } else {
        count_common(main.drop_last(), other) + if has_key(other, main.last().0) {
            1nat
        } else {
            0nat
        }
    }
}

proof fn lemma_missing_len(main: FileMapView, other: FileMapView)
    ensures
        entries_missing_from(main, other).len() + count_common(main, other) == main.len(),
    decreases main.len(),
{
    if main.len() > 0 {
        lemma_missing_len(main.drop_last(), other);
    }
}

proof fn lemma_common_len(main: FileMapView, other: FileMapView, compare_md5: bool)
    ensures
        common_pairs(main, other, compare_md5, false).len() + common_pairs(
            main,
            other,
            compare_md5,
            true,
        ).len() == count_common(main, other),
    decreases main.len(),
{
    if main.len() > 0 {
        lemma_common_len(main.drop_last(), other, compare_md5);
    }
}

proof fn lemma_has_key_push(items: FileMapView, p: (Seq<char>, FileEntry), key: Seq<char>)
    ensures
        has_key(items.push(p), key) <==> has_key(items, key) || same_path(p.0, key),
{
    let s = items.push(p);
    if has_key(items, key) {
        let i = choose|i: int| 0 <= i < items.len() && same_path(#[trigger] items[i].0, key);
        assert(s[i] == items[i]);
    }
    if same_path(p.0, key) {
        assert(s[items.len() as int] == p);
    }
    if has_key(s, key) {
        let i = choose|i: int| 0 <= i < s.len() && same_path(#[trigger] s[i].0, key);
        if i < items.len() {
            assert(s[i] == items[i]);
        }
    }
}

proof fn lemma_distinct_drop_last(items: FileMapView)
    requires
        keys_distinct(items),
        items.len() > 0,
    ensures
        keys_distinct(items.drop_last()),
        !has_key(items.drop_last(), items.last().0),
{
    let d = items.drop_last();
    assert forall|i: int, j: int|
        0 <= i < d.len() && 0 <= j < d.len() && i != j implies !same_path(
        #[trigger] d[i].0,
        #[trigger] d[j].0,
    ) by {
        assert(d[i] == items[i] && d[j] == items[j]);
    }
    if has_key(d, items.last().0) {
        let i = choose|i: int| 0 <= i < d.len() && same_path(#[trigger] d[i].0, items.last().0);
        assert(d[i] == items[i]);
        assert(!same_path(items[i].0, items[items.len() - 1].0));
    }
}

proof fn lemma_count_common_push(main: FileMapView, other: FileMapView, p: (Seq<char>, FileEntry))
    requires
        keys_distinct(main),
        !has_key(other, p.0),
    ensures
        count_common(main, other.push(p)) == count_common(main, other) + if has_key(main, p.0) {
            1nat
        } else {
            0nat
        },
    decreases main.len(),
{
    if main.len() == 0 {
    } else {
        let rest = main.drop_last();
        let y = main.last();
        lemma_distinct_drop_last(main);
        lemma_count_common_push(rest, other, p);
        lemma_has_key_push(other, p, y.0);
        lemma_has_key_push(rest, y, p.0);
        assert(main == rest.push(y));
        if same_path(y.0, p.0) {
            if has_key(other, y.0) {
                let i = choose|i: int| 0 <= i < other.len() && same_path(#[trigger] other[i].0, y.0);
                assert(same_path(other[i].0, p.0));
            }
            if has_key(rest, p.0) {
                let i = choose|i: int| 0 <= i < rest.len() && same_path(#[trigger] rest[i].0, p.0);
                assert(same_path(rest[i].0, y.0));
            }
        }
    }
}

proof fn lemma_count_common_symmetric(main: FileMapView, other: FileMapView)
    requires
        keys_distinct(main),
        keys_distinct(other),
    ensures
        count_common(main, other) == count_common(other, main),
    decreases other.len(),
{
    if other.len() == 0 {
        lemma_count_common_empty(main, other);
    } else {
        let rest = other.drop_last();
        let x = other.last();
        lemma_distinct_drop_last(other);
        lemma_count_common_symmetric(main, rest);
        lemma_count_common_push(main, rest, x);
        assert(other == rest.push(x));
    }
}

proof fn lemma_count_common_empty(main: FileMapView, other: FileMapView)
    requires
        other.len() == 0,
    ensures
        count_common(main, other) == 0,
    decreases main.len(),
{
    if main.len() > 0 {
        lemma_count_common_empty(main.drop_last(), other);
    }
}

/// Every file is counted once: each entry of the main map is either only in
/// main, in both, or of different content, and each entry of the compared map
/// is either only in it or paired with an entry of main. So the total over
/// all categories is the number of files of both maps, less the number of
/// paths that they share.
pub proof fn lemma_diff_counts(main: FileMapView, other: FileMapView, compare_md5: bool)
    requires
        keys_distinct(main),
        keys_distinct(other),
    ensures
        entries_missing_from(main, other).len() + common_pairs(main, other, compare_md5, false).len()
            + common_pairs(main, other, compare_md5, true).len() == main.len(),
        entries_missing_from(other, main).len() + common_pairs(main, other, compare_md5, false).len()
            + common_pairs(main, other, compare_md5, true).len() == other.len(),
        entries_missing_from(main, other).len() + entries_missing_from(other, main).len()
            + common_pairs(main, other, compare_md5, false).len() + common_pairs(
            main,
            other,
            compare_md5,
            true,
        ).len() + count_common(main, other) == main.len() + other.len(),
{
    lemma_missing_len(main, other);
    lemma_missing_len(other, main);
    lemma_common_len(main, other, compare_md5);
    lemma_count_common_symmetric(main, other);
}

/// Two maps hold the same paths, and no path holds different content.
pub open spec fn same_files(main: FileMapView, other: FileMapView, compare_md5: bool) -> bool {
    &&& forall|i: int| 0 <= i < main.len() ==> has_key(other, #[trigger] main[i].0)
    &&& forall|j: int| 0 <= j < other.len() ==> has_key(main, #[trigger] other[j].0)
    &&& forall|i: int|
        0 <= i < main.len() ==> !content_differs(
            compare_md5,
            #[trigger] main[i].1,
            lookup(other, main[i].0).unwrap(),
        )
}

proof fn lemma_missing_empty(main: FileMapView, other: FileMapView)
    ensures
        entries_missing_from(main, other).len() == 0 <==> forall|i: int|
            0 <= i < main.len() ==> has_key(other, #[trigger] main[i].0),
    decreases main.len(),
{
    if main.len() > 0 {
        let rest = main.drop_last();
        lemma_missing_empty(rest, other);
        if entries_missing_from(main, other).len() == 0 {
            assert forall|i: int| 0 <= i < main.len() implies has_key(other, #[trigger] main[i].0) by {
                if i < rest.len() {
                    assert(rest[i] == main[i]);
                }
            }
        }
        if forall|i: int| 0 <= i < main.len() ==> has_key(other, #[trigger] main[i].0) {
            assert(has_key(other, main[main.len() - 1].0));
            assert forall|i: int| 0 <= i < rest.len() implies has_key(other, #[trigger] rest[i].0) by {
                assert(rest[i] == main[i]);
            }
        }
    }
}

proof fn lemma_differing_empty(main: FileMapView, other: FileMapView, compare_md5: bool)
    ensures
        common_pairs(main, other, compare_md5, true).len() == 0 <==> forall|i: int|
            0 <= i < main.len() && has_key(other, main[i].0) ==> !content_differs(
                compare_md5,
                #[trigger] main[i].1,
                lookup(other, main[i].0).unwrap(),
            ),
    decreases main.len(),
{
    if main.len() > 0 {
        let rest = main.drop_last();
        let last = main.len() - 1;
        lemma_differing_empty(rest, other, compare_md5);
        if common_pairs(main, other, compare_md5, true).len() == 0 {
            assert forall|i: int|
                0 <= i < main.len() && has_key(other, main[i].0) implies !content_differs(
                compare_md5,
                #[trigger] main[i].1,
                lookup(other, main[i].0).unwrap(),
            ) by {
                if i < rest.len() {
                    assert(rest[i] == main[i]);
                }
            }
        }
        if forall|i: int|
            0 <= i < main.len() && has_key(other, main[i].0) ==> !content_differs(
                compare_md5,
                #[trigger] main[i].1,
                lookup(other, main[i].0).unwrap(),
            ) {
            assert(has_key(other, main[last].0) ==> !content_differs(
                compare_md5,
                main[last].1,
                lookup(other, main[last].0).unwrap(),
            ));
            assert forall|i: int|
                0 <= i < rest.len() && has_key(other, rest[i].0) implies !content_differs(
                compare_md5,
                #[trigger] rest[i].1,
                lookup(other, rest[i].0).unwrap(),
            ) by {
                assert(rest[i] == main[i]);
            }
        }
    }
}

/// Nothing is only in one map and nothing differs exactly when the two maps
/// hold the same paths and no path holds different content.
pub proof fn lemma_no_differences_iff_same_files(main: FileMapView, other: FileMapView, compare_md5: bool)
    ensures
        entries_missing_from(main, other).len() == 0 && entries_missing_from(other, main).len() == 0
            && common_pairs(main, other, compare_md5, true).len() == 0 <==> same_files(
            main,
            other,
            compare_md5,
        ),
{
    lemma_missing_empty(main, other);
    lemma_missing_empty(other, main);
    lemma_differing_empty(main, other, compare_md5);
}

/// Without checksum comparison no pair counts as different content, and
/// every shared path lands among the files in both.
pub proof fn lemma_without_checksums(main: FileMapView, other: FileMapView)
    ensures
        common_pairs(main, other, false, true) == Seq::<(FileEntry, FileEntry)>::empty(),
        common_pairs(main, other, false, false).len() == count_common(main, other),
{
    lemma_differing_empty(main, other, false);
    lemma_common_len(main, other, false);
}

/// A map compared with itself: nothing is only on one side, nothing differs,
/// and every entry is paired with itself.
pub proof fn lemma_compare_with_itself(items: FileMapView, compare_md5: bool)
    requires
        keys_distinct(items),
    ensures
        entries_missing_from(items, items) == Seq::<FileEntry>::empty(),
        common_pairs(items, items, compare_md5, true) == Seq::<(FileEntry, FileEntry)>::empty(),
        common_pairs(items, items, compare_md5, false) == items.map_values(
            |p: (Seq<char>, FileEntry)| (p.1, p.1),
        ),
{
    assert forall|i: int| 0 <= i < items.len() implies has_key(items, #[trigger] items[i].0)
        && lookup(items, items[i].0) == Some(items[i].1) by {
        lemma_lookup_at(items, i, items[i].0);
    }
    lemma_self_pairs(items, items, compare_md5);
    lemma_missing_empty(items, items);
    lemma_differing_empty(items, items, compare_md5);
}

proof fn lemma_self_pairs(main: FileMapView, other: FileMapView, compare_md5: bool)
    requires
        forall|i: int|
            0 <= i < main.len() ==> has_key(other, #[trigger] main[i].0) && lookup(other, main[i].0)
                == Some(main[i].1),
    ensures
        common_pairs(main, other, compare_md5, false) == main.map_values(
            |p: (Seq<char>, FileEntry)| (p.1, p.1),
        ),
    decreases main.len(),
{
    if main.len() > 0 {
        let rest = main.drop_last();
        assert forall|i: int| 0 <= i < rest.len() implies has_key(other, #[trigger] rest[i].0)
            && lookup(other, rest[i].0) == Some(rest[i].1) by {
            assert(rest[i] == main[i]);
        }
        lemma_self_pairs(rest, other, compare_md5);
        let last = main.len() - 1;
        assert(has_key(other, main[last].0));
        assert(main.map_values(|p: (Seq<char>, FileEntry)| (p.1, p.1)) =~= rest.map_values(
            |p: (Seq<char>, FileEntry)| (p.1, p.1),
        ).push((main[last].1, main[last].1)));
    } else {
        assert(main.map_values(|p: (Seq<char>, FileEntry)| (p.1, p.1)) =~= Seq::empty());
    }
}

/// What a comparison reports: the four categories together count every file
/// of both maps, less each shared path once; the directories count as
/// different exactly when the maps do not hold the same files; and without
/// checksum comparison no content counts as different.
pub proof fn lemma_diff_laws(d: DirectoryDiff, main: FileMapView, other: FileMapView, compare_md5: bool)
    requires
        is_diff_of(d, main, other, compare_md5),
        keys_distinct(main),
        keys_distinct(other),
    ensures
        d.only_in_main@.len() + d.only_in_compare@.len() + d.in_both@.len()
            + d.different_content@.len() + count_common(main, other) == main.len() + other.len(),
        d.in_both@.len() + d.different_content@.len() == count_common(main, other),
        (d.only_in_main@.len() > 0 || d.only_in_compare@.len() > 0 || d.different_content@.len() > 0)
            <==> !same_files(main, other, compare_md5),
        !compare_md5 ==> d.different_content@.len() == 0,
{
    assert(d.only_in_main@.len() == entries_missing_from(main, other).len()) by {
        vstd::seq_lib::to_multiset_len(d.only_in_main@);
        vstd::seq_lib::to_multiset_len(entries_missing_from(main, other));
    }
    assert(d.only_in_compare@.len() == entries_missing_from(other, main).len()) by {
        vstd::seq_lib::to_multiset_len(d.only_in_compare@);
        vstd::seq_lib::to_multiset_len(entries_missing_from(other, main));
    }
    assert(d.in_both@.len() == common_pairs(main, other, compare_md5, false).len()) by {
        vstd::seq_lib::to_multiset_len(d.in_both@);
        vstd::seq_lib::to_multiset_len(common_pairs(main, other, compare_md5, false));
    }
    assert(d.different_content@.len() == common_pairs(main, other, compare_md5, true).len()) by {
        vstd::seq_lib::to_multiset_len(d.different_content@);
        vstd::seq_lib::to_multiset_len(common_pairs(main, other, compare_md5, true));
    }
    lemma_diff_counts(main, other, compare_md5);
    lemma_common_len(main, other, compare_md5);
    lemma_no_differences_iff_same_files(main, other, compare_md5);
    if !compare_md5 {
        lemma_without_checksums(main, other);
    }
}

/// The path of an entry, as bytes.
pub open spec fn entry_key() -> spec_fn(FileEntry) -> Seq<u8> {
    |e: FileEntry| text_bytes(e.relative_path@)
}

/// The path of the first entry of a pair, as bytes.
pub open spec fn pair_key() -> spec_fn((FileEntry, FileEntry)) -> Seq<u8> {
    |p: (FileEntry, FileEntry)| text_bytes(p.0.relative_path@)
}

/// Elements in the order of the paths that `key` gives them.
pub open spec fn sorted_by_key<T>(s: Seq<T>, key: spec_fn(T) -> Seq<u8>) -> bool {
    forall|i: int, j: int|
        0 <= i < j < s.len() ==> path_order(key(#[trigger] s[i]), key(#[trigger] s[j]))
            != PathOrder::Greater
}

/// No two elements have the same path under `key`.
pub open spec fn paths_distinct<T>(s: Seq<T>, key: spec_fn(T) -> Seq<u8>) -> bool {
    forall|i: int, j: int|
        0 <= i < s.len() && 0 <= j < s.len() && i != j ==> components(key(#[trigger] s[i]))
            != components(key(#[trigger] s[j]))
}

proof fn lemma_paths_distinct_transfer<T>(s: Seq<T>, t: Seq<T>, key: spec_fn(T) -> Seq<u8>)
    requires
        s.to_multiset() == t.to_multiset(),
        paths_distinct(t, key),
    ensures
        paths_distinct(s, key),
{
    assert(t.no_duplicates()) by {
        assert forall|i: int, j: int|
            0 <= i < t.len() && 0 <= j < t.len() && i != j implies t[i] != t[j] by {
            assert(components(key(t[i])) != components(key(t[j])));
        }
    }
    t.lemma_multiset_has_no_duplicates();
    s.lemma_multiset_has_no_duplicates_conv();
    assert forall|i: int, j: int|
        0 <= i < s.len() && 0 <= j < s.len() && i != j implies components(key(#[trigger] s[i]))
        != components(key(#[trigger] s[j])) by {
        assert(s[i] != s[j]);
        assert(s.contains(s[i]));
        assert(s.contains(s[j]));
        assert(t.to_multiset().count(s[i]) > 0);
        assert(t.to_multiset().count(s[j]) > 0);
        assert(t.contains(s[i]));
        assert(t.contains(s[j]));
        let p = choose|p: int| 0 <= p < t.len() && t[p] == s[i];
        let q = choose|q: int| 0 <= q < t.len() && t[q] == s[j];
        assert(p != q);
    }
}

proof fn lemma_sorted_unique<T>(a: Seq<T>, b: Seq<T>, key: spec_fn(T) -> Seq<u8>)
    requires
        sorted_by_key(a, key),
        sorted_by_key(b, key),
        a.to_multiset() == b.to_multiset(),
        paths_distinct(a, key),
    ensures
        a == b,
    decreases a.len(),
{
    vstd::seq_lib::to_multiset_len(a);
    vstd::seq_lib::to_multiset_len(b);
    if a.len() == 0 {
        assert(a =~= b);
    } else {
        let x = a[0];
        let y = b[0];
        assert(a.to_multiset().count(x) > 0 && b.contains(x));
        assert(b.to_multiset().count(y) > 0 && a.contains(y));
        let k = choose|k: int| 0 <= k < b.len() && b[k] == x;
        let l = choose|l: int| 0 <= l < a.len() && a[l] == y;
        lemma_path_order_laws(key(x), key(y), key(y));
        if k > 0 {
            assert(path_order(key(b[0]), key(b[k])) != PathOrder::Greater);
        }
        if l > 0 {
            assert(path_order(key(a[0]), key(a[l])) != PathOrder::Greater);
        }
        assert(components(key(x)) == components(key(y)));
        if l != 0 {
            assert(components(key(a[0])) != components(key(a[l])));
        }
        assert(x == y);
        let a1 = a.drop_first();
        let b1 = b.drop_first();
        assert(a.remove(0) =~= a1);
        assert(b.remove(0) =~= b1);
        vstd::seq_lib::to_multiset_remove(a, 0);
        vstd::seq_lib::to_multiset_remove(b, 0);
        assert forall|i: int, j: int| 0 <= i < j < a1.len() implies path_order(
            key(#[trigger] a1[i]),
            key(#[trigger] a1[j]),
        ) != PathOrder::Greater by {
            assert(a1[i] == a[i + 1] && a1[j] == a[j + 1]);
        }
        assert forall|i: int, j: int| 0 <= i < j < b1.len() implies path_order(
            key(#[trigger] b1[i]),
            key(#[trigger] b1[j]),
        ) != PathOrder::Greater by {
            assert(b1[i] == b[i + 1] && b1[j] == b[j + 1]);
        }
        assert forall|i: int, j: int|
            0 <= i < a1.len() && 0 <= j < a1.len() && i != j implies components(
            key(#[trigger] a1[i]),
        ) != components(key(#[trigger] a1[j])) by {
            assert(a1[i] == a[i + 1] && a1[j] == a[j + 1]);
        }
        lemma_sorted_unique(a1, b1, key);
        assert(a =~= b) by {
            assert forall|i: int| 0 <= i < a.len() implies a[i] == b[i] by {
                if i > 0 {
                    assert(a[i] == a1[i - 1] && b[i] == b1[i - 1]);
                }
            }
        }
    }
}

/// The entries of a map, in order.
pub open spec fn map_entries(items: FileMapView) -> Seq<FileEntry> {
    items.map_values(|p: (Seq<char>, FileEntry)| p.1)
}

proof fn lemma_missing_from_map(main: FileMapView, other: FileMapView)
    requires
        paths_distinct(map_entries(main), entry_key()),
    ensures
        paths_distinct(entries_missing_from(main, other), entry_key()),
        forall|x: FileEntry|
            entries_missing_from(main, other).contains(x) ==> exists|i: int|
                0 <= i < main.len() && #[trigger] main[i].1 == x,
    decreases main.len(),
{
    if main.len() > 0 {
        let rest = main.drop_last();
        let n = main.len() - 1;
        assert forall|i: int, j: int|
            0 <= i < rest.len() && 0 <= j < rest.len() && i != j implies components(
            entry_key()(#[trigger] map_entries(rest)[i]),
        ) != components(entry_key()(#[trigger] map_entries(rest)[j])) by {
            assert(map_entries(rest)[i] == map_entries(main)[i]);
            assert(map_entries(rest)[j] == map_entries(main)[j]);
        }
        lemma_missing_from_map(rest, other);
        let r = entries_missing_from(rest, other);
        if !has_key(other, main[n].0) {
            let s = r.push(main[n].1);
            assert forall|i: int, j: int|
                0 <= i < s.len() && 0 <= j < s.len() && i != j implies components(
                entry_key()(#[trigger] s[i]),
            ) != components(entry_key()(#[trigger] s[j])) by {
                if i < r.len() && j < r.len() {
                    assert(s[i] == r[i] && s[j] == r[j]);
                } else if i < r.len() {
                    assert(r.contains(r[i]));
                    let p = choose|p: int| 0 <= p < rest.len() && #[trigger] rest[p].1 == r[i];
                    assert(map_entries(main)[p] == r[i]);
                    assert(map_entries(main)[n] == s[j]);
                } else {
                    assert(r.contains(r[j]));
                    let p = choose|p: int| 0 <= p < rest.len() && #[trigger] rest[p].1 == r[j];
                    assert(map_entries(main)[p] == r[j]);
                    assert(map_entries(main)[n] == s[i]);
                }
            }
            assert forall|x: FileEntry| s.contains(x) implies exists|i: int|
                0 <= i < main.len() && #[trigger] main[i].1 == x by {
                let k = choose|k: int| 0 <= k < s.len() && s[k] == x;
                if k < r.len() {
                    assert(r.contains(r[k]));
                    let p = choose|p: int| 0 <= p < rest.len() && #[trigger] rest[p].1 == r[k];
                    assert(main[p].1 == x);
                } else {
                    assert(main[n].1 == x);
                }
            }
        } else {
            assert forall|x: FileEntry| r.contains(x) implies exists|i: int|
                0 <= i < main.len() && #[trigger] main[i].1 == x by {
                let p = choose|p: int| 0 <= p < rest.len() && #[trigger] rest[p].1 == x;
                assert(main[p].1 == x);
            }
        }
    }
}

proof fn lemma_common_from_map(main: FileMapView, other: FileMapView, compare_md5: bool, differing: bool)
    requires
        paths_distinct(map_entries(main), entry_key()),
    ensures
        paths_distinct(common_pairs(main, other, compare_md5, differing), pair_key()),
        forall|x: (FileEntry, FileEntry)|
            common_pairs(main, other, compare_md5, differing).contains(x) ==> exists|i: int|
                0 <= i < main.len() && #[trigger] main[i].1 == x.0,
    decreases main.len(),
{
    if main.len() > 0 {
        let rest = main.drop_last();
        let n = main.len() - 1;
        assert forall|i: int, j: int|
            0 <= i < rest.len() && 0 <= j < rest.len() && i != j implies components(
            entry_key()(#[trigger] map_entries(rest)[i]),
        ) != components(entry_key()(#[trigger] map_entries(rest)[j])) by {
            assert(map_entries(rest)[i] == map_entries(main)[i]);
            assert(map_entries(rest)[j] == map_entries(main)[j]);
        }
        lemma_common_from_map(rest, other, compare_md5, differing);
        let r = common_pairs(rest, other, compare_md5, differing);
        let s = common_pairs(main, other, compare_md5, differing);
        if s.len() != r.len() {
            assert(s == r.push((main[n].1, lookup(other, main[n].0).unwrap())));
            assert forall|i: int, j: int|
                0 <= i < s.len() && 0 <= j < s.len() && i != j implies components(
                pair_key()(#[trigger] s[i]),
            ) != components(pair_key()(#[trigger] s[j])) by {
                if i < r.len() && j < r.len() {
                    assert(s[i] == r[i] && s[j] == r[j]);
                } else if i < r.len() {
                    assert(r.contains(r[i]));
                    let p = choose|p: int| 0 <= p < rest.len() && #[trigger] rest[p].1 == r[i].0;
                    assert(map_entries(main)[p] == r[i].0);
                    assert(map_entries(main)[n] == s[j].0);
                } else {
                    assert(r.contains(r[j]));
                    let p = choose|p: int| 0 <= p < rest.len() && #[trigger] rest[p].1 == r[j].0;
                    assert(map_entries(main)[p] == r[j].0);
                    assert(map_entries(main)[n] == s[i].0);
                }
            }
            assert forall|x: (FileEntry, FileEntry)| s.contains(x) implies exists|i: int|
                0 <= i < main.len() && #[trigger] main[i].1 == x.0 by {
                let k = choose|k: int| 0 <= k < s.len() && s[k] == x;
                if k < r.len() {
                    assert(r.contains(r[k]));
                    let p = choose|p: int| 0 <= p < rest.len() && #[trigger] rest[p].1 == r[k].0;
                    assert(main[p].1 == x.0);
                } else {
                    assert(main[n].1 == x.0);
                }
            }
        } else {
            assert(s == r);
            assert forall|x: (FileEntry, FileEntry)| r.contains(x) implies exists|i: int|
                0 <= i < main.len() && #[trigger] main[i].1 == x.0 by {
                let p = choose|p: int| 0 <= p < rest.len() && #[trigger] rest[p].1 == x.0;
                assert(main[p].1 == x.0);
            }
        }
    }
}

/// Consistent output: when no two files of either map have the same relative
/// path, a comparison is fully determined by the two maps and the checksum
/// switch; in particular it does not depend on the order in which the maps
/// were filled.
pub proof fn lemma_diff_determined(
    d1: DirectoryDiff,
    d2: DirectoryDiff,
    main: FileMapView,
    other: FileMapView,
    compare_md5: bool,
)
    requires
        is_diff_of(d1, main, other, compare_md5),
        is_diff_of(d2, main, other, compare_md5),
        paths_distinct(map_entries(main), entry_key()),
        paths_distinct(map_entries(other), entry_key()),
    ensures
        d1.only_in_main@ == d2.only_in_main@,
        d1.only_in_compare@ == d2.only_in_compare@,
        d1.in_both@ == d2.in_both@,
        d1.different_content@ == d2.different_content@,
{
    lemma_missing_from_map(main, other);
    lemma_missing_from_map(other, main);
    lemma_common_from_map(main, other, compare_md5, false);
    lemma_common_from_map(main, other, compare_md5, true);
    lemma_paths_distinct_transfer(d1.only_in_main@, entries_missing_from(main, other), entry_key());
    lemma_paths_distinct_transfer(d1.only_in_compare@, entries_missing_from(other, main), entry_key());
    lemma_paths_distinct_transfer(d1.in_both@, common_pairs(main, other, compare_md5, false), pair_key());
    lemma_paths_distinct_transfer(
        d1.different_content@,
        common_pairs(main, other, compare_md5, true),
        pair_key(),
    );
    lemma_sorted_unique(d1.only_in_main@, d2.only_in_main@, entry_key());
    lemma_sorted_unique(d1.only_in_compare@, d2.only_in_compare@, entry_key());
    lemma_sorted_unique(d1.in_both@, d2.in_both@, pair_key());
    lemma_sorted_unique(d1.different_content@, d2.different_content@, pair_key());
}

/// Consistent output, whatever order the maps were filled in: two main maps
/// that hold the same key-entry pairs, and two compared maps that do, give
/// the same comparison, when no two files of a map have the same relative
/// path.
pub proof fn lemma_diff_independent_of_fill_order(
    d1: DirectoryDiff,
    d2: DirectoryDiff,
    main1: FileMapView,
    main2: FileMapView,
    other1: FileMapView,
    other2: FileMapView,
    compare_md5: bool,
)
    requires
        keys_sorted(main1),
        keys_sorted(main2),
        keys_sorted(other1),
        keys_sorted(other2),
        forall|x: (Seq<char>, FileEntry)| main1.contains(x) <==> main2.contains(x),
        forall|x: (Seq<char>, FileEntry)| other1.contains(x) <==> other2.contains(x),
        paths_distinct(map_entries(main1), entry_key()),
        paths_distinct(map_entries(other1), entry_key()),
        is_diff_of(d1, main1, other1, compare_md5),
        is_diff_of(d2, main2, other2, compare_md5),
    ensures
        d1.only_in_main@ == d2.only_in_main@,
        d1.only_in_compare@ == d2.only_in_compare@,
        d1.in_both@ == d2.in_both@,
        d1.different_content@ == d2.different_content@,
{
    lemma_same_pairs_same_contents(main1, main2);
    lemma_same_pairs_same_contents(other1, other2);
    lemma_diff_determined(d1, d2, main1, other1, compare_md5);
}

/// Pairs with their sides exchanged.
pub open spec fn swap_sides(s: Seq<(FileEntry, FileEntry)>) -> Seq<(FileEntry, FileEntry)> {
    s.map_values(|p: (FileEntry, FileEntry)| (p.1, p.0))
}

proof fn lemma_lookup_push(items: FileMapView, x: (Seq<char>, FileEntry), key: Seq<char>)
    requires
        keys_distinct(items.push(x)),
    ensures
        lookup(items.push(x), key) == if same_path(x.0, key) {
            Some(x.1)
        } else {
            lookup(items, key)
        },
{
    let s = items.push(x);
    lemma_has_key_push(items, x, key);
    if same_path(x.0, key) {
        assert(s[items.len() as int] == x);
        lemma_lookup_at(s, items.len() as int, key);
    } else if has_key(items, key) {
        let j = choose|j: int| 0 <= j < items.len() && same_path(#[trigger] items[j].0, key);
        assert(s[j] == items[j]);
        lemma_distinct_drop_last(s);
        assert(s.drop_last() == items);
        lemma_lookup_at(items, j, key);
        lemma_lookup_at(s, j, key);
    }
}

proof fn lemma_common_with_empty(main: FileMapView, other: FileMapView, compare_md5: bool, differing: bool)
    requires
        other.len() == 0,
    ensures
        common_pairs(main, other, compare_md5, differing) == Seq::<(FileEntry, FileEntry)>::empty(),
    decreases main.len(),
{
    if main.len() > 0 {
        lemma_common_with_empty(main.drop_last(), other, compare_md5, differing);
    }
}

proof fn lemma_common_push_other(
    main: FileMapView,
    other: FileMapView,
    x: (Seq<char>, FileEntry),
    compare_md5: bool,
    differing: bool,
) -> (pos: int)
    requires
        keys_distinct(main),
        keys_distinct(other.push(x)),
    ensures
        ({
            let before = common_pairs(main, other, compare_md5, differing);
            let after = common_pairs(main, other.push(x), compare_md5, differing);
            let y = (lookup(main, x.0).unwrap(), x.1);
            if has_key(main, x.0) && content_differs(compare_md5, y.0, y.1) == differing {
                0 <= pos <= before.len() && after == before.insert(pos, y)
            } else {
                after == before
            }
        }),
    decreases main.len(),
{
    let c = other.push(x);
    if main.len() == 0 {
        0
    } else {
        let rest = main.drop_last();
        let z = main.last();
        lemma_distinct_drop_last(main);
        assert(main == rest.push(z));
        let pos0 = lemma_common_push_other(rest, other, x, compare_md5, differing);
        lemma_has_key_push(other, x, z.0);
        lemma_lookup_push(other, x, z.0);
        lemma_has_key_push(rest, z, x.0);
        lemma_distinct_drop_last(c);
        assert(c.drop_last() == other);
        let before0 = common_pairs(rest, other, compare_md5, differing);
        let after0 = common_pairs(rest, c, compare_md5, differing);
        if same_path(z.0, x.0) {
            // z is the entry of main under x's path.
            lemma_lookup_at(main, main.len() - 1, x.0);
            if has_key(other, z.0) {
                let i = choose|i: int| 0 <= i < other.len() && same_path(#[trigger] other[i].0, z.0);
                assert(c[i] == other[i]);
                assert(!same_path(c[i].0, c[other.len() as int].0));
            }
            if has_key(rest, x.0) {
                let i = choose|i: int| 0 <= i < rest.len() && same_path(#[trigger] rest[i].0, x.0);
                assert(main[i] == rest[i]);
                assert(!same_path(main[i].0, main[main.len() - 1].0));
            }
            assert(after0 == before0);
            before0.len() as int
        } else {
            if has_key(rest, x.0) {
                let i = choose|i: int| 0 <= i < rest.len() && same_path(#[trigger] rest[i].0, x.0);
                assert(main[i] == rest[i]);
                lemma_lookup_at(rest, i, x.0);
                lemma_lookup_at(main, i, x.0);
            } else {
                assert(!has_key(main, x.0));
            }
            let y = (lookup(main, x.0).unwrap(), x.1);
            let w = (z.1, lookup(other, z.0).unwrap());
            if has_key(rest, x.0) && content_differs(compare_md5, y.0, y.1) == differing {
                if has_key(other, z.0) && content_differs(compare_md5, z.1, w.1) == differing {
                    assert(before0.insert(pos0, y).push(w) =~= before0.push(w).insert(pos0, y));
                }
                pos0
            } else {
                pos0
            }
        }
    }
}

/// Comparing the other way round: the pairs of entries under shared paths,
/// in either category, are the same pairs with their sides exchanged.
pub proof fn lemma_diff_swapped(main: FileMapView, other: FileMapView, compare_md5: bool, differing: bool)
    requires
        keys_distinct(main),
        keys_distinct(other),
    ensures
        swap_sides(common_pairs(main, other, compare_md5, differing)).to_multiset() == common_pairs(
            other,
            main,
            compare_md5,
            differing,
        ).to_multiset(),
    decreases other.len(),
{
    if other.len() == 0 {
        lemma_common_with_empty(main, other, compare_md5, differing);
        assert(swap_sides(common_pairs(main, other, compare_md5, differing)) =~= Seq::empty());
    } else {
        let rest = other.drop_last();
        let x = other.last();
        lemma_distinct_drop_last(other);
        assert(other == rest.push(x));
        lemma_diff_swapped(main, rest, compare_md5, differing);
        let pos = lemma_common_push_other(main, rest, x, compare_md5, differing);
        let before = common_pairs(main, rest, compare_md5, differing);
        let y = (lookup(main, x.0).unwrap(), x.1);
        if has_key(main, x.0) && content_differs(compare_md5, y.0, y.1) == differing {
            assert(content_differs(compare_md5, x.1, y.0) == differing);
            assert(swap_sides(before.insert(pos, y)) =~= swap_sides(before).insert(pos, (y.1, y.0)));
            vstd::seq_lib::to_multiset_insert(swap_sides(before), pos, (y.1, y.0));
            vstd::seq_lib::to_multiset_build(common_pairs(rest, main, compare_md5, differing), (x.1, y.0));
        } else {
            assert(!(has_key(main, x.0) && content_differs(compare_md5, x.1, y.0) == differing));
        }
    }
}

/// Every entry of a map is filed under its own relative path, as a scan
/// files them.
pub open spec fn filed_under_own_paths(items: FileMapView) -> bool {
    forall|i: int| 0 <= i < items.len() ==> (#[trigger] items[i]).1.relative_path@ == items[i].0
}

proof fn lemma_map_values_multiset<A, B>(a: Seq<A>, b: Seq<A>, f: spec_fn(A) -> B)
    requires
        a.to_multiset() == b.to_multiset(),
    ensures
        a.map_values(f).to_multiset() == b.map_values(f).to_multiset(),
    decreases a.len(),
{
    vstd::seq_lib::to_multiset_len(a);
    vstd::seq_lib::to_multiset_len(b);
    if a.len() == 0 {
        assert(a.map_values(f) =~= b.map_values(f));
    } else {
        let x = a.last();
        let a1 = a.drop_last();
        assert(a =~= a1.push(x));
        assert(a.to_multiset().count(x) > 0);
        assert(b.contains(x));
        let k = choose|k: int| 0 <= k < b.len() && b[k] == x;
        let b1 = b.remove(k);
        vstd::seq_lib::to_multiset_remove(b, k);
        assert(a1.to_multiset() =~= a.to_multiset().remove(x));
        lemma_map_values_multiset(a1, b1, f);
        let fb = b.map_values(f);
        assert(fb.remove(k) =~= b1.map_values(f));
        vstd::seq_lib::to_multiset_remove(fb, k);
        assert(a.map_values(f) =~= a1.map_values(f).push(f(x)));
        assert(fb.to_multiset().count(f(x)) > 0) by {
            assert(fb[k] == f(x));
            assert(fb.contains(f(x)));
        }
        assert(fb.to_multiset() =~= b1.map_values(f).to_multiset().insert(f(x)));
    }
}

proof fn lemma_common_pairs_same_path(
    main: FileMapView,
    other: FileMapView,
    compare_md5: bool,
    differing: bool,
)
    requires
        filed_under_own_paths(main),
        filed_under_own_paths(other),
    ensures
        forall|k: int|
            0 <= k < common_pairs(main, other, compare_md5, differing).len() ==> components(
                text_bytes((#[trigger] common_pairs(main, other, compare_md5, differing)[k]).0.relative_path@),
            ) == components(
                text_bytes(common_pairs(main, other, compare_md5, differing)[k].1.relative_path@),
            ),
    decreases main.len(),
{
    if main.len() > 0 {
        let rest = main.drop_last();
        assert forall|i: int| 0 <= i < rest.len() implies (#[trigger] rest[i]).1.relative_path@
            == rest[i].0 by {
            assert(rest[i] == main[i]);
        }
        lemma_common_pairs_same_path(rest, other, compare_md5, differing);
        let key = main.last().0;
        let r = common_pairs(rest, other, compare_md5, differing);
        let s = common_pairs(main, other, compare_md5, differing);
        if s.len() != r.len() {
            assert(has_key(other, key));
            let j = choose|j: int| 0 <= j < other.len() && same_path(#[trigger] other[j].0, key);
            assert(lookup(other, key).unwrap() == other[j].1);
            assert(main[main.len() - 1].1.relative_path@ == key);
            assert forall|k: int| 0 <= k < s.len() implies components(
                text_bytes((#[trigger] s[k]).0.relative_path@),
            ) == components(text_bytes(s[k].1.relative_path@)) by {
                if k < r.len() {
                    assert(s[k] == r[k]);
                }
            }
        }
    }
}

/// Comparing the other way round: when every entry is filed under its own
/// path and no two keys of a map are the same path, the comparison of `other`
/// with `main` lists as only in main what the comparison of `main` with
/// `other` lists as only in compare, and the other way round, and holds the
/// same pairs, in both categories, with their sides exchanged, in the same
/// order.
pub proof fn lemma_diff_swapped_report(
    d: DirectoryDiff,
    s: DirectoryDiff,
    main: FileMapView,
    other: FileMapView,
    compare_md5: bool,
)
    requires
        is_diff_of(d, main, other, compare_md5),
        is_diff_of(s, other, main, compare_md5),
        keys_distinct(main),
        keys_distinct(other),
        filed_under_own_paths(main),
        filed_under_own_paths(other),
    ensures
        s.only_in_main@ == d.only_in_compare@,
        s.only_in_compare@ == d.only_in_main@,
        s.in_both@ == swap_sides(d.in_both@),
        s.different_content@ == swap_sides(d.different_content@),
{
    lemma_same_missing(s.only_in_main@, d.only_in_compare@, other, main);
    lemma_same_missing(s.only_in_compare@, d.only_in_main@, main, other);
    lemma_swapped_pairs(d.in_both@, s.in_both@, main, other, compare_md5, false);
    lemma_swapped_pairs(d.different_content@, s.different_content@, main, other, compare_md5, true);
}

proof fn lemma_same_missing(x: Seq<FileEntry>, y: Seq<FileEntry>, main: FileMapView, other: FileMapView)
    requires
        x.to_multiset() == entries_missing_from(main, other).to_multiset(),
        y.to_multiset() == entries_missing_from(main, other).to_multiset(),
        entries_sorted(x),
        entries_sorted(y),
        keys_distinct(main),
        filed_under_own_paths(main),
    ensures
        x == y,
{
    lemma_paths_distinct_when_filed(main);
    lemma_missing_from_map(main, other);
    lemma_paths_distinct_transfer(x, entries_missing_from(main, other), entry_key());
    lemma_sorted_unique(x, y, entry_key());
}

proof fn lemma_paths_distinct_when_filed(items: FileMapView)
    requires
        keys_distinct(items),
        filed_under_own_paths(items),
    ensures
        paths_distinct(map_entries(items), entry_key()),
{
    assert forall|i: int, j: int|
        0 <= i < map_entries(items).len() && 0 <= j < map_entries(items).len() && i != j implies components(
        entry_key()(#[trigger] map_entries(items)[i]),
    ) != components(entry_key()(#[trigger] map_entries(items)[j])) by {
        assert(map_entries(items)[i] == items[i].1);
        assert(map_entries(items)[j] == items[j].1);
        assert(!same_path(items[i].0, items[j].0));
    }
}

proof fn lemma_swapped_pairs(
    dp: Seq<(FileEntry, FileEntry)>,
    sp: Seq<(FileEntry, FileEntry)>,
    main: FileMapView,
    other: FileMapView,
    compare_md5: bool,
    differing: bool,
)
    requires
        dp.to_multiset() == common_pairs(main, other, compare_md5, differing).to_multiset(),
        sp.to_multiset() == common_pairs(other, main, compare_md5, differing).to_multiset(),
        pairs_sorted(dp),
        pairs_sorted(sp),
        keys_distinct(main),
        keys_distinct(other),
        filed_under_own_paths(main),
        filed_under_own_paths(other),
    ensures
        sp == swap_sides(dp),
{
    let cp = common_pairs(main, other, compare_md5, differing);
    let sw = swap_sides(dp);
    lemma_paths_distinct_when_filed(main);
    lemma_paths_distinct_when_filed(other);
    lemma_common_from_map(other, main, compare_md5, differing);
    lemma_paths_distinct_transfer(sp, common_pairs(other, main, compare_md5, differing), pair_key());
    lemma_common_from_map(main, other, compare_md5, differing);
    lemma_paths_distinct_transfer(dp, cp, pair_key());
    lemma_common_pairs_same_path(main, other, compare_md5, differing);
    // Both sides of each pair of `dp` are the same path.
    assert forall|k: int| 0 <= k < dp.len() implies components(
        text_bytes((#[trigger] dp[k]).1.relative_path@),
    ) == components(text_bytes(dp[k].0.relative_path@)) by {
        assert(dp.contains(dp[k]));
        assert(dp.to_multiset().count(dp[k]) > 0);
        assert(cp.contains(dp[k]));
        let q = choose|q: int| 0 <= q < cp.len() && cp[q] == dp[k];
        assert(components(text_bytes(cp[q].0.relative_path@)) == components(
            text_bytes(cp[q].1.relative_path@),
        ));
    }
    assert forall|i: int, j: int| 0 <= i < j < sw.len() implies path_order(
        pair_key()(#[trigger] sw[i]),
        pair_key()(#[trigger] sw[j]),
    ) != PathOrder::Greater by {
        assert(sw[i] == (dp[i].1, dp[i].0));
        assert(sw[j] == (dp[j].1, dp[j].0));
        assert(item_order(dp[i], dp[j]) != PathOrder::Greater);
        assert(components(text_bytes(dp[i].1.relative_path@)) == components(
            text_bytes(dp[i].0.relative_path@),
        ));
        assert(components(text_bytes(dp[j].1.relative_path@)) == components(
            text_bytes(dp[j].0.relative_path@),
        ));
    }
    assert forall|i: int, j: int|
        0 <= i < sw.len() && 0 <= j < sw.len() && i != j implies components(
        pair_key()(#[trigger] sw[i]),
    ) != components(pair_key()(#[trigger] sw[j])) by {
        assert(sw[i] == (dp[i].1, dp[i].0));
        assert(sw[j] == (dp[j].1, dp[j].0));
        assert(components(text_bytes(dp[i].1.relative_path@)) == components(
            text_bytes(dp[i].0.relative_path@),
        ));
        assert(components(text_bytes(dp[j].1.relative_path@)) == components(
            text_bytes(dp[j].0.relative_path@),
        ));
        assert(components(pair_key()(dp[i])) != components(pair_key()(dp[j])));
    }
    lemma_diff_swapped(main, other, compare_md5, differing);
    lemma_map_values_multiset(dp, cp, |p: (FileEntry, FileEntry)| (p.1, p.0));
    lemma_sorted_unique(sp, sw, pair_key());
}

/// The first entries of pairs.
pub open spec fn first_entries_of(s: Seq<(FileEntry, FileEntry)>) -> Seq<FileEntry> {
    s.map_values(|p: (FileEntry, FileEntry)| p.0)
}

/// No entry of `a` has the same path as an entry of `b`.
pub open spec fn paths_apart(a: Seq<FileEntry>, b: Seq<FileEntry>) -> bool {
    forall|i: int, j: int|
        0 <= i < a.len() && 0 <= j < b.len() ==> !same_path(
            (#[trigger] a[i]).relative_path@,
            (#[trigger] b[j]).relative_path@,
        )
}

proof fn lemma_missing_members(main: FileMapView, other: FileMapView)
    ensures
        forall|x: FileEntry|
            entries_missing_from(main, other).contains(x) ==> exists|i: int|
                0 <= i < main.len() && #[trigger] main[i].1 == x && !has_key(other, main[i].0),
    decreases main.len(),
{
    if main.len() > 0 {
        let rest = main.drop_last();
        let n = main.len() - 1;
        lemma_missing_members(rest, other);
        let r = entries_missing_from(rest, other);
        let s = entries_missing_from(main, other);
        assert forall|x: FileEntry| s.contains(x) implies exists|i: int|
            0 <= i < main.len() && #[trigger] main[i].1 == x && !has_key(other, main[i].0) by {
            let k = choose|k: int| 0 <= k < s.len() && s[k] == x;
            if k < r.len() {
                assert(s[k] == r[k]);
                assert(r.contains(x));
                let p = choose|p: int|
                    0 <= p < rest.len() && #[trigger] rest[p].1 == x && !has_key(other, rest[p].0);
                assert(main[p] == rest[p]);
            } else {
                assert(main[n].1 == x);
            }
        }
    }
}

proof fn lemma_common_members(main: FileMapView, other: FileMapView, compare_md5: bool, differing: bool)
    ensures
        forall|q: (FileEntry, FileEntry)|
            common_pairs(main, other, compare_md5, differing).contains(q) ==> exists|i: int|
                0 <= i < main.len() && #[trigger] main[i].1 == q.0 && has_key(other, main[i].0)
                    && q.1 == lookup(other, main[i].0).unwrap() && content_differs(
                    compare_md5,
                    q.0,
                    q.1,
                ) == differing,
    decreases main.len(),
{
    if main.len() > 0 {
        let rest = main.drop_last();
        let n = main.len() - 1;
        lemma_common_members(rest, other, compare_md5, differing);
        let r = common_pairs(rest, other, compare_md5, differing);
        let s = common_pairs(main, other, compare_md5, differing);
        assert forall|q: (FileEntry, FileEntry)| s.contains(q) implies exists|i: int|
            0 <= i < main.len() && #[trigger] main[i].1 == q.0 && has_key(other, main[i].0) && q.1
                == lookup(other, main[i].0).unwrap() && content_differs(compare_md5, q.0, q.1)
                == differing by {
            let k = choose|k: int| 0 <= k < s.len() && s[k] == q;
            if k < r.len() {
                assert(s[k] == r[k]);
                assert(r.contains(q));
                let p = choose|p: int|
                    0 <= p < rest.len() && #[trigger] rest[p].1 == q.0 && has_key(other, rest[p].0)
                        && q.1 == lookup(other, rest[p].0).unwrap() && content_differs(
                        compare_md5,
                        q.0,
                        q.1,
                    ) == differing;
                assert(main[p] == rest[p]);
            } else {
                assert(main[n].1 == q.0);
            }
        }
    }
}

proof fn lemma_apart_missing_common(
    xs: Seq<FileEntry>,
    ps: Seq<(FileEntry, FileEntry)>,
    main: FileMapView,
    other: FileMapView,
    compare_md5: bool,
    differing: bool,
)
    requires
        xs.to_multiset() == entries_missing_from(main, other).to_multiset(),
        ps.to_multiset() == common_pairs(main, other, compare_md5, differing).to_multiset(),
        filed_under_own_paths(main),
    ensures
        paths_apart(xs, first_entries_of(ps)),
{
    lemma_missing_members(main, other);
    lemma_common_members(main, other, compare_md5, differing);
    let fs = first_entries_of(ps);
    assert forall|i: int, j: int| 0 <= i < xs.len() && 0 <= j < fs.len() implies !same_path(
        (#[trigger] xs[i]).relative_path@,
        (#[trigger] fs[j]).relative_path@,
    ) by {
        assert(xs.contains(xs[i]) && xs.to_multiset().count(xs[i]) > 0);
        assert(entries_missing_from(main, other).contains(xs[i]));
        assert(ps.contains(ps[j]) && ps.to_multiset().count(ps[j]) > 0);
        assert(common_pairs(main, other, compare_md5, differing).contains(ps[j]));
        let a = choose|a: int|
            0 <= a < main.len() && #[trigger] main[a].1 == xs[i] && !has_key(other, main[a].0);
        let b = choose|b: int|
            0 <= b < main.len() && #[trigger] main[b].1 == ps[j].0 && has_key(other, main[b].0)
                && ps[j].1 == lookup(other, main[b].0).unwrap() && content_differs(
                compare_md5,
                ps[j].0,
                ps[j].1,
            ) == differing;
        assert(fs[j] == ps[j].0);
        if same_path(xs[i].relative_path@, fs[j].relative_path@) {
            assert(main[a].0 == xs[i].relative_path@);
            assert(main[b].0 == fs[j].relative_path@);
            let l = choose|l: int| 0 <= l < other.len() && same_path(#[trigger] other[l].0, main[b].0);
            assert(same_path(other[l].0, main[a].0));
            assert(has_key(other, main[a].0));
        }
    }
}

proof fn lemma_apart_main_other(
    xs: Seq<FileEntry>,
    ys: Seq<FileEntry>,
    main: FileMapView,
    other: FileMapView,
)
    requires
        forall|x: FileEntry| #[trigger] xs.contains(x) ==> exists|i: int| 0 <= i < main.len() && #[trigger] main[i].1 == x,
        ys.to_multiset() == entries_missing_from(other, main).to_multiset(),
        filed_under_own_paths(main),
        filed_under_own_paths(other),
    ensures
        paths_apart(xs, ys),
{
    lemma_missing_members(other, main);
    assert forall|i: int, j: int| 0 <= i < xs.len() && 0 <= j < ys.len() implies !same_path(
        (#[trigger] xs[i]).relative_path@,
        (#[trigger] ys[j]).relative_path@,
    ) by {
        assert(xs.contains(xs[i]));
        assert(ys.contains(ys[j]) && ys.to_multiset().count(ys[j]) > 0);
        assert(entries_missing_from(other, main).contains(ys[j]));
        let a = choose|a: int| 0 <= a < main.len() && #[trigger] main[a].1 == xs[i];
        let b = choose|b: int|
            0 <= b < other.len() && #[trigger] other[b].1 == ys[j] && !has_key(main, other[b].0);
        if same_path(xs[i].relative_path@, ys[j].relative_path@) {
            assert(main[a].0 == xs[i].relative_path@);
            assert(other[b].0 == ys[j].relative_path@);
            assert(same_path(main[a].0, other[b].0));
            assert(has_key(main, other[b].0));
        }
    }
}

proof fn lemma_apart_common_common(
    ps: Seq<(FileEntry, FileEntry)>,
    qs: Seq<(FileEntry, FileEntry)>,
    main: FileMapView,
    other: FileMapView,
    compare_md5: bool,
)
    requires
        ps.to_multiset() == common_pairs(main, other, compare_md5, false).to_multiset(),
        qs.to_multiset() == common_pairs(main, other, compare_md5, true).to_multiset(),
        keys_distinct(main),
        filed_under_own_paths(main),
    ensures
        paths_apart(first_entries_of(ps), first_entries_of(qs)),
{
    lemma_common_members(main, other, compare_md5, false);
    lemma_common_members(main, other, compare_md5, true);
    let fp = first_entries_of(ps);
    let fq = first_entries_of(qs);
    assert forall|i: int, j: int| 0 <= i < fp.len() && 0 <= j < fq.len() implies !same_path(
        (#[trigger] fp[i]).relative_path@,
        (#[trigger] fq[j]).relative_path@,
    ) by {
        assert(ps.contains(ps[i]) && ps.to_multiset().count(ps[i]) > 0);
        assert(common_pairs(main, other, compare_md5, false).contains(ps[i]));
        assert(qs.contains(qs[j]) && qs.to_multiset().count(qs[j]) > 0);
        assert(common_pairs(main, other, compare_md5, true).contains(qs[j]));
        let a = choose|a: int|
            0 <= a < main.len() && #[trigger] main[a].1 == ps[i].0 && has_key(other, main[a].0)
                && ps[i].1 == lookup(other, main[a].0).unwrap() && content_differs(
                compare_md5,
                ps[i].0,
                ps[i].1,
            ) == false;
        let b = choose|b: int|
            0 <= b < main.len() && #[trigger] main[b].1 == qs[j].0 && has_key(other, main[b].0)
                && qs[j].1 == lookup(other, main[b].0).unwrap() && content_differs(
                compare_md5,
                qs[j].0,
                qs[j].1,
            ) == true;
        assert(fp[i] == ps[i].0 && fq[j] == qs[j].0);
        if same_path(fp[i].relative_path@, fq[j].relative_path@) {
            assert(main[a].0 == fp[i].relative_path@);
            assert(main[b].0 == fq[j].relative_path@);
            assert(same_path(main[a].0, main[b].0));
            assert(a == b);
        }
    }
}

proof fn lemma_pairs_share_paths(
    ps: Seq<(FileEntry, FileEntry)>,
    main: FileMapView,
    other: FileMapView,
    compare_md5: bool,
    differing: bool,
)
    requires
        ps.to_multiset() == common_pairs(main, other, compare_md5, differing).to_multiset(),
        filed_under_own_paths(main),
        filed_under_own_paths(other),
    ensures
        forall|k: int| 0 <= k < ps.len() ==> same_path((#[trigger] ps[k]).0.relative_path@, ps[k].1.relative_path@),
{
    let cp = common_pairs(main, other, compare_md5, differing);
    lemma_common_pairs_same_path(main, other, compare_md5, differing);
    assert forall|k: int| 0 <= k < ps.len() implies same_path(
        (#[trigger] ps[k]).0.relative_path@,
        ps[k].1.relative_path@,
    ) by {
        assert(ps.contains(ps[k]) && ps.to_multiset().count(ps[k]) > 0);
        assert(cp.contains(ps[k]));
        let q = choose|q: int| 0 <= q < cp.len() && cp[q] == ps[k];
        assert(components(text_bytes(cp[q].0.relative_path@)) == components(
            text_bytes(cp[q].1.relative_path@),
        ));
    }
}

proof fn lemma_entries_of_main(
    xs: Seq<FileEntry>,
    ps: Seq<(FileEntry, FileEntry)>,
    main: FileMapView,
    other: FileMapView,
    compare_md5: bool,
    differing: bool,
)
    requires
        xs.to_multiset() == entries_missing_from(main, other).to_multiset(),
        ps.to_multiset() == common_pairs(main, other, compare_md5, differing).to_multiset(),
    ensures
        forall|x: FileEntry| #[trigger] xs.contains(x) ==> exists|i: int| 0 <= i < main.len() && #[trigger] main[i].1 == x,
        forall|x: FileEntry| #[trigger] first_entries_of(ps).contains(x) ==> exists|i: int| 0 <= i < main.len() && #[trigger] main[i].1 == x,
{
    lemma_missing_members(main, other);
    lemma_common_members(main, other, compare_md5, differing);
    assert forall|x: FileEntry| #[trigger] xs.contains(x) implies exists|i: int| 0 <= i < main.len() && #[trigger] main[i].1 == x by {
        assert(xs.to_multiset().count(x) > 0);
        assert(entries_missing_from(main, other).contains(x));
    }
    assert forall|x: FileEntry| #[trigger] first_entries_of(ps).contains(x) implies exists|i: int| 0 <= i < main.len() && #[trigger] main[i].1 == x by {
        let k = choose|k: int| 0 <= k < first_entries_of(ps).len() && first_entries_of(ps)[k] == x;
        assert(ps[k].0 == x);
        assert(ps.contains(ps[k]) && ps.to_multiset().count(ps[k]) > 0);
        assert(common_pairs(main, other, compare_md5, differing).contains(ps[k]));
    }
}

/// What a report lists, when every entry is filed under its own path and no
/// two keys of a map are the same path: the two entries of each pair are
/// under one path, no path is listed twice in a category, and no path is
/// listed in two categories.
pub proof fn lemma_report_paths(d: DirectoryDiff, main: FileMapView, other: FileMapView, compare_md5: bool)
    requires
        is_diff_of(d, main, other, compare_md5),
        keys_distinct(main),
        keys_distinct(other),
        filed_under_own_paths(main),
        filed_under_own_paths(other),
    ensures
        forall|k: int|
            0 <= k < d.in_both@.len() ==> same_path(
                (#[trigger] d.in_both@[k]).0.relative_path@,
                d.in_both@[k].1.relative_path@,
            ),
        forall|k: int|
            0 <= k < d.different_content@.len() ==> same_path(
                (#[trigger] d.different_content@[k]).0.relative_path@,
                d.different_content@[k].1.relative_path@,
            ),
        paths_distinct(d.only_in_main@, entry_key()),
        paths_distinct(d.only_in_compare@, entry_key()),
        paths_distinct(d.in_both@, pair_key()),
        paths_distinct(d.different_content@, pair_key()),
        paths_apart(d.only_in_main@, d.only_in_compare@),
        paths_apart(d.only_in_main@, first_entries_of(d.in_both@)),
        paths_apart(d.only_in_main@, first_entries_of(d.different_content@)),
        paths_apart(first_entries_of(d.in_both@), d.only_in_compare@),
        paths_apart(first_entries_of(d.different_content@), d.only_in_compare@),
        paths_apart(first_entries_of(d.in_both@), first_entries_of(d.different_content@)),
{
    lemma_pairs_share_paths(d.in_both@, main, other, compare_md5, false);
    lemma_pairs_share_paths(d.different_content@, main, other, compare_md5, true);
    lemma_paths_distinct_when_filed(main);
    lemma_paths_distinct_when_filed(other);
    lemma_missing_from_map(main, other);
    lemma_missing_from_map(other, main);
    lemma_common_from_map(main, other, compare_md5, false);
    lemma_common_from_map(main, other, compare_md5, true);
    lemma_paths_distinct_transfer(d.only_in_main@, entries_missing_from(main, other), entry_key());
    lemma_paths_distinct_transfer(d.only_in_compare@, entries_missing_from(other, main), entry_key());
    lemma_paths_distinct_transfer(d.in_both@, common_pairs(main, other, compare_md5, false), pair_key());
    lemma_paths_distinct_transfer(
        d.different_content@,
        common_pairs(main, other, compare_md5, true),
        pair_key(),
    );
    lemma_apart_missing_common(d.only_in_main@, d.in_both@, main, other, compare_md5, false);
    lemma_apart_missing_common(d.only_in_main@, d.different_content@, main, other, compare_md5, true);
    lemma_apart_common_common(d.in_both@, d.different_content@, main, other, compare_md5);
    lemma_entries_of_main(d.only_in_main@, d.in_both@, main, other, compare_md5, false);
    lemma_entries_of_main(d.only_in_main@, d.different_content@, main, other, compare_md5, true);
    lemma_apart_main_other(d.only_in_main@, d.only_in_compare@, main, other);
    lemma_apart_main_other(first_entries_of(d.in_both@), d.only_in_compare@, main, other);
    lemma_apart_main_other(first_entries_of(d.different_content@), d.only_in_compare@, main, other);
}

/// How checksums sort the shared paths: a pair is listed under different
/// content only when checksums are compared, both entries carry one, and the
/// two checksum strings differ; a pair listed among the common files never
/// has all three. So with checksum comparison on and both checksums present,
/// a shared path is under different content exactly when its checksums
/// differ as whole strings.
pub proof fn lemma_checksums_decide_content(
    d: DirectoryDiff,
    main: FileMapView,
    other: FileMapView,
    compare_md5: bool,
)
    requires
        is_diff_of(d, main, other, compare_md5),
    ensures
        forall|k: int|
            0 <= k < d.different_content@.len() ==> {
                let p = #[trigger] d.different_content@[k];
                &&& compare_md5
                &&& p.0.md5 is Some
                &&& p.1.md5 is Some
                &&& p.0.md5->0@ != p.1.md5->0@
            },
        forall|k: int|
            0 <= k < d.in_both@.len() ==> {
                let p = #[trigger] d.in_both@[k];
                !(compare_md5 && p.0.md5 is Some && p.1.md5 is Some && p.0.md5->0@ != p.1.md5->0@)
            },
{
    lemma_common_members(main, other, compare_md5, true);
    lemma_common_members(main, other, compare_md5, false);
    let dc = d.different_content@;
    let ib = d.in_both@;
    assert forall|k: int| 0 <= k < dc.len() implies {
        let p = #[trigger] dc[k];
        &&& compare_md5
        &&& p.0.md5 is Some
        &&& p.1.md5 is Some
        &&& p.0.md5->0@ != p.1.md5->0@
    } by {
        assert(dc.contains(dc[k]) && dc.to_multiset().count(dc[k]) > 0);
        assert(common_pairs(main, other, compare_md5, true).contains(dc[k]));
    }
    assert forall|k: int| 0 <= k < ib.len() implies {
        let p = #[trigger] ib[k];
        !(compare_md5 && p.0.md5 is Some && p.1.md5 is Some && p.0.md5->0@ != p.1.md5->0@)
    } by {
        assert(ib.contains(ib[k]) && ib.to_multiset().count(ib[k]) > 0);
        assert(common_pairs(main, other, compare_md5, false).contains(ib[k]));
    }
}

proof fn lemma_missing_complete(main: FileMapView, other: FileMapView)
    ensures
        forall|i: int|
            0 <= i < main.len() && !has_key(other, (#[trigger] main[i]).0) ==> entries_missing_from(
                main,
                other,
            ).contains(main[i].1),
    decreases main.len(),
{
    if main.len() > 0 {
        let rest = main.drop_last();
        lemma_missing_complete(rest, other);
        let r = entries_missing_from(rest, other);
        let s = entries_missing_from(main, other);
        assert forall|i: int|
            0 <= i < main.len() && !has_key(other, (#[trigger] main[i]).0) implies s.contains(
            main[i].1,
        ) by {
            if i < rest.len() {
                assert(rest[i] == main[i]);
                assert(r.contains(main[i].1));
                let k = choose|k: int| 0 <= k < r.len() && r[k] == main[i].1;
                assert(s[k] == r[k]);
            } else {
                assert(s == r.push(main[i].1));
                assert(s[r.len() as int] == main[i].1);
            }
        }
    }
}

proof fn lemma_common_complete(main: FileMapView, other: FileMapView, compare_md5: bool, differing: bool)
    ensures
        forall|i: int|
            0 <= i < main.len() && has_key(other, (#[trigger] main[i]).0) && content_differs(
                compare_md5,
                main[i].1,
                lookup(other, main[i].0).unwrap(),
            ) == differing ==> common_pairs(main, other, compare_md5, differing).contains(
                (main[i].1, lookup(other, main[i].0).unwrap()),
            ),
    decreases main.len(),
{
    if main.len() > 0 {
        let rest = main.drop_last();
        lemma_common_complete(rest, other, compare_md5, differing);
        let r = common_pairs(rest, other, compare_md5, differing);
        let s = common_pairs(main, other, compare_md5, differing);
        assert forall|i: int|
            0 <= i < main.len() && has_key(other, (#[trigger] main[i]).0) && content_differs(
                compare_md5,
                main[i].1,
                lookup(other, main[i].0).unwrap(),
            ) == differing implies s.contains((main[i].1, lookup(other, main[i].0).unwrap())) by {
            let q = (main[i].1, lookup(other, main[i].0).unwrap());
            if i < rest.len() {
                assert(rest[i] == main[i]);
                assert(r.contains(q));
                let k = choose|k: int| 0 <= k < r.len() && r[k] == q;
                assert(s[k] == r[k]);
            } else {
                assert(s == r.push(q));
                assert(s[r.len() as int] == q);
            }
        }
    }
}

/// Each pair is an entry of the main map under a path that the other map
/// has, with the other map's entry under that path.
pub open spec fn pairs_from_maps(
    ps: Seq<(FileEntry, FileEntry)>,
    main: FileMapView,
    other: FileMapView,
) -> bool {
    forall|k: int|
        0 <= k < ps.len() ==> exists|i: int|
            0 <= i < main.len() && main[i].1 == (#[trigger] ps[k]).0 && has_key(other, main[i].0)
                && ps[k].1 == lookup(other, main[i].0).unwrap()
}

proof fn lemma_pairs_from_maps(
    ps: Seq<(FileEntry, FileEntry)>,
    main: FileMapView,
    other: FileMapView,
    compare_md5: bool,
    differing: bool,
)
    requires
        ps.to_multiset() == common_pairs(main, other, compare_md5, differing).to_multiset(),
    ensures
        pairs_from_maps(ps, main, other),
{
    lemma_common_members(main, other, compare_md5, differing);
    assert forall|k: int| 0 <= k < ps.len() implies exists|i: int|
        0 <= i < main.len() && main[i].1 == (#[trigger] ps[k]).0 && has_key(other, main[i].0)
            && ps[k].1 == lookup(other, main[i].0).unwrap() by {
        assert(ps.contains(ps[k]) && ps.to_multiset().count(ps[k]) > 0);
        assert(common_pairs(main, other, compare_md5, differing).contains(ps[k]));
        let i = choose|i: int|
            0 <= i < main.len() && #[trigger] main[i].1 == ps[k].0 && has_key(other, main[i].0)
                && ps[k].1 == lookup(other, main[i].0).unwrap() && content_differs(
                compare_md5,
                ps[k].0,
                ps[k].1,
            ) == differing;
        assert(main[i].1 == ps[k].0);
    }
}

/// Where the listed files come from: each file only in main is an entry of
/// the main map under a path that the other map does not have, and each file
/// only in compare the same the other way round; each pair, common or of
/// different content, is an entry of the main map under a path that the
/// other map has, with the other map's entry under that path.
pub proof fn lemma_listed_files_come_from_maps(
    d: DirectoryDiff,
    main: FileMapView,
    other: FileMapView,
    compare_md5: bool,
)
    requires
        is_diff_of(d, main, other, compare_md5),
    ensures
        forall|k: int|
            0 <= k < d.only_in_main@.len() ==> exists|i: int|
                0 <= i < main.len() && main[i].1 == #[trigger] d.only_in_main@[k] && !has_key(
                    other,
                    main[i].0,
                ),
        forall|k: int|
            0 <= k < d.only_in_compare@.len() ==> exists|j: int|
                0 <= j < other.len() && other[j].1 == #[trigger] d.only_in_compare@[k] && !has_key(
                    main,
                    other[j].0,
                ),
        pairs_from_maps(d.in_both@, main, other),
        pairs_from_maps(d.different_content@, main, other),
{
    lemma_missing_members(main, other);
    lemma_missing_members(other, main);
    let om = d.only_in_main@;
    let oc = d.only_in_compare@;
    assert forall|k: int| 0 <= k < om.len() implies exists|i: int|
        0 <= i < main.len() && main[i].1 == #[trigger] om[k] && !has_key(other, main[i].0) by {
        assert(om.contains(om[k]) && om.to_multiset().count(om[k]) > 0);
        assert(entries_missing_from(main, other).contains(om[k]));
    }
    assert forall|k: int| 0 <= k < oc.len() implies exists|j: int|
        0 <= j < other.len() && other[j].1 == #[trigger] oc[k] && !has_key(main, other[j].0) by {
        assert(oc.contains(oc[k]) && oc.to_multiset().count(oc[k]) > 0);
        assert(entries_missing_from(other, main).contains(oc[k]));
    }
    lemma_pairs_from_maps(d.in_both@, main, other, compare_md5, false);
    lemma_pairs_from_maps(d.different_content@, main, other, compare_md5, true);
}

/// Every file is listed: each entry of the main map under a path that the
/// other map has is paired with the other's entry among the common files or
/// the files of different content, each other entry of the main map is only
/// in main, and each entry of the other map under a path that the main map
/// does not have is only in compare.
pub proof fn lemma_every_file_listed(
    d: DirectoryDiff,
    main: FileMapView,
    other: FileMapView,
    compare_md5: bool,
)
    requires
        is_diff_of(d, main, other, compare_md5),
    ensures
        forall|i: int|
            0 <= i < main.len() && has_key(other, (#[trigger] main[i]).0) ==> d.in_both@.contains(
                (main[i].1, lookup(other, main[i].0).unwrap()),
            ) || d.different_content@.contains((main[i].1, lookup(other, main[i].0).unwrap())),
        forall|i: int|
            0 <= i < main.len() && !has_key(other, (#[trigger] main[i]).0)
                ==> d.only_in_main@.contains(main[i].1),
        forall|j: int|
            0 <= j < other.len() && !has_key(main, (#[trigger] other[j]).0)
                ==> d.only_in_compare@.contains(other[j].1),
{
    lemma_missing_complete(main, other);
    lemma_missing_complete(other, main);
    lemma_common_complete(main, other, compare_md5, false);
    lemma_common_complete(main, other, compare_md5, true);
    let om = d.only_in_main@;
    let oc = d.only_in_compare@;
    let ib = d.in_both@;
    let dc = d.different_content@;
    assert forall|i: int| 0 <= i < main.len() && has_key(other, (#[trigger] main[i]).0) implies ib.contains(
        (main[i].1, lookup(other, main[i].0).unwrap()),
    ) || dc.contains((main[i].1, lookup(other, main[i].0).unwrap())) by {
        let q = (main[i].1, lookup(other, main[i].0).unwrap());
        if content_differs(compare_md5, q.0, q.1) {
            assert(common_pairs(main, other, compare_md5, true).contains(q));
            assert(common_pairs(main, other, compare_md5, true).to_multiset().count(q) > 0);
            assert(dc.to_multiset().count(q) > 0);
        } else {
            assert(common_pairs(main, other, compare_md5, false).contains(q));
            assert(common_pairs(main, other, compare_md5, false).to_multiset().count(q) > 0);
            assert(ib.to_multiset().count(q) > 0);
        }
    }
    assert forall|i: int| 0 <= i < main.len() && !has_key(other, (#[trigger] main[i]).0) implies om.contains(
        main[i].1,
    ) by {
        assert(entries_missing_from(main, other).to_multiset().count(main[i].1) > 0);
        assert(om.to_multiset().count(main[i].1) > 0);
    }
    assert forall|j: int| 0 <= j < other.len() && !has_key(main, (#[trigger] other[j]).0) implies oc.contains(
        other[j].1,
    ) by {
        assert(entries_missing_from(other, main).to_multiset().count(other[j].1) > 0);
        assert(oc.to_multiset().count(other[j].1) > 0);
    }
}

} // verus!
