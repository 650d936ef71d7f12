//! A map from relative paths to the files found there. Keys are paths: two
//! keys that are the same path (`a/b` and `a//b`) are the same key. The map
//! keeps its keys in path order.

use vstd::prelude::*;
use crate::path::{
    compare_paths, components, lemma_path_order_chain, lemma_path_order_laws, path_order,
    same_path, text_bytes, PathOrder,
};
use crate::scanner::FileEntry;

verus! {

/// The contents of a file map: its keys, as text, with their entries.
pub type FileMapView = Seq<(Seq<char>, FileEntry)>;

/// The order of two keys: the order of the paths they name.
pub open spec fn key_order(a: Seq<char>, b: Seq<char>) -> PathOrder {
    path_order(text_bytes(a), text_bytes(b))
}

/// Some key of `items` is the same path as `key`.
pub open spec fn has_key(items: FileMapView, key: Seq<char>) -> bool {
    exists|i: int| 0 <= i < items.len() && same_path(#[trigger] items[i].0, key)
}

/// The entry under `key`, if any.
pub open spec fn lookup(items: FileMapView, key: Seq<char>) -> Option<FileEntry> {
    if has_key(items, key) {
        Some(items[choose|i: int| 0 <= i < items.len() && same_path(#[trigger] items[i].0, key)].1)
    } else {
        None
    }
}

/// No two keys are the same path.
pub open spec fn keys_distinct(items: FileMapView) -> bool {
    forall|i: int, j: int|
        0 <= i < items.len() && 0 <= j < items.len() && i != j ==> !same_path(
            #[trigger] items[i].0,
            #[trigger] items[j].0,
        )
}

/// Each key comes strictly before the keys after it.
pub open spec fn keys_sorted(items: FileMapView) -> bool {
    forall|i: int, j: int|
        0 <= i < j < items.len() ==> key_order(#[trigger] items[i].0, #[trigger] items[j].0)
            == PathOrder::Less
}

/// `p` is where `key` belongs among the keys: the keys before it come before
/// `key`, the keys from it on come after `key`.
pub open spec fn is_slot(items: FileMapView, key: Seq<char>, p: int) -> bool {
    &&& 0 <= p <= items.len()
    &&& forall|j: int| 0 <= j < p ==> key_order(#[trigger] items[j].0, key) == PathOrder::Less
    &&& forall|j: int| p <= j < items.len() ==> key_order(#[trigger] items[j].0, key)
        == PathOrder::Greater
}

/// The contents after putting `entry` under `key`: where a key that is the
/// same path is present, its entry is replaced and the key stays; otherwise
/// the pair goes where `key` belongs in path order.
pub open spec fn inserted(items: FileMapView, key: Seq<char>, entry: FileEntry) -> FileMapView {
    if has_key(items, key) {
        Seq::new(
            items.len(),
            |j: int|
                if same_path(items[j].0, key) {
                    (items[j].0, entry)
                } else {
                    items[j]
                },
        )
    } else {
        items.insert(choose|p: int| is_slot(items, key, p), (key, entry))
    }
}

proof fn lemma_same_path_iff_equal(a: Seq<char>, b: Seq<char>)
    ensures
        same_path(a, b) <==> key_order(a, b) == PathOrder::Equal,
        key_order(a, b) == PathOrder::Less <==> key_order(b, a) == PathOrder::Greater,
{
    lemma_path_order_laws(text_bytes(a), text_bytes(b), text_bytes(b));
}

/// Sorted keys are distinct.
pub proof fn lemma_sorted_keys_distinct(items: FileMapView)
    requires
        keys_sorted(items),
    ensures
        keys_distinct(items),
{
    assert forall|i: int, j: int|
        0 <= i < items.len() && 0 <= j < items.len() && i != j implies !same_path(
        #[trigger] items[i].0,
        #[trigger] items[j].0,
    ) by {
        lemma_same_path_iff_equal(items[i].0, items[j].0);
        lemma_same_path_iff_equal(items[j].0, items[i].0);
    }
}

/// In a map whose keys are distinct, the entry under the key at `i` is the
/// one at `i`.
pub proof fn lemma_lookup_at(items: FileMapView, i: int, key: Seq<char>)
    requires
        keys_distinct(items),
        0 <= i < items.len(),
        same_path(items[i].0, key),
    ensures
        has_key(items, key),
        lookup(items, key) == Some(items[i].1),
{
    let j = choose|j: int| 0 <= j < items.len() && same_path(#[trigger] items[j].0, key);
    assert(same_path(items[j].0, key));
    if j != i {
        assert(!same_path(items[i].0, items[j].0));
    }
}

proof fn lemma_slot_unique(items: FileMapView, key: Seq<char>, p: int, q: int)
    requires
        is_slot(items, key, p),
        is_slot(items, key, q),
    ensures
        p == q,
{
    if p < q {
        assert(key_order(items[p].0, key) == PathOrder::Greater);
    } else if q < p {
        assert(key_order(items[q].0, key) == PathOrder::Greater);
    }
}

proof fn lemma_slot_no_key(items: FileMapView, key: Seq<char>, p: int)
    requires
        is_slot(items, key, p),
    ensures
        !has_key(items, key),
{
    if has_key(items, key) {
        let i = choose|i: int| 0 <= i < items.len() && same_path(#[trigger] items[i].0, key);
        lemma_same_path_iff_equal(items[i].0, key);
        if i < p {
            assert(key_order(items[i].0, key) == PathOrder::Less);
        } else {
            assert(key_order(items[i].0, key) == PathOrder::Greater);
        }
    }
}

/// Reading after writing: after putting `entry` under `key`, the entry under
/// `key` is `entry`, the entry under every other path is what it was, the
/// keys stay in path order, and the map grows by one key exactly when no key
/// was the same path as `key`.
pub proof fn lemma_inserted_laws(items: FileMapView, key: Seq<char>, entry: FileEntry, other: Seq<char>)
    requires
        keys_sorted(items),
    ensures
        keys_sorted(inserted(items, key, entry)),
        lookup(inserted(items, key, entry), key) == Some(entry),
        !same_path(other, key) ==> lookup(inserted(items, key, entry), other) == lookup(items, other),
        inserted(items, key, entry).len() == items.len() + if has_key(items, key) {
            0int
        } else {
            1int
        },
{
    lemma_sorted_keys_distinct(items);
    let after = inserted(items, key, entry);
    if has_key(items, key) {
        let i = choose|i: int| 0 <= i < items.len() && same_path(#[trigger] items[i].0, key);
        assert(after[i] == (items[i].0, entry));
        assert forall|j: int, k: int| 0 <= j < k < after.len() implies key_order(
            #[trigger] after[j].0,
            #[trigger] after[k].0,
        ) == PathOrder::Less by {
            assert(after[j].0 == items[j].0);
            assert(after[k].0 == items[k].0);
        }
        lemma_sorted_keys_distinct(after);
        lemma_lookup_at(after, i, key);
        if !same_path(other, key) {
            if has_key(items, other) {
                let j = choose|j: int| 0 <= j < items.len() && same_path(#[trigger] items[j].0, other);
                assert(after[j] == items[j]);
                lemma_lookup_at(items, j, other);
                lemma_lookup_at(after, j, other);
            } else {
                assert forall|j: int| 0 <= j < after.len() implies !same_path(#[trigger] after[j].0, other) by {
                    assert(after[j].0 == items[j].0);
                }
            }
        }
    } else {
        lemma_slot_exists(items, key);
        let p = choose|p: int| is_slot(items, key, p);
        assert(after == items.insert(p, (key, entry)));
        lemma_insert_at_slot_sorted(items, key, entry, p);
        lemma_sorted_keys_distinct(after);
        assert(after[p] == (key, entry));
        lemma_lookup_at(after, p, key);
        if !same_path(other, key) {
            if has_key(items, other) {
                let j = choose|j: int| 0 <= j < items.len() && same_path(#[trigger] items[j].0, other);
                lemma_lookup_at(items, j, other);
                if j < p {
                    assert(after[j] == items[j]);
                    lemma_lookup_at(after, j, other);
                } else {
                    assert(after[j + 1] == items[j]);
                    lemma_lookup_at(after, j + 1, other);
                }
            } else {
                assert forall|j: int| 0 <= j < after.len() implies !same_path(#[trigger] after[j].0, other) by {
                    if j < p {
                        assert(after[j] == items[j]);
                    } else if j > p {
                        assert(after[j] == items[j - 1]);
                    }
                }
            }
        }
    }
}

proof fn lemma_slot_exists(items: FileMapView, key: Seq<char>)
    requires
        keys_sorted(items),
        !has_key(items, key),
    ensures
        exists|p: int| is_slot(items, key, p),
    decreases items.len(),
{
    if items.len() == 0 {
        assert(is_slot(items, key, 0));
    } else {
        let rest = items.drop_last();
        let n = items.len() - 1;
        assert forall|i: int, j: int| 0 <= i < j < rest.len() implies key_order(
            #[trigger] rest[i].0,
            #[trigger] rest[j].0,
        ) == PathOrder::Less by {
            assert(rest[i] == items[i] && rest[j] == items[j]);
        }
        if has_key(rest, key) {
            let i = choose|i: int| 0 <= i < rest.len() && same_path(#[trigger] rest[i].0, key);
            assert(rest[i] == items[i]);
        }
        lemma_slot_exists(rest, key);
        let p = choose|p: int| is_slot(rest, key, p);
        lemma_same_path_iff_equal(items[n].0, key);
        lemma_same_path_iff_equal(key, items[n].0);
        assert(!same_path(items[n].0, key));
        if key_order(items[n].0, key) == PathOrder::Less {
            assert forall|j: int| 0 <= j < items.len() implies key_order(#[trigger] items[j].0, key)
                == PathOrder::Less by {
                if j < n {
                    lemma_path_order_chain(
                        text_bytes(items[j].0),
                        text_bytes(items[n].0),
                        text_bytes(key),
                    );
                }
            }
            assert(is_slot(items, key, items.len() as int));
        } else {
            assert forall|j: int| 0 <= j < p implies key_order(#[trigger] items[j].0, key)
                == PathOrder::Less by {
                assert(rest[j] == items[j]);
            }
            assert forall|j: int| p <= j < items.len() implies key_order(#[trigger] items[j].0, key)
                == PathOrder::Greater by {
                if j < n {
                    assert(rest[j] == items[j]);
                }
            }
            assert(is_slot(items, key, p));
        }
    }
}

proof fn lemma_insert_at_slot_sorted(items: FileMapView, key: Seq<char>, entry: FileEntry, p: int)
    requires
        keys_sorted(items),
        is_slot(items, key, p),
    ensures
        keys_sorted(items.insert(p, (key, entry))),
{
    let after = items.insert(p, (key, entry));
    assert forall|x: int, y: int| 0 <= x < y < after.len() implies key_order(
        #[trigger] after[x].0,
        #[trigger] after[y].0,
    ) == PathOrder::Less by {
        if y < p {
            assert(after[x] == items[x] && after[y] == items[y]);
        } else if y == p {
            assert(after[x] == items[x]);
        } else if x < p {
            assert(after[x] == items[x] && after[y] == items[y - 1]);
        } else if x == p {
            assert(after[y] == items[y - 1]);
            assert(key_order(items[y - 1].0, key) == PathOrder::Greater);
            lemma_same_path_iff_equal(key, items[y - 1].0);
        } else {
            assert(after[x] == items[x - 1] && after[y] == items[y - 1]);
        }
    }
}

/// Two maps that hold the same key-entry pairs have the same contents, in
/// the same order, whatever order they were filled in: the keys are kept in
/// path order, so the pairs they hold fix their places.
pub proof fn lemma_same_pairs_same_contents(a: FileMapView, b: FileMapView)
    requires
        keys_sorted(a),
        keys_sorted(b),
        forall|x: (Seq<char>, FileEntry)| a.contains(x) <==> b.contains(x),
    ensures
        a == b,
    decreases a.len(),
{
    if a.len() == 0 {
        if b.len() > 0 {
            assert(b.contains(b[0]));
        }
        assert(a =~= b);
    } else {
        assert(a.contains(a[0]));
        let k = choose|k: int| 0 <= k < b.len() && b[k] == a[0];
        assert(b.contains(b[0]));
        let l = choose|l: int| 0 <= l < a.len() && a[l] == b[0];
        if k > 0 {
            assert(key_order(b[0].0, b[k].0) == PathOrder::Less);
            if l > 0 {
                assert(key_order(a[0].0, a[l].0) == PathOrder::Less);
            }
            lemma_path_order_laws(text_bytes(a[0].0), text_bytes(b[0].0), text_bytes(a[0].0));
            assert(false);
        }
        assert(a[0] == b[0]);
        let a1 = a.drop_first();
        let b1 = b.drop_first();
        assert forall|i: int, j: int| 0 <= i < j < a1.len() implies key_order(
            #[trigger] a1[i].0,
            #[trigger] a1[j].0,
        ) == PathOrder::Less by {
            assert(a1[i] == a[i + 1] && a1[j] == a[j + 1]);
        }
        assert forall|i: int, j: int| 0 <= i < j < b1.len() implies key_order(
            #[trigger] b1[i].0,
            #[trigger] b1[j].0,
        ) == PathOrder::Less by {
            assert(b1[i] == b[i + 1] && b1[j] == b[j + 1]);
        }
        assert forall|x: (Seq<char>, FileEntry)| a1.contains(x) implies b1.contains(x) by {
            let i = choose|i: int| 0 <= i < a1.len() && a1[i] == x;
            assert(a[i + 1] == x);
            assert(key_order(a[0].0, x.0) == PathOrder::Less);
            lemma_path_order_laws(text_bytes(x.0), text_bytes(x.0), text_bytes(x.0));
            assert(b.contains(x));
            let j = choose|j: int| 0 <= j < b.len() && b[j] == x;
            assert(j != 0);
            assert(b1[j - 1] == x);
        }
        assert forall|x: (Seq<char>, FileEntry)| b1.contains(x) implies a1.contains(x) by {
            let i = choose|i: int| 0 <= i < b1.len() && b1[i] == x;
            assert(b[i + 1] == x);
            assert(key_order(b[0].0, x.0) == PathOrder::Less);
            lemma_path_order_laws(text_bytes(x.0), text_bytes(x.0), text_bytes(x.0));
            assert(a.contains(x));
            let j = choose|j: int| 0 <= j < a.len() && a[j] == x;
            assert(j != 0);
            assert(a1[j - 1] == x);
        }
        lemma_same_pairs_same_contents(a1, b1);
        assert(a =~= b) by {
            assert forall|i: int| 0 <= i < a.len() implies a[i] == b[i] by {
                if i > 0 {
                    assert(a[i] == a1[i - 1] && b[i] == b1[i - 1]);
                }
            }
        }
    }
}

/// A map from relative paths to files.
pub struct FileMap {
    items: Vec<(String, FileEntry)>,
}

impl View for FileMap {
    type V = FileMapView;

    closed spec fn view(&self) -> FileMapView {
        self.items@.map_values(|p: (String, FileEntry)| (p.0@, p.1))
    }
}

impl FileMap {
    #[verifier::type_invariant]
    spec fn keys_in_order(self) -> bool {
        keys_sorted(self@)
    }

    /// An empty map.
    pub fn new() -> (m: FileMap)
        ensures
            m@ == FileMapView::empty(),
    {
        let m = FileMap { items: Vec::new() };
        assert(m@ =~= FileMapView::empty());
        m
    }

    /// The number of keys; they are in path order, and no two of them are the
    /// same path.
    pub fn len(&self) -> (n: usize)
        ensures
            n == self@.len(),
            keys_sorted(self@),
            keys_distinct(self@),
    {
        proof {
            use_type_invariant(self);
            lemma_sorted_keys_distinct(self@);
        }
        self.items.len()
    }

    /// Whether the map has no keys.
    pub fn is_empty(&self) -> (b: bool)
        ensures
            b == (self@.len() == 0),
    {
        self.items.len() == 0
    }

    /// The key at position `i`.
    pub fn key_at(&self, i: usize) -> (k: &String)
        requires
            i < self@.len(),
        ensures
            k@ == self@[i as int].0,
    {
        &self.items[i].0
    }

    /// The entry at position `i`.
    pub fn entry_at(&self, i: usize) -> (e: &FileEntry)
        requires
            i < self@.len(),
        ensures
            *e == self@[i as int].1,
    {
        &self.items[i].1
    }

    /// Binary search for `key`: the position of the key that is the same path,
    /// or else where `key` belongs.
    fn search(&self, key: &str) -> (r: (bool, usize))
        ensures
            r.0 ==> r.1 < self@.len() && same_path(self@[r.1 as int].0, key@),
            !r.0 ==> is_slot(self@, key@, r.1 as int),
    {
        proof {
            use_type_invariant(self);
        }
        let ghost items = self@;
        let mut lo: usize = 0;
        let mut hi: usize = self.items.len();
        while lo < hi
            invariant
                items == self@,
                keys_sorted(items),
                lo <= hi <= items.len(),
                items.len() == self.items@.len(),
                forall|j: int| 0 <= j < lo ==> key_order(#[trigger] items[j].0, key@) == PathOrder::Less,
                forall|j: int| hi <= j < items.len() ==> key_order(#[trigger] items[j].0, key@)
                    == PathOrder::Greater,
            decreases hi - lo,
        {
            let mid = lo + (hi - lo) / 2;
            let o = compare_paths(self.items[mid].0.as_str(), key);
            assert(o == key_order(items[mid as int].0, key@));
            if o == PathOrder::Less {
                assert forall|j: int| 0 <= j < mid + 1 implies key_order(#[trigger] items[j].0, key@)
                    == PathOrder::Less by {
                    if j < mid {
                        lemma_path_order_chain(
                            text_bytes(items[j].0),
                            text_bytes(items[mid as int].0),
                            text_bytes(key@),
                        );
                    }
                }
                lo = mid + 1;
            } else if o == PathOrder::Greater {
                assert forall|j: int| mid <= j < items.len() implies key_order(
                    #[trigger] items[j].0,
                    key@,
                ) == PathOrder::Greater by {
                    if j > mid {
                        lemma_same_path_iff_equal(items[j].0, key@);
                        lemma_same_path_iff_equal(key@, items[mid as int].0);
                        lemma_same_path_iff_equal(items[mid as int].0, items[j].0);
                        lemma_path_order_chain(
                            text_bytes(key@),
                            text_bytes(items[mid as int].0),
                            text_bytes(items[j].0),
                        );
                    }
                }
                hi = mid;
            } else {
                proof {
                    lemma_same_path_iff_equal(items[mid as int].0, key@);
                }
                return (true, mid);
            }
        }
        (false, lo)
    }

    /// Whether some key is the same path as `key`.
    pub fn contains_key(&self, key: &str) -> (b: bool)
        ensures
            b == has_key(self@, key@),
    {
        let (found, p) = self.search(key);
        proof {
            if !found {
                lemma_slot_no_key(self@, key@, p as int);
            }
        }
        found
    }

    /// The entry under `key`, if any.
    pub fn get(&self, key: &str) -> (r: Option<&FileEntry>)
        ensures
            match r {
                Some(e) => lookup(self@, key@) == Some(*e),
                None => lookup(self@, key@) == None::<FileEntry>,
            },
    {
        proof {
            use_type_invariant(self);
            lemma_sorted_keys_distinct(self@);
        }
        let (found, i) = self.search(key);
        if found {
            proof {
                lemma_lookup_at(self@, i as int, key@);
            }
            Some(&self.items[i].1)
        } else {
            proof {
                lemma_slot_no_key(self@, key@, i as int);
            }
            None
        }
    }

    /// Puts `entry` under `key`, and returns the entry that was under it. Where a
    /// key that is the same path is present, that key stays and its entry is
    /// replaced; otherwise `key` is added where it belongs in path order.
    pub fn insert(&mut self, key: String, entry: FileEntry) -> (r: Option<FileEntry>)
        ensures
            r == lookup(old(self)@, key@),
            final(self)@ == inserted(old(self)@, key@, entry),
    {
        proof {
            use_type_invariant(&*self);
            lemma_sorted_keys_distinct(self@);
        }
        let ghost before = self@;
        let (found, i) = self.search(key.as_str());
        let mut items: Vec<(String, FileEntry)> = Vec::new();
        std::mem::swap(&mut items, &mut self.items);
        assert(items@.map_values(|p: (String, FileEntry)| (p.0@, p.1)) == before);
        if found {
            proof {
                lemma_lookup_at(before, i as int, key@);
            }
            let previous = items[i].1.clone();
            let kept = items[i].0.clone();
            items.set(i, (kept, entry));
            let ghost after = before.update(i as int, (before[i as int].0, entry));
            assert(items@.map_values(|p: (String, FileEntry)| (p.0@, p.1)) =~= after);
            assert forall|j: int, k: int| 0 <= j < k < after.len() implies key_order(
                #[trigger] after[j].0,
                #[trigger] after[k].0,
            ) == PathOrder::Less by {
                assert(after[j].0 == before[j].0);
                assert(after[k].0 == before[k].0);
            }
            self.items = items;
            assert forall|j: int| 0 <= j < before.len() implies #[trigger] after[j] == if same_path(
                before[j].0,
                key@,
            ) {
                (before[j].0, entry)
            } else {
                before[j]
            } by {
                if j != i && same_path(before[j].0, key@) {
                    assert(same_path(before[i as int].0, before[j].0));
                }
            }
            assert(self@ =~= inserted(before, key@, entry));
            Some(previous)
        } else {
            proof {
                lemma_slot_no_key(before, key@, i as int);
                lemma_insert_at_slot_sorted(before, key@, entry, i as int);
                let p = choose|p: int| is_slot(before, key@, p);
                lemma_slot_unique(before, key@, i as int, p);
            }
            items.insert(i, (key, entry));
            assert(items@.map_values(|p: (String, FileEntry)| (p.0@, p.1)) =~= before.insert(
                i as int,
                (key@, entry),
            ));
            self.items = items;
            None
        }
    }
}

} // verus!
