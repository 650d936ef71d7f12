//! Paths as the standard library sees them on Unix: a path is the sequence
//! of its components, and two paths are equal, or ordered, as these
//! sequences are. `a/b`, `a//b/` and `a/./b` are all the same path.

use vstd::prelude::*;

verus! {

/// The byte `/`.
pub const SEPARATOR: u8 = 47;

/// The byte `.`.
pub const DOT: u8 = 46;

/// A component of a path. The variants are in the order in which components
/// of different kinds compare (a Windows prefix, which would come first, does
/// not occur on Unix).
pub enum PathComponent {
    RootDir,
    CurDir,
    ParentDir,
    Normal(Seq<u8>),
}

/// The result of comparing two values.
#[derive(PartialEq, Eq, Structural, Clone, Copy, Debug)]
pub enum PathOrder {
    Less,
    Equal,
    Greater,
}

/// The pieces of `s` between separators, empty pieces included: `a//b` has
/// the pieces `a`, ``, `b`.
pub open spec fn split_at_separators(s: Seq<u8>) -> Seq<Seq<u8>>
    decreases s.len(),
{
    if s.len() == 0 {
        seq![Seq::<u8>::empty()]
    } else {
        let prev = split_at_separators(s.drop_last());
        if s.last() == SEPARATOR {
            prev.push(Seq::<u8>::empty())
        } else {
            prev.update(prev.len() - 1, prev.last().push(s.last()))
        }
    }
}

/// What one piece contributes: nothing for an empty piece or `.`, the parent
/// directory for `..`, and a normal component otherwise.
pub open spec fn piece_components(p: Seq<u8>) -> Seq<PathComponent> {
    if p.len() == 0 || p == seq![DOT] {
        Seq::empty()
    } else if p == seq![DOT, DOT] {
        seq![PathComponent::ParentDir]
    } else {
        seq![PathComponent::Normal(p)]
    }
}

/// The components that a sequence of pieces contributes, in order.
pub open spec fn pieces_components(pieces: Seq<Seq<u8>>) -> Seq<PathComponent>
    decreases pieces.len(),
{
    if pieces.len() == 0 {
        Seq::empty()
    } else {
        pieces_components(pieces.drop_last()) + piece_components(pieces.last())
    }
}

/// The component that the start of a path contributes: the root directory
/// for a leading separator, the current directory for a leading `.` that is
/// the whole path or is followed by a separator.
pub open spec fn leading_components(s: Seq<u8>) -> Seq<PathComponent> {
    if s.len() > 0 && s[0] == SEPARATOR {
        seq![PathComponent::RootDir]
    } else if s.len() > 0 && s[0] == DOT && (s.len() == 1 || s[1] == SEPARATOR) {
        seq![PathComponent::CurDir]
    } else {
        Seq::empty()
    }
}

/// The components of the path whose bytes are `s`.
pub open spec fn components(s: Seq<u8>) -> Seq<PathComponent> {
    leading_components(s) + pieces_components(split_at_separators(s))
}

/// Lexicographic order of two sequences under the order `f` on elements; a
/// proper prefix comes first.
pub open spec fn lex_order<T>(a: Seq<T>, b: Seq<T>, f: spec_fn(T, T) -> PathOrder) -> PathOrder
    decreases a.len(),
{
    if a.len() == 0 {
        if b.len() == 0 {
            PathOrder::Equal
        } else {
            PathOrder::Less
        }
    } else if b.len() == 0 {
        PathOrder::Greater
    } else {
        match f(a[0], b[0]) {
            PathOrder::Equal => lex_order(a.drop_first(), b.drop_first(), f),
            o => o,
        }
    }
}

/// The order of two bytes.
pub open spec fn byte_order(x: u8, y: u8) -> PathOrder {
    if x < y {
        PathOrder::Less
    } else if x > y {
        PathOrder::Greater
    } else {
        PathOrder::Equal
    }
}

/// `byte_order` as a value.
pub open spec fn byte_order_fn() -> spec_fn(u8, u8) -> PathOrder {
    |x: u8, y: u8| byte_order(x, y)
}

/// Position of a component's kind in the order of kinds.
pub open spec fn component_rank(c: PathComponent) -> int {
    match c {
        PathComponent::RootDir => 1,
        PathComponent::CurDir => 2,
        PathComponent::ParentDir => 3,
        PathComponent::Normal(_) => 4,
    }
}

/// The order of two components: by kind, then normal components by their bytes.
pub open spec fn component_order(a: PathComponent, b: PathComponent) -> PathOrder {
    if component_rank(a) < component_rank(b) {
        PathOrder::Less
    } else if component_rank(a) > component_rank(b) {
        PathOrder::Greater
    } else {
        match (a, b) {
            (PathComponent::Normal(x), PathComponent::Normal(y)) => lex_order(x, y, byte_order_fn()),
            _ => PathOrder::Equal,
        }
    }
}

/// `component_order` as a value.
pub open spec fn component_order_fn() -> spec_fn(PathComponent, PathComponent) -> PathOrder {
    |x: PathComponent, y: PathComponent| component_order(x, y)
}

/// The order of two paths, given by their bytes: their component sequences
/// compared lexicographically.
pub open spec fn path_order(a: Seq<u8>, b: Seq<u8>) -> PathOrder {
    lex_order(components(a), components(b), component_order_fn())
}

/// The bytes of a path held as text.
pub open spec fn text_bytes(s: Seq<char>) -> Seq<u8> {
    vstd::utf8::encode_utf8(s)
}

/// Two paths held as text are the same path.
pub open spec fn same_path(a: Seq<char>, b: Seq<char>) -> bool {
    components(text_bytes(a)) == components(text_bytes(b))
}

/// `f` is a strict total order with `Equal` for equal elements only.
pub open spec fn is_total_order<T>(f: spec_fn(T, T) -> PathOrder) -> bool {
    &&& forall|x: T, y: T| #[trigger] f(x, y) == PathOrder::Equal <==> x == y
    &&& forall|x: T, y: T| #[trigger] f(x, y) == PathOrder::Less <==> f(y, x) == PathOrder::Greater
    &&& forall|x: T, y: T, z: T|
        #[trigger] f(x, y) == PathOrder::Less && #[trigger] f(y, z) == PathOrder::Less
            ==> f(x, z) == PathOrder::Less
}

/// Lexicographic order is a total order when the element order is one.
pub proof fn lemma_lex_total<T>(f: spec_fn(T, T) -> PathOrder)
    requires
        is_total_order(f),
    ensures
        is_total_order(|a: Seq<T>, b: Seq<T>| lex_order(a, b, f)),
{
    assert forall|a: Seq<T>, b: Seq<T>|
        lex_order(a, b, f) == PathOrder::Equal <==> a == b by {
        lemma_lex_equal(a, b, f);
    }
    assert forall|a: Seq<T>, b: Seq<T>|
        lex_order(a, b, f) == PathOrder::Less <==> lex_order(b, a, f) == PathOrder::Greater by {
        lemma_lex_antisymmetric(a, b, f);
    }
    assert forall|a: Seq<T>, b: Seq<T>, c: Seq<T>|
        lex_order(a, b, f) == PathOrder::Less && lex_order(b, c, f) == PathOrder::Less
            implies lex_order(a, c, f) == PathOrder::Less by {
        lemma_lex_transitive(a, b, c, f);
    }
}

proof fn lemma_lex_equal<T>(a: Seq<T>, b: Seq<T>, f: spec_fn(T, T) -> PathOrder)
    requires
        is_total_order(f),
    ensures
        lex_order(a, b, f) == PathOrder::Equal <==> a == b,
    decreases a.len(),
{
    if a.len() > 0 && b.len() > 0 {
        lemma_lex_equal(a.drop_first(), b.drop_first(), f);
        if a == b {
            assert(f(a[0], b[0]) == PathOrder::Equal);
        }
        if lex_order(a, b, f) == PathOrder::Equal {
            assert(f(a[0], b[0]) == PathOrder::Equal);
            assert(a[0] == b[0]);
            assert(a.drop_first() == b.drop_first());
            assert forall|i: int| 0 <= i < a.len() implies a[i] == b[i] by {
                if i > 0 {
                    assert(a[i] == a.drop_first()[i - 1]);
                    assert(b[i] == b.drop_first()[i - 1]);
                }
            }
            assert(a =~= b);
        }
    } else if a.len() == 0 && b.len() == 0 {
        assert(a =~= b);
    } else {
        assert(a.len() != b.len());
    }
}

proof fn lemma_lex_antisymmetric<T>(a: Seq<T>, b: Seq<T>, f: spec_fn(T, T) -> PathOrder)
    requires
        is_total_order(f),
    ensures
        lex_order(a, b, f) == PathOrder::Less <==> lex_order(b, a, f) == PathOrder::Greater,
    decreases a.len(),
{
    if a.len() > 0 && b.len() > 0 {
        lemma_lex_antisymmetric(a.drop_first(), b.drop_first(), f);
        let o = f(a[0], b[0]);
        let r = f(b[0], a[0]);
        if o == PathOrder::Equal {
            assert(a[0] == b[0]);
            assert(r == PathOrder::Equal);
        } else if r == PathOrder::Equal {
            assert(b[0] == a[0]);
        }
    }
}

proof fn lemma_lex_transitive<T>(a: Seq<T>, b: Seq<T>, c: Seq<T>, f: spec_fn(T, T) -> PathOrder)
    requires
        is_total_order(f),
        lex_order(a, b, f) == PathOrder::Less,
        lex_order(b, c, f) == PathOrder::Less,
    ensures
        lex_order(a, c, f) == PathOrder::Less,
    decreases a.len(),
{
    if a.len() > 0 && b.len() > 0 && c.len() > 0 {
        let ab = f(a[0], b[0]);
        let bc = f(b[0], c[0]);
        if ab == PathOrder::Equal && bc == PathOrder::Equal {
            lemma_lex_transitive(a.drop_first(), b.drop_first(), c.drop_first(), f);
            assert(a[0] == b[0] && b[0] == c[0]);
            assert(f(a[0], c[0]) == PathOrder::Equal);
        } else if ab == PathOrder::Equal {
            assert(a[0] == b[0]);
        } else if bc == PathOrder::Equal {
            assert(b[0] == c[0]);
        } else {
            assert(ab == PathOrder::Less && bc == PathOrder::Less);
        }
    }
}

proof fn lemma_byte_order_total()
    ensures
        is_total_order(byte_order_fn()),
{
}

proof fn lemma_component_order_total()
    ensures
        is_total_order(component_order_fn()),
{
    lemma_byte_order_total();
    lemma_lex_total(byte_order_fn());
    let g = |a: Seq<u8>, b: Seq<u8>| lex_order(a, b, byte_order_fn());
    assert forall|x: PathComponent, y: PathComponent|
        component_order(x, y) == PathOrder::Equal <==> x == y by {
        if let (PathComponent::Normal(p), PathComponent::Normal(q)) = (x, y) {
            assert(g(p, q) == PathOrder::Equal <==> p == q);
        }
    }
    assert forall|x: PathComponent, y: PathComponent|
        component_order(x, y) == PathOrder::Less <==> component_order(y, x) == PathOrder::Greater by {
        if let (PathComponent::Normal(p), PathComponent::Normal(q)) = (x, y) {
            assert(g(p, q) == PathOrder::Less <==> g(q, p) == PathOrder::Greater);
        }
    }
    assert forall|x: PathComponent, y: PathComponent, z: PathComponent|
        component_order(x, y) == PathOrder::Less && component_order(y, z) == PathOrder::Less
            implies component_order(x, z) == PathOrder::Less by {
        if let (PathComponent::Normal(p), PathComponent::Normal(q), PathComponent::Normal(r)) = (x, y, z) {
            assert(g(p, q) == PathOrder::Less && g(q, r) == PathOrder::Less ==> g(p, r) == PathOrder::Less);
        }
    }
}

/// The order of paths is a total order on their component sequences: two
/// paths compare equal exactly when they have the same components, swapping
/// the arguments reverses the result, and `Less` is transitive.
pub proof fn lemma_path_order_laws(a: Seq<u8>, b: Seq<u8>, c: Seq<u8>)
    ensures
        path_order(a, b) == PathOrder::Equal <==> components(a) == components(b),
        path_order(a, b) == PathOrder::Less <==> path_order(b, a) == PathOrder::Greater,
        path_order(a, b) == PathOrder::Less && path_order(b, c) == PathOrder::Less
            ==> path_order(a, c) == PathOrder::Less,
{
    lemma_component_order_total();
    lemma_lex_total(component_order_fn());
    let g = |x: Seq<PathComponent>, y: Seq<PathComponent>| lex_order(x, y, component_order_fn());
    assert(g(components(a), components(b)) == PathOrder::Equal <==> components(a) == components(b));
    assert(g(components(a), components(b)) == PathOrder::Less <==> g(components(b), components(a)) == PathOrder::Greater);
    assert(g(components(a), components(b)) == PathOrder::Less && g(components(b), components(c)) == PathOrder::Less
        ==> g(components(a), components(c)) == PathOrder::Less);
}

/// Chains of comparisons: a path not after a second one that is not after a
/// third is not after the third, and is before it when either step is strict.
pub proof fn lemma_path_order_chain(a: Seq<u8>, b: Seq<u8>, c: Seq<u8>)
    requires
        path_order(a, b) != PathOrder::Greater,
        path_order(b, c) != PathOrder::Greater,
    ensures
        path_order(a, c) != PathOrder::Greater,
        path_order(a, b) == PathOrder::Less || path_order(b, c) == PathOrder::Less ==> path_order(a, c)
            == PathOrder::Less,
{
    lemma_path_order_laws(a, b, c);
    lemma_path_order_laws(b, c, a);
    if path_order(a, b) == PathOrder::Equal {
        assert(components(a) == components(b));
        assert(path_order(a, c) == path_order(b, c));
    } else if path_order(b, c) == PathOrder::Equal {
        assert(components(b) == components(c));
        assert(path_order(a, c) == path_order(a, b));
    }
}

#[derive(PartialEq, Eq, Structural, Clone, Copy)]
enum ComponentKind {
    RootDir,
    CurDir,
    ParentDir,
    Normal,
}

/// A component located in the bytes of its path; a normal component's name
/// is the bytes from `start` up to `end`.
#[derive(Clone, Copy)]
struct ComponentSpan {
    kind: ComponentKind,
    start: usize,
    end: usize,
}

spec fn span_view(c: ComponentSpan, s: Seq<u8>) -> PathComponent {
    match c.kind {
        ComponentKind::RootDir => PathComponent::RootDir,
        ComponentKind::CurDir => PathComponent::CurDir,
        ComponentKind::ParentDir => PathComponent::ParentDir,
        ComponentKind::Normal => PathComponent::Normal(s.subrange(c.start as int, c.end as int)),
    }
}

spec fn spans_view(v: Seq<ComponentSpan>, s: Seq<u8>) -> Seq<PathComponent> {
    Seq::new(v.len(), |i: int| span_view(v[i], s))
}

spec fn spans_within(v: Seq<ComponentSpan>, n: nat) -> bool {
    forall|i: int| 0 <= i < v.len() ==> #[trigger] v[i].start <= v[i].end && v[i].end <= n
}

fn piece_span(s: &[u8], start: usize, end: usize) -> (r: Option<ComponentSpan>)
    requires
        start <= end <= s@.len(),
    ensures
        match r {
            None => piece_components(s@.subrange(start as int, end as int)) == Seq::<PathComponent>::empty(),
            Some(c) => {
                &&& piece_components(s@.subrange(start as int, end as int)) == seq![span_view(c, s@)]
                &&& c.start <= c.end <= s@.len()
            },
        },
{
    let ghost p = s@.subrange(start as int, end as int);
    let len = end - start;
    if len == 0 {
        None
    } else if len == 1 && s[start] == DOT {
        assert(p =~= seq![DOT]);
        None
    } else if len == 2 && s[start] == DOT && s[start + 1] == DOT {
        assert(p =~= seq![DOT, DOT]);
        Some(ComponentSpan { kind: ComponentKind::ParentDir, start, end })
    } else {
        assert(p != seq![DOT]) by {
            if len == 1 {
                assert(p[0] != seq![DOT][0]);
            }
        }
        assert(p != seq![DOT, DOT]) by {
            if len == 2 {
                assert(p[0] != seq![DOT, DOT][0] || p[1] != seq![DOT, DOT][1]);
            }
        }
        Some(ComponentSpan { kind: ComponentKind::Normal, start, end })
    }
}

fn component_spans(s: &[u8]) -> (spans: Vec<ComponentSpan>)
    ensures
        spans_view(spans@, s@) == components(s@),
        spans_within(spans@, s@.len()),
{
    let n = s.len();
    let mut spans: Vec<ComponentSpan> = Vec::new();
    if n > 0 && s[0] == SEPARATOR {
        spans.push(ComponentSpan { kind: ComponentKind::RootDir, start: 0, end: 0 });
    } else if n > 0 && s[0] == DOT && (n == 1 || s[1] == SEPARATOR) {
        spans.push(ComponentSpan { kind: ComponentKind::CurDir, start: 0, end: 0 });
    }
    assert(spans_view(spans@, s@) =~= leading_components(s@));
    let ghost mut done: Seq<Seq<u8>> = Seq::empty();
    let mut start: usize = 0;
    let mut i: usize = 0;
    assert(s@.take(0) =~= Seq::<u8>::empty());
    assert(s@.subrange(0, 0) =~= Seq::<u8>::empty());
    while i < n
        invariant
            n == s@.len(),
            start <= i <= n,
            split_at_separators(s@.take(i as int)) == done.push(s@.subrange(start as int, i as int)),
            spans_view(spans@, s@) == leading_components(s@) + pieces_components(done),
            spans_within(spans@, s@.len()),
        decreases n - i,
    {
        let ghost t = s@.take(i as int + 1);
        assert(t.drop_last() =~= s@.take(i as int));
        assert(t.last() == s@[i as int]);
        if s[i] == SEPARATOR {
            let ghost piece = s@.subrange(start as int, i as int);
            let r = piece_span(s, start, i);
            let ghost old_spans = spans@;
            match r {
                Some(c) => {
                    spans.push(c);
                    assert(spans_view(spans@, s@) =~= spans_view(old_spans, s@).push(span_view(c, s@)));
                },
                None => {},
            }
            proof {
                assert(done.push(piece).drop_last() =~= done);
                done = done.push(piece);
            }
            assert(spans_view(spans@, s@) =~= leading_components(s@) + pieces_components(done));
            start = i + 1;
            assert(s@.subrange(start as int, start as int) =~= Seq::<u8>::empty());
            assert(split_at_separators(t) =~= done.push(s@.subrange(start as int, i as int + 1)));
        } else {
            let ghost prev = done.push(s@.subrange(start as int, i as int));
            assert(s@.subrange(start as int, i as int).push(s@[i as int]) =~= s@.subrange(
                start as int,
                i as int + 1,
            ));
            assert(split_at_separators(t) =~= prev.update(
                prev.len() - 1,
                prev.last().push(t.last()),
            ));
            assert(split_at_separators(t) =~= done.push(s@.subrange(start as int, i as int + 1)));
        }
        i = i + 1;
    }
    assert(s@.take(n as int) =~= s@);
    let ghost last_piece = s@.subrange(start as int, n as int);
    let r = piece_span(s, start, n);
    let ghost old_spans = spans@;
    match r {
        Some(c) => {
            spans.push(c);
            assert(spans_view(spans@, s@) =~= spans_view(old_spans, s@).push(span_view(c, s@)));
        },
        None => {},
    }
    assert(done.push(last_piece).drop_last() =~= done);
    assert(spans_view(spans@, s@) =~= components(s@));
    spans
}

proof fn lemma_lex_step<T>(x: Seq<T>, y: Seq<T>, f: spec_fn(T, T) -> PathOrder, i: int)
    requires
        0 <= i < x.len(),
        i < y.len(),
    ensures
        lex_order(x.skip(i), y.skip(i), f) == match f(x[i], y[i]) {
            PathOrder::Equal => lex_order(x.skip(i + 1), y.skip(i + 1), f),
            o => o,
        },
{
    assert(x.skip(i).drop_first() =~= x.skip(i + 1));
    assert(y.skip(i).drop_first() =~= y.skip(i + 1));
    assert(x.skip(i)[0] == x[i]);
    assert(y.skip(i)[0] == y[i]);
}

fn compare_byte_ranges(a: &[u8], a0: usize, a1: usize, b: &[u8], b0: usize, b1: usize) -> (o:
    PathOrder)
    requires
        a0 <= a1 <= a@.len(),
        b0 <= b1 <= b@.len(),
    ensures
        o == lex_order(a@.subrange(a0 as int, a1 as int), b@.subrange(b0 as int, b1 as int), byte_order_fn()),
{
    let ghost x = a@.subrange(a0 as int, a1 as int);
    let ghost y = b@.subrange(b0 as int, b1 as int);
    let ghost f = byte_order_fn();
    let mut i: usize = 0;
    assert(x.skip(0) =~= x);
    assert(y.skip(0) =~= y);
    while a0 + i < a1 && b0 + i < b1
        invariant
            a0 <= a1 <= a@.len(),
            b0 <= b1 <= b@.len(),
            a0 + i <= a1,
            b0 + i <= b1,
            x == a@.subrange(a0 as int, a1 as int),
            y == b@.subrange(b0 as int, b1 as int),
            f == byte_order_fn(),
            lex_order(x, y, f) == lex_order(x.skip(i as int), y.skip(i as int), f),
        decreases a1 - (a0 + i),
    {
        let p = a[a0 + i];
        let q = b[b0 + i];
        proof {
            lemma_lex_step(x, y, f, i as int);
        }
        if p < q {
            return PathOrder::Less;
        }
        if p > q {
            return PathOrder::Greater;
        }
        i = i + 1;
    }
    if a0 + i == a1 {
        if b0 + i == b1 {
            PathOrder::Equal
        } else {
            PathOrder::Less
        }
    } else {
        PathOrder::Greater
    }
}

spec fn kind_rank(k: ComponentKind) -> int {
    match k {
        ComponentKind::RootDir => 1,
        ComponentKind::CurDir => 2,
        ComponentKind::ParentDir => 3,
        ComponentKind::Normal => 4,
    }
}

fn kind_rank_exec(k: ComponentKind) -> (r: u8)
    ensures
        r == kind_rank(k),
{
    match k {
        ComponentKind::RootDir => 1,
        ComponentKind::CurDir => 2,
        ComponentKind::ParentDir => 3,
        ComponentKind::Normal => 4,
    }
}

fn compare_spans(a: &[u8], sa: ComponentSpan, b: &[u8], sb: ComponentSpan) -> (o: PathOrder)
    requires
        sa.start <= sa.end <= a@.len(),
        sb.start <= sb.end <= b@.len(),
    ensures
        o == component_order(span_view(sa, a@), span_view(sb, b@)),
{
    let ra = kind_rank_exec(sa.kind);
    let rb = kind_rank_exec(sb.kind);
    if ra < rb {
        PathOrder::Less
    } else if ra > rb {
        PathOrder::Greater
    } else if sa.kind == ComponentKind::Normal {
        compare_byte_ranges(a, sa.start, sa.end, b, sb.start, sb.end)
    } else {
        PathOrder::Equal
    }
}

fn compare_span_seqs(a: &[u8], sa: &Vec<ComponentSpan>, b: &[u8], sb: &Vec<ComponentSpan>) -> (o:
    PathOrder)
    requires
        spans_within(sa@, a@.len()),
        spans_within(sb@, b@.len()),
    ensures
        o == lex_order(spans_view(sa@, a@), spans_view(sb@, b@), component_order_fn()),
{
    let ghost x = spans_view(sa@, a@);
    let ghost y = spans_view(sb@, b@);
    let ghost f = component_order_fn();
    let mut i: usize = 0;
    assert(x.skip(0) =~= x);
    assert(y.skip(0) =~= y);
    while i < sa.len() && i < sb.len()
        invariant
            spans_within(sa@, a@.len()),
            spans_within(sb@, b@.len()),
            x == spans_view(sa@, a@),
            y == spans_view(sb@, b@),
            f == component_order_fn(),
            i <= sa.len(),
            i <= sb.len(),
            lex_order(x, y, f) == lex_order(x.skip(i as int), y.skip(i as int), f),
        decreases sa.len() - i,
    {
        assert(sa@[i as int].start <= sa@[i as int].end);
        assert(sb@[i as int].start <= sb@[i as int].end);
        let o = compare_spans(a, sa[i], b, sb[i]);
        proof {
            lemma_lex_step(x, y, f, i as int);
        }
        if o != PathOrder::Equal {
            return o;
        }
        i = i + 1;
    }
    if i == sa.len() {
        if i == sb.len() {
            PathOrder::Equal
        } else {
            PathOrder::Less
        }
    } else {
        PathOrder::Greater
    }
}

/// Compares two paths given by their bytes, as `Path::cmp` does on Unix.
pub fn compare_path_bytes(a: &[u8], b: &[u8]) -> (o: PathOrder)
    ensures
        o == path_order(a@, b@),
{
    let sa = component_spans(a);
    let sb = component_spans(b);
    compare_span_seqs(a, &sa, b, &sb)
}

/// Compares two paths held as text, as `Path::cmp` does on Unix.
pub fn compare_paths(a: &str, b: &str) -> (o: PathOrder)
    ensures
        o == path_order(text_bytes(a@), text_bytes(b@)),
{
    compare_path_bytes(a.as_bytes(), b.as_bytes())
}

} // verus!
