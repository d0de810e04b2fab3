//! The Redis key tree: flat key names folded by `:` into a namespace trie.
//!
//! A key `a:b:c` becomes the path `a` → `b` → `c`; a node can be a key and a
//! namespace at once. Keys with an empty segment (`""`, `::bad`) are skipped.
//! Siblings are ordered namespaces first, then by label.

use vstd::prelude::*;

use crate::text::{
    chars_eq_str, chars_of, join, contains_chars, contains_sub, copy_range, lemma_split_on_len,
    push_chars, split_chars, split_on, str_views, string_of, to_lowercase_chars, unicode_lower,
    views,
};

verus! {

/// Type of a Redis key.
#[derive(Debug, Clone, Copy, PartialEq, Eq, Structural)]
pub enum RedisType {
    String,
    List,
    Hash,
    /// An unordered set (`set` in `TYPE` replies).
    PlainSet,
    ZSet,
    Stream,
    /// No such key (`none` in `TYPE` replies).
    Missing,
}

/// A key as SCAN lists it.
#[derive(Debug)]
pub struct KeyMeta {
    /// The key name.
    pub key: String,
    /// Its type, where it was asked for.
    pub key_type: Option<RedisType>,
    /// Remaining time to live in milliseconds, where it was asked for.
    pub ttl_ms: Option<i64>,
}

impl KeyMeta {
    /// A key whose type and TTL were not asked for.
    pub fn bare(key: &str) -> (r: KeyMeta)
        ensures
            r.key@ == key@,
            r.key_type is None,
            r.ttl_ms is None,
    {
        KeyMeta { key: String::from_str(key), key_type: None, ttl_ms: None }
    }
}

/// A node of the key tree: a namespace (it has children), a key, or both.
#[derive(Debug)]
pub struct TreeNode {
    /// The segment this node stands for.
    pub label: String,
    /// The whole path from the root, segments joined by `:`.
    pub full_path: String,
    /// The child nodes.
    pub children: Vec<TreeNode>,
    /// Whether a key ends at this node.
    pub is_key: bool,
    /// The type of that key, where it is known.
    pub leaf_type: Option<RedisType>,
}

impl TreeNode {
    /// Whether the node has children.
    pub fn is_namespace(&self) -> (r: bool)
        ensures
            r == is_ns(*self),
    {
        self.children.len() > 0
    }
}

/// The node has children.
pub open spec fn is_ns(n: TreeNode) -> bool {
    n.children@.len() > 0
}

// ===== Paths =====

/// The segments of a key name.
pub open spec fn segments(k: Seq<char>) -> Seq<Seq<char>> {
    split_on(k, ':')
}

/// A key takes part in the tree when none of its segments is empty.
pub open spec fn valid_key(k: Seq<char>) -> bool {
    forall|i: int| 0 <= i < segments(k).len() ==> (#[trigger] segments(k)[i]).len() > 0
}

/// Joining the pieces of a split gives back the text.
pub proof fn lemma_join_split(k: Seq<char>, c: char)
    ensures
        join(split_on(k, c), c) == k,
    decreases k.len(),
{
    if k.len() > 0 {
        let t = k.drop_last();
        lemma_join_split(t, c);
        lemma_split_on_len(t, c);
        let r = split_on(t, c);
        if k.last() == c {
            assert(r.push(Seq::empty()).drop_last() =~= r);
            assert(join(r, c) + seq![c] + Seq::<char>::empty() =~= k);
        } else {
            let r2 = r.update(r.len() - 1, r.last().push(k.last()));
            if r.len() == 1 {
                assert(r2[0] =~= k);
            } else {
                assert(r2.drop_last() =~= r.drop_last());
                assert(join(r2, c) =~= join(r.drop_last(), c) + seq![c] + r.last().push(k.last()));
                assert(join(r2, c) =~= join(r, c).push(k.last()));
            }
        }
    }
}


// ===== The tree as a map from paths =====

/// What a node records: whether a key ends there, its type, its full path.
pub open spec fn info(n: TreeNode) -> (bool, Option<RedisType>, Seq<char>) {
    (n.is_key, n.leaf_type, n.full_path@)
}

/// Sibling labels are distinct.
pub open spec fn labels_distinct(f: Seq<TreeNode>) -> bool {
    forall|i: int, j: int|
        0 <= i < f.len() && 0 <= j < f.len() && i != j ==> #[trigger] f[i].label@ != #[trigger] f[j].label@
}

/// Labels are distinct at every level below `n`.
pub open spec fn node_ok(n: TreeNode) -> bool
    decreases n,
{
    &&& labels_distinct(n.children@)
    &&& forall|i: int| 0 <= i < n.children@.len() ==> node_ok(#[trigger] n.children@[i])
}

/// Labels are distinct at every level of the forest.
pub open spec fn forest_ok(f: Seq<TreeNode>) -> bool {
    &&& labels_distinct(f)
    &&& forall|i: int| 0 <= i < f.len() ==> node_ok(#[trigger] f[i])
}

/// Some root of `f` has label `l`.
pub open spec fn has_label(f: Seq<TreeNode>, l: Seq<char>) -> bool {
    exists|i: int| 0 <= i < f.len() && f[i].label@ == l
}

/// The index of a root of `f` with label `l`.
pub open spec fn label_idx(f: Seq<TreeNode>, l: Seq<char>) -> int {
    choose|i: int| 0 <= i < f.len() && f[i].label@ == l
}

/// The node reached from the roots `f` along the labels `p`.
pub open spec fn node_at(f: Seq<TreeNode>, p: Seq<Seq<char>>) -> Option<TreeNode>
    decreases p.len(),
{
    if p.len() == 0 || !has_label(f, p[0]) {
        None
    } else {
        let n = f[label_idx(f, p[0])];
        if p.len() == 1 {
            Some(n)
        } else {
            node_at(n.children@, p.drop_first())
        }
    }
}

/// The forest as a map from label paths to what their nodes record.
pub open spec fn fmap(f: Seq<TreeNode>) -> Map<Seq<Seq<char>>, (bool, Option<RedisType>, Seq<char>)> {
    Map::new(|p: Seq<Seq<char>>| node_at(f, p) is Some, |p: Seq<Seq<char>>| info(node_at(f, p).unwrap()))
}

/// `p` is a non-empty prefix of `q`.
pub open spec fn is_prefix_path(p: Seq<Seq<char>>, q: Seq<Seq<char>>) -> bool {
    1 <= p.len() <= q.len() && q.subrange(0, p.len() as int) == p
}

/// The map `m` (of the subtree below the path `base`) with the key path `q`
/// of type `t` added: every prefix of `q` is present, `q` is a key.
pub open spec fn add_path(
    m: Map<Seq<Seq<char>>, (bool, Option<RedisType>, Seq<char>)>,
    base: Seq<Seq<char>>,
    q: Seq<Seq<char>>,
    t: Option<RedisType>,
) -> Map<Seq<Seq<char>>, (bool, Option<RedisType>, Seq<char>)> {
    Map::new(
        |p: Seq<Seq<char>>| m.dom().contains(p) || is_prefix_path(p, q),
        |p: Seq<Seq<char>>|
            if p == q {
                (true, t, join(base + p, ':'))
            } else if m.dom().contains(p) {
                m[p]
            } else {
                (false, None, join(base + p, ':'))
            },
    )
}

/// The trie of the keys `keys` (name and type), in input order: a later key
/// with the same name wins.
pub open spec fn trie(keys: Seq<(Seq<char>, Option<RedisType>)>) -> Map<
    Seq<Seq<char>>,
    (bool, Option<RedisType>, Seq<char>),
>
    decreases keys.len(),
{
    if keys.len() == 0 {
        Map::empty()
    } else {
        let m = trie(keys.drop_last());
        let k = keys.last();
        if valid_key(k.0) {
            add_path(m, Seq::empty(), segments(k.0), k.1)
        } else {
            m
        }
    }
}

/// Different key names have different segment paths.
pub proof fn lemma_segments_injective(a: Seq<char>, b: Seq<char>)
    requires
        a != b,
    ensures
        segments(a) != segments(b),
{
    lemma_join_split(a, ':');
    lemma_join_split(b, ':');
}

/// The trie records the last occurrence of every key that has no empty
/// segment: its path is present, marked as a key, with that occurrence's
/// type and the key's name as full path.
pub proof fn lemma_trie_key(keys: Seq<(Seq<char>, Option<RedisType>)>, i: int)
    requires
        0 <= i < keys.len(),
        valid_key(keys[i].0),
        forall|j: int| i < j < keys.len() ==> keys[j].0 != keys[i].0,
    ensures
        trie(keys).dom().contains(segments(keys[i].0)),
        trie(keys)[segments(keys[i].0)] == (true, keys[i].1, keys[i].0),
    decreases keys.len(),
{
    let k = keys[i].0;
    let q = segments(k);
    let m = trie(keys.drop_last());
    let last = keys.last();
    if i == keys.len() - 1 {
        lemma_join_split(k, ':');
        assert(Seq::<Seq<char>>::empty() + q =~= q);
        lemma_split_on_len(k, ':');
        assert(is_prefix_path(q, q)) by {
            assert(q.subrange(0, q.len() as int) =~= q);
        }
    } else {
        lemma_trie_key(keys.drop_last(), i);
        assert(keys.drop_last()[i] == keys[i]);
        if valid_key(last.0) {
            assert(last.0 != k);
            lemma_segments_injective(last.0, k);
        }
    }
}

/// Every key with no empty segment ends at the node reached along its
/// segments: the node is a key, its full path is the key's name, and its type
/// is that of the key's last occurrence in the input.
pub proof fn lemma_tree_finds_key(
    keys: Seq<(Seq<char>, Option<RedisType>)>,
    f: Seq<TreeNode>,
    i: int,
)
    requires
        fmap(f) == trie(keys),
        0 <= i < keys.len(),
        valid_key(keys[i].0),
        forall|j: int| i < j < keys.len() ==> keys[j].0 != keys[i].0,
    ensures
        node_at(f, segments(keys[i].0)) is Some,
        info(node_at(f, segments(keys[i].0)).unwrap()) == (true, keys[i].1, keys[i].0),
{
    lemma_trie_key(keys, i);
    assert(fmap(f).dom().contains(segments(keys[i].0)));
}

/// Name and type of each key.
pub open spec fn key_views(keys: Seq<KeyMeta>) -> Seq<(Seq<char>, Option<RedisType>)> {
    keys.map_values(|k: KeyMeta| (k.key@, k.key_type))
}

// ===== Sibling order =====

/// Lexicographic order of texts by character code (the order of `String`).
pub open spec fn chars_lt(a: Seq<char>, b: Seq<char>) -> bool
    decreases a.len(),
{
    if a.len() == 0 {
        b.len() > 0
    } else if b.len() == 0 {
        false
    } else if a[0] != b[0] {
        (a[0] as int) < (b[0] as int)
    } else {
        chars_lt(a.drop_first(), b.drop_first())
    }
}

/// `a` comes before `b` among siblings: namespaces first, then by label.
pub open spec fn before(a: TreeNode, b: TreeNode) -> bool {
    ||| (is_ns(a) && !is_ns(b))
    ||| (is_ns(a) == is_ns(b) && chars_lt(a.label@, b.label@))
}

/// Siblings are in order.
pub open spec fn level_sorted(f: Seq<TreeNode>) -> bool {
    forall|i: int, j: int| 0 <= i < j < f.len() ==> before(#[trigger] f[i], #[trigger] f[j])
}

/// Siblings are in order at every level below `n`.
pub open spec fn node_sorted(n: TreeNode) -> bool
    decreases n,
{
    &&& level_sorted(n.children@)
    &&& forall|i: int| 0 <= i < n.children@.len() ==> node_sorted(#[trigger] n.children@[i])
}

/// Siblings are in order at every level of the forest.
pub open spec fn forest_sorted(f: Seq<TreeNode>) -> bool {
    &&& level_sorted(f)
    &&& forall|i: int| 0 <= i < f.len() ==> node_sorted(#[trigger] f[i])
}

/// `chars_lt` is irreflexive.
pub proof fn lemma_chars_lt_irrefl(a: Seq<char>)
    ensures
        !chars_lt(a, a),
    decreases a.len(),
{
    if a.len() > 0 {
        lemma_chars_lt_irrefl(a.drop_first());
    }
}

/// `chars_lt` is total on distinct texts.
pub proof fn lemma_chars_lt_total(a: Seq<char>, b: Seq<char>)
    requires
        a != b,
    ensures
        chars_lt(a, b) || chars_lt(b, a),
    decreases a.len(),
{
    if a.len() == 0 {
        assert(b.len() > 0) by {
            if b.len() == 0 {
                assert(a =~= b);
            }
        }
    } else if b.len() == 0 {
    } else if a[0] == b[0] {
        if a.drop_first() == b.drop_first() {
            assert(a =~= seq![a[0]] + a.drop_first());
            assert(b =~= seq![b[0]] + b.drop_first());
        }
        lemma_chars_lt_total(a.drop_first(), b.drop_first());
    }
}

/// `chars_lt` is asymmetric.
pub proof fn lemma_chars_lt_asym(a: Seq<char>, b: Seq<char>)
    requires
        chars_lt(a, b),
    ensures
        !chars_lt(b, a),
    decreases a.len(),
{
    if a.len() > 0 && b.len() > 0 && a[0] == b[0] {
        lemma_chars_lt_asym(a.drop_first(), b.drop_first());
    }
}

/// `chars_lt` is transitive.
pub proof fn lemma_chars_lt_trans(a: Seq<char>, b: Seq<char>, c: Seq<char>)
    requires
        chars_lt(a, b),
        chars_lt(b, c),
    ensures
        chars_lt(a, c),
    decreases a.len(),
{
    if a.len() > 0 && b.len() > 0 && c.len() > 0 && a[0] == b[0] && b[0] == c[0] {
        lemma_chars_lt_trans(a.drop_first(), b.drop_first(), c.drop_first());
    }
}

/// `before` is transitive.
pub proof fn lemma_before_trans(a: TreeNode, b: TreeNode, c: TreeNode)
    requires
        before(a, b),
        before(b, c),
    ensures
        before(a, c),
{
    if is_ns(a) == is_ns(b) && is_ns(b) == is_ns(c) {
        lemma_chars_lt_trans(a.label@, b.label@, c.label@);
    }
}

/// Two nodes with distinct labels are ordered one way or the other.
pub proof fn lemma_before_total(a: TreeNode, b: TreeNode)
    requires
        a.label@ != b.label@,
    ensures
        before(a, b) || before(b, a),
{
    lemma_chars_lt_total(a.label@, b.label@);
}

/// `before` is asymmetric.
pub proof fn lemma_before_asym(a: TreeNode, b: TreeNode)
    requires
        before(a, b),
    ensures
        !before(b, a),
{
    if is_ns(a) == is_ns(b) {
        lemma_chars_lt_asym(a.label@, b.label@);
    }
}

/// Skipping an equal prefix does not change the order.
proof fn lemma_chars_lt_skip(a: Seq<char>, b: Seq<char>, i: int)
    requires
        0 <= i <= a.len(),
        i <= b.len(),
        forall|j: int| 0 <= j < i ==> a[j] == b[j],
    ensures
        chars_lt(a, b) == chars_lt(a.subrange(i, a.len() as int), b.subrange(i, b.len() as int)),
    decreases i,
{
    if i > 0 {
        let a1 = a.drop_first();
        let b1 = b.drop_first();
        assert forall|j: int| 0 <= j < i - 1 implies a1[j] == b1[j] by {
            assert(a1[j] == a[j + 1]);
            assert(b1[j] == b[j + 1]);
        }
        lemma_chars_lt_skip(a1, b1, i - 1);
        assert(a1.subrange(i - 1, a1.len() as int) =~= a.subrange(i, a.len() as int));
        assert(b1.subrange(i - 1, b1.len() as int) =~= b.subrange(i, b.len() as int));
    } else {
        assert(a.subrange(0, a.len() as int) =~= a);
        assert(b.subrange(0, b.len() as int) =~= b);
    }
}

/// Whether `a` comes before `b` by character codes.
pub fn chars_lt_exec(a: &[char], b: &[char]) -> (r: bool)
    ensures
        r == chars_lt(a@, b@),
{
    let mut i: usize = 0;
    while i < a.len() && i < b.len() && a[i] == b[i]
        invariant
            i <= a@.len(),
            i <= b@.len(),
            forall|j: int| 0 <= j < i ==> a@[j] == b@[j],
        decreases a@.len() - i,
    {
        i += 1;
    }
    proof {
        lemma_chars_lt_skip(a@, b@, i as int);
    }
    let ghost a1 = a@.subrange(i as int, a@.len() as int);
    let ghost b1 = b@.subrange(i as int, b@.len() as int);
    if i == a.len() {
        i < b.len()
    } else if i == b.len() {
        false
    } else {
        assert(a1[0] == a@[i as int] && b1[0] == b@[i as int]);
        assert(a1.len() > 0 && b1.len() > 0 && a1[0] != b1[0]);
        a[i] < b[i]
    }
}


// ===== Lookups after changes =====

/// The root with the label of `f[i]` is `f[i]`.
pub proof fn lemma_label_idx(f: Seq<TreeNode>, i: int)
    requires
        labels_distinct(f),
        0 <= i < f.len(),
    ensures
        has_label(f, f[i].label@),
        label_idx(f, f[i].label@) == i,
{
    let k = label_idx(f, f[i].label@);
    assert(f[k].label@ == f[i].label@);
}

/// Looking up a path after one root was replaced by a node with its label.
pub proof fn lemma_node_at_update(f: Seq<TreeNode>, p: int, n2: TreeNode, q: Seq<Seq<char>>)
    requires
        labels_distinct(f),
        0 <= p < f.len(),
        n2.label@ == f[p].label@,
        q.len() >= 1,
    ensures
        labels_distinct(f.update(p, n2)),
        node_at(f.update(p, n2), q) == (if q[0] == f[p].label@ {
            if q.len() == 1 {
                Some(n2)
            } else {
                node_at(n2.children@, q.drop_first())
            }
        } else {
            node_at(f, q)
        }),
{
    let g = f.update(p, n2);
    assert(labels_distinct(g)) by {
        assert forall|i: int, j: int|
            0 <= i < g.len() && 0 <= j < g.len() && i != j implies #[trigger] g[i].label@
            != #[trigger] g[j].label@ by {
            assert(g[i].label@ == f[i].label@);
            assert(g[j].label@ == f[j].label@);
        }
    }
    if q[0] == f[p].label@ {
        lemma_label_idx(g, p);
    } else {
        if has_label(f, q[0]) {
            let i = label_idx(f, q[0]);
            lemma_label_idx(g, i);
            assert(g[i] == f[i]);
        } else {
            if has_label(g, q[0]) {
                let i = label_idx(g, q[0]);
                assert(f[i].label@ == q[0]);
            }
        }
    }
}

/// Looking up a path after a root with a new label was added.
pub proof fn lemma_node_at_push(f: Seq<TreeNode>, n: TreeNode, q: Seq<Seq<char>>)
    requires
        labels_distinct(f),
        !has_label(f, n.label@),
        q.len() >= 1,
    ensures
        labels_distinct(f.push(n)),
        node_at(f.push(n), q) == (if q[0] == n.label@ {
            if q.len() == 1 {
                Some(n)
            } else {
                node_at(n.children@, q.drop_first())
            }
        } else {
            node_at(f, q)
        }),
{
    let g = f.push(n);
    assert(labels_distinct(g)) by {
        assert forall|i: int, j: int|
            0 <= i < g.len() && 0 <= j < g.len() && i != j implies #[trigger] g[i].label@
            != #[trigger] g[j].label@ by {
            if i == f.len() as int {
                assert(f[j].label@ == g[j].label@);
            } else if j == f.len() as int {
                assert(f[i].label@ == g[i].label@);
            }
        }
    }
    if q[0] == n.label@ {
        lemma_label_idx(g, f.len() as int);
    } else {
        if has_label(f, q[0]) {
            let i = label_idx(f, q[0]);
            lemma_label_idx(g, i);
        } else {
            if has_label(g, q[0]) {
                let i = label_idx(g, q[0]);
                assert(f[i].label@ == q[0]);
            }
        }
    }
}

/// An empty forest maps nothing.
pub proof fn lemma_fmap_empty(f: Seq<TreeNode>)
    requires
        f.len() == 0,
    ensures
        fmap(f) == Map::<Seq<Seq<char>>, (bool, Option<RedisType>, Seq<char>)>::empty(),
{
    assert(fmap(f) =~= Map::<Seq<Seq<char>>, (bool, Option<RedisType>, Seq<char>)>::empty());
}


/// A path that starts like `q` is a prefix of `q` exactly when its tail is a
/// prefix of the tail of `q`.
proof fn lemma_prefix_step(r: Seq<Seq<char>>, q: Seq<Seq<char>>)
    requires
        r.len() >= 2,
        q.len() >= 1,
        r[0] == q[0],
    ensures
        is_prefix_path(r, q) == is_prefix_path(r.drop_first(), q.drop_first()),
        (r == q) == (r.drop_first() == q.drop_first()),
{
    if is_prefix_path(r, q) {
        assert(q.drop_first().subrange(0, r.len() - 1) =~= q.subrange(0, r.len() as int).drop_first());
    }
    if is_prefix_path(r.drop_first(), q.drop_first()) {
        let qs = q.drop_first().subrange(0, r.len() - 1);
        assert forall|i: int| 0 <= i < r.len() implies #[trigger] q.subrange(0, r.len() as int)[i]
            == r[i] by {
            if i > 0 {
                assert(qs[i - 1] == r.drop_first()[i - 1]);
            }
        }
        assert(q.subrange(0, r.len() as int) =~= r);
    }
    if r.drop_first() == q.drop_first() {
        assert(r.len() == q.len());
        assert forall|i: int| 0 <= i < r.len() implies #[trigger] r[i] == q[i] by {
            if i > 0 {
                assert(r.drop_first()[i - 1] == q.drop_first()[i - 1]);
            }
        }
        assert(r =~= q);
    }
}

/// Joining a path below `base` is joining it below the longer base.
proof fn lemma_base_step(base: Seq<Seq<char>>, r: Seq<Seq<char>>)
    requires
        r.len() >= 1,
    ensures
        base + r == base.push(r[0]) + r.drop_first(),
{
    assert(base + r =~= base.push(r[0]) + r.drop_first());
}

/// The map after `insert_path` changed the root `p` that matched the first
/// segment.
proof fn insert_found_case(
    f: Seq<TreeNode>,
    p: int,
    new_n: TreeNode,
    base: Seq<Seq<char>>,
    q: Seq<Seq<char>>,
    kind: Option<RedisType>,
    r: Seq<Seq<char>>,
    is_last: bool,
)
    requires
        labels_distinct(f),
        0 <= p < f.len(),
        q.len() >= 1,
        new_n.label@ == f[p].label@,
        f[p].label@ == q[0],
        is_last == (q.len() == 1),
        is_last ==> new_n.is_key && new_n.leaf_type == kind && new_n.full_path@ == join(
            base + q,
            ':',
        ) && new_n.children == f[p].children,
        !is_last ==> new_n.is_key == f[p].is_key && new_n.leaf_type == f[p].leaf_type
            && new_n.full_path == f[p].full_path && fmap(new_n.children@) == add_path(
            fmap(f[p].children@),
            base.push(q[0]),
            q.drop_first(),
            kind,
        ),
    ensures
        fmap(f.update(p, new_n)).dom().contains(r) == add_path(fmap(f), base, q, kind).dom().contains(
            r,
        ),
        fmap(f.update(p, new_n)).dom().contains(r) ==> fmap(f.update(p, new_n))[r] == add_path(
            fmap(f),
            base,
            q,
            kind,
        )[r],
{
    let g = f.update(p, new_n);
    let m = fmap(f);
    let old_n = f[p];
    if r.len() == 0 {
        return;
    }
    lemma_node_at_update(f, p, new_n, r);
    lemma_label_idx(f, p);
    if r[0] != q[0] {
        if is_prefix_path(r, q) {
            assert(q.subrange(0, r.len() as int)[0] == r[0]);
        }
        return;
    }
    if r.len() == 1 {
        assert(q.subrange(0, 1) =~= r);
        if is_last {
            assert(r =~= q);
        } else {
            assert(r != q);
        }
        return;
    }
    lemma_prefix_step(r, q);
    let r1 = r.drop_first();
    if is_last {
        assert(node_at(g, r) == node_at(f, r));
        assert(!is_prefix_path(r, q));
        assert(r != q);
    } else {
        lemma_base_step(base, r);
        let ch_old = old_n.children@;
        let ch_new = new_n.children@;
        let mo = fmap(ch_old);
        let mn = fmap(ch_new);
        assert(node_at(g, r) == node_at(ch_new, r1));
        assert(node_at(f, r) == node_at(ch_old, r1));
        assert(mn.dom().contains(r1) == (node_at(ch_new, r1) is Some));
        assert(mo.dom().contains(r1) == (node_at(ch_old, r1) is Some));
        assert(m.dom().contains(r) == mo.dom().contains(r1));
        if node_at(g, r) is Some {
            assert(fmap(g)[r] == mn[r1]);
            if mo.dom().contains(r1) {
                assert(m[r] == mo[r1]);
            }
        }
    }
}

/// The map after `insert_path` added a root for the first segment.
proof fn insert_new_case(
    f: Seq<TreeNode>,
    new_n: TreeNode,
    base: Seq<Seq<char>>,
    q: Seq<Seq<char>>,
    kind: Option<RedisType>,
    r: Seq<Seq<char>>,
    is_last: bool,
)
    requires
        labels_distinct(f),
        q.len() >= 1,
        new_n.label@ == q[0],
        !has_label(f, q[0]),
        is_last == (q.len() == 1),
        is_last ==> new_n.is_key && new_n.leaf_type == kind && new_n.full_path@ == join(
            base + q,
            ':',
        ) && new_n.children@.len() == 0,
        !is_last ==> !new_n.is_key && new_n.leaf_type is None && new_n.full_path@ == join(
            base.push(q[0]),
            ':',
        ) && fmap(new_n.children@) == add_path(
            Map::empty(),
            base.push(q[0]),
            q.drop_first(),
            kind,
        ),
    ensures
        fmap(f.push(new_n)).dom().contains(r) == add_path(fmap(f), base, q, kind).dom().contains(r),
        fmap(f.push(new_n)).dom().contains(r) ==> fmap(f.push(new_n))[r] == add_path(
            fmap(f),
            base,
            q,
            kind,
        )[r],
{
    let g = f.push(new_n);
    if r.len() == 0 {
        return;
    }
    lemma_node_at_push(f, new_n, r);
    if r[0] != q[0] {
        if is_prefix_path(r, q) {
            assert(q.subrange(0, r.len() as int)[0] == r[0]);
        }
        return;
    }
    assert(node_at(f, r) is None);
    if r.len() == 1 {
        assert(q.subrange(0, 1) =~= r);
        if is_last {
            assert(r =~= q);
        } else {
            assert(r != q);
            assert(base + r =~= base.push(q[0]));
        }
        return;
    }
    lemma_prefix_step(r, q);
    let r1 = r.drop_first();
    let m = fmap(f);
    assert(!m.dom().contains(r));
    if is_last {
        assert(!has_label(new_n.children@, r1[0]));
        assert(node_at(new_n.children@, r1) is None);
        assert(node_at(g, r) is None);
        assert(!is_prefix_path(r, q));
    } else {
        lemma_base_step(base, r);
        let mn = fmap(new_n.children@);
        assert(node_at(g, r) == node_at(new_n.children@, r1));
        assert(mn.dom().contains(r1) == (node_at(new_n.children@, r1) is Some));
        assert(mn.dom().contains(r1) == is_prefix_path(r1, q.drop_first()));
        if node_at(g, r) is Some {
            assert(fmap(g)[r] == mn[r1]);
        }
    }
}

// ===== Building =====

/// Index of the root labelled `part`.
fn find_label(nodes: &Vec<TreeNode>, part: &[char]) -> (r: Option<usize>)
    ensures
        match r {
            Some(p) => p < nodes@.len() && nodes@[p as int].label@ == part@,
            None => !has_label(nodes@, part@),
        },
{
    let mut i: usize = 0;
    while i < nodes.len()
        invariant
            i <= nodes@.len(),
            forall|j: int| 0 <= j < i ==> nodes@[j].label@ != part@,
        decreases nodes@.len() - i,
    {
        if chars_eq_str(part, nodes[i].label.as_str()) {
            return Some(i);
        }
        i += 1;
    }
    None
}

/// The first `n` segments joined by `:`.
fn join_prefix(parts: &Vec<Vec<char>>, n: usize) -> (r: Vec<char>)
    requires
        1 <= n <= parts@.len(),
    ensures
        r@ == join(views(parts@).take(n as int), ':'),
{
    let ghost pv = views(parts@);
    let mut r = copy_range(parts[0].as_slice(), 0, parts[0].len());
    proof {
        assert(parts[0]@.subrange(0, parts[0]@.len() as int) =~= parts[0]@);
        assert(pv.take(1)[0] == parts@[0]@);
    }
    let mut i: usize = 1;
    while i < n
        invariant
            1 <= i <= n <= parts@.len(),
            pv == views(parts@),
            r@ == join(pv.take(i as int), ':'),
        decreases n - i,
    {
        r.push(':');
        push_chars(&mut r, parts[i].as_slice());
        proof {
            let t = pv.take(i + 1);
            assert(t.drop_last() =~= pv.take(i as int));
            assert(t.last() == parts@[i as int]@);
            assert(r@ =~= join(t, ':'));
        }
        i += 1;
    }
    r
}

/// Adds the key path `parts[idx..]` below the roots `nodes`, which sit at the
/// path `parts[..idx]`.
fn insert_path(
    nodes: &mut Vec<TreeNode>,
    parts: &Vec<Vec<char>>,
    idx: usize,
    full_key: &[char],
    kind: Option<RedisType>,
)
    requires
        idx < parts@.len(),
        forall|i: int| 0 <= i < parts@.len() ==> (#[trigger] parts@[i])@.len() > 0,
        full_key@ == join(views(parts@), ':'),
        forest_ok(old(nodes)@),
    ensures
        forest_ok(final(nodes)@),
        fmap(final(nodes)@) == add_path(
            fmap(old(nodes)@),
            views(parts@).take(idx as int),
            views(parts@).skip(idx as int),
            kind,
        ),
    decreases parts@.len() - idx,
{
    let ghost pv = views(parts@);
    let ghost base = pv.take(idx as int);
    let ghost q = pv.skip(idx as int);
    let ghost old_f = nodes@;
    let part = &parts[idx];
    let is_last = idx == parts.len() - 1;
    proof {
        assert(q[0] == part@);
        assert(base + q =~= pv);
    }
    match find_label(nodes, part.as_slice()) {
        Some(p) => {
            let ghost old_n = nodes@[p as int];
            if is_last {
                nodes[p].is_key = true;
                nodes[p].leaf_type = kind;
                nodes[p].full_path = string_of(full_key);
            } else {
                insert_path(&mut nodes[p].children, parts, idx + 1, full_key, kind);
            }
            let ghost new_n = nodes@[p as int];
            proof {
                assert(pv.take(idx + 1) =~= base.push(part@));
                assert(pv.skip(idx + 1) =~= q.drop_first());
                assert(nodes@ == old_f.update(p as int, new_n));
                assert(node_ok(new_n));
                assert forall|r: Seq<Seq<char>>| r.len() >= 1 implies node_at(nodes@, r)
                    == #[trigger] node_at(old_f.update(p as int, new_n), r) by {}
                assert(fmap(nodes@) =~= add_path(fmap(old_f), base, q, kind)) by {
                    assert forall|r: Seq<Seq<char>>|
                        #![trigger fmap(nodes@).dom().contains(r)]
                        fmap(nodes@).dom().contains(r) == add_path(
                            fmap(old_f),
                            base,
                            q,
                            kind,
                        ).dom().contains(r) && (fmap(nodes@).dom().contains(r) ==> fmap(
                            nodes@,
                        )[r] == add_path(fmap(old_f), base, q, kind)[r]) by {
                        insert_found_case(old_f, p as int, new_n, base, q, kind, r, is_last);
                    }
                }
                assert(forest_ok(nodes@)) by {
                    lemma_node_at_update(old_f, p as int, new_n, seq![part@]);
                    assert forall|i: int| 0 <= i < nodes@.len() implies node_ok(
                        #[trigger] nodes@[i],
                    ) by {
                        if i != p {
                            assert(nodes@[i] == old_f[i]);
                        }
                    }
                }
            }
        },
        None => {
            let path_so_far = join_prefix(parts, idx + 1);
            let mut new_node = TreeNode {
                label: string_of(part.as_slice()),
                full_path: string_of(path_so_far.as_slice()),
                children: Vec::new(),
                is_key: false,
                leaf_type: None,
            };
            proof {
                lemma_fmap_empty(new_node.children@);
            }
            proof {
                assert(pv.take(idx + 1) =~= base.push(part@));
                assert(pv.skip(idx + 1) =~= q.drop_first());
            }
            if is_last {
                new_node.full_path = string_of(full_key);
                new_node.is_key = true;
                new_node.leaf_type = kind;
            } else {
                insert_path(&mut new_node.children, parts, idx + 1, full_key, kind);
            }
            nodes.push(new_node);
            proof {
                assert(pv.take(idx + 1) =~= base.push(part@));
                assert(nodes@ == old_f.push(new_node));
                assert(fmap(nodes@) =~= add_path(fmap(old_f), base, q, kind)) by {
                    assert forall|r: Seq<Seq<char>>|
                        #![trigger fmap(nodes@).dom().contains(r)]
                        fmap(nodes@).dom().contains(r) == add_path(
                            fmap(old_f),
                            base,
                            q,
                            kind,
                        ).dom().contains(r) && (fmap(nodes@).dom().contains(r) ==> fmap(
                            nodes@,
                        )[r] == add_path(fmap(old_f), base, q, kind)[r]) by {
                        insert_new_case(old_f, new_node, base, q, kind, r, is_last);
                    }
                }
                assert(forest_ok(nodes@)) by {
                    lemma_node_at_push(old_f, new_node, seq![part@]);
                    assert(node_ok(new_node));
                    assert forall|i: int| 0 <= i < nodes@.len() implies node_ok(
                        #[trigger] nodes@[i],
                    ) by {
                        if i < old_f.len() {
                            assert(nodes@[i] == old_f[i]);
                        }
                    }
                }
            }
        },
    }
}


// ===== Sorting =====

/// A forest has roots exactly when its map is not empty.
proof fn lemma_fmap_nonempty(f: Seq<TreeNode>)
    requires
        labels_distinct(f),
    ensures
        (f.len() > 0) == (exists|p: Seq<Seq<char>>| fmap(f).dom().contains(p)),
{
    if f.len() > 0 {
        lemma_label_idx(f, 0);
        assert(fmap(f).dom().contains(seq![f[0].label@]));
    } else {
        assert forall|p: Seq<Seq<char>>| !fmap(f).dom().contains(p) by {
            if p.len() > 0 {
                assert(!has_label(f, p[0]));
            }
        }
    }
}

/// Two forests whose roots agree one by one, up to the order below them,
/// have the same map.
proof fn lemma_fmap_pointwise(f: Seq<TreeNode>, g: Seq<TreeNode>)
    requires
        labels_distinct(f),
        f.len() == g.len(),
        forall|i: int|
            0 <= i < f.len() ==> #[trigger] g[i].label@ == f[i].label@ && info(g[i]) == info(f[i])
                && fmap(g[i].children@) == fmap(f[i].children@),
    ensures
        labels_distinct(g),
        fmap(g) == fmap(f),
{
    assert(labels_distinct(g)) by {
        assert forall|i: int, j: int|
            0 <= i < g.len() && 0 <= j < g.len() && i != j implies #[trigger] g[i].label@
            != #[trigger] g[j].label@ by {
            assert(g[i].label@ == f[i].label@);
            assert(g[j].label@ == f[j].label@);
        }
    }
    assert forall|r: Seq<Seq<char>>| #![trigger fmap(g).dom().contains(r)]
        fmap(g).dom().contains(r) == fmap(f).dom().contains(r) && (fmap(g).dom().contains(r)
            ==> fmap(g)[r] == fmap(f)[r]) by {
        if r.len() > 0 {
            if has_label(f, r[0]) {
                let i = label_idx(f, r[0]);
                lemma_label_idx(f, i);
                lemma_label_idx(g, i);
                if r.len() > 1 {
                    let r1 = r.drop_first();
                    let mf = fmap(f[i].children@);
                    let mg = fmap(g[i].children@);
                    assert(mf.dom().contains(r1) == mg.dom().contains(r1));
                    if mf.dom().contains(r1) {
                        assert(mf[r1] == mg[r1]);
                    }
                }
            } else if has_label(g, r[0]) {
                let j = label_idx(g, r[0]);
                assert(f[j].label@ == r[0]);
            }
        }
    }
    assert(fmap(g) =~= fmap(f));
}

/// Two forests holding the same nodes in any order have the same map.
proof fn lemma_fmap_perm(f: Seq<TreeNode>, g: Seq<TreeNode>)
    requires
        labels_distinct(f),
        labels_distinct(g),
        forall|x: TreeNode| f.contains(x) <==> g.contains(x),
    ensures
        fmap(g) == fmap(f),
{
    assert forall|r: Seq<Seq<char>>| #![trigger fmap(g).dom().contains(r)]
        fmap(g).dom().contains(r) == fmap(f).dom().contains(r) && (fmap(g).dom().contains(r)
            ==> fmap(g)[r] == fmap(f)[r]) by {
        if r.len() > 0 {
            if has_label(f, r[0]) {
                let i = label_idx(f, r[0]);
                lemma_label_idx(f, i);
                assert(f.contains(f[i]));
                let j = choose|j: int| 0 <= j < g.len() && g[j] == f[i];
                lemma_label_idx(g, j);
            } else if has_label(g, r[0]) {
                let j = label_idx(g, r[0]);
                assert(g.contains(g[j]));
                let i = choose|i: int| 0 <= i < f.len() && f[i] == g[j];
                assert(f[i].label@ == r[0]);
            }
        }
    }
    assert(fmap(g) =~= fmap(f));
}

/// Whether `a` comes before `b` among siblings.
fn before_exec(a: &TreeNode, b: &TreeNode) -> (r: bool)
    ensures
        r == before(*a, *b),
{
    let a_ns = a.children.len() > 0;
    let b_ns = b.children.len() > 0;
    if a_ns && !b_ns {
        true
    } else if a_ns == b_ns {
        let la = chars_of(a.label.as_str());
        let lb = chars_of(b.label.as_str());
        chars_lt_exec(la.as_slice(), lb.as_slice())
    } else {
        false
    }
}

/// Orders the roots `nodes` and, below them, every level: namespaces first,
/// then by label. The map of the forest does not change.
fn sort_recursive(nodes: &mut Vec<TreeNode>)
    requires
        forest_ok(old(nodes)@),
    ensures
        forest_ok(final(nodes)@),
        forest_sorted(final(nodes)@),
        fmap(final(nodes)@) == fmap(old(nodes)@),
    decreases old(nodes)@,
{
    let ghost orig = nodes@;
    // Below each root first.
    let mut i: usize = 0;
    while i < nodes.len()
        invariant
            orig == old(nodes)@,
            forest_ok(orig),
            nodes@.len() == orig.len(),
            i <= orig.len(),
            forall|j: int|
                0 <= j < i ==> {
                    &&& (#[trigger] nodes@[j]).label == orig[j].label
                    &&& info(nodes@[j]) == info(orig[j])
                    &&& fmap(nodes@[j].children@) == fmap(orig[j].children@)
                    &&& is_ns(nodes@[j]) == is_ns(orig[j])
                    &&& node_ok(nodes@[j])
                    &&& level_sorted(nodes@[j].children@)
                    &&& forall|k: int|
                        0 <= k < nodes@[j].children@.len() ==> node_sorted(
                            #[trigger] nodes@[j].children@[k],
                        )
                },
            forall|j: int| i <= j < orig.len() ==> #[trigger] nodes@[j] == orig[j],
        decreases orig.len() - i,
    {
        let ghost before_call = nodes@;
        proof {
            assert(node_ok(orig[i as int]));
            assert(forest_ok(orig[i as int].children@));
            assert(decreases_to!(orig => orig[i as int]));
            assert(decreases_to!(orig[i as int] => orig[i as int].children));
            assert(decreases_to!(orig[i as int].children => orig[i as int].children@));
            assert(decreases_to!(orig => orig[i as int].children@));
            assert(nodes@[i as int].children@ == orig[i as int].children@);
            assert(decreases_to!(old(nodes)@ => nodes@[i as int].children@));
        }
        sort_recursive(&mut nodes[i].children);
        proof {
            let o = orig[i as int];
            let n = nodes@[i as int];
            lemma_fmap_nonempty(o.children@);
            lemma_fmap_nonempty(n.children@);
            assert(fmap(n.children@) == fmap(o.children@));
            if is_ns(o) {
                let w = choose|p: Seq<Seq<char>>| fmap(o.children@).dom().contains(p);
                assert(fmap(n.children@).dom().contains(w));
            }
            if is_ns(n) {
                let w = choose|p: Seq<Seq<char>>| fmap(n.children@).dom().contains(p);
                assert(fmap(o.children@).dom().contains(w));
            }
            assert forall|j: int| 0 <= j < nodes@.len() && j != i implies #[trigger] nodes@[j]
                == before_call[j] by {}
        }
        i += 1;
    }
    proof {
        lemma_fmap_pointwise(orig, nodes@);
    }
    let ghost mid = nodes@;
    // Then this level, by insertion.
    let mut out: Vec<TreeNode> = Vec::new();
    proof {
        assert(mid.subrange(0, mid.len() as int) =~= mid);
        assert(mid.subrange(mid.len() as int, mid.len() as int) =~= Seq::<TreeNode>::empty());
        assert(out@ =~= Seq::<TreeNode>::empty());
    }
    while nodes.len() > 0
        invariant
            labels_distinct(mid),
            nodes@ == mid.subrange(0, nodes@.len() as int),
            nodes@.len() <= mid.len(),
            out@.to_multiset() == mid.subrange(nodes@.len() as int, mid.len() as int).to_multiset(),
            labels_distinct(out@),
            level_sorted(out@),
            forall|a: int, b: int|
                0 <= a < out@.len() && 0 <= b < nodes@.len() ==> #[trigger] out@[a].label@
                    != #[trigger] nodes@[b].label@,
            forall|a: int|
                0 <= a < mid.len() ==> node_ok(#[trigger] mid[a]) && node_sorted(mid[a]),
            forall|a: int|
                0 <= a < out@.len() ==> node_ok(#[trigger] out@[a]) && node_sorted(out@[a]),
        decreases nodes@.len(),
    {
        let ghost k = nodes@.len();
        let x = match nodes.pop() {
            Some(x) => x,
            None => {
                assert(false);
                return ;
            },
        };
        proof {
            assert(x == mid[k - 1]);
            assert(node_ok(x) && node_sorted(x));
        }
        let mut pos: usize = 0;
        while pos < out.len() && before_exec(&out[pos], &x)
            invariant
                pos <= out@.len(),
                forall|a: int| 0 <= a < pos ==> before(#[trigger] out@[a], x),
            decreases out@.len() - pos,
        {
            pos += 1;
        }
        let ghost old_out = out@;
        out.insert(pos, x);
        proof {
            // The multiset of placed nodes grows by `x`.
            let placed_old = mid.subrange(k as int, mid.len() as int);
            let placed_new = mid.subrange(k - 1, mid.len() as int);
            assert(placed_new =~= placed_old.insert(0, x));
            vstd::seq_lib::to_multiset_insert(placed_old, 0, x);
            vstd::seq_lib::to_multiset_insert(old_out, pos as int, x);
            // `x` differs from the placed nodes by label.
            assert forall|a: int| 0 <= a < old_out.len() implies #[trigger] old_out[a].label@
                != x.label@ by {
                assert(mid[k - 1] == x);
            }
            if pos < old_out.len() {
                assert(!before(old_out[pos as int], x));
                lemma_before_total(old_out[pos as int], x);
            }
            assert(labels_distinct(out@)) by {
                assert forall|a: int, b: int|
                    0 <= a < out@.len() && 0 <= b < out@.len() && a != b implies #[trigger] out@[a].label@
                    != #[trigger] out@[b].label@ by {
                    if a != pos as int && b != pos as int {
                        let a0 = if a < pos { a } else { a - 1 };
                        let b0 = if b < pos { b } else { b - 1 };
                        assert(out@[a] == old_out[a0]);
                        assert(out@[b] == old_out[b0]);
                    } else if a == pos as int {
                        let b0 = if b < pos { b } else { b - 1 };
                        assert(out@[b] == old_out[b0]);
                    } else {
                        let a0 = if a < pos { a } else { a - 1 };
                        assert(out@[a] == old_out[a0]);
                    }
                }
            }
            assert(level_sorted(out@)) by {
                assert forall|a: int, b: int| 0 <= a < b < out@.len() implies before(
                    #[trigger] out@[a],
                    #[trigger] out@[b],
                ) by {
                    if b < pos {
                    } else if b == pos as int {
                    } else if a < pos {
                        assert(out@[b] == old_out[b - 1]);
                    } else if a == pos as int {
                        assert(out@[b] == old_out[b - 1]);
                        if b - 1 > pos {
                            lemma_before_trans(x, old_out[pos as int], old_out[b - 1]);
                        }
                    } else {
                        assert(out@[a] == old_out[a - 1]);
                        assert(out@[b] == old_out[b - 1]);
                    }
                }
            }
            assert forall|a: int, b: int|
                0 <= a < out@.len() && 0 <= b < nodes@.len() implies #[trigger] out@[a].label@
                != #[trigger] nodes@[b].label@ by {
                assert(nodes@[b] == mid[b]);
                if a == pos as int {
                    assert(mid[k - 1] == x);
                } else {
                    let a0 = if a < pos { a } else { a - 1 };
                    assert(out@[a] == old_out[a0]);
                    assert(old_out[a0].label@ != nodes@[b].label@);
                }
            }
            assert forall|a: int| 0 <= a < out@.len() implies node_ok(#[trigger] out@[a])
                && node_sorted(out@[a]) by {
                if a != pos as int {
                    let a0 = if a < pos { a } else { a - 1 };
                    assert(out@[a] == old_out[a0]);
                }
            }
            assert(nodes@ =~= mid.subrange(0, nodes@.len() as int));
        }
    }
    proof {
        assert(mid.subrange(0, mid.len() as int) =~= mid);
        assert forall|x: TreeNode| mid.contains(x) <==> out@.contains(x) by {
            vstd::seq_lib::to_multiset_contains(mid, x);
            vstd::seq_lib::to_multiset_contains(out@, x);
        }
        lemma_fmap_perm(mid, out@);
    }
    *nodes = out;
}


// ===== The tree of a key list =====

/// Builds the namespace tree of `keys`: each key with no empty segment is a
/// path of the tree, every prefix of it a node; later keys of the same name
/// win; siblings are ordered namespaces first, then by label.
pub fn build_tree(keys: &[KeyMeta]) -> (r: Vec<TreeNode>)
    ensures
        forest_ok(r@),
        forest_sorted(r@),
        fmap(r@) == trie(key_views(keys@)),
{
    let ghost kv = key_views(keys@);
    let mut roots: Vec<TreeNode> = Vec::new();
    proof {
        lemma_fmap_empty(roots@);
        assert(kv.take(0) =~= Seq::<(Seq<char>, Option<RedisType>)>::empty());
    }
    let mut i: usize = 0;
    while i < keys.len()
        invariant
            i <= keys@.len(),
            kv == key_views(keys@),
            forest_ok(roots@),
            fmap(roots@) == trie(kv.take(i as int)),
        decreases keys@.len() - i,
    {
        let k = &keys[i];
        let chars = chars_of(k.key.as_str());
        let parts = split_chars(chars.as_slice(), ':');
        let ghost t = kv.take(i + 1);
        proof {
            assert(t.drop_last() =~= kv.take(i as int));
            assert(t.last() == (k.key@, k.key_type));
        }
        let mut valid = parts.len() > 0;
        let mut j: usize = 0;
        while j < parts.len()
            invariant
                j <= parts@.len(),
                valid == (parts@.len() > 0 && forall|m: int| 0 <= m < j ==> (#[trigger] parts@[m])@.len() > 0),
            decreases parts@.len() - j,
        {
            if parts[j].len() == 0 {
                valid = false;
            }
            j += 1;
        }
        proof {
            lemma_split_on_len(chars@, ':');
            assert(views(parts@) == segments(k.key@));
            assert(valid == valid_key(k.key@)) by {
                if valid_key(k.key@) {
                    assert forall|m: int| 0 <= m < parts@.len() implies (#[trigger] parts@[m])@.len() > 0 by {
                        assert(segments(k.key@)[m] == parts@[m]@);
                    }
                } else {
                    let m = choose|m: int| 0 <= m < segments(k.key@).len() && !((#[trigger] segments(k.key@)[m]).len() > 0);
                    assert(segments(k.key@)[m] == parts@[m]@);
                }
            }
        }
        if valid {
            proof {
                lemma_join_split(k.key@, ':');
                assert(views(parts@).take(0) =~= Seq::<Seq<char>>::empty());
                assert(views(parts@).skip(0) =~= views(parts@));
            }
            insert_path(&mut roots, &parts, 0, chars.as_slice(), k.key_type);
        }
        i += 1;
    }
    proof {
        assert(kv.take(keys@.len() as int) =~= kv);
    }
    sort_recursive(&mut roots);
    roots
}

/// Some key in the subtree of `n` — `n` itself when it is a key, or any
/// descendant — has a lower-cased full path that contains `q`; an empty `q`
/// matches everything. (Direct children are tested by full path whether or
/// not they are keys.)
pub open spec fn match_desc(n: TreeNode, q: Seq<char>) -> bool
    decreases n,
{
    ||| q.len() == 0
    ||| (n.is_key && contains_sub(unicode_lower(n.full_path@), q))
    ||| exists|i: int|
        0 <= i < n.children@.len() && (contains_sub(
            unicode_lower(n.children@[i].full_path@),
            q,
        ) || match_desc(#[trigger] n.children@[i], q))
}

/// Whether the subtree of `node` has a match for the lower-case query `query`.
pub fn has_match_descendant(node: &TreeNode, query: &str) -> (r: bool)
    ensures
        r == match_desc(*node, query@),
    decreases node,
{
    let q = chars_of(query);
    if q.len() == 0 {
        return true;
    }
    if node.is_key {
        let fp = chars_of(node.full_path.as_str());
        let low = to_lowercase_chars(fp.as_slice());
        if contains_chars(low.as_slice(), q.as_slice()) {
            return true;
        }
    }
    let mut i: usize = 0;
    while i < node.children.len()
        invariant
            i <= node.children@.len(),
            q@ == query@,
            q@.len() > 0,
            forall|j: int|
                0 <= j < i ==> !(contains_sub(unicode_lower(node.children@[j].full_path@), q@)
                    || match_desc(#[trigger] node.children@[j], q@)),
        decreases node.children@.len() - i,
    {
        let c = &node.children[i];
        let fp = chars_of(c.full_path.as_str());
        let low = to_lowercase_chars(fp.as_slice());
        if contains_chars(low.as_slice(), q.as_slice()) {
            return true;
        }
        proof {
            assert(decreases_to!(*node => node.children@[i as int]));
        }
        if has_match_descendant(c, query) {
            return true;
        }
        i += 1;
    }
    false
}

/// `p` is the full path of a namespace node in the subtree of `n` (stopping
/// at nodes that are not namespaces).
pub open spec fn in_ns_paths(n: TreeNode, p: Seq<char>) -> bool
    decreases n,
{
    is_ns(n) && (n.full_path@ == p || exists|i: int|
        0 <= i < n.children@.len() && in_ns_paths(#[trigger] n.children@[i], p))
}

/// Adds to `out` the full path of every namespace in the subtree of `node`;
/// `out` is kept free of repeats.
pub fn collect_namespace_paths(node: &TreeNode, out: &mut Vec<String>)
    requires
        str_views(old(out)@).no_duplicates(),
    ensures
        str_views(final(out)@).no_duplicates(),
        forall|p: Seq<char>|
            #![trigger str_views(final(out)@).contains(p)]
            #![trigger str_views(old(out)@).contains(p)]
            #![trigger in_ns_paths(*node, p)]
            str_views(final(out)@).contains(p) <==> (str_views(old(out)@).contains(p) || in_ns_paths(
                *node,
                p,
            )),
    decreases node,
{
    if node.children.len() > 0 {
        insert_string(out, &node.full_path);
        proof {
            assert forall|p: Seq<char>|
                str_views(out@).contains(p) <==> (str_views(old(out)@).contains(p) || p
                    == node.full_path@) by {
                if !str_views(old(out)@).contains(node.full_path@) {
                    let o = str_views(old(out)@);
                    if str_views(out@).contains(p) {
                        let j = choose|j: int| 0 <= j < o.push(node.full_path@).len() && o.push(node.full_path@)[j] == p;
                        if j < o.len() {
                            assert(o.contains(p));
                        }
                    }
                    if o.contains(p) {
                        let j = choose|j: int| 0 <= j < o.len() && o[j] == p;
                        assert(o.push(node.full_path@)[j] == p);
                    }
                    if p == node.full_path@ {
                        assert(o.push(node.full_path@)[o.len() as int] == p);
                    }
                }
            }
        }
        let mut i: usize = 0;
        while i < node.children.len()
            invariant
                i <= node.children@.len(),
                node.children@.len() > 0,
                str_views(out@).no_duplicates(),
                forall|p: Seq<char>|
                    str_views(out@).contains(p) <==> (str_views(old(out)@).contains(p) || p
                        == node.full_path@ || exists|j: int|
                        0 <= j < i && in_ns_paths(#[trigger] node.children@[j], p)),
            decreases node.children@.len() - i,
        {
            proof {
                assert(decreases_to!(*node => node.children@[i as int]));
            }
            let ghost before_out = out@;
            collect_namespace_paths(&node.children[i], out);
            proof {
                assert forall|p: Seq<char>|
                    str_views(out@).contains(p) <==> (str_views(old(out)@).contains(p) || p
                        == node.full_path@ || exists|j: int|
                        0 <= j < i + 1 && in_ns_paths(#[trigger] node.children@[j], p)) by {
                    if in_ns_paths(node.children@[i as int], p) {
                    }
                    if exists|j: int| 0 <= j < i + 1 && in_ns_paths(#[trigger] node.children@[j], p) {
                        let j = choose|j: int| 0 <= j < i + 1 && in_ns_paths(#[trigger] node.children@[j], p);
                        if j < i {
                        }
                    }
                }
            }
            i += 1;
        }
    }
}

/// Adds `s` to `out` unless a string equal to it is there.
pub fn insert_string(out: &mut Vec<String>, s: &String)
    requires
        str_views(old(out)@).no_duplicates(),
    ensures
        str_views(final(out)@).no_duplicates(),
        str_views(final(out)@) == if str_views(old(out)@).contains(s@) {
            str_views(old(out)@)
        } else {
            str_views(old(out)@).push(s@)
        },
{
    let mut i: usize = 0;
    while i < out.len()
        invariant
            out@ == old(out)@,
            str_views(old(out)@).no_duplicates(),
            i <= out@.len(),
            forall|j: int| 0 <= j < i ==> (#[trigger] out@[j])@ != s@,
        decreases out@.len() - i,
    {
        if out[i] == *s {
            proof {
                assert(str_views(out@)[i as int] == s@);
            }
            return;
        }
        i += 1;
    }
    proof {
        assert(!str_views(out@).contains(s@)) by {
            if str_views(out@).contains(s@) {
                let j = choose|j: int| 0 <= j < str_views(out@).len() && str_views(out@)[j] == s@;
                assert(out@[j]@ == s@);
            }
        }
    }
    out.push(s.clone());
    proof {
        assert(str_views(out@) =~= str_views(old(out)@).push(s@));
    }
}

} // verus!
