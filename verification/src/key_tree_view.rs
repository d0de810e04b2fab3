//! What the key tree panel shows: which namespaces are open, the search
//! filter, and the flat list of visible rows.

use vstd::prelude::*;

use crate::key_tree::{
    build_tree, collect_namespace_paths, forest_ok, has_match_descendant, in_ns_paths, insert_string,
    is_ns, key_views, match_desc, trie, KeyMeta, RedisType, TreeNode,
};
use crate::text::{
    chars_eq, chars_of, contains_chars, contains_string, contains_sub, find_string, dec, push_dec, push_str, str_views,
    string_of, to_lowercase_chars, trim, trim_chars, unicode_lower,
};

verus! {

/// Keys loaded at most per scan.
pub const MAX_KEYS: usize = 5000;

/// One visible row of the tree.
#[derive(Debug)]
pub struct VisibleRow {
    pub depth: usize,
    pub label: String,
    pub full_path: String,
    pub is_key: bool,
    pub leaf_type: Option<RedisType>,
    pub is_namespace: bool,
    pub is_expanded: bool,
}

/// A row as plain values.
pub type RowView = (nat, Seq<char>, Seq<char>, bool, Option<RedisType>, bool, bool);

/// The view of a row.
pub open spec fn row_view(r: VisibleRow) -> RowView {
    (r.depth as nat, r.label@, r.full_path@, r.is_key, r.leaf_type, r.is_namespace, r.is_expanded)
}

/// The views of rows.
pub open spec fn rows_view(v: Seq<VisibleRow>) -> Seq<RowView> {
    v.map_values(|r: VisibleRow| row_view(r))
}

/// A key matches the lower-case query: the query is empty, or occurs in the
/// lower-cased key.
pub open spec fn key_matches(key: Seq<char>, q: Seq<char>) -> bool {
    q.len() == 0 || contains_sub(unicode_lower(key), q)
}

/// One level deeper; the count stops at `usize::MAX`.
pub open spec fn deeper(depth: nat) -> nat {
    if depth < usize::MAX {
        depth + 1
    } else {
        depth
    }
}

/// The rows of `n` at `depth` and of its open descendants. While searching
/// (`q` not empty) a node shows only when it is a matching key or has a
/// match below it, and such namespaces are open; otherwise a namespace is
/// open when its path is in `open`.
pub open spec fn node_rows(n: TreeNode, depth: nat, q: Seq<char>, open: Seq<Seq<char>>) -> Seq<RowView>
    decreases n, 1int,
{
    let searching = q.len() > 0;
    let leaf_match = n.is_key && key_matches(n.full_path@, q);
    let desc_match = is_ns(n) && match_desc(n, q);
    if searching && !leaf_match && !desc_match {
        Seq::empty()
    } else {
        let expanded = if searching {
            desc_match
        } else {
            open.contains(n.full_path@)
        };
        let row = (depth, n.label@, n.full_path@, n.is_key, n.leaf_type, is_ns(n), expanded);
        if is_ns(n) && expanded {
            seq![row] + forest_rows(n.children@, deeper(depth), q, open)
        } else {
            seq![row]
        }
    }
}

/// The rows of the trees `f`, one after the other.
pub open spec fn forest_rows(f: Seq<TreeNode>, depth: nat, q: Seq<char>, open: Seq<Seq<char>>) -> Seq<RowView>
    decreases f, 0int,
{
    if f.len() == 0 {
        Seq::empty()
    } else {
        forest_rows(f.drop_last(), depth, q, open) + node_rows(f.last(), depth, q, open)
    }
}

/// Whether the key `key` matches the lower-case query `q`.
pub fn matches_query(key: &str, q: &str) -> (r: bool)
    ensures
        r == key_matches(key@, q@),
{
    let qc = chars_of(q);
    if qc.len() == 0 {
        return true;
    }
    let low = to_lowercase_chars(chars_of(key).as_slice());
    contains_chars(low.as_slice(), qc.as_slice())
}

/// Appends the rows of `node` to `out`.
fn collect_visible(node: &TreeNode, depth: usize, q: &str, open: &Vec<String>, out: &mut Vec<VisibleRow>)
    ensures
        rows_view(final(out)@) == rows_view(old(out)@) + node_rows(
            *node,
            depth as nat,
            q@,
            str_views(open@),
        ),
    decreases node, 1int,
{
    let ghost ov = str_views(open@);
    let searching = chars_of(q).len() > 0;
    let leaf_match = node.is_key && matches_query(node.full_path.as_str(), q);
    let desc_match = node.children.len() > 0 && has_match_descendant(node, q);
    if searching && !leaf_match && !desc_match {
        proof {
            assert(rows_view(out@) =~= rows_view(old(out)@) + Seq::<RowView>::empty());
        }
        return;
    }
    let is_namespace = node.children.len() > 0;
    let expanded = if searching {
        desc_match
    } else {
        contains_string(open, &node.full_path)
    };
    let row = VisibleRow {
        depth,
        label: node.label.clone(),
        full_path: node.full_path.clone(),
        is_key: node.is_key,
        leaf_type: node.leaf_type,
        is_namespace,
        is_expanded: expanded,
    };
    let ghost rv = row_view(row);
    let ghost before = out@;
    out.push(row);
    proof {
        assert(rows_view(out@) =~= rows_view(before).push(rv));
    }
    if is_namespace && expanded {
        let ghost mid = out@;
        proof {
            assert(decreases_to!(*node => node.children));
        }
        let next = depth.saturating_add(1);
        assert(next as nat == deeper(depth as nat));
        collect_forest(&node.children, next, q, open, out);
        proof {
            assert(rows_view(out@) =~= rows_view(old(out)@) + (seq![rv] + forest_rows(
                node.children@,
                deeper(depth as nat),
                q@,
                ov,
            )));
        }
    } else {
        proof {
            assert(rows_view(out@) =~= rows_view(old(out)@) + seq![rv]);
        }
    }
}

/// Appends the rows of the trees `nodes` to `out`.
fn collect_forest(nodes: &Vec<TreeNode>, depth: usize, q: &str, open: &Vec<String>, out: &mut Vec<VisibleRow>)
    ensures
        rows_view(final(out)@) == rows_view(old(out)@) + forest_rows(
            nodes@,
            depth as nat,
            q@,
            str_views(open@),
        ),
    decreases nodes, 0int,
{
    let ghost ov = str_views(open@);
    let mut i: usize = 0;
    proof {
        assert(nodes@.take(0) =~= Seq::<TreeNode>::empty());
        assert(rows_view(out@) =~= rows_view(old(out)@) + forest_rows(
            nodes@.take(0),
            depth as nat,
            q@,
            ov,
        ));
    }
    while i < nodes.len()
        invariant
            i <= nodes@.len(),
            ov == str_views(open@),
            rows_view(out@) == rows_view(old(out)@) + forest_rows(
                nodes@.take(i as int),
                depth as nat,
                q@,
                ov,
            ),
        decreases nodes@.len() - i,
    {
        proof {
            assert(nodes@.take(i + 1).drop_last() =~= nodes@.take(i as int));
            assert(nodes@.take(i + 1).last() == nodes@[i as int]);
            assert(decreases_to!(*nodes => nodes@));
            assert(decreases_to!(nodes@ => nodes@[i as int]));
        }
        let ghost before = out@;
        collect_visible(&nodes[i], depth, q, open, out);
        proof {
            assert(rows_view(out@) =~= rows_view(old(out)@) + forest_rows(
                nodes@.take(i + 1),
                depth as nat,
                q@,
                ov,
            ));
        }
        i += 1;
    }
    proof {
        assert(nodes@.take(nodes@.len() as int) =~= nodes@);
    }
}

/// The key tree panel: the tree, the open namespaces and the query.
#[derive(Debug)]
pub struct KeyTreeView {
    pub tree: Vec<TreeNode>,
    /// Full paths of the open namespaces, no repeats.
    pub expanded: Vec<String>,
    /// The search text, trimmed and lower-cased.
    pub query: String,
}

/// The root namespaces' full paths, in order.
pub open spec fn root_ns_paths(f: Seq<TreeNode>) -> Seq<Seq<char>>
    decreases f.len(),
{
    if f.len() == 0 {
        Seq::empty()
    } else {
        let r = root_ns_paths(f.drop_last());
        if is_ns(f.last()) && !r.contains(f.last().full_path@) {
            r.push(f.last().full_path@)
        } else {
            r
        }
    }
}

/// `after` holds `p` exactly when `before` did not, and every other path
/// exactly when `before` did.
pub open spec fn toggled_from(before: Seq<Seq<char>>, after: Seq<Seq<char>>, p: Seq<char>) -> bool {
    forall|q: Seq<char>|
        #[trigger] after.contains(q) <==> (if q == p {
            !before.contains(q)
        } else {
            before.contains(q)
        })
}

/// Toggling the same namespace twice leaves the open namespaces as they were,
/// and toggling one namespace leaves every other namespace as it was.
pub proof fn lemma_toggle_twice(
    a: Seq<Seq<char>>,
    b: Seq<Seq<char>>,
    c: Seq<Seq<char>>,
    p: Seq<char>,
)
    requires
        toggled_from(a, b, p),
        toggled_from(b, c, p),
    ensures
        forall|q: Seq<char>| #[trigger] c.contains(q) <==> a.contains(q),
        forall|q: Seq<char>| q != p ==> (#[trigger] b.contains(q) <==> a.contains(q)),
        b.contains(p) != a.contains(p),
{
    assert(b.contains(p) <==> !a.contains(p));
    assert(c.contains(p) <==> !b.contains(p));
}

impl KeyTreeView {
    /// The open paths do not repeat.
    pub open spec fn wf(&self) -> bool {
        str_views(self.expanded@).no_duplicates()
    }

    /// An empty panel.
    pub fn new() -> (r: KeyTreeView)
        ensures
            r.wf(),
            r.tree@.len() == 0,
            r.expanded@.len() == 0,
            r.query@.len() == 0,
    {
        let r = KeyTreeView { tree: Vec::new(), expanded: Vec::new(), query: String::new() };
        assert(str_views(r.expanded@) =~= Seq::<Seq<char>>::empty());
        r
    }

    /// Takes in the search box text: trimmed, then lower-cased.
    pub fn set_query(&mut self, raw: &str)
        ensures
            final(self).query@ == unicode_lower(trim(raw@)),
            final(self).tree@ == old(self).tree@,
            final(self).expanded@ == old(self).expanded@,
    {
        let t = trim_chars(chars_of(raw).as_slice());
        let l = to_lowercase_chars(t.as_slice());
        self.query = string_of(l.as_slice());
    }

    /// Rebuilds the tree from `keys`; when no namespace is open yet, the
    /// root namespaces are opened so the first level shows.
    pub fn rebuild_tree(&mut self, keys: &[KeyMeta])
        requires
            old(self).wf(),
        ensures
            final(self).wf(),
            forest_ok(final(self).tree@),
            crate::key_tree::fmap(final(self).tree@) == trie(key_views(keys@)),
            old(self).expanded@.len() > 0 ==> final(self).expanded@ == old(self).expanded@,
            old(self).expanded@.len() == 0 ==> str_views(final(self).expanded@) == root_ns_paths(
                final(self).tree@,
            ),
            final(self).query == old(self).query,
    {
        self.tree = build_tree(keys);
        if self.expanded.len() == 0 {
            let mut i: usize = 0;
            proof {
                assert(self.tree@.take(0) =~= Seq::<TreeNode>::empty());
                assert(str_views(self.expanded@) =~= Seq::<Seq<char>>::empty());
            }
            while i < self.tree.len()
                invariant
                    i <= self.tree@.len(),
                    forest_ok(self.tree@),
                    crate::key_tree::fmap(self.tree@) == trie(key_views(keys@)),
                    self.query == old(self).query,
                    str_views(self.expanded@).no_duplicates(),
                    str_views(self.expanded@) == root_ns_paths(self.tree@.take(i as int)),
                decreases self.tree@.len() - i,
            {
                proof {
                    assert(self.tree@.take(i + 1).drop_last() =~= self.tree@.take(i as int));
                    assert(self.tree@.take(i + 1).last() == self.tree@[i as int]);
                }
                if self.tree[i].children.len() > 0 {
                    let p = self.tree[i].full_path.clone();
                    insert_string(&mut self.expanded, &p);
                }
                i += 1;
            }
            proof {
                assert(self.tree@.take(self.tree@.len() as int) =~= self.tree@);
            }
        }
    }

    /// Opens a closed namespace, closes an open one.
    pub fn toggle_expanded(&mut self, path: &String)
        requires
            old(self).wf(),
        ensures
            final(self).wf(),
            toggled_from(str_views(old(self).expanded@), str_views(final(self).expanded@), path@),
            final(self).tree@ == old(self).tree@,
            final(self).query == old(self).query,
    {
        let ghost o = str_views(self.expanded@);
        match find_string(&self.expanded, path) {
            Some(k) => {
                self.expanded.remove(k);
                proof {
                    let n = str_views(self.expanded@);
                    assert(n =~= o.remove(k as int));
                    assert(o[k as int] == path@);
                    assert forall|p: Seq<char>| n.contains(p) <==> (if p == path@ {
                        !o.contains(p)
                    } else {
                        o.contains(p)
                    }) by {
                        if n.contains(p) {
                            let j = choose|j: int| 0 <= j < n.len() && n[j] == p;
                            let oj = if j < k {
                                j
                            } else {
                                j + 1
                            };
                            assert(o[oj] == p);
                            assert(oj != k);
                        }
                        if p != path@ && o.contains(p) {
                            let j = choose|j: int| 0 <= j < o.len() && o[j] == p;
                            assert(j != k);
                            if j < k {
                                assert(n[j] == p);
                            } else {
                                assert(n[j - 1] == p);
                            }
                        }
                    }
                    assert(n.no_duplicates()) by {
                        assert forall|a: int, b: int| 0 <= a < n.len() && 0 <= b < n.len() && a != b implies n[a] != n[b] by {
                            let oa = if a < k {
                                a
                            } else {
                                a + 1
                            };
                            let ob = if b < k {
                                b
                            } else {
                                b + 1
                            };
                            assert(n[a] == o[oa] && n[b] == o[ob]);
                        }
                    }
                }
            },
            None => {
                self.expanded.push(path.clone());
                proof {
                    let n = str_views(self.expanded@);
                    assert(n =~= o.push(path@));
                    assert forall|p: Seq<char>| n.contains(p) <==> (if p == path@ {
                        !o.contains(p)
                    } else {
                        o.contains(p)
                    }) by {
                        if p == path@ {
                            assert(n[o.len() as int] == p);
                        } else if n.contains(p) {
                            let j = choose|j: int| 0 <= j < n.len() && n[j] == p;
                            assert(j < o.len());
                            assert(o[j] == p);
                        } else if o.contains(p) {
                            let j = choose|j: int| 0 <= j < o.len() && o[j] == p;
                            assert(n[j] == p);
                        }
                    }
                    assert(n.no_duplicates()) by {
                        assert forall|a: int, b: int| 0 <= a < n.len() && 0 <= b < n.len() && a != b implies n[a] != n[b] by {
                            if a == o.len() {
                                assert(o[b] == n[b]);
                            } else if b == o.len() {
                                assert(o[a] == n[a]);
                            }
                        }
                    }
                }
            },
        }
    }

    /// Opens every namespace of the tree.
    pub fn expand_all(&mut self)
        ensures
            final(self).wf(),
            forall|p: Seq<char>|
                str_views(final(self).expanded@).contains(p) <==> exists|i: int|
                    0 <= i < final(self).tree@.len() && in_ns_paths(#[trigger] final(self).tree@[i], p),
            final(self).tree@ == old(self).tree@,
            final(self).query == old(self).query,
    {
        let mut exp: Vec<String> = Vec::new();
        proof {
            assert(str_views(exp@) =~= Seq::<Seq<char>>::empty());
        }
        let mut t: Vec<TreeNode> = Vec::new();
        std::mem::swap(&mut t, &mut self.tree);
        let ghost tree = t@;
        let mut i: usize = 0;
        while i < t.len()
            invariant
                i <= tree.len(),
                t@ == tree,
                str_views(exp@).no_duplicates(),
                forall|p: Seq<char>|
                    str_views(exp@).contains(p) <==> exists|j: int|
                        0 <= j < i && in_ns_paths(#[trigger] tree[j], p),
            decreases tree.len() - i,
        {
            let ghost before = str_views(exp@);
            let node = &t[i];
            assert(*node == tree[i as int]);
            collect_namespace_paths(node, &mut exp);
            proof {
                assert forall|p: Seq<char>|
                    str_views(exp@).contains(p) <==> exists|j: int|
                        0 <= j < i + 1 && in_ns_paths(#[trigger] tree[j], p) by {
                    if exists|j: int| 0 <= j < i + 1 && in_ns_paths(#[trigger] tree[j], p) {
                        let j = choose|j: int| 0 <= j < i + 1 && in_ns_paths(#[trigger] tree[j], p);
                        if j < i {
                            assert(before.contains(p));
                        } else {
                            assert(in_ns_paths(tree[i as int], p));
                        }
                    }
                    if str_views(exp@).contains(p) {
                        if before.contains(p) {
                            let j = choose|j: int| 0 <= j < i && in_ns_paths(#[trigger] tree[j], p);
                            assert(0 <= j < i + 1 && in_ns_paths(tree[j], p));
                        } else {
                            assert(in_ns_paths(tree[i as int], p));
                        }
                    }
                }
            }
            i += 1;
        }
        self.tree = t;
        self.expanded = exp;
        proof {
            assert forall|p: Seq<char>|
                str_views(self.expanded@).contains(p) <==> exists|k: int|
                    0 <= k < self.tree@.len() && in_ns_paths(#[trigger] self.tree@[k], p) by {
                if str_views(self.expanded@).contains(p) {
                    let j = choose|j: int| 0 <= j < i && in_ns_paths(#[trigger] tree[j], p);
                    assert(self.tree@[j] == tree[j]);
                }
                if exists|k: int| 0 <= k < self.tree@.len() && in_ns_paths(#[trigger] self.tree@[k], p) {
                    let k = choose|k: int| 0 <= k < self.tree@.len() && in_ns_paths(#[trigger] self.tree@[k], p);
                    assert(self.tree@[k] == tree[k]);
                    assert(0 <= k < i && in_ns_paths(tree[k], p));
                }
            }
        }
    }

    /// Closes every namespace.
    pub fn collapse_all(&mut self)
        ensures
            final(self).wf(),
            final(self).expanded@.len() == 0,
            final(self).tree@ == old(self).tree@,
            final(self).query == old(self).query,
    {
        self.expanded = Vec::new();
        proof {
            assert(str_views(self.expanded@) =~= Seq::<Seq<char>>::empty());
        }
    }

    /// The rows on show, top to bottom.
    pub fn flatten_visible(&self) -> (r: Vec<VisibleRow>)
        ensures
            rows_view(r@) == forest_rows(self.tree@, 0, self.query@, str_views(self.expanded@)),
    {
        let mut out: Vec<VisibleRow> = Vec::new();
        proof {
            assert(rows_view(out@) =~= Seq::<RowView>::empty());
        }
        collect_forest(&self.tree, 0, self.query.as_str(), &self.expanded, &mut out);
        proof {
            assert(rows_view(out@) =~= forest_rows(self.tree@, 0, self.query@, str_views(self.expanded@)));
        }
        out
    }
}

/// The count line above the tree.
pub open spec fn count_label_text(
    connected: bool,
    loading: bool,
    error: Option<Seq<char>>,
    searching: bool,
    total: nat,
    truncated: bool,
    visible_keys: nat,
) -> Seq<char> {
    if !connected {
        "尚未连接"@
    } else if loading {
        "加载中..."@
    } else if error is Some {
        error.unwrap()
    } else if !searching {
        "共 "@ + dec(total) + " 个 key"@ + if truncated {
            "（已截断）"@
        } else {
            Seq::empty()
        }
    } else {
        "匹配 "@ + dec(visible_keys) + " / "@ + dec(total)
    }
}

/// The count line above the tree: not connected, loading, the error, the
/// number of keys (marked when the scan stopped at [`MAX_KEYS`]), or while
/// searching the matching keys on show out of all.
pub fn count_label(
    connected: bool,
    loading: bool,
    error: Option<&str>,
    searching: bool,
    total: usize,
    truncated: bool,
    visible_keys: usize,
) -> (r: String)
    ensures
        r@ == count_label_text(
            connected,
            loading,
            match error {
                Some(e) => Some(e@),
                None => None,
            },
            searching,
            total as nat,
            truncated,
            visible_keys as nat,
        ),
{
    if !connected {
        return String::from_str("尚未连接");
    }
    if loading {
        return String::from_str("加载中...");
    }
    match error {
        Some(e) => {
            return String::from_str(e);
        },
        None => {},
    }
    let mut v: Vec<char> = Vec::new();
    if !searching {
        push_str(&mut v, "共 ");
        push_dec(&mut v, total as u64);
        push_str(&mut v, " 个 key");
        if truncated {
            push_str(&mut v, "（已截断）");
        }
        proof {
            if !truncated {
                assert(v@ =~= "共 "@ + dec(total as nat) + " 个 key"@ + Seq::<char>::empty());
            }
        }
    } else {
        push_str(&mut v, "匹配 ");
        push_dec(&mut v, visible_keys as u64);
        push_str(&mut v, " / ");
        push_dec(&mut v, total as u64);
    }
    string_of(v.as_slice())
}

/// The number of visible rows that stand for keys.
pub fn visible_key_count(rows: &Vec<VisibleRow>) -> (r: usize)
    ensures
        r == rows@.filter(|x: VisibleRow| x.is_key).len(),
{
    let mut n: usize = 0;
    let mut i: usize = 0;
    while i < rows.len()
        invariant
            i <= rows@.len(),
            n == rows@.take(i as int).filter(|x: VisibleRow| x.is_key).len(),
            n <= i,
        decreases rows@.len() - i,
    {
        proof {
            reveal(Seq::filter);
            assert(rows@.take(i + 1).drop_last() =~= rows@.take(i as int));
            assert(rows@.take(i + 1).last() == rows@[i as int]);
        }
        if rows[i].is_key {
            n += 1;
        }
        i += 1;
    }
    proof {
        assert(rows@.take(rows@.len() as int) =~= rows@);
    }
    n
}

/// Whether a scan that returned `n` keys was cut short.
pub fn scan_truncated(n: usize) -> (r: bool)
    ensures
        r == (n >= MAX_KEYS),
{
    n >= MAX_KEYS
}

// ===== Selection =====

/// The key highlighted in the tree.
#[derive(Debug)]
pub struct KeySelection {
    pub selected: Option<String>,
}

/// The text of an optional string.
pub open spec fn opt_text(o: Option<String>) -> Option<Seq<char>> {
    match o {
        Some(s) => Some(s@),
        None => None,
    }
}

impl KeySelection {
    /// Nothing selected.
    pub fn new() -> (r: KeySelection)
        ensures
            r.selected is None,
    {
        KeySelection { selected: None }
    }

    /// The user picked `key`: it is highlighted, and the key is handed back
    /// for the panel to announce.
    pub fn select_key(&mut self, key: String) -> (announced: String)
        ensures
            opt_text(final(self).selected) == Some(key@),
            announced@ == key@,
    {
        let announced = key.clone();
        self.selected = Some(key);
        announced
    }

    /// Another view selected `key` (after creating it): it is only
    /// highlighted; nothing is announced, so its value is not loaded twice.
    pub fn select_key_external(&mut self, key: String)
        ensures
            opt_text(final(self).selected) == Some(key@),
    {
        self.selected = Some(key);
    }

    /// The connection or database changed: nothing is selected.
    pub fn clear(&mut self)
        ensures
            final(self).selected is None,
    {
        self.selected = None;
    }

    /// Whether `row` is drawn highlighted: it is a key and the selected one.
    pub fn is_selected_row(&self, row: &VisibleRow) -> (r: bool)
        ensures
            r == (row.is_key && opt_text(self.selected) == Some(row.full_path@)),
    {
        if !row.is_key {
            return false;
        }
        match &self.selected {
            Some(k) => {
                let a = chars_of(k.as_str());
                let b = chars_of(row.full_path.as_str());
                chars_eq(a.as_slice(), b.as_slice())
            },
            None => false,
        }
    }
}

} // verus!
