//! The directory tree of a list of changed files: paths split at `/` into
//! nested directories (entries kept in name order, as a `BTreeMap` keeps
//! them), and the flat row list shown for it, where a chain of directories
//! that each hold a single directory is shown as one row.

use vstd::prelude::*;

use crate::key_tree::{chars_lt, chars_lt_exec};
use crate::text::{chars_of, contains_string, push_chars, push_str, split_chars, split_on, str_views, string_of, views};

verus! {

/// A node of the file tree.
#[derive(Debug)]
pub enum FileNode {
    /// A directory: its entries by name.
    Dir(Vec<(String, FileNode)>),
    /// A file: its position in the file list.
    File(usize),
}

/// A file tree as plain values.
pub enum FTree {
    Dir(Seq<(Seq<char>, FTree)>),
    File(nat),
}

/// The plain value of a node.
pub open spec fn ft(n: FileNode) -> FTree
    decreases n, 1int,
{
    match n {
        FileNode::Dir(v) => FTree::Dir(ents(v@)),
        FileNode::File(i) => FTree::File(i as nat),
    }
}

/// The plain value of directory entries.
pub open spec fn ents(s: Seq<(String, FileNode)>) -> Seq<(Seq<char>, FTree)>
    decreases s, 0int,
{
    if s.len() == 0 {
        Seq::empty()
    } else {
        ents(s.drop_last()).push((s.last().0@, ft(s.last().1)))
    }
}

/// `ents` maps entry by entry.
pub proof fn lemma_ents(s: Seq<(String, FileNode)>)
    ensures
        ents(s).len() == s.len(),
        forall|i: int| 0 <= i < s.len() ==> #[trigger] ents(s)[i] == (s[i].0@, ft(s[i].1)),
    decreases s.len(),
{
    if s.len() > 0 {
        lemma_ents(s.drop_last());
    }
}

/// Two entry lists with the same entries, one by one, have the same value.
pub proof fn lemma_ents_ext(a: Seq<(String, FileNode)>, b: Seq<(String, FileNode)>)
    requires
        a.len() == b.len(),
        forall|i: int| 0 <= i < a.len() ==> a[i].0@ == b[i].0@ && ft(a[i].1) == ft(b[i].1),
    ensures
        ents(a) == ents(b),
{
    lemma_ents(a);
    lemma_ents(b);
    assert(ents(a) =~= ents(b));
}

/// Where `name` belongs among the entries: after every leading entry whose
/// name comes before it.
pub open spec fn lower_bound(es: Seq<(Seq<char>, FTree)>, name: Seq<char>) -> int
    decreases es.len(),
{
    if es.len() == 0 {
        0
    } else if chars_lt(es[0].0, name) {
        1 + lower_bound(es.drop_first(), name)
    } else {
        0
    }
}

/// `lower_bound` is the first position whose name does not come before `name`.
pub proof fn lemma_lower_bound(es: Seq<(Seq<char>, FTree)>, name: Seq<char>, p: int)
    requires
        0 <= p <= es.len(),
        forall|j: int| 0 <= j < p ==> chars_lt(es[j].0, name),
        p == es.len() || !chars_lt(es[p].0, name),
    ensures
        lower_bound(es, name) == p,
    decreases p,
{
    if p > 0 {
        let t = es.drop_first();
        assert forall|j: int| 0 <= j < p - 1 implies chars_lt(t[j].0, name) by {
            assert(t[j] == es[j + 1]);
        }
        lemma_lower_bound(t, name, p - 1);
    }
}

/// The entries after the file at `parts` (path segments) with number `idx`
/// is added, as `BTreeMap` does it: a last segment sets a file entry
/// (replacing what was there); an earlier one opens the directory of that
/// name, made if missing; a file of that name stops the insert.
pub open spec fn ins(es: Seq<(Seq<char>, FTree)>, parts: Seq<Seq<char>>, idx: nat) -> Seq<(Seq<char>, FTree)>
    decreases parts.len(),
{
    if parts.len() == 0 {
        es
    } else {
        let name = parts[0];
        let p = lower_bound(es, name);
        let found = p < es.len() && es[p].0 == name;
        if parts.len() == 1 {
            if found {
                es.update(p, (name, FTree::File(idx)))
            } else {
                es.insert(p, (name, FTree::File(idx)))
            }
        } else if found {
            match es[p].1 {
                FTree::Dir(ch) => es.update(p, (name, FTree::Dir(ins(ch, parts.drop_first(), idx)))),
                FTree::File(_) => es,
            }
        } else {
            es.insert(p, (name, FTree::Dir(ins(Seq::empty(), parts.drop_first(), idx))))
        }
    }
}

/// The tree of the file paths `paths`, file `i` numbered `i`.
pub open spec fn tree_of(paths: Seq<Seq<char>>) -> Seq<(Seq<char>, FTree)>
    decreases paths.len(),
{
    if paths.len() == 0 {
        Seq::empty()
    } else {
        ins(tree_of(paths.drop_last()), split_on(paths.last(), '/'), (paths.len() - 1) as nat)
    }
}

/// Adds the file with number `idx` at the segments `parts[k..]`.
fn insert_path(map: &mut Vec<(String, FileNode)>, parts: &Vec<Vec<char>>, k: usize, idx: usize)
    requires
        k <= parts@.len(),
    ensures
        ents(final(map)@) == ins(ents(old(map)@), views(parts@).skip(k as int), idx as nat),
    decreases parts@.len() - k,
{
    let ghost ps = views(parts@).skip(k as int);
    let ghost es = ents(map@);
    proof {
        lemma_ents(map@);
    }
    if k == parts.len() {
        assert(ps.len() == 0);
        return;
    }
    assert(ps[0] == parts@[k as int]@);
    let name = &parts[k];
    let mut p: usize = 0;
    while p < map.len() && chars_lt_exec(chars_of(map[p].0.as_str()).as_slice(), name.as_slice())
        invariant
            p <= map@.len(),
            es == ents(map@),
            ents(map@).len() == map@.len(),
            forall|i: int| 0 <= i < map@.len() ==> #[trigger] ents(map@)[i] == (map@[i].0@, ft(map@[i].1)),
            forall|j: int| 0 <= j < p ==> chars_lt(es[j].0, name@),
        decreases map@.len() - p,
    {
        p += 1;
    }
    proof {
        lemma_lower_bound(es, name@, p as int);
    }
    let found = p < map.len() && chars_eq_chars(chars_of(map[p].0.as_str()).as_slice(), name.as_slice());
    let name_s = string_of(name.as_slice());
    if k + 1 == parts.len() {
        assert(ps.len() == 1);
        if found {
            let ghost before = map@;
            map.set(p, (name_s, FileNode::File(idx)));
            proof {
                lemma_ents(map@);
                assert(ents(map@) =~= es.update(p as int, (name@, FTree::File(idx as nat))));
            }
        } else {
            map.insert(p, (name_s, FileNode::File(idx)));
            proof {
                lemma_ents(map@);
                assert(ents(map@) =~= es.insert(p as int, (name@, FTree::File(idx as nat))));
            }
        }
        return;
    }
    proof {
        assert(ps.drop_first() =~= views(parts@).skip(k + 1));
    }
    if found {
        let (n0, node) = map.remove(p);
        match node {
            FileNode::Dir(mut ch) => {
                let ghost old_ch = ch@;
                assert(es[p as int].1 == FTree::Dir(ents(old_ch)));
                insert_path(&mut ch, parts, k + 1, idx);
                map.insert(p, (n0, FileNode::Dir(ch)));
                proof {
                    lemma_ents(map@);
                    assert(ents(map@) =~= es.update(
                        p as int,
                        (name@, FTree::Dir(ins(ents(old_ch), ps.drop_first(), idx as nat))),
                    ));
                }
            },
            FileNode::File(j) => {
                map.insert(p, (n0, FileNode::File(j)));
                proof {
                    lemma_ents(map@);
                    assert(ents(map@) =~= es);
                }
            },
        }
    } else {
        let mut ch: Vec<(String, FileNode)> = Vec::new();
        proof {
            assert(ents(ch@) =~= Seq::<(Seq<char>, FTree)>::empty());
        }
        insert_path(&mut ch, parts, k + 1, idx);
        let ghost chv = ents(ch@);
        map.insert(p, (name_s, FileNode::Dir(ch)));
        proof {
            lemma_ents(map@);
            assert(ents(map@) =~= es.insert(p as int, (name@, FTree::Dir(chv))));
        }
    }
}

/// Whether two character slices are equal.
fn chars_eq_chars(a: &[char], b: &[char]) -> (r: bool)
    ensures
        r == (a@ == b@),
{
    crate::text::chars_eq(a, b)
}

/// Builds the directory tree of the file paths; file `i` of the list is
/// numbered `i`.
pub fn build_tree(paths: &Vec<String>) -> (r: Vec<(String, FileNode)>)
    ensures
        ents(r@) == tree_of(str_views(paths@)),
{
    let ghost pv = str_views(paths@);
    let mut root: Vec<(String, FileNode)> = Vec::new();
    let mut i: usize = 0;
    proof {
        assert(ents(root@) =~= Seq::<(Seq<char>, FTree)>::empty());
        assert(pv.take(0) =~= Seq::<Seq<char>>::empty());
    }
    while i < paths.len()
        invariant
            i <= paths@.len(),
            pv == str_views(paths@),
            ents(root@) == tree_of(pv.take(i as int)),
        decreases paths@.len() - i,
    {
        let parts = split_chars(chars_of(paths[i].as_str()).as_slice(), '/');
        proof {
            assert(pv.take(i + 1).drop_last() =~= pv.take(i as int));
            assert(pv.take(i + 1).last() == paths@[i as int]@);
            assert(views(parts@).skip(0) =~= views(parts@));
        }
        insert_path(&mut root, &parts, 0, i);
        i += 1;
    }
    proof {
        assert(pv.take(paths@.len() as int) =~= pv);
    }
    root
}

// ===== Rows =====

/// One row of the flattened tree.
#[derive(Debug)]
pub enum Row {
    /// A directory row; a chain of single directories shows as one row
    /// whose name joins theirs with `/`.
    Dir {
        display_name: String,
        dir_path: String,
        depth: usize,
        is_collapsed: bool,
        file_count: usize,
    },
    /// A file row: the file's position in the list.
    File { idx: usize, depth: usize },
}

/// A row as plain values.
pub enum RowV {
    Dir(Seq<char>, Seq<char>, nat, bool, nat),
    File(nat, nat),
}

/// The plain value of a row.
pub open spec fn row_v(r: Row) -> RowV {
    match r {
        Row::Dir { display_name, dir_path, depth, is_collapsed, file_count } => RowV::Dir(
            display_name@,
            dir_path@,
            depth as nat,
            is_collapsed,
            file_count as nat,
        ),
        Row::File { idx, depth } => RowV::File(idx as nat, depth as nat),
    }
}

/// The plain values of rows.
pub open spec fn rows_v(v: Seq<Row>) -> Seq<RowV> {
    v.map_values(|r: Row| row_v(r))
}

/// The number of files in the entries and all directories below.
pub open spec fn file_count(es: Seq<(Seq<char>, FTree)>) -> nat
    decreases es,
{
    if es.len() == 0 {
        0
    } else {
        file_count(es.drop_last()) + match es.last().1 {
            FTree::Dir(c) => file_count(c),
            FTree::File(_) => 1,
        }
    }
}

/// One level deeper; the count stops at `usize::MAX`.
pub open spec fn deeper(depth: nat) -> nat {
    if depth < usize::MAX {
        depth + 1
    } else {
        depth
    }
}

/// The path of entry `name` under the directory path `prefix`.
pub open spec fn full_of(prefix: Seq<char>, name: Seq<char>) -> Seq<char> {
    if prefix.len() == 0 {
        name
    } else {
        prefix + "/"@ + name
    }
}

/// The rows of a directory shown as `disp` with path `full` and entries
/// `cur`: a directory holding just one directory merges with it; the row
/// is followed by the rows of its entries unless its path is collapsed.
pub open spec fn dir_rows(disp: Seq<char>, full: Seq<char>, cur: Seq<(Seq<char>, FTree)>, depth: nat, coll: Seq<Seq<char>>) -> Seq<RowV>
    decreases cur, 2int,
{
    if cur.len() == 1 && cur[0].1 is Dir {
        dir_rows(disp + "/"@ + cur[0].0, full + "/"@ + cur[0].0, cur[0].1->Dir_0, depth, coll)
    } else {
        let c = coll.contains(full);
        let row = RowV::Dir(disp, full, depth, c, file_count(cur));
        if c {
            seq![row]
        } else {
            seq![row] + level_rows(cur, deeper(depth), full, coll)
        }
    }
}

/// The rows of one level: its directories, then its files, each in name order.
pub open spec fn level_rows(es: Seq<(Seq<char>, FTree)>, depth: nat, prefix: Seq<char>, coll: Seq<Seq<char>>) -> Seq<RowV>
    decreases es, 1int,
{
    dirs_part(es, depth, prefix, coll) + files_part(es, depth)
}

/// The rows of the directories among the entries.
pub open spec fn dirs_part(es: Seq<(Seq<char>, FTree)>, depth: nat, prefix: Seq<char>, coll: Seq<Seq<char>>) -> Seq<RowV>
    decreases es, 0int,
{
    if es.len() == 0 {
        Seq::empty()
    } else {
        dirs_part(es.drop_last(), depth, prefix, coll) + match es.last().1 {
            FTree::Dir(c) => dir_rows(es.last().0, full_of(prefix, es.last().0), c, depth, coll),
            FTree::File(_) => Seq::empty(),
        }
    }
}

/// The rows of the files among the entries.
pub open spec fn files_part(es: Seq<(Seq<char>, FTree)>, depth: nat) -> Seq<RowV>
    decreases es.len(),
{
    if es.len() == 0 {
        Seq::empty()
    } else {
        files_part(es.drop_last(), depth) + match es.last().1 {
            FTree::File(i) => seq![RowV::File(i, depth)],
            FTree::Dir(_) => Seq::empty(),
        }
    }
}

/// A directory inside the entries holds no more files than all of them.
pub proof fn lemma_count_sub(es: Seq<(Seq<char>, FTree)>, i: int)
    requires
        0 <= i < es.len(),
    ensures
        file_count(es.take(i)) <= file_count(es),
        es[i].1 matches FTree::Dir(c) ==> file_count(c) <= file_count(es),
    decreases es.len(),
{
    if i < es.len() - 1 {
        lemma_count_sub(es.drop_last(), i);
        assert(es.drop_last().take(i) =~= es.take(i));
        assert(es.drop_last()[i] == es[i]);
    } else {
        assert(es.drop_last() =~= es.take(i));
    }
}

/// Counts the files in the entries and below.
pub fn count_files(es: &Vec<(String, FileNode)>) -> (r: usize)
    requires
        file_count(ents(es@)) <= usize::MAX,
    ensures
        r == file_count(ents(es@)),
    decreases es,
{
    let ghost e = ents(es@);
    proof {
        lemma_ents(es@);
    }
    let mut total: usize = 0;
    let mut i: usize = 0;
    proof {
        assert(e.take(0) =~= Seq::<(Seq<char>, FTree)>::empty());
    }
    while i < es.len()
        invariant
            i <= es@.len(),
            e == ents(es@),
            e.len() == es@.len(),
            forall|k: int| 0 <= k < es@.len() ==> #[trigger] e[k] == (es@[k].0@, ft(es@[k].1)),
            file_count(e) <= usize::MAX,
            total == file_count(e.take(i as int)),
        decreases es@.len() - i,
    {
        proof {
            assert(e.take(i + 1).drop_last() =~= e.take(i as int));
            assert(e.take(i + 1).last() == e[i as int]);
            if i + 1 < es@.len() {
                lemma_count_sub(e, i + 1);
            } else {
                assert(e.take(i + 1) =~= e);
            }
            lemma_count_sub(e, i as int);
        }
        match &es[i].1 {
            FileNode::Dir(c) => {
                proof {
                    assert(e[i as int].1 == FTree::Dir(ents(c@)));
                    assert(decreases_to!(*es => es@));
                    assert(decreases_to!(es@ => es@[i as int]));
                    assert(decreases_to!(es@[i as int] => es@[i as int].1));
                }
                let n = count_files(c);
                total = total + n;
            },
            FileNode::File(_) => {
                total = total + 1;
            },
        }
        i += 1;
    }
    proof {
        assert(e.take(es@.len() as int) =~= e);
    }
    total
}

/// The path `prefix/name`, or `name` at the top.
fn join_path(prefix: &[char], name: &[char]) -> (r: Vec<char>)
    ensures
        r@ == full_of(prefix@, name@),
{
    let mut v: Vec<char> = Vec::new();
    if prefix.len() > 0 {
        push_chars(&mut v, prefix);
        push_str(&mut v, "/");
    }
    push_chars(&mut v, name);
    v
}

/// Appends the rows of a directory shown as `disp`, with path `full`.
fn push_dir_rows(
    disp: Vec<char>,
    full: Vec<char>,
    cur: &Vec<(String, FileNode)>,
    depth: usize,
    coll: &Vec<String>,
    out: &mut Vec<Row>,
)
    requires
        file_count(ents(cur@)) <= usize::MAX,
    ensures
        rows_v(final(out)@) == rows_v(old(out)@) + dir_rows(
            disp@,
            full@,
            ents(cur@),
            depth as nat,
            str_views(coll@),
        ),
    decreases cur, 2int,
{
    let ghost e = ents(cur@);
    proof {
        lemma_ents(cur@);
    }
    if cur.len() == 1 {
        match &cur[0].1 {
            FileNode::Dir(g) => {
                proof {
                    assert(e[0].1 == FTree::Dir(ents(g@)));
                    assert(decreases_to!(*cur => cur@));
                    assert(decreases_to!(cur@ => cur@[0]));
                    assert(decreases_to!(cur@[0] => cur@[0].1));
                    lemma_count_sub(e, 0);
                }
                let nm = chars_of(cur[0].0.as_str());
                let mut d2 = disp;
                push_str(&mut d2, "/");
                push_chars(&mut d2, nm.as_slice());
                let mut f2 = full;
                push_str(&mut f2, "/");
                push_chars(&mut f2, nm.as_slice());
                push_dir_rows(d2, f2, g, depth, coll, out);
                return;
            },
            FileNode::File(_) => {},
        }
    }
    let full_s = string_of(full.as_slice());
    let c = contains_string(coll, &full_s);
    let n = count_files(cur);
    let row = Row::Dir {
        display_name: string_of(disp.as_slice()),
        dir_path: full_s,
        depth,
        is_collapsed: c,
        file_count: n,
    };
    let ghost rv = row_v(row);
    let ghost before = out@;
    out.push(row);
    proof {
        assert(rows_v(out@) =~= rows_v(before).push(rv));
    }
    if !c {
        let next = depth.saturating_add(1);
        assert(next as nat == deeper(depth as nat));
        let ghost mid = out@;
        push_level(cur, next, full.as_slice(), coll, out);
        proof {
            assert(rows_v(out@) =~= rows_v(old(out)@) + (seq![rv] + level_rows(
                e,
                deeper(depth as nat),
                full@,
                str_views(coll@),
            )));
        }
    } else {
        proof {
            assert(rows_v(out@) =~= rows_v(old(out)@) + seq![rv]);
        }
    }
}

/// Appends the rows of one level: directories first, then files.
fn push_level(es: &Vec<(String, FileNode)>, depth: usize, prefix: &[char], coll: &Vec<String>, out: &mut Vec<Row>)
    requires
        file_count(ents(es@)) <= usize::MAX,
    ensures
        rows_v(final(out)@) == rows_v(old(out)@) + level_rows(
            ents(es@),
            depth as nat,
            prefix@,
            str_views(coll@),
        ),
    decreases es, 1int,
{
    let ghost e = ents(es@);
    let ghost cv = str_views(coll@);
    proof {
        lemma_ents(es@);
        assert(e.take(0) =~= Seq::<(Seq<char>, FTree)>::empty());
    }
    let mut i: usize = 0;
    while i < es.len()
        invariant
            i <= es@.len(),
            e == ents(es@),
            cv == str_views(coll@),
            e.len() == es@.len(),
            forall|k: int| 0 <= k < es@.len() ==> #[trigger] e[k] == (es@[k].0@, ft(es@[k].1)),
            file_count(e) <= usize::MAX,
            rows_v(out@) == rows_v(old(out)@) + dirs_part(e.take(i as int), depth as nat, prefix@, cv),
        decreases es@.len() - i,
    {
        proof {
            assert(e.take(i + 1).drop_last() =~= e.take(i as int));
            assert(e.take(i + 1).last() == e[i as int]);
            lemma_count_sub(e, i as int);
        }
        match &es[i].1 {
            FileNode::Dir(c) => {
                proof {
                    assert(e[i as int].1 == FTree::Dir(ents(c@)));
                    assert(decreases_to!(*es => es@));
                    assert(decreases_to!(es@ => es@[i as int]));
                    assert(decreases_to!(es@[i as int] => es@[i as int].1));
                }
                let nm = chars_of(es[i].0.as_str());
                let full = join_path(prefix, nm.as_slice());
                let disp = chars_of(es[i].0.as_str());
                let ghost before = out@;
                push_dir_rows(disp, full, c, depth, coll, out);
            },
            FileNode::File(_) => {
                proof {
                    assert(dirs_part(e.take(i + 1), depth as nat, prefix@, cv) =~= dirs_part(
                        e.take(i as int),
                        depth as nat,
                        prefix@,
                        cv,
                    ) + Seq::<RowV>::empty());
                }
            },
        }
        i += 1;
    }
    proof {
        assert(e.take(es@.len() as int) =~= e);
        assert(e.take(0) =~= Seq::<(Seq<char>, FTree)>::empty());
    }
    let ghost after_dirs = out@;
    let mut j: usize = 0;
    while j < es.len()
        invariant
            j <= es@.len(),
            e == ents(es@),
            e.len() == es@.len(),
            forall|k: int| 0 <= k < es@.len() ==> #[trigger] e[k] == (es@[k].0@, ft(es@[k].1)),
            rows_v(out@) == rows_v(after_dirs) + files_part(e.take(j as int), depth as nat),
        decreases es@.len() - j,
    {
        proof {
            assert(e.take(j + 1).drop_last() =~= e.take(j as int));
            assert(e.take(j + 1).last() == e[j as int]);
        }
        match &es[j].1 {
            FileNode::File(idx) => {
                let row = Row::File { idx: *idx, depth };
                let ghost rv = row_v(row);
                let ghost before = out@;
                out.push(row);
                proof {
                    assert(rows_v(out@) =~= rows_v(before).push(rv));
                }
            },
            FileNode::Dir(_) => {
                proof {
                    assert(files_part(e.take(j + 1), depth as nat) =~= files_part(
                        e.take(j as int),
                        depth as nat,
                    ) + Seq::<RowV>::empty());
                }
            },
        }
        j += 1;
    }
    proof {
        assert(e.take(es@.len() as int) =~= e);
    }
}

/// The rows of the tree `root`: directories merged through single-directory
/// chains, collapsed directories (by path in `collapsed`) shown without
/// their entries.
pub fn flatten(root: &Vec<(String, FileNode)>, collapsed: &Vec<String>) -> (r: Vec<Row>)
    requires
        file_count(ents(root@)) <= usize::MAX,
    ensures
        rows_v(r@) == level_rows(ents(root@), 0, Seq::empty(), str_views(collapsed@)),
{
    let mut out: Vec<Row> = Vec::new();
    let empty: Vec<char> = Vec::new();
    proof {
        assert(rows_v(out@) =~= Seq::<RowV>::empty());
    }
    push_level(root, 0, empty.as_slice(), collapsed, &mut out);
    proof {
        assert(rows_v(out@) =~= level_rows(ents(root@), 0, Seq::empty(), str_views(collapsed@)));
    }
    out
}

/// The files an entry stands for: one for a file, all below for a directory.
pub open spec fn entry_count(e: (Seq<char>, FTree)) -> nat {
    match e.1 {
        FTree::Dir(c) => file_count(c),
        FTree::File(_) => 1,
    }
}

/// Counting splits over concatenation.
pub proof fn lemma_count_concat(a: Seq<(Seq<char>, FTree)>, b: Seq<(Seq<char>, FTree)>)
    ensures
        file_count(a + b) == file_count(a) + file_count(b),
    decreases b.len(),
{
    if b.len() == 0 {
        assert(a + b =~= a);
    } else {
        lemma_count_concat(a, b.drop_last());
        assert((a + b).drop_last() =~= a + b.drop_last());
        assert((a + b).last() == b.last());
    }
}

/// The count of a one-entry list.
pub proof fn lemma_count_single(x: (Seq<char>, FTree))
    ensures
        file_count(seq![x]) == entry_count(x),
{
    assert(seq![x].drop_last() =~= Seq::<(Seq<char>, FTree)>::empty());
    assert(seq![x].last() == x);
    assert(file_count(Seq::<(Seq<char>, FTree)>::empty()) == 0);
}

/// Replacing or adding one entry changes the count by that entry.
pub proof fn lemma_count_edit(es: Seq<(Seq<char>, FTree)>, p: int, x: (Seq<char>, FTree))
    requires
        0 <= p <= es.len(),
    ensures
        file_count(es.insert(p, x)) == file_count(es) + entry_count(x),
        p < es.len() ==> file_count(es.update(p, x)) + entry_count(es[p]) == file_count(es)
            + entry_count(x),
{
    let a = es.take(p);
    let b = es.skip(p);
    assert(es =~= a + b);
    lemma_count_concat(a, b);
    assert(es.insert(p, x) =~= (a + seq![x]) + b);
    lemma_count_concat(a + seq![x], b);
    lemma_count_concat(a, seq![x]);
    lemma_count_single(x);
    if p < es.len() {
        let c = es.skip(p + 1);
        assert(b =~= seq![es[p]] + c);
        lemma_count_concat(seq![es[p]], c);
        lemma_count_single(es[p]);
        assert(es.update(p, x) =~= (a + seq![x]) + c);
        lemma_count_concat(a + seq![x], c);
    }
}

/// Adding one file path adds at most one file to the count.
pub proof fn lemma_ins_count(es: Seq<(Seq<char>, FTree)>, parts: Seq<Seq<char>>, idx: nat)
    ensures
        file_count(ins(es, parts, idx)) <= file_count(es) + 1,
    decreases parts.len(),
{
    if parts.len() > 0 {
        let name = parts[0];
        let p = lower_bound(es, name);
        assert(0 <= p <= es.len()) by {
            lemma_lower_bound_range(es, name);
        }
        let found = p < es.len() && es[p].0 == name;
        if parts.len() == 1 {
            lemma_count_edit(es, p, (name, FTree::File(idx)));
        } else if found {
            match es[p].1 {
                FTree::Dir(ch) => {
                    lemma_ins_count(ch, parts.drop_first(), idx);
                    lemma_count_edit(es, p, (name, FTree::Dir(ins(ch, parts.drop_first(), idx))));
                },
                FTree::File(_) => {},
            }
        } else {
            lemma_ins_count(Seq::empty(), parts.drop_first(), idx);
            assert(file_count(Seq::<(Seq<char>, FTree)>::empty()) == 0);
            lemma_count_edit(
                es,
                p,
                (name, FTree::Dir(ins(Seq::empty(), parts.drop_first(), idx))),
            );
        }
    }
}

/// `lower_bound` lies within the entries.
pub proof fn lemma_lower_bound_range(es: Seq<(Seq<char>, FTree)>, name: Seq<char>)
    ensures
        0 <= lower_bound(es, name) <= es.len(),
    decreases es.len(),
{
    if es.len() > 0 && chars_lt(es[0].0, name) {
        lemma_lower_bound_range(es.drop_first(), name);
    }
}

/// The tree of `n` paths holds at most `n` files.
pub proof fn lemma_tree_count(paths: Seq<Seq<char>>)
    ensures
        file_count(tree_of(paths)) <= paths.len(),
    decreases paths.len(),
{
    if paths.len() == 0 {
        assert(file_count(Seq::<(Seq<char>, FTree)>::empty()) == 0);
    } else {
        lemma_tree_count(paths.drop_last());
        lemma_ins_count(
            tree_of(paths.drop_last()),
            split_on(paths.last(), '/'),
            (paths.len() - 1) as nat,
        );
    }
}

/// The rows of the changed files `paths` as a directory tree, with the
/// directories in `collapsed` closed.
pub fn file_tree_rows(paths: &Vec<String>, collapsed: &Vec<String>) -> (r: Vec<Row>)
    ensures
        rows_v(r@) == level_rows(tree_of(str_views(paths@)), 0, Seq::empty(), str_views(collapsed@)),
{
    let root = build_tree(paths);
    let n = paths.len();
    proof {
        lemma_tree_count(str_views(paths@));
        assert(str_views(paths@).len() == n);
    }
    flatten(&root, collapsed)
}

/// A directory row is marked collapsed exactly when its own path is in `coll`.
pub open spec fn flag_follows_path(r: RowV, coll: Seq<Seq<char>>) -> bool {
    match r {
        RowV::Dir(_, path, _, collapsed, _) => collapsed == coll.contains(path),
        RowV::File(_, _) => true,
    }
}

/// Every row of `rows` follows [`flag_follows_path`].
pub open spec fn flags_follow_paths(rows: Seq<RowV>, coll: Seq<Seq<char>>) -> bool {
    forall|i: int| 0 <= i < rows.len() ==> flag_follows_path(#[trigger] rows[i], coll)
}

proof fn lemma_flags_concat(a: Seq<RowV>, b: Seq<RowV>, coll: Seq<Seq<char>>)
    requires
        flags_follow_paths(a, coll),
        flags_follow_paths(b, coll),
    ensures
        flags_follow_paths(a + b, coll),
{
    assert forall|i: int| 0 <= i < (a + b).len() implies flag_follows_path(#[trigger] (a + b)[i], coll) by {
        if i < a.len() {
            assert((a + b)[i] == a[i]);
        } else {
            assert((a + b)[i] == b[i - a.len()]);
        }
    }
}

proof fn lemma_files_part_flags(es: Seq<(Seq<char>, FTree)>, depth: nat, coll: Seq<Seq<char>>)
    ensures
        flags_follow_paths(files_part(es, depth), coll),
    decreases es.len(),
{
    if es.len() > 0 {
        lemma_files_part_flags(es.drop_last(), depth, coll);
        let tail = match es.last().1 {
            FTree::File(i) => seq![RowV::File(i, depth)],
            FTree::Dir(_) => Seq::<RowV>::empty(),
        };
        assert(flags_follow_paths(tail, coll));
        lemma_flags_concat(files_part(es.drop_last(), depth), tail, coll);
    }
}

proof fn lemma_dir_rows_flags(
    disp: Seq<char>,
    full: Seq<char>,
    cur: Seq<(Seq<char>, FTree)>,
    depth: nat,
    coll: Seq<Seq<char>>,
)
    ensures
        flags_follow_paths(dir_rows(disp, full, cur, depth, coll), coll),
    decreases cur, 2int,
{
    if cur.len() == 1 && cur[0].1 is Dir {
        lemma_dir_rows_flags(disp + "/"@ + cur[0].0, full + "/"@ + cur[0].0, cur[0].1->Dir_0, depth, coll);
    } else {
        let c = coll.contains(full);
        let row = RowV::Dir(disp, full, depth, c, file_count(cur));
        assert(flags_follow_paths(seq![row], coll));
        if !c {
            lemma_level_flags(cur, deeper(depth), full, coll);
            lemma_flags_concat(seq![row], level_rows(cur, deeper(depth), full, coll), coll);
        }
    }
}

proof fn lemma_level_flags(
    es: Seq<(Seq<char>, FTree)>,
    depth: nat,
    prefix: Seq<char>,
    coll: Seq<Seq<char>>,
)
    ensures
        flags_follow_paths(level_rows(es, depth, prefix, coll), coll),
    decreases es, 1int,
{
    lemma_dirs_part_flags(es, depth, prefix, coll);
    lemma_files_part_flags(es, depth, coll);
    lemma_flags_concat(dirs_part(es, depth, prefix, coll), files_part(es, depth), coll);
}

proof fn lemma_dirs_part_flags(
    es: Seq<(Seq<char>, FTree)>,
    depth: nat,
    prefix: Seq<char>,
    coll: Seq<Seq<char>>,
)
    ensures
        flags_follow_paths(dirs_part(es, depth, prefix, coll), coll),
    decreases es, 0int,
{
    if es.len() > 0 {
        lemma_dirs_part_flags(es.drop_last(), depth, prefix, coll);
        match es.last().1 {
            FTree::Dir(c) => {
                lemma_dir_rows_flags(es.last().0, full_of(prefix, es.last().0), c, depth, coll);
                lemma_flags_concat(
                    dirs_part(es.drop_last(), depth, prefix, coll),
                    dir_rows(es.last().0, full_of(prefix, es.last().0), c, depth, coll),
                    coll,
                );
            },
            FTree::File(_) => {
                assert(dirs_part(es, depth, prefix, coll) =~= dirs_part(es.drop_last(), depth, prefix, coll));
            },
        }
    }
}

/// At every depth of the file tree, a directory row is marked collapsed
/// exactly when its own full path (`dir_path`) is among the collapsed paths;
/// its shown name does not matter.
pub proof fn lemma_collapsed_by_full_path(paths: Seq<Seq<char>>, coll: Seq<Seq<char>>)
    ensures
        forall|i: int|
            0 <= i < level_rows(tree_of(paths), 0, Seq::empty(), coll).len() ==> match #[trigger] level_rows(
                tree_of(paths),
                0,
                Seq::empty(),
                coll,
            )[i] {
                RowV::Dir(_, path, _, collapsed, _) => collapsed == coll.contains(path),
                RowV::File(_, _) => true,
            },
{
    lemma_level_flags(tree_of(paths), 0, Seq::empty(), coll);
}

/// The depth of a row.
pub open spec fn row_depth(r: RowV) -> nat {
    match r {
        RowV::Dir(_, _, d, _, _) => d,
        RowV::File(_, d) => d,
    }
}

/// The row is a collapsed directory.
pub open spec fn is_collapsed_dir(r: RowV) -> bool {
    r matches RowV::Dir(_, _, _, true, _)
}

/// No row right after a collapsed directory is deeper than it.
pub open spec fn closed_ok(rows: Seq<RowV>) -> bool {
    forall|i: int|
        0 <= i < rows.len() - 1 && is_collapsed_dir(#[trigger] rows[i]) ==> row_depth(rows[i + 1])
            <= row_depth(rows[i])
}

/// The rows of one level at depth `d`: none shallower, the first at `d`.
pub open spec fn level_shape(rows: Seq<RowV>, d: nat) -> bool {
    &&& forall|i: int| 0 <= i < rows.len() ==> row_depth(#[trigger] rows[i]) >= d
    &&& rows.len() > 0 ==> row_depth(rows[0]) == d
    &&& closed_ok(rows)
}

proof fn lemma_closed_concat(a: Seq<RowV>, b: Seq<RowV>, d: nat)
    requires
        level_shape(a, d),
        level_shape(b, d),
    ensures
        level_shape(a + b, d),
{
    let s = a + b;
    assert forall|i: int| 0 <= i < s.len() implies row_depth(#[trigger] s[i]) >= d by {
        if i < a.len() {
            assert(s[i] == a[i]);
        } else {
            assert(s[i] == b[i - a.len()]);
        }
    }
    assert forall|i: int|
        0 <= i < s.len() - 1 && is_collapsed_dir(#[trigger] s[i]) implies row_depth(s[i + 1])
        <= row_depth(s[i]) by {
        if i < a.len() - 1 {
            assert(s[i] == a[i] && s[i + 1] == a[i + 1]);
        } else if i == a.len() - 1 {
            assert(s[i] == a[i]);
            assert(s[i + 1] == b[0]);
        } else {
            assert(s[i] == b[i - a.len()] && s[i + 1] == b[i + 1 - a.len()]);
        }
    }
    if a.len() > 0 {
        assert(s[0] == a[0]);
    } else {
        assert(s =~= b);
    }
}

proof fn lemma_files_part_shape(es: Seq<(Seq<char>, FTree)>, depth: nat)
    ensures
        level_shape(files_part(es, depth), depth),
    decreases es.len(),
{
    if es.len() > 0 {
        lemma_files_part_shape(es.drop_last(), depth);
        let tail = match es.last().1 {
            FTree::File(i) => seq![RowV::File(i, depth)],
            FTree::Dir(_) => Seq::<RowV>::empty(),
        };
        assert(level_shape(tail, depth));
        lemma_closed_concat(files_part(es.drop_last(), depth), tail, depth);
    }
}

proof fn lemma_dir_rows_shape(
    disp: Seq<char>,
    full: Seq<char>,
    cur: Seq<(Seq<char>, FTree)>,
    depth: nat,
    coll: Seq<Seq<char>>,
)
    ensures
        level_shape(dir_rows(disp, full, cur, depth, coll), depth),
        dir_rows(disp, full, cur, depth, coll).len() > 0,
    decreases cur, 2int,
{
    if cur.len() == 1 && cur[0].1 is Dir {
        lemma_dir_rows_shape(disp + "/"@ + cur[0].0, full + "/"@ + cur[0].0, cur[0].1->Dir_0, depth, coll);
    } else {
        let c = coll.contains(full);
        let row = RowV::Dir(disp, full, depth, c, file_count(cur));
        assert(level_shape(seq![row], depth));
        if !c {
            let inner = level_rows(cur, deeper(depth), full, coll);
            lemma_level_shape(cur, deeper(depth), full, coll);
            let s = seq![row] + inner;
            assert forall|i: int| 0 <= i < s.len() implies row_depth(#[trigger] s[i]) >= depth by {
                if i > 0 {
                    assert(s[i] == inner[i - 1]);
                }
            }
            assert forall|i: int|
                0 <= i < s.len() - 1 && is_collapsed_dir(#[trigger] s[i]) implies row_depth(s[i + 1])
                <= row_depth(s[i]) by {
                if i > 0 {
                    assert(s[i] == inner[i - 1] && s[i + 1] == inner[i]);
                }
            }
        }
    }
}

proof fn lemma_level_shape(
    es: Seq<(Seq<char>, FTree)>,
    depth: nat,
    prefix: Seq<char>,
    coll: Seq<Seq<char>>,
)
    ensures
        level_shape(level_rows(es, depth, prefix, coll), depth),
    decreases es, 1int,
{
    lemma_dirs_part_shape(es, depth, prefix, coll);
    lemma_files_part_shape(es, depth);
    lemma_closed_concat(dirs_part(es, depth, prefix, coll), files_part(es, depth), depth);
}

proof fn lemma_dirs_part_shape(
    es: Seq<(Seq<char>, FTree)>,
    depth: nat,
    prefix: Seq<char>,
    coll: Seq<Seq<char>>,
)
    ensures
        level_shape(dirs_part(es, depth, prefix, coll), depth),
    decreases es, 0int,
{
    if es.len() > 0 {
        lemma_dirs_part_shape(es.drop_last(), depth, prefix, coll);
        match es.last().1 {
            FTree::Dir(c) => {
                lemma_dir_rows_shape(es.last().0, full_of(prefix, es.last().0), c, depth, coll);
                lemma_closed_concat(
                    dirs_part(es.drop_last(), depth, prefix, coll),
                    dir_rows(es.last().0, full_of(prefix, es.last().0), c, depth, coll),
                    depth,
                );
            },
            FTree::File(_) => {
                assert(dirs_part(es, depth, prefix, coll) =~= dirs_part(es.drop_last(), depth, prefix, coll));
            },
        }
    }
}

/// A collapsed directory hides its entries: the row right after a
/// collapsed directory row is never deeper than it, at every depth.
pub proof fn lemma_collapsed_hides_entries(paths: Seq<Seq<char>>, coll: Seq<Seq<char>>)
    ensures
        forall|i: int|
            0 <= i < level_rows(tree_of(paths), 0, Seq::empty(), coll).len() - 1 ==> match #[trigger] level_rows(
                tree_of(paths),
                0,
                Seq::empty(),
                coll,
            )[i] {
                RowV::Dir(_, _, d, true, _) => row_depth(
                    level_rows(tree_of(paths), 0, Seq::empty(), coll)[i + 1],
                ) <= d,
                _ => true,
            },
{
    lemma_level_shape(tree_of(paths), 0, Seq::empty(), coll);
}

} // verus!
