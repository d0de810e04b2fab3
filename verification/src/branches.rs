//! Branch lists of the Git view: names grouped by their first `/` segment,
//! the labels of menu entries, ahead/behind texts, and the actions a branch
//! row offers.

use vstd::prelude::*;

use crate::key_tree::{chars_lt, chars_lt_exec};
use crate::text::{
    chars_of, copy_range, dec, find_char, find_char_in, is_first, lemma_find_char_none,
    lemma_find_char_some, push_chars, push_dec, push_str,
    string_of,
};

verus! {

// ===== Display names =====

/// Names longer than this are cut in the middle.
pub const BRANCH_MAX_CHARS: usize = 40;

/// Characters kept from the start of a cut name.
pub const BRANCH_HEAD_KEEP: usize = 20;

/// Characters kept from the end of a cut name.
pub const BRANCH_TAIL_KEEP: usize = 15;

/// A branch name as shown: names up to [`BRANCH_MAX_CHARS`] characters as
/// they are, longer ones as their first 20 and last 15 characters around `…`.
pub open spec fn branch_display(s: Seq<char>) -> Seq<char> {
    if s.len() <= BRANCH_MAX_CHARS {
        s
    } else {
        s.take(BRANCH_HEAD_KEEP as int) + seq!['…'] + s.skip(s.len() - BRANCH_TAIL_KEEP)
    }
}

/// A displayed branch name is never longer than [`BRANCH_MAX_CHARS`]
/// characters; a name that fits is shown unchanged, and a cut one keeps the
/// name's start and its end.
pub proof fn lemma_branch_display_fits(s: Seq<char>)
    ensures
        branch_display(s).len() <= BRANCH_MAX_CHARS,
        s.len() <= BRANCH_MAX_CHARS ==> branch_display(s) == s,
        s.len() > BRANCH_MAX_CHARS ==> {
            &&& branch_display(s).take(BRANCH_HEAD_KEEP as int) == s.take(BRANCH_HEAD_KEEP as int)
            &&& branch_display(s).skip(BRANCH_HEAD_KEEP + 1) == s.skip(s.len() - BRANCH_TAIL_KEEP)
        },
{
    if s.len() > BRANCH_MAX_CHARS {
        let d = branch_display(s);
        assert(d.take(BRANCH_HEAD_KEEP as int) =~= s.take(BRANCH_HEAD_KEEP as int));
        assert(d.skip(BRANCH_HEAD_KEEP + 1) =~= s.skip(s.len() - BRANCH_TAIL_KEEP));
    }
}

/// Cuts a long branch name in the middle.
pub fn truncate_branch_display(s: &str) -> (r: String)
    ensures
        r@ == branch_display(s@),
{
    let cs = chars_of(s);
    let n = cs.len();
    if n <= BRANCH_MAX_CHARS {
        return String::from_str(s);
    }
    let mut v = copy_range(cs.as_slice(), 0, BRANCH_HEAD_KEEP);
    v.push('…');
    let tail = copy_range(cs.as_slice(), n - BRANCH_TAIL_KEEP, n);
    push_chars(&mut v, tail.as_slice());
    proof {
        assert(v@ =~= branch_display(s@));
    }
    string_of(v.as_slice())
}

// ===== Grouping =====

/// A branch entry of a menu: its name, whether it is `HEAD`, and its
/// ahead/behind text.
pub type BranchLeaf = (String, bool, Option<String>);

/// A branch entry as plain values.
pub type LeafView = (Seq<char>, bool, Option<Seq<char>>);

/// The plain value of an entry.
pub open spec fn leaf_view(l: BranchLeaf) -> LeafView {
    (
        l.0@,
        l.1,
        match l.2 {
            Some(s) => Some(s@),
            None => None,
        },
    )
}

/// Where a group named `p` belongs among groups kept in name order.
pub open spec fn group_pos(gs: Seq<(Seq<char>, Seq<LeafView>)>, p: Seq<char>) -> int
    decreases gs.len(),
{
    if gs.len() == 0 {
        0
    } else if chars_lt(gs[0].0, p) {
        1 + group_pos(gs.drop_first(), p)
    } else {
        0
    }
}

/// `group_pos` is the first group whose name does not come before `p`.
pub proof fn lemma_group_pos(gs: Seq<(Seq<char>, Seq<LeafView>)>, p: Seq<char>, k: int)
    requires
        0 <= k <= gs.len(),
        forall|j: int| 0 <= j < k ==> chars_lt(gs[j].0, p),
        k == gs.len() || !chars_lt(gs[k].0, p),
    ensures
        group_pos(gs, p) == k,
    decreases k,
{
    if k > 0 {
        let t = gs.drop_first();
        assert forall|j: int| 0 <= j < k - 1 implies chars_lt(t[j].0, p) by {
            assert(t[j] == gs[j + 1]);
        }
        lemma_group_pos(t, p, k - 1);
    }
}

/// Names without `/` as they come, and the others grouped by what precedes
/// their first `/` (groups in name order, entries in the order they came,
/// each named by what follows that `/`).
pub open spec fn grouping(items: Seq<LeafView>) -> (Seq<LeafView>, Seq<(Seq<char>, Seq<LeafView>)>)
    decreases items.len(),
{
    if items.len() == 0 {
        (Seq::empty(), Seq::empty())
    } else {
        let (singles, gs) = grouping(items.drop_last());
        let it = items.last();
        match find_char(it.0, '/') {
            None => (singles.push(it), gs),
            Some(k) => {
                let p = it.0.take(k);
                let leaf = (it.0.skip(k + 1), it.1, it.2);
                let q = group_pos(gs, p);
                if q < gs.len() && gs[q].0 == p {
                    (singles, gs.update(q, (p, gs[q].1.push(leaf))))
                } else {
                    (singles, gs.insert(q, (p, seq![leaf])))
                }
            },
        }
    }
}

/// A branch named `p/r` (no `/` in `p`) shows as the entry `r` of group
/// `p`, keeping its `HEAD` mark and its ahead/behind text: after it comes,
/// group `p` exists and ends with that entry, and the plain names are as
/// before. A name without `/` joins the plain names as it is.
pub proof fn lemma_grouped_entry_keeps_marks(
    items: Seq<LeafView>,
    p: Seq<char>,
    r: Seq<char>,
    head: bool,
    sync: Option<Seq<char>>,
)
    requires
        !p.contains('/'),
    ensures
        ({
            let g = grouping(items.push((p + seq!['/'] + r, head, sync)));
            &&& g.0 == grouping(items).0
            &&& exists|q: int|
                0 <= q < g.1.len() && (#[trigger] g.1[q]).0 == p && g.1[q].1.len() > 0 && g.1[q].1.last()
                    == (r, head, sync)
        }),
        !r.contains('/') ==> grouping(items.push((r, head, sync))).0 == grouping(items).0.push(
            (r, head, sync),
        ),
{
    let name = p + seq!['/'] + r;
    let all = items.push((name, head, sync));
    assert(all.drop_last() =~= items);
    assert(is_first(name, '/', p.len() as int)) by {
        assert forall|j: int| 0 <= j < p.len() implies name[j] != '/' by {
            assert(name[j] == p[j]);
            if p[j] == '/' {
                assert(p.contains('/'));
            }
        }
    }
    lemma_find_char_some(name, '/', p.len() as int);
    assert(name.take(p.len() as int) =~= p);
    assert(name.skip(p.len() as int + 1) =~= r);
    let (singles, gs) = grouping(items);
    let leaf = (r, head, sync);
    let q = group_pos(gs, p);
    lemma_group_pos_range(gs, p);
    let g = grouping(all);
    if q < gs.len() && gs[q].0 == p {
        assert(g.1[q] == (p, gs[q].1.push(leaf)));
    } else {
        assert(g.1 == gs.insert(q, (p, seq![leaf])));
        assert(g.1[q] == (p, seq![leaf]));
    }
    let plain = items.push((r, head, sync));
    assert(plain.drop_last() =~= items);
    if !r.contains('/') {
        lemma_find_char_none(r, '/');
    }
}

/// `group_pos` lies within the groups.
proof fn lemma_group_pos_range(gs: Seq<(Seq<char>, Seq<LeafView>)>, p: Seq<char>)
    ensures
        0 <= group_pos(gs, p) <= gs.len(),
    decreases gs.len(),
{
    if gs.len() > 0 {
        lemma_group_pos_range(gs.drop_first(), p);
    }
}

/// A copy of an entry.
fn copy_leaf(l: &BranchLeaf) -> (r: BranchLeaf)
    ensures
        leaf_view(r) == leaf_view(*l),
{
    let n = string_of(chars_of(l.0.as_str()).as_slice());
    let s: Option<String> = match &l.2 {
        Some(x) => Some(string_of(chars_of(x.as_str()).as_slice())),
        None => None,
    };
    (n, l.1, s)
}

/// The plain values of entries.
pub open spec fn leaves_view(v: Seq<BranchLeaf>) -> Seq<LeafView> {
    v.map_values(|l: BranchLeaf| leaf_view(l))
}

/// The plain values of groups.
pub open spec fn groups_view(v: Seq<(String, Vec<BranchLeaf>)>) -> Seq<(Seq<char>, Seq<LeafView>)> {
    v.map_values(|g: (String, Vec<BranchLeaf>)| (g.0@, leaves_view(g.1@)))
}

/// Splits branch entries into plain names and groups by their first `/`
/// segment, as the branch menus show them.
pub fn group_branches(items: &Vec<BranchLeaf>) -> (r: (Vec<BranchLeaf>, Vec<(String, Vec<BranchLeaf>)>))
    ensures
        (leaves_view(r.0@), groups_view(r.1@)) == grouping(leaves_view(items@)),
{
    let ghost iv = leaves_view(items@);
    let mut singles: Vec<BranchLeaf> = Vec::new();
    let mut groups: Vec<(String, Vec<BranchLeaf>)> = Vec::new();
    let mut i: usize = 0;
    proof {
        assert(iv.take(0) =~= Seq::<LeafView>::empty());
        assert(leaves_view(singles@) =~= Seq::<LeafView>::empty());
        assert(groups_view(groups@) =~= Seq::<(Seq<char>, Seq<LeafView>)>::empty());
    }
    while i < items.len()
        invariant
            i <= items@.len(),
            iv == leaves_view(items@),
            (leaves_view(singles@), groups_view(groups@)) == grouping(iv.take(i as int)),
        decreases items@.len() - i,
    {
        proof {
            assert(iv.take(i + 1).drop_last() =~= iv.take(i as int));
            assert(iv.take(i + 1).last() == leaf_view(items@[i as int]));
        }
        let it = &items[i];
        let name = chars_of(it.0.as_str());
        match find_char_in(name.as_slice(), '/') {
            None => {
                let l = copy_leaf(it);
                let ghost before = singles@;
                singles.push(l);
                proof {
                    assert(leaves_view(singles@) =~= leaves_view(before).push(leaf_view(l)));
                }
            },
            Some(k) => {
                assert(is_first(name@, '/', k as int));
                assert(k < name.len());
                let pc = copy_range(name.as_slice(), 0, k);
                let rc = copy_range(name.as_slice(), k + 1, name.len());
                let sync: Option<String> = match &it.2 {
                    Some(x) => Some(string_of(chars_of(x.as_str()).as_slice())),
                    None => None,
                };
                let leaf: BranchLeaf = (string_of(rc.as_slice()), it.1, sync);
                let ghost lv = leaf_view(leaf);
                let ghost gv = groups_view(groups@);
                proof {
                    assert(lv == (iv[i as int].0.skip(k + 1), iv[i as int].1, iv[i as int].2)) by {
                        assert(rc@ =~= name@.skip(k + 1));
                    }
                    assert(pc@ =~= name@.take(k as int));
                }
                let mut q: usize = 0;
                while q < groups.len() && chars_lt_exec(
                    chars_of(groups[q].0.as_str()).as_slice(),
                    pc.as_slice(),
                )
                    invariant
                        q <= groups@.len(),
                        gv == groups_view(groups@),
                        forall|j: int| 0 <= j < q ==> chars_lt(#[trigger] gv[j].0, pc@),
                    decreases groups@.len() - q,
                {
                    assert(gv[q as int].0 == groups@[q as int].0@);
                    q += 1;
                }
                proof {
                    if q < groups@.len() {
                        assert(gv[q as int].0 == groups@[q as int].0@);
                    }
                    lemma_group_pos(gv, pc@, q as int);
                }
                let found = q < groups.len() && crate::text::chars_eq(
                    chars_of(groups[q].0.as_str()).as_slice(),
                    pc.as_slice(),
                );
                if found {
                    let (gname, mut members) = groups.remove(q);
                    let ghost old_members = members@;
                    members.push(leaf);
                    groups.insert(q, (gname, members));
                    proof {
                        assert(leaves_view(members@) =~= leaves_view(old_members).push(lv));
                        assert(groups_view(groups@) =~= gv.update(
                            q as int,
                            (pc@, gv[q as int].1.push(lv)),
                        ));
                    }
                } else {
                    let mut members: Vec<BranchLeaf> = Vec::new();
                    members.push(leaf);
                    groups.insert(q, (string_of(pc.as_slice()), members));
                    proof {
                        assert(leaves_view(members@) =~= seq![lv]);
                        assert(groups_view(groups@) =~= gv.insert(q as int, (pc@, seq![lv])));
                    }
                }
            },
        }
        i += 1;
    }
    proof {
        assert(iv.take(items@.len() as int) =~= iv);
    }
    (singles, groups)
}

// ===== Entry labels =====

/// The label of a branch entry: `↗` for a remote branch, `✓` for `HEAD`,
/// the shown name, then the ahead/behind text when there is one.
pub open spec fn leaf_label_text(display: Seq<char>, is_head: bool, is_remote: bool, sync: Option<Seq<char>>) -> Seq<char> {
    (if is_remote {
        "↗  "@
    } else if is_head {
        "✓  "@
    } else {
        "    "@
    }) + branch_display(display) + match sync {
        Some(s) => if s.len() > 0 {
            "    "@ + s
        } else {
            Seq::empty()
        },
        None => Seq::empty(),
    }
}

/// The label of a branch entry of the branch menu.
pub fn branch_leaf_label(display: &str, is_head: bool, is_remote: bool, sync: Option<&str>) -> (r: String)
    ensures
        r@ == leaf_label_text(
            display@,
            is_head,
            is_remote,
            match sync {
                Some(s) => Some(s@),
                None => None,
            },
        ),
{
    let mut v: Vec<char> = Vec::new();
    if is_remote {
        push_str(&mut v, "↗  ");
    } else if is_head {
        push_str(&mut v, "✓  ");
    } else {
        push_str(&mut v, "    ");
    }
    let d = truncate_branch_display(display);
    push_str(&mut v, d.as_str());
    let ghost mid = v@;
    match sync {
        Some(s) => {
            if chars_of(s).len() > 0 {
                push_str(&mut v, "    ");
                push_str(&mut v, s);
            } else {
                assert(v@ =~= mid + Seq::<char>::empty());
            }
        },
        None => {
            assert(v@ =~= mid + Seq::<char>::empty());
        },
    }
    string_of(v.as_slice())
}

/// Whether picking an entry checks the branch out: not for the local `HEAD`.
pub fn leaf_checks_out(is_head: bool, is_remote: bool) -> (r: bool)
    ensures
        r == (!is_head || is_remote),
{
    !is_head || is_remote
}

/// The label of an entry of the "based on" menu of a new branch.
pub open spec fn base_leaf_label_text(display: Seq<char>, is_remote: bool) -> Seq<char> {
    (if is_remote {
        "↗  "@
    } else {
        "    "@
    }) + branch_display(display)
}

/// The label of an entry of the "based on" menu.
pub fn base_leaf_label(display: &str, is_remote: bool) -> (r: String)
    ensures
        r@ == base_leaf_label_text(display@, is_remote),
{
    let mut v: Vec<char> = Vec::new();
    if is_remote {
        push_str(&mut v, "↗  ");
    } else {
        push_str(&mut v, "    ");
    }
    let d = truncate_branch_display(display);
    push_str(&mut v, d.as_str());
    string_of(v.as_slice())
}

/// The full name of entry `rest` of the group `prefix`.
pub open spec fn grouped_name(prefix: Seq<char>, rest: Seq<char>) -> Seq<char> {
    prefix + "/"@ + rest
}

/// The full name of an entry of a group.
pub fn grouped_full_name(prefix: &str, rest: &str) -> (r: String)
    ensures
        r@ == grouped_name(prefix@, rest@),
{
    let mut v: Vec<char> = Vec::new();
    push_str(&mut v, prefix);
    push_str(&mut v, "/");
    push_str(&mut v, rest);
    string_of(v.as_slice())
}

// ===== Branch rows =====

/// `↑{ahead} ↓{behind}` when both are known and one is above 0.
pub open spec fn sync_text_of(ahead: Option<u64>, behind: Option<u64>) -> Option<Seq<char>> {
    match (ahead, behind) {
        (Some(a), Some(d)) => if a > 0 || d > 0 {
            Some("↑"@ + dec(a as nat) + " ↓"@ + dec(d as nat))
        } else {
            None
        },
        _ => None,
    }
}

/// The ahead/behind text of a branch row.
pub fn sync_text(ahead: Option<u64>, behind: Option<u64>) -> (r: Option<String>)
    ensures
        match r {
            Some(s) => sync_text_of(ahead, behind) == Some(s@),
            None => sync_text_of(ahead, behind) is None,
        },
{
    match (ahead, behind) {
        (Some(a), Some(d)) => {
            if a > 0 || d > 0 {
                let mut v: Vec<char> = Vec::new();
                push_str(&mut v, "↑");
                push_dec(&mut v, a);
                push_str(&mut v, " ↓");
                push_dec(&mut v, d);
                Some(string_of(v.as_slice()))
            } else {
                None
            }
        },
        _ => None,
    }
}

/// An entry of the context menu of a branch row.
#[derive(Debug, Clone, Copy, PartialEq, Eq, Structural)]
pub enum BranchMenuItem {
    /// Check the local branch out.
    Checkout,
    /// Check the remote branch out as a local copy.
    CheckoutRemote,
    /// Merge it into `HEAD`.
    Merge,
    /// Rebase `HEAD` onto it.
    Rebase,
    /// Rebase interactively onto it.
    InteractiveRebase,
    /// A divider.
    Separator,
    /// Delete the local branch.
    Delete,
}

/// The context menu of a branch row: nothing for `HEAD`; checkout, merge
/// and rebase for any other branch; interactive rebase and delete for a
/// local one.
pub open spec fn branch_menu_items(is_head: bool, is_remote: bool) -> Seq<BranchMenuItem> {
    if is_head {
        Seq::empty()
    } else if is_remote {
        seq![BranchMenuItem::CheckoutRemote, BranchMenuItem::Merge, BranchMenuItem::Rebase]
    } else {
        seq![
            BranchMenuItem::Checkout,
            BranchMenuItem::Merge,
            BranchMenuItem::Rebase,
            BranchMenuItem::InteractiveRebase,
            BranchMenuItem::Separator,
            BranchMenuItem::Delete,
        ]
    }
}

/// The context menu of a branch row.
pub fn branch_menu(is_head: bool, is_remote: bool) -> (r: Vec<BranchMenuItem>)
    ensures
        r@ == branch_menu_items(is_head, is_remote),
{
    let mut v: Vec<BranchMenuItem> = Vec::new();
    if is_head {
        return v;
    }
    if is_remote {
        v.push(BranchMenuItem::CheckoutRemote);
        v.push(BranchMenuItem::Merge);
        v.push(BranchMenuItem::Rebase);
    } else {
        v.push(BranchMenuItem::Checkout);
        v.push(BranchMenuItem::Merge);
        v.push(BranchMenuItem::Rebase);
        v.push(BranchMenuItem::InteractiveRebase);
        v.push(BranchMenuItem::Separator);
        v.push(BranchMenuItem::Delete);
    }
    assert(v@ =~= branch_menu_items(is_head, is_remote));
    v
}

/// The label of a context menu entry.
pub open spec fn menu_label(i: BranchMenuItem) -> Seq<char> {
    match i {
        BranchMenuItem::Checkout => "切换到此分支"@,
        BranchMenuItem::CheckoutRemote => "切到此远程分支（创建本地副本）"@,
        BranchMenuItem::Merge => "合并到当前 HEAD（--no-ff）"@,
        BranchMenuItem::Rebase => "Rebase 当前 HEAD 到此分支"@,
        BranchMenuItem::InteractiveRebase => "交互式 Rebase（编辑 commit 序列）"@,
        BranchMenuItem::Separator => ""@,
        BranchMenuItem::Delete => "删除分支"@,
    }
}

impl BranchMenuItem {
    /// The label of the entry (empty for a divider).
    pub fn label(self) -> (r: &'static str)
        ensures
            r@ == menu_label(self),
    {
        match self {
            BranchMenuItem::Checkout => "切换到此分支",
            BranchMenuItem::CheckoutRemote => "切到此远程分支（创建本地副本）",
            BranchMenuItem::Merge => "合并到当前 HEAD（--no-ff）",
            BranchMenuItem::Rebase => "Rebase 当前 HEAD 到此分支",
            BranchMenuItem::InteractiveRebase => "交互式 Rebase（编辑 commit 序列）",
            BranchMenuItem::Separator => "",
            BranchMenuItem::Delete => "删除分支",
        }
    }
}

/// The question asked before a local branch is deleted.
pub open spec fn delete_branch_text(name: Seq<char>) -> Seq<char> {
    "将删除本地分支「"@ + name + "」（仅当已合并；未合并会报错）。\n确认继续吗？"@
}

/// The text of the dialog that confirms deleting branch `name`.
pub fn delete_branch_prompt(name: &str) -> (r: String)
    ensures
        r@ == delete_branch_text(name@),
{
    let mut v: Vec<char> = Vec::new();
    push_str(&mut v, "将删除本地分支「");
    push_str(&mut v, name);
    push_str(&mut v, "」（仅当已合并；未合并会报错）。\n确认继续吗？");
    string_of(v.as_slice())
}

} // verus!
