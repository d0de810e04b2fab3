//! File diffs: the widths of the two sides of a split view, whether a diff
//! has only one side, and the patch that reverts one hunk.

use vstd::prelude::*;

use crate::text::{chars_of, is_some_text, push_str, string_of};

verus! {

/// The kind of a diff line.
#[derive(Debug, Clone, Copy, PartialEq, Eq, Structural)]
pub enum DiffLineKind {
    Context,
    Add,
    Delete,
}

/// One line of a hunk.
#[derive(Debug)]
pub struct DiffLine {
    pub kind: DiffLineKind,
    pub text: String,
}

/// One hunk of a diff.
#[derive(Debug)]
pub struct DiffHunk {
    pub lines: Vec<DiffLine>,
}

/// The diff of one file.
#[derive(Debug)]
pub struct FileDiff {
    pub path: String,
    pub hunks: Vec<DiffHunk>,
}

/// All lines of a diff, hunk after hunk.
pub open spec fn all_lines(hs: Seq<DiffHunk>) -> Seq<DiffLine>
    decreases hs.len(),
{
    if hs.len() == 0 {
        Seq::empty()
    } else {
        all_lines(hs.drop_last()) + hs.last().lines@
    }
}

/// The larger of two numbers.
pub open spec fn max_nat(a: nat, b: nat) -> nat {
    if a >= b {
        a
    } else {
        b
    }
}

/// The longest old-side and new-side lines (in characters) among `ls`:
/// deleted lines count for the old side, added ones for the new side,
/// context lines for both.
pub open spec fn side_widths(ls: Seq<DiffLine>) -> (nat, nat)
    decreases ls.len(),
{
    if ls.len() == 0 {
        (0, 0)
    } else {
        let (o, n) = side_widths(ls.drop_last());
        let l = ls.last();
        let w = l.text@.len();
        match l.kind {
            DiffLineKind::Delete => (max_nat(o, w), n),
            DiffLineKind::Add => (o, max_nat(n, w)),
            DiffLineKind::Context => (max_nat(o, w), max_nat(n, w)),
        }
    }
}

/// The longest line of each side of a diff, in characters.
pub fn split_max_chars(diff: &FileDiff) -> (r: (usize, usize))
    ensures
        (r.0 as nat, r.1 as nat) == side_widths(all_lines(diff.hunks@)),
{
    let ghost hs = diff.hunks@;
    let mut max_old: usize = 0;
    let mut max_new: usize = 0;
    let mut h: usize = 0;
    proof {
        assert(hs.take(0) =~= Seq::<DiffHunk>::empty());
    }
    while h < diff.hunks.len()
        invariant
            h <= hs.len(),
            hs == diff.hunks@,
            (max_old as nat, max_new as nat) == side_widths(all_lines(hs.take(h as int))),
        decreases hs.len() - h,
    {
        let lines = &diff.hunks[h].lines;
        let ghost pre = all_lines(hs.take(h as int));
        proof {
            assert(hs.take(h + 1).drop_last() =~= hs.take(h as int));
            assert(hs.take(h + 1).last() == hs[h as int]);
            assert(pre + lines@.take(0) =~= pre);
        }
        let mut i: usize = 0;
        while i < lines.len()
            invariant
                i <= lines@.len(),
                (max_old as nat, max_new as nat) == side_widths(pre + lines@.take(i as int)),
            decreases lines@.len() - i,
        {
            proof {
                assert((pre + lines@.take(i + 1)).drop_last() =~= pre + lines@.take(i as int));
                assert((pre + lines@.take(i + 1)).last() == lines@[i as int]);
            }
            let n = chars_of(lines[i].text.as_str()).len();
            match lines[i].kind {
                DiffLineKind::Delete => {
                    if n > max_old {
                        max_old = n;
                    }
                },
                DiffLineKind::Add => {
                    if n > max_new {
                        max_new = n;
                    }
                },
                DiffLineKind::Context => {
                    if n > max_old {
                        max_old = n;
                    }
                    if n > max_new {
                        max_new = n;
                    }
                },
            }
            i += 1;
        }
        proof {
            assert(lines@.take(lines@.len() as int) =~= lines@);
        }
        h += 1;
    }
    proof {
        assert(hs.take(hs.len() as int) =~= hs);
    }
    (max_old, max_new)
}

/// Whether the lines have an old side (deleted or context lines) and a new
/// side (added or context lines).
pub open spec fn has_old(ls: Seq<DiffLine>) -> bool {
    exists|i: int| 0 <= i < ls.len() && ls[i].kind != DiffLineKind::Add
}

/// See [`has_old`].
pub open spec fn has_new(ls: Seq<DiffLine>) -> bool {
    exists|i: int| 0 <= i < ls.len() && ls[i].kind != DiffLineKind::Delete
}

/// Whether a diff only adds or only deletes (then one side of a split view
/// would stay blank).
pub fn is_one_sided(diff: &FileDiff) -> (r: bool)
    ensures
        r == !(has_old(all_lines(diff.hunks@)) && has_new(all_lines(diff.hunks@))),
{
    let ghost hs = diff.hunks@;
    let mut old_side = false;
    let mut new_side = false;
    let mut h: usize = 0;
    proof {
        assert(hs.take(0) =~= Seq::<DiffHunk>::empty());
    }
    while h < diff.hunks.len()
        invariant
            h <= hs.len(),
            hs == diff.hunks@,
            old_side == has_old(all_lines(hs.take(h as int))),
            new_side == has_new(all_lines(hs.take(h as int))),
        decreases hs.len() - h,
    {
        let lines = &diff.hunks[h].lines;
        let ghost pre = all_lines(hs.take(h as int));
        proof {
            assert(hs.take(h + 1).drop_last() =~= hs.take(h as int));
            assert(hs.take(h + 1).last() == hs[h as int]);
            assert(pre + lines@.take(0) =~= pre);
        }
        let mut i: usize = 0;
        while i < lines.len()
            invariant
                i <= lines@.len(),
                old_side == has_old(pre + lines@.take(i as int)),
                new_side == has_new(pre + lines@.take(i as int)),
            decreases lines@.len() - i,
        {
            let ghost a = pre + lines@.take(i as int);
            let ghost b = pre + lines@.take(i + 1);
            proof {
                assert(b =~= a.push(lines@[i as int]));
            }
            match lines[i].kind {
                DiffLineKind::Delete => {
                    old_side = true;
                },
                DiffLineKind::Add => {
                    new_side = true;
                },
                DiffLineKind::Context => {
                    old_side = true;
                    new_side = true;
                },
            }
            proof {
                if old_side {
                    if !has_old(a) {
                        assert(b[a.len() as int].kind != DiffLineKind::Add);
                    }
                }
                if new_side {
                    if !has_new(a) {
                        assert(b[a.len() as int].kind != DiffLineKind::Delete);
                    }
                }
                if has_old(b) && !has_old(a) {
                    let k = choose|k: int| 0 <= k < b.len() && b[k].kind != DiffLineKind::Add;
                    if k < a.len() {
                        assert(a[k] == b[k]);
                    }
                }
                if has_new(b) && !has_new(a) {
                    let k = choose|k: int| 0 <= k < b.len() && b[k].kind != DiffLineKind::Delete;
                    if k < a.len() {
                        assert(a[k] == b[k]);
                    }
                }
                if has_old(a) {
                    let k = choose|k: int| 0 <= k < a.len() && a[k].kind != DiffLineKind::Add;
                    assert(b[k] == a[k]);
                }
                if has_new(a) {
                    let k = choose|k: int| 0 <= k < a.len() && a[k].kind != DiffLineKind::Delete;
                    assert(b[k] == a[k]);
                }
            }
            i += 1;
        }
        proof {
            assert(lines@.take(lines@.len() as int) =~= lines@);
        }
        h += 1;
    }
    proof {
        assert(hs.take(hs.len() as int) =~= hs);
    }
    !(old_side && new_side)
}

/// The marker of a line in a patch.
pub open spec fn marker(k: DiffLineKind) -> Seq<char> {
    match k {
        DiffLineKind::Context => " "@,
        DiffLineKind::Add => "+"@,
        DiffLineKind::Delete => "-"@,
    }
}

/// The body lines of a patch, each with its marker and a line break.
pub open spec fn patch_body(ls: Seq<DiffLine>) -> Seq<char>
    decreases ls.len(),
{
    if ls.len() == 0 {
        Seq::empty()
    } else {
        patch_body(ls.drop_last()) + marker(ls.last().kind) + ls.last().text@ + "\n"@
    }
}

/// The unified patch of one hunk of the file at `path`, with a placeholder
/// hunk header (`git apply --recount` fixes the counts).
pub open spec fn hunk_patch(path: Seq<char>, ls: Seq<DiffLine>) -> Seq<char> {
    "diff --git a/"@ + path + " b/"@ + path + "\n"@ + "--- a/"@ + path + "\n"@ + "+++ b/"@ + path
        + "\n"@ + "@@ -1,1 +1,1 @@\n"@ + patch_body(ls)
}

/// The patch of hunk `hunk_idx` of `diff`, used to revert it; `None` when
/// there is no such hunk.
pub fn build_patch_for_hunk(diff: &FileDiff, hunk_idx: usize) -> (r: Option<String>)
    ensures
        hunk_idx >= diff.hunks@.len() ==> r is None,
        hunk_idx < diff.hunks@.len() ==> is_some_text(
            r,
            hunk_patch(diff.path@, diff.hunks@[hunk_idx as int].lines@),
        ),
{
    if hunk_idx >= diff.hunks.len() {
        return None;
    }
    let lines = &diff.hunks[hunk_idx].lines;
    let path = diff.path.as_str();
    let mut out: Vec<char> = Vec::new();
    push_str(&mut out, "diff --git a/");
    push_str(&mut out, path);
    push_str(&mut out, " b/");
    push_str(&mut out, path);
    push_str(&mut out, "\n");
    push_str(&mut out, "--- a/");
    push_str(&mut out, path);
    push_str(&mut out, "\n");
    push_str(&mut out, "+++ b/");
    push_str(&mut out, path);
    push_str(&mut out, "\n");
    push_str(&mut out, "@@ -1,1 +1,1 @@\n");
    let ghost head = out@;
    let mut i: usize = 0;
    proof {
        assert(lines@.take(0) =~= Seq::<DiffLine>::empty());
        assert(head + patch_body(lines@.take(0)) =~= head);
    }
    while i < lines.len()
        invariant
            i <= lines@.len(),
            out@ == head + patch_body(lines@.take(i as int)),
        decreases lines@.len() - i,
    {
        proof {
            assert(lines@.take(i + 1).drop_last() =~= lines@.take(i as int));
            assert(lines@.take(i + 1).last() == lines@[i as int]);
        }
        match lines[i].kind {
            DiffLineKind::Context => push_str(&mut out, " "),
            DiffLineKind::Add => push_str(&mut out, "+"),
            DiffLineKind::Delete => push_str(&mut out, "-"),
        }
        push_str(&mut out, lines[i].text.as_str());
        push_str(&mut out, "\n");
        proof {
            assert(out@ =~= head + patch_body(lines@.take(i + 1)));
        }
        i += 1;
    }
    proof {
        assert(lines@.take(lines@.len() as int) =~= lines@);
        assert(out@ =~= hunk_patch(diff.path@, lines@));
    }
    Some(string_of(out.as_slice()))
}

// ===== Reverting a hunk =====

/// The group a changed file is listed in.
#[derive(Debug, Clone, Copy, PartialEq, Eq, Structural)]
pub enum GroupKind {
    Staged,
    Unstaged,
    Untracked,
    Conflict,
}

/// How a hunk is reverted.
#[derive(Debug, Clone, Copy, PartialEq, Eq, Structural)]
pub enum HunkRevert {
    /// A staged hunk goes back to the work tree (`git apply --cached --reverse`).
    Unstage,
    /// An unstaged hunk is dropped from the work tree (`git apply --reverse`).
    Discard,
}

/// What reverting hunk `hunk_idx` does, given the group of the file on show
/// (`None` when the diff on show is not a local change): the way and the
/// patch, or why not.
pub open spec fn revert_plan(source: Option<GroupKind>, path: Seq<char>, hunks: Seq<DiffHunk>, hunk_idx: nat) -> Result<(HunkRevert, Seq<char>), Seq<char>> {
    match source {
        None => Err("当前不是 Changes diff，无法回滚"@),
        Some(k) => if k != GroupKind::Staged && k != GroupKind::Unstaged {
            Err("此类文件不支持 hunk 回滚"@)
        } else if hunk_idx >= hunks.len() {
            Err("hunk 索引越界"@)
        } else {
            Ok(
                (
                    if k == GroupKind::Staged {
                        HunkRevert::Unstage
                    } else {
                        HunkRevert::Discard
                    },
                    hunk_patch(path, hunks[hunk_idx as int].lines@),
                ),
            )
        },
    }
}

/// Plans the revert of one hunk.
pub fn plan_hunk_revert(source: Option<GroupKind>, diff: &FileDiff, hunk_idx: usize) -> (r: Result<
    (HunkRevert, String),
    String,
>)
    ensures
        match r {
            Ok((w, p)) => revert_plan(source, diff.path@, diff.hunks@, hunk_idx as nat) == Ok::<
                (HunkRevert, Seq<char>),
                Seq<char>,
            >((w, p@)),
            Err(e) => revert_plan(source, diff.path@, diff.hunks@, hunk_idx as nat) == Err::<
                (HunkRevert, Seq<char>),
                Seq<char>,
            >(e@),
        },
{
    let k = match source {
        None => return Err(String::from_str("当前不是 Changes diff，无法回滚")),
        Some(k) => k,
    };
    if k != GroupKind::Staged && k != GroupKind::Unstaged {
        return Err(String::from_str("此类文件不支持 hunk 回滚"));
    }
    let patch = match build_patch_for_hunk(diff, hunk_idx) {
        Some(p) => p,
        None => return Err(String::from_str("hunk 索引越界")),
    };
    let way = if k == GroupKind::Staged {
        HunkRevert::Unstage
    } else {
        HunkRevert::Discard
    };
    Ok((way, patch))
}

/// The message of a failed revert.
pub open spec fn revert_error_text(k: GroupKind, e: Seq<char>) -> Seq<char> {
    (match k {
        GroupKind::Staged => "撤回 hunk 到工作区"@,
        GroupKind::Unstaged => "回滚 hunk 到 index"@,
        _ => "回滚 hunk"@,
    }) + " 失败："@ + e
}

/// The message shown when reverting a hunk of group `k` failed with `e`.
pub fn revert_error(k: GroupKind, e: &str) -> (r: String)
    ensures
        r@ == revert_error_text(k, e@),
{
    let mut v: Vec<char> = Vec::new();
    match k {
        GroupKind::Staged => push_str(&mut v, "撤回 hunk 到工作区"),
        GroupKind::Unstaged => push_str(&mut v, "回滚 hunk 到 index"),
        _ => push_str(&mut v, "回滚 hunk"),
    }
    push_str(&mut v, " 失败：");
    push_str(&mut v, e);
    string_of(v.as_slice())
}

} // verus!
