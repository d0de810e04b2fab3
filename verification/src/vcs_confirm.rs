//! Which Git operations ask before they run, and what they ask.

use vstd::prelude::*;

use crate::text::{dec, push_dec, push_str, string_of};

verus! {

/// A confirmation dialog: title, text, label of the confirm button, and
/// whether that button is marked dangerous.
#[derive(Debug)]
pub struct Confirm {
    pub title: String,
    pub desc: String,
    pub button: String,
    pub danger: bool,
}

/// A dialog as plain values.
pub type ConfirmView = (Seq<char>, Seq<char>, Seq<char>, bool);

/// The plain value of an optional dialog.
pub open spec fn confirm_view(c: Option<Confirm>) -> Option<ConfirmView> {
    match c {
        Some(x) => Some((x.title@, x.desc@, x.button@, x.danger)),
        None => None,
    }
}

/// `head`, `x`, `tail` as one string.
fn framed(head: &str, x: &str, tail: &str) -> (r: String)
    ensures
        r@ == head@ + x@ + tail@,
{
    let mut v: Vec<char> = Vec::new();
    push_str(&mut v, head);
    push_str(&mut v, x);
    push_str(&mut v, tail);
    string_of(v.as_slice())
}

/// A dialog.
fn dialog(title: &str, desc: String, button: &str, danger: bool) -> (r: Confirm)
    ensures
        r.title@ == title@,
        r.desc == desc,
        r.button@ == button@,
        r.danger == danger,
{
    Confirm { title: String::from_str(title), desc, button: String::from_str(button), danger }
}

// ===== Files =====

/// A write to one file.
#[derive(Debug, Clone, Copy, PartialEq, Eq, Structural)]
pub enum FileOp {
    Stage,
    Unstage,
    Discard,
}

/// Only discarding asks.
pub open spec fn file_op_dialog(op: FileOp, path: Seq<char>) -> Option<ConfirmView> {
    if op == FileOp::Discard {
        Some(
            (
                "丢弃工作区改动？"@,
                "将丢弃「"@ + path + "」在工作区的全部未暂存改动，且无法恢复。\n确认继续吗？"@,
                "丢弃"@,
                true,
            ),
        )
    } else {
        None
    }
}

/// The dialog before a file operation, if it asks.
pub fn file_op_confirm(op: FileOp, path: &str) -> (r: Option<Confirm>)
    ensures
        confirm_view(r) == file_op_dialog(op, path@),
{
    if op != FileOp::Discard {
        return None;
    }
    Some(
        dialog(
            "丢弃工作区改动？",
            framed("将丢弃「", path, "」在工作区的全部未暂存改动，且无法恢复。\n确认继续吗？"),
            "丢弃",
            true,
        ),
    )
}

// ===== Stashes =====

/// An operation on a stash, by position.
#[derive(Debug, Clone, Copy, PartialEq, Eq, Structural)]
pub enum StashOp {
    Apply(usize),
    Pop(usize),
    Drop(usize),
}

/// The name of stash `idx`: its message, or `stash@{idx}` when there is no such stash.
pub open spec fn stash_name(messages: Seq<Seq<char>>, idx: nat) -> Seq<char> {
    if idx < messages.len() {
        messages[idx as int]
    } else {
        "stash@{"@ + dec(idx) + "}"@
    }
}

/// Only dropping asks.
pub open spec fn stash_op_dialog(op: StashOp, messages: Seq<Seq<char>>) -> Option<ConfirmView> {
    match op {
        StashOp::Drop(i) => Some(
            (
                "删除 stash？"@,
                "将永久删除 stash「"@ + stash_name(messages, i as nat) + "」，无法恢复。\n确认继续吗？"@,
                "删除"@,
                true,
            ),
        ),
        _ => None,
    }
}

/// The dialog before a stash operation, if it asks; `messages` are the
/// messages of the stashes.
pub fn stash_op_confirm(op: StashOp, messages: &Vec<String>) -> (r: Option<Confirm>)
    ensures
        confirm_view(r) == stash_op_dialog(op, crate::text::str_views(messages@)),
{
    let idx = match op {
        StashOp::Drop(i) => i,
        _ => return None,
    };
    let mut v: Vec<char> = Vec::new();
    push_str(&mut v, "将永久删除 stash「");
    if idx < messages.len() {
        push_str(&mut v, messages[idx].as_str());
    } else {
        push_str(&mut v, "stash@{");
        push_dec(&mut v, idx as u64);
        push_str(&mut v, "}");
    }
    push_str(&mut v, "」，无法恢复。\n确认继续吗？");
    Some(dialog("删除 stash？", string_of(v.as_slice()), "删除", true))
}

// ===== Remote sync =====

/// A sync with the remote.
#[derive(Debug, Clone, Copy, PartialEq, Eq, Structural)]
pub enum RemoteOp {
    Fetch,
    Pull,
    Push,
    /// `git push --force-with-lease`.
    PushForce,
}

/// Only a forced push asks.
pub open spec fn remote_op_dialog(op: RemoteOp) -> Option<ConfirmView> {
    if op == RemoteOp::PushForce {
        Some(
            (
                "强制推送？"@,
                "git push --force-with-lease 会改写远程分支历史。\n仅当远程的 ref 仍指向你预期的 commit 时才覆盖（比 --force 安全），但仍可能让其他基于此分支工作的协作者丢失提交。\n确认继续吗？"@,
                "强推"@,
                true,
            ),
        )
    } else {
        None
    }
}

/// The dialog before a sync, if it asks.
pub fn remote_op_confirm(op: RemoteOp) -> (r: Option<Confirm>)
    ensures
        confirm_view(r) == remote_op_dialog(op),
{
    if op != RemoteOp::PushForce {
        return None;
    }
    Some(
        dialog(
            "强制推送？",
            String::from_str(
                "git push --force-with-lease 会改写远程分支历史。\n仅当远程的 ref 仍指向你预期的 commit 时才覆盖（比 --force 安全），但仍可能让其他基于此分支工作的协作者丢失提交。\n确认继续吗？",
            ),
            "强推",
            true,
        ),
    )
}

// ===== Branches =====

/// An operation on a branch.
#[derive(Debug)]
pub enum BranchOp {
    Checkout(String),
    /// A new branch, from a base or from `HEAD`; it is checked out.
    Create(String, Option<String>),
    /// Delete, forced or not.
    Delete(String, bool),
    /// Merge into `HEAD` (`--no-ff`).
    Merge(String),
    /// Rebase `HEAD` onto it.
    Rebase(String),
}

/// What a branch operation does first.
#[derive(Debug)]
pub enum BranchStep {
    /// Run it now.
    Run,
    /// Ask first.
    Ask(Confirm),
    /// The work tree has changes: offer to stash or discard them before the
    /// checkout of the named branch.
    DirtyCheckout(String),
}

/// The dialog of a branch operation that asks.
pub open spec fn branch_dialog(op: BranchOp) -> Option<ConfirmView> {
    match op {
        BranchOp::Delete(n, force) => if force {
            Some(
                (
                    "强制删除分支？"@,
                    "分支「"@ + n@ + "」可能还有未合并的提交，强制删除后这些提交不再可达，可能丢失。\n确认继续吗？"@,
                    "强制删除"@,
                    true,
                ),
            )
        } else {
            Some(
                (
                    "删除分支？"@,
                    "将删除本地分支「"@ + n@ + "」（仅当已合并；未合并会报错）。\n确认继续吗？"@,
                    "删除"@,
                    true,
                ),
            )
        },
        BranchOp::Merge(n) => Some(
            (
                "合并分支？"@,
                "将「"@ + n@ + "」合并到当前 HEAD（默认 --no-ff，建 merge commit）。\n有冲突时会进入合并进行中状态，需手动解决后再继续。"@,
                "合并"@,
                false,
            ),
        ),
        BranchOp::Rebase(n) => Some(
            (
                "Rebase 到目标分支？"@,
                "将当前分支 rebase 到「"@ + n@ + "」上：\n- 改写当前分支的 commit 历史\n- 已 push 的分支谨慎使用（推送时需要 --force-with-lease）\n有冲突时会进入 rebase 进行中状态。"@,
                "Rebase"@,
                false,
            ),
        ),
        _ => None,
    }
}

/// The work tree is dirty: some file has staged or unstaged changes
/// (untracked files do not stop a checkout).
pub open spec fn dirty(files: Seq<(bool, bool)>) -> bool {
    exists|i: int| 0 <= i < files.len() && (files[i].0 || files[i].1)
}

/// A checkout with changes in the work tree offers to set them aside; a
/// clean one and a new branch run at once; the others ask.
pub open spec fn branch_step_ok(op: BranchOp, files: Seq<(bool, bool)>, r: BranchStep) -> bool {
    match op {
        BranchOp::Checkout(n) => if dirty(files) {
            r matches BranchStep::DirtyCheckout(t) && t@ == n@
        } else {
            r is Run
        },
        BranchOp::Create(_, _) => r is Run,
        _ => r matches BranchStep::Ask(c) && confirm_view(Some(c)) == branch_dialog(op),
    }
}

/// Decides what a branch operation does first; `files` tells for each file
/// whether it has staged and unstaged changes.
pub fn branch_step(op: &BranchOp, files: &Vec<(bool, bool)>) -> (r: BranchStep)
    ensures
        branch_step_ok(*op, files@, r),
{
    match op {
        BranchOp::Delete(n, force) => {
            if *force {
                BranchStep::Ask(
                    dialog(
                        "强制删除分支？",
                        framed(
                            "分支「",
                            n.as_str(),
                            "」可能还有未合并的提交，强制删除后这些提交不再可达，可能丢失。\n确认继续吗？",
                        ),
                        "强制删除",
                        true,
                    ),
                )
            } else {
                BranchStep::Ask(
                    dialog(
                        "删除分支？",
                        framed(
                            "将删除本地分支「",
                            n.as_str(),
                            "」（仅当已合并；未合并会报错）。\n确认继续吗？",
                        ),
                        "删除",
                        true,
                    ),
                )
            }
        },
        BranchOp::Merge(n) => BranchStep::Ask(
            dialog(
                "合并分支？",
                framed(
                    "将「",
                    n.as_str(),
                    "」合并到当前 HEAD（默认 --no-ff，建 merge commit）。\n有冲突时会进入合并进行中状态，需手动解决后再继续。",
                ),
                "合并",
                false,
            ),
        ),
        BranchOp::Rebase(n) => BranchStep::Ask(
            dialog(
                "Rebase 到目标分支？",
                framed(
                    "将当前分支 rebase 到「",
                    n.as_str(),
                    "」上：\n- 改写当前分支的 commit 历史\n- 已 push 的分支谨慎使用（推送时需要 --force-with-lease）\n有冲突时会进入 rebase 进行中状态。",
                ),
                "Rebase",
                false,
            ),
        ),
        BranchOp::Checkout(n) => {
            let mut i: usize = 0;
            while i < files.len()
                invariant
                    i <= files@.len(),
                    *op matches BranchOp::Checkout(m) && m@ == n@,
                    forall|j: int| 0 <= j < i ==> !(files@[j].0 || files@[j].1),
                decreases files@.len() - i,
            {
                if files[i].0 || files[i].1 {
                    assert(files@[i as int].0 || files@[i as int].1);
                    let t = String::from_str(n.as_str());
                    return BranchStep::DirtyCheckout(t);
                }
                i += 1;
            }
            BranchStep::Run
        },
        BranchOp::Create(_, _) => BranchStep::Run,
    }
}

/// The text of the dialog offered when a checkout meets uncommitted changes.
pub open spec fn checkout_dirty_text(target: Seq<char>) -> Seq<char> {
    "切换到「"@ + target + "」会与当前未提交的改动冲突，git 会拒绝切换。\n\n- 「Stash 后切换」：把当前改动暂存到 stash 列表，切换后可在 Stash 面板恢复\n- 「丢弃后切换」：直接丢弃所有未暂存 / 已暂存改动（不可恢复）"@
}

/// The text of the dirty-checkout dialog.
pub fn checkout_dirty_prompt(target: &str) -> (r: String)
    ensures
        r@ == checkout_dirty_text(target@),
{
    framed(
        "切换到「",
        target,
        "」会与当前未提交的改动冲突，git 会拒绝切换。\n\n- 「Stash 后切换」：把当前改动暂存到 stash 列表，切换后可在 Stash 面板恢复\n- 「丢弃后切换」：直接丢弃所有未暂存 / 已暂存改动（不可恢复）",
    )
}

// ===== Tags =====

/// An operation on a tag.
#[derive(Debug)]
pub enum TagOp {
    /// A new tag; annotated when it has a message.
    Create { name: String, message: Option<String> },
    Delete(String),
    /// Push it to `origin`.
    Push(String),
}

/// Deleting and pushing a tag ask.
pub open spec fn tag_dialog(op: TagOp) -> Option<ConfirmView> {
    match op {
        TagOp::Delete(n) => Some(
            (
                "删除 tag？"@,
                "将删除本地 tag「"@ + n@ + "」。已推送的 tag 删除后远程仍存在。\n确认继续吗？"@,
                "删除"@,
                true,
            ),
        ),
        TagOp::Push(n) => Some(
            (
                "推送 tag 到远程？"@,
                "将把 tag「"@ + n@ + "」推送到 origin。\n推送后此 tag 对所有协作者可见。"@,
                "推送"@,
                false,
            ),
        ),
        TagOp::Create { .. } => None,
    }
}

/// The dialog before a tag operation, if it asks.
pub fn tag_op_confirm(op: &TagOp) -> (r: Option<Confirm>)
    ensures
        confirm_view(r) == tag_dialog(*op),
{
    match op {
        TagOp::Delete(n) => Some(
            dialog(
                "删除 tag？",
                framed("将删除本地 tag「", n.as_str(), "」。已推送的 tag 删除后远程仍存在。\n确认继续吗？"),
                "删除",
                true,
            ),
        ),
        TagOp::Push(n) => Some(
            dialog(
                "推送 tag 到远程？",
                framed("将把 tag「", n.as_str(), "」推送到 origin。\n推送后此 tag 对所有协作者可见。"),
                "推送",
                false,
            ),
        ),
        TagOp::Create { .. } => None,
    }
}

// ===== Remotes =====

/// A change to the configured remotes.
#[derive(Debug)]
pub enum RemoteAdminOp {
    Add(String, String),
    SetUrl(String, String),
    Remove(String),
}

/// Removing a remote asks.
pub open spec fn remote_admin_dialog(op: RemoteAdminOp) -> Option<ConfirmView> {
    match op {
        RemoteAdminOp::Remove(n) => Some(
            (
                "删除 remote？"@,
                "将删除 remote「"@ + n@ + "」配置（不影响远程仓库本身）。\n确认继续吗？"@,
                "删除"@,
                true,
            ),
        ),
        _ => None,
    }
}

/// The dialog before a remote change, if it asks.
pub fn remote_admin_confirm(op: &RemoteAdminOp) -> (r: Option<Confirm>)
    ensures
        confirm_view(r) == remote_admin_dialog(*op),
{
    match op {
        RemoteAdminOp::Remove(n) => Some(
            dialog(
                "删除 remote？",
                framed("将删除 remote「", n.as_str(), "」配置（不影响远程仓库本身）。\n确认继续吗？"),
                "删除",
                true,
            ),
        ),
        _ => None,
    }
}

// ===== Operations in progress =====

/// An operation in progress in the repository.
#[derive(Debug, Clone, Copy, PartialEq, Eq, Structural)]
pub enum RepoOperation {
    Merge,
    Rebase,
    CherryPick,
    Revert,
}

/// A step of an operation in progress.
#[derive(Debug, Clone, Copy, PartialEq, Eq, Structural)]
pub enum OperationStep {
    Continue,
    Abort,
    Skip,
}

/// The name of an operation in progress, or `当前操作` when unknown.
pub open spec fn operation_name(o: Option<RepoOperation>) -> Seq<char> {
    match o {
        Some(RepoOperation::Merge) => "合并"@,
        Some(RepoOperation::Rebase) => "Rebase"@,
        Some(RepoOperation::CherryPick) => "Cherry-pick"@,
        Some(RepoOperation::Revert) => "Revert"@,
        None => "当前操作"@,
    }
}

/// Only aborting asks.
pub open spec fn op_step_dialog(step: OperationStep, o: Option<RepoOperation>) -> Option<ConfirmView> {
    if step == OperationStep::Abort {
        Some(
            (
                "中止当前操作？"@,
                "将中止进行中的「"@ + operation_name(o) + "」并回到操作前的状态。\n已解决一半的冲突会被丢弃，无法恢复。"@,
                "中止"@,
                true,
            ),
        )
    } else {
        None
    }
}

/// The dialog before a step of the operation in progress `o`, if it asks.
pub fn op_step_confirm(step: OperationStep, o: Option<RepoOperation>) -> (r: Option<Confirm>)
    ensures
        confirm_view(r) == op_step_dialog(step, o),
{
    if step != OperationStep::Abort {
        return None;
    }
    let name = match o {
        Some(RepoOperation::Merge) => "合并",
        Some(RepoOperation::Rebase) => "Rebase",
        Some(RepoOperation::CherryPick) => "Cherry-pick",
        Some(RepoOperation::Revert) => "Revert",
        None => "当前操作",
    };
    Some(
        dialog(
            "中止当前操作？",
            framed("将中止进行中的「", name, "」并回到操作前的状态。\n已解决一半的冲突会被丢弃，无法恢复。"),
            "中止",
            true,
        ),
    )
}

// ===== Commit =====

/// Only an amend asks.
pub open spec fn commit_dialog(amend: bool) -> Option<ConfirmView> {
    if amend {
        Some(
            (
                "Amend 上一次提交？"@,
                "将用当前暂存区改动 + 新 message 替换最近一次 commit。\n如果该 commit 已经 push 到远程，再次推送需要 --force-with-lease。"@,
                "Amend 提交"@,
                false,
            ),
        )
    } else {
        None
    }
}

/// The dialog before a commit, if it asks.
pub fn commit_confirm(amend: bool) -> (r: Option<Confirm>)
    ensures
        confirm_view(r) == commit_dialog(amend),
{
    if !amend {
        return None;
    }
    Some(
        dialog(
            "Amend 上一次提交？",
            String::from_str(
                "将用当前暂存区改动 + 新 message 替换最近一次 commit。\n如果该 commit 已经 push 到远程，再次推送需要 --force-with-lease。",
            ),
            "Amend 提交",
            false,
        ),
    )
}

} // verus!
