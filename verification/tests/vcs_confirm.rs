use ramag_tools::vcs_confirm::{
    branch_step, checkout_dirty_prompt, commit_confirm, file_op_confirm, op_step_confirm,
    remote_admin_confirm, remote_op_confirm, stash_op_confirm, tag_op_confirm, BranchOp,
    BranchStep, FileOp, OperationStep, RemoteAdminOp, RemoteOp, RepoOperation, StashOp, TagOp,
};

#[test]
fn only_destructive_steps_ask() {
    assert!(file_op_confirm(FileOp::Stage, "a").is_none());
    let c = file_op_confirm(FileOp::Discard, "a.rs").unwrap();
    assert_eq!(c.title, "丢弃工作区改动？");
    assert_eq!(c.desc, "将丢弃「a.rs」在工作区的全部未暂存改动，且无法恢复。\n确认继续吗？");
    assert!(c.danger);
    assert!(remote_op_confirm(RemoteOp::Push).is_none());
    assert_eq!(remote_op_confirm(RemoteOp::PushForce).unwrap().button, "强推");
    assert!(commit_confirm(false).is_none());
    assert!(!commit_confirm(true).unwrap().danger);
    assert!(op_step_confirm(OperationStep::Continue, None).is_none());
    assert_eq!(
        op_step_confirm(OperationStep::Abort, Some(RepoOperation::CherryPick)).unwrap().desc,
        "将中止进行中的「Cherry-pick」并回到操作前的状态。\n已解决一半的冲突会被丢弃，无法恢复。"
    );
    assert!(op_step_confirm(OperationStep::Abort, None).unwrap().desc.contains("「当前操作」"));
}

#[test]
fn stash_and_tag_dialogs() {
    let msgs = vec!["WIP on main".to_string()];
    assert!(stash_op_confirm(StashOp::Pop(0), &msgs).is_none());
    assert_eq!(
        stash_op_confirm(StashOp::Drop(0), &msgs).unwrap().desc,
        "将永久删除 stash「WIP on main」，无法恢复。\n确认继续吗？"
    );
    assert!(stash_op_confirm(StashOp::Drop(3), &msgs).unwrap().desc.contains("stash@{3}"));
    assert!(tag_op_confirm(&TagOp::Create { name: "v1".into(), message: None }).is_none());
    assert_eq!(tag_op_confirm(&TagOp::Push("v1".into())).unwrap().button, "推送");
    assert!(tag_op_confirm(&TagOp::Delete("v1".into())).unwrap().danger);
    assert!(remote_admin_confirm(&RemoteAdminOp::Add("o".into(), "u".into())).is_none());
    assert_eq!(
        remote_admin_confirm(&RemoteAdminOp::Remove("o".into())).unwrap().desc,
        "将删除 remote「o」配置（不影响远程仓库本身）。\n确认继续吗？"
    );
}

#[test]
fn branch_steps() {
    let clean = vec![(false, false)];
    let dirty = vec![(false, false), (false, true)];
    assert!(matches!(branch_step(&BranchOp::Checkout("dev".into()), &clean), BranchStep::Run));
    match branch_step(&BranchOp::Checkout("dev".into()), &dirty) {
        BranchStep::DirtyCheckout(t) => assert_eq!(t, "dev"),
        _ => panic!("expected the dirty dialog"),
    }
    assert!(matches!(branch_step(&BranchOp::Create("x".into(), None), &dirty), BranchStep::Run));
    match branch_step(&BranchOp::Delete("x".into(), true), &clean) {
        BranchStep::Ask(c) => {
            assert_eq!(c.title, "强制删除分支？");
            assert_eq!(c.button, "强制删除");
        }
        _ => panic!("expected a dialog"),
    }
    match branch_step(&BranchOp::Rebase("main".into()), &clean) {
        BranchStep::Ask(c) => assert!(c.desc.starts_with("将当前分支 rebase 到「main」上：\n- 改写")),
        _ => panic!("expected a dialog"),
    }
    assert!(checkout_dirty_prompt("dev").starts_with("切换到「dev」会与当前未提交的改动冲突"));
}
