use ramag_tools::vcs_confirm::RemoteOp;
use ramag_tools::vcs_ops::{
    commit_message, failure_text, head_badge, log_query, merge_history_page, plan_remote_op,
    remote_display_url, remote_op_failure, stash_label, sync_labels, tag_detail, tag_kind_label,
    TagKind, HISTORY_PAGE_SIZE,
};

#[test]
fn sync_plans() {
    let p = plan_remote_op(RemoteOp::Pull, Some("main"), Some("upstream/release/1")).unwrap();
    assert_eq!((p.remote.as_str(), p.remote_branch.as_str()), ("upstream", "release/1"));
    assert!(!p.set_upstream && !p.force_lease);
    let p = plan_remote_op(RemoteOp::PushForce, Some("dev"), None).unwrap();
    assert_eq!((p.remote.as_str(), p.remote_branch.as_str(), p.local_branch.as_str()), ("origin", "dev", "dev"));
    assert!(p.set_upstream && p.force_lease);
    assert_eq!(
        plan_remote_op(RemoteOp::Pull, Some("dev"), None).unwrap_err(),
        "当前分支没有上游分支：先点 Push（会自动设置 upstream）再 Pull"
    );
    assert_eq!(
        plan_remote_op(RemoteOp::Fetch, None, None).unwrap_err(),
        "当前为 detached HEAD，无法 push/pull"
    );
    let p = plan_remote_op(RemoteOp::Push, Some("x"), Some("noslash")).unwrap();
    assert_eq!(p.remote, "origin");
    assert_eq!(remote_op_failure(RemoteOp::PushForce, "e"), "PushForce 失败：e");
}

#[test]
fn history_pages() {
    let q = log_query("  bug @bob 2d ", 100, Some("src".into()));
    assert_eq!((q.skip, q.limit), (100, HISTORY_PAGE_SIZE));
    assert_eq!(q.grep.as_deref(), Some("bug"));
    assert_eq!(q.author.as_deref(), Some("bob"));
    assert_eq!(q.since.as_deref(), Some("2 days ago"));
    assert_eq!(q.path_filter.as_deref(), Some("src"));
    let mut list = vec![1, 2];
    assert!(!merge_history_page(&mut list, vec![3], 2));
    assert_eq!(list, vec![1, 2, 3]);
    assert!(merge_history_page(&mut list, (0..100).collect(), 0));
    assert_eq!(list.len(), 100);
}

#[test]
fn commit_and_labels() {
    assert_eq!(commit_message("  fix  ", false).unwrap(), "fix");
    assert_eq!(commit_message("  ", false).unwrap_err(), "commit message 不能为空");
    assert_eq!(commit_message("  ", true).unwrap(), "");
    let (b, up, down) = head_badge(None, Some(2), None);
    assert_eq!((b.as_str(), up.as_deref(), down), ("(detached)", Some("↑2"), None));
    assert_eq!(sync_labels(0, 4), ("Pull ↓4".to_string(), "Push".to_string()));
    assert_eq!(remote_display_url("https://a", Some("ssh://b")), "https://a (push: ssh://b)");
    assert_eq!(remote_display_url("https://a", None), "https://a");
    assert_eq!(tag_kind_label(TagKind::Annotated), "(A)");
    assert_eq!(tag_detail(None, "abc1234"), "abc1234");
    assert_eq!(stash_label(2), "stash@{2}");
    assert_eq!(failure_text("提交失败：", "x"), "提交失败：x");
}
