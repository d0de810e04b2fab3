use ramag_tools::diff::{
    build_patch_for_hunk, is_one_sided, plan_hunk_revert, revert_error, split_max_chars,
    DiffHunk, DiffLine, DiffLineKind, FileDiff, GroupKind, HunkRevert,
};

fn line(kind: DiffLineKind, t: &str) -> DiffLine {
    DiffLine { kind, text: t.to_string() }
}

fn sample() -> FileDiff {
    FileDiff {
        path: "src/a.rs".into(),
        hunks: vec![
            DiffHunk {
                lines: vec![
                    line(DiffLineKind::Context, "fn a() {"),
                    line(DiffLineKind::Delete, "    old();"),
                    line(DiffLineKind::Add, "    brand_new();"),
                ],
            },
            DiffHunk { lines: vec![line(DiffLineKind::Add, "中文")] },
        ],
    }
}

#[test]
fn widths_of_the_two_sides() {
    assert_eq!(split_max_chars(&sample()), (10, 16));
    assert_eq!(split_max_chars(&FileDiff { path: "x".into(), hunks: vec![] }), (0, 0));
}

#[test]
fn one_sided_diffs() {
    assert!(!is_one_sided(&sample()));
    let adds = FileDiff { path: "n".into(), hunks: vec![DiffHunk { lines: vec![line(DiffLineKind::Add, "x")] }] };
    assert!(is_one_sided(&adds));
    let ctx = FileDiff { path: "c".into(), hunks: vec![DiffHunk { lines: vec![line(DiffLineKind::Context, "x")] }] };
    assert!(!is_one_sided(&ctx));
    assert!(is_one_sided(&FileDiff { path: "e".into(), hunks: vec![] }));
}

#[test]
fn patch_of_one_hunk() {
    let p = build_patch_for_hunk(&sample(), 0).unwrap();
    assert_eq!(
        p,
        "diff --git a/src/a.rs b/src/a.rs\n--- a/src/a.rs\n+++ b/src/a.rs\n@@ -1,1 +1,1 @@\n fn a() {\n-    old();\n+    brand_new();\n"
    );
    assert!(build_patch_for_hunk(&sample(), 2).is_none());
}

#[test]
fn revert_plans() {
    let d = sample();
    let (w, p) = plan_hunk_revert(Some(GroupKind::Staged), &d, 1).unwrap();
    assert_eq!(w, HunkRevert::Unstage);
    assert!(p.ends_with("+中文\n"));
    assert_eq!(plan_hunk_revert(Some(GroupKind::Unstaged), &d, 0).unwrap().0, HunkRevert::Discard);
    assert_eq!(plan_hunk_revert(None, &d, 0).unwrap_err(), "当前不是 Changes diff，无法回滚");
    assert_eq!(
        plan_hunk_revert(Some(GroupKind::Untracked), &d, 0).unwrap_err(),
        "此类文件不支持 hunk 回滚"
    );
    assert_eq!(plan_hunk_revert(Some(GroupKind::Staged), &d, 9).unwrap_err(), "hunk 索引越界");
    assert_eq!(revert_error(GroupKind::Staged, "e"), "撤回 hunk 到工作区 失败：e");
    assert_eq!(revert_error(GroupKind::Conflict, "e"), "回滚 hunk 失败：e");
}
