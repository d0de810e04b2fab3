use ramag_tools::diff::GroupKind;
use ramag_tools::vcs_files::{
    access_error, content_failure, content_from_bytes, finalize_file_snapshot, is_truncated,
    not_regular_error, read_error, tab_focus, FileTab, FileTabSource, FileTabs, ShownData,
    PF_FILE_MAX_BYTES,
};

#[test]
fn content_lines_and_binary_detection() {
    let c = content_from_bytes("a.txt", b"one\ntwo\n", false);
    assert_eq!(c.lines, vec!["one", "two", ""]);
    assert!(!c.binary && !c.truncated && c.error.is_none());
    let b = content_from_bytes("b.bin", &[1, 2, 0, 3], true);
    assert!(b.binary && b.lines.is_empty() && !b.truncated);
    let mut late = vec![b'a'; 9000];
    late[8500] = 0;
    assert!(!content_from_bytes("c", &late, false).binary);
    let lossy = content_from_bytes("d", &[0x66, 0xff, 0x67], true);
    assert_eq!(lossy.lines, vec!["f\u{fffd}g"]);
    assert!(lossy.truncated);
    assert!(is_truncated(PF_FILE_MAX_BYTES + 1) && !is_truncated(PF_FILE_MAX_BYTES));
}

#[test]
fn failures_and_snapshot() {
    assert_eq!(access_error("denied"), "无法访问文件: denied");
    assert_eq!(read_error("eof"), "读取文件失败: eof");
    assert_eq!(not_regular_error(), "不是普通文件（可能是软链接 / 设备文件）");
    let f = content_failure("x", read_error("eof"));
    assert!(f.lines.is_empty());
    let snap = finalize_file_snapshot(content_from_bytes("e", "ab\n中文字\nx".as_bytes(), false));
    assert_eq!(snap.max_chars, 3);
    assert_eq!(finalize_file_snapshot(f).max_chars, 0);
}

fn tab(path: &str, source: FileTabSource) -> FileTab {
    FileTab { path: path.into(), source, cached_diff: None, cached_content: None }
}

#[test]
fn closing_file_tabs() {
    let mut t = FileTabs::new();
    t.tabs.push(tab("a", FileTabSource::Changes(GroupKind::Staged)));
    t.tabs.push(tab("b", FileTabSource::ProjectFiles));
    t.tabs.push(tab("c", FileTabSource::Commit { commit_id: "abc".into(), change_kind: None }));
    let f = t.activate(2);
    assert_eq!(f.selected_commit_file.as_deref(), Some("c"));
    assert!(f.loading_diff);
    let f = t.close_file_tab(2).unwrap();
    assert_eq!(t.active, Some(1));
    assert_eq!(f.shown, ShownData::Content);
    assert_eq!(f.selected_pf_path.as_deref(), Some("b"));
    assert!(t.close_file_tab(7).is_none());
    assert_eq!(t.tabs.len(), 2);
    let f = t.close_file_tab(0).unwrap();
    assert_eq!(t.active, Some(0));
    assert!(f.loading_file_content);
    assert!(t.close_file_tab(0).is_none());
    assert_eq!(t.active, None);
    let f = tab_focus(&tab("u", FileTabSource::Changes(GroupKind::Untracked)));
    assert!(!f.loading_diff);
    assert_eq!(f.selected_file.map(|x| x.1), Some(GroupKind::Untracked));
}
