use ramag_tools::key_tree::{KeyMeta, RedisType};
use ramag_tools::key_tree_view::{
    count_label, matches_query, scan_truncated, visible_key_count, KeySelection, KeyTreeView,
    MAX_KEYS,
};

fn meta(key: &str) -> KeyMeta {
    KeyMeta { key: key.to_string(), key_type: Some(RedisType::String), ttl_ms: None }
}

fn paths(v: &KeyTreeView) -> Vec<(usize, String, bool)> {
    v.flatten_visible().into_iter().map(|r| (r.depth, r.full_path, r.is_expanded)).collect()
}

#[test]
fn first_level_opens_on_first_build() {
    let mut v = KeyTreeView::new();
    v.rebuild_tree(&[meta("user:1:profile"), meta("user:2"), meta("plain")]);
    assert_eq!(v.expanded, vec!["user"]);
    assert_eq!(
        paths(&v),
        vec![
            (0, "user".to_string(), true),
            (1, "user:1".to_string(), false),
            (1, "user:2".to_string(), false),
            (0, "plain".to_string(), false),
        ]
    );
    v.toggle_expanded(&"user:1".to_string());
    assert_eq!(paths(&v)[2], (2, "user:1:profile".to_string(), false));
    v.toggle_expanded(&"user:1".to_string());
    assert_eq!(paths(&v).len(), 4);
    v.rebuild_tree(&[meta("a:b")]);
    assert_eq!(v.expanded, vec!["user"]);
}

#[test]
fn search_opens_matching_namespaces_only() {
    let mut v = KeyTreeView::new();
    v.rebuild_tree(&[meta("user:1:Profile"), meta("session:abc"), meta("other")]);
    v.collapse_all();
    v.set_query("  PROFILE ");
    assert_eq!(v.query, "profile");
    let rows = v.flatten_visible();
    let got: Vec<&str> = rows.iter().map(|r| r.full_path.as_str()).collect();
    assert_eq!(got, vec!["user", "user:1", "user:1:Profile"]);
    assert_eq!(visible_key_count(&rows), 1);
    v.set_query("");
    v.expand_all();
    let mut e = v.expanded.clone();
    e.sort();
    assert_eq!(e, vec!["session", "user", "user:1"]);
}

#[test]
fn query_matching_and_labels() {
    assert!(matches_query("User:1", "user"));
    assert!(matches_query("x", ""));
    assert!(!matches_query("abc", "d"));
    assert_eq!(count_label(false, true, None, false, 0, false, 0), "尚未连接");
    assert_eq!(count_label(true, true, None, false, 0, false, 0), "加载中...");
    assert_eq!(count_label(true, false, Some("boom"), false, 0, false, 0), "boom");
    assert_eq!(count_label(true, false, None, false, 12, false, 0), "共 12 个 key");
    assert_eq!(count_label(true, false, None, false, 5000, true, 0), "共 5000 个 key（已截断）");
    assert_eq!(count_label(true, false, None, true, 9, false, 2), "匹配 2 / 9");
    assert!(scan_truncated(MAX_KEYS) && !scan_truncated(MAX_KEYS - 1));
}

#[test]
fn selection_highlights_keys_only() {
    let mut v = KeyTreeView::new();
    v.rebuild_tree(&[KeyMeta::bare("user:1"), KeyMeta::bare("user")]);
    let mut sel = KeySelection::new();
    assert_eq!(sel.select_key("user".to_string()), "user");
    let rows = v.flatten_visible();
    let hit: Vec<String> =
        rows.iter().filter(|r| sel.is_selected_row(r)).map(|r| r.full_path.clone()).collect();
    assert_eq!(hit, vec!["user".to_string()]);
    sel.select_key_external("user:1".to_string());
    assert_eq!(sel.selected.as_deref(), Some("user:1"));
    sel.clear();
    assert!(sel.selected.is_none());
}
