use ramag_tools::key_tree::{
    build_tree, collect_namespace_paths, has_match_descendant, KeyMeta, RedisType,
};

fn meta(key: &str, t: RedisType) -> KeyMeta {
    KeyMeta {
        key: key.to_string(),
        key_type: Some(t),
        ttl_ms: None,
    }
}

fn collect(tree: &[ramag_tools::key_tree::TreeNode]) -> Vec<String> {
    let mut paths = Vec::new();
    for n in tree {
        collect_namespace_paths(n, &mut paths);
    }
    paths
}

#[test]
fn key_tree_build_simple_tree() {
    let keys = vec![
        meta("user:1:profile", RedisType::Hash),
        meta("user:2:profile", RedisType::Hash),
        meta("session:abc", RedisType::String),
    ];
    let tree = build_tree(&keys);
    assert!(tree.iter().all(|n| n.is_namespace()));
    let labels: Vec<_> = tree.iter().map(|n| n.label.as_str()).collect();
    assert_eq!(labels, vec!["session", "user"]);
}

#[test]
fn key_tree_leaf_and_namespace_coexist() {
    let keys = vec![meta("user", RedisType::String), meta("user:1", RedisType::Hash)];
    let tree = build_tree(&keys);
    assert_eq!(tree.len(), 1);
    let user_node = &tree[0];
    assert_eq!(user_node.label, "user");
    assert!(user_node.leaf_type.is_some());
    assert_eq!(user_node.children.len(), 1);
    assert_eq!(user_node.children[0].label, "1");
}

#[test]
fn key_tree_skip_empty_segments() {
    let keys = vec![meta("good:key", RedisType::String), meta("::bad", RedisType::String)];
    let tree = build_tree(&keys);
    let labels: Vec<_> = tree.iter().map(|n| n.label.as_str()).collect();
    assert_eq!(labels, vec!["good"]);
}

#[test]
fn key_tree_search_descendant_match() {
    let keys = vec![meta("user:1:profile", RedisType::Hash)];
    let tree = build_tree(&keys);
    assert!(has_match_descendant(&tree[0], "profile"));
    assert!(has_match_descendant(&tree[0], "1"));
    assert!(!has_match_descendant(&tree[0], "session"));
}

#[test]
fn key_tree_collect_paths() {
    let keys = vec![meta("a:b:c", RedisType::String), meta("a:d", RedisType::PlainSet)];
    let tree = build_tree(&keys);
    let paths = collect(&tree);
    assert!(paths.contains(&"a".to_string()));
    assert!(paths.contains(&"a:b".to_string()));
    assert!(!paths.contains(&"a:b:c".to_string()));
    assert!(!paths.contains(&"a:d".to_string()));
}

#[test]
fn tree_build_simple_tree() {
    let keys = vec![
        meta("user:1:profile", RedisType::Hash),
        meta("user:2:profile", RedisType::Hash),
        meta("session:abc", RedisType::String),
    ];
    let tree = build_tree(&keys);
    assert!(tree.iter().all(|n| n.is_namespace()));
    let labels: Vec<_> = tree.iter().map(|n| n.label.as_str()).collect();
    assert_eq!(labels, vec!["session", "user"]);
}

#[test]
fn tree_leaf_and_namespace_coexist() {
    let keys = vec![meta("user", RedisType::String), meta("user:1", RedisType::Hash)];
    let tree = build_tree(&keys);
    assert_eq!(tree.len(), 1);
    let user_node = &tree[0];
    assert_eq!(user_node.label, "user");
    assert!(user_node.leaf_type.is_some());
    assert_eq!(user_node.children.len(), 1);
    assert_eq!(user_node.children[0].label, "1");
}

#[test]
fn tree_skip_empty_segments() {
    let keys = vec![meta("good:key", RedisType::String), meta("::bad", RedisType::String)];
    let tree = build_tree(&keys);
    let labels: Vec<_> = tree.iter().map(|n| n.label.as_str()).collect();
    assert_eq!(labels, vec!["good"]);
}

#[test]
fn tree_search_descendant_match() {
    let keys = vec![meta("user:1:profile", RedisType::Hash)];
    let tree = build_tree(&keys);
    assert!(has_match_descendant(&tree[0], "profile"));
    assert!(has_match_descendant(&tree[0], "1"));
    assert!(!has_match_descendant(&tree[0], "session"));
}

#[test]
fn bare_key_is_still_leaf() {
    let keys = vec![KeyMeta::bare("111"), KeyMeta::bare("user:1")];
    let tree = build_tree(&keys);
    let root_111 = tree.iter().find(|n| n.label == "111").expect("有 111 节点");
    assert!(root_111.is_key, "bare key 应被标记为叶子");
    assert!(root_111.leaf_type.is_none(), "未查询类型时 leaf_type 保持 None");
    assert!(has_match_descendant(root_111, "111"), "搜索应能命中 bare key");

    let user = tree.iter().find(|n| n.label == "user").expect("有 user 节点");
    assert!(!user.is_key, "纯命名空间不是叶子");
    assert!(user.children[0].is_key);
}

#[test]
fn tree_collect_paths() {
    let keys = vec![meta("a:b:c", RedisType::String), meta("a:d", RedisType::PlainSet)];
    let tree = build_tree(&keys);
    let paths = collect(&tree);
    assert!(paths.contains(&"a".to_string()));
    assert!(paths.contains(&"a:b".to_string()));
    assert!(!paths.contains(&"a:b:c".to_string()));
    assert!(!paths.contains(&"a:d".to_string()));
}

#[test]
fn tree_orders_namespaces_first_then_labels() {
    let keys = vec![
        meta("zeta", RedisType::String),
        meta("beta:x", RedisType::String),
        meta("alpha", RedisType::String),
        meta("gamma:y", RedisType::String),
    ];
    let tree = build_tree(&keys);
    let labels: Vec<_> = tree.iter().map(|n| n.label.as_str()).collect();
    assert_eq!(labels, vec!["beta", "gamma", "alpha", "zeta"]);
    assert_eq!(tree[0].children[0].full_path, "beta:x");
    assert_eq!(tree[0].full_path, "beta");
}

#[test]
fn tree_later_key_type_wins() {
    let keys = vec![meta("k", RedisType::String), meta("k", RedisType::List)];
    let tree = build_tree(&keys);
    assert_eq!(tree.len(), 1);
    assert_eq!(tree[0].leaf_type, Some(RedisType::List));
}

#[test]
fn tree_empty_key_skipped() {
    let tree = build_tree(&[meta("", RedisType::String), meta("a:", RedisType::String)]);
    assert!(tree.is_empty());
}

#[test]
fn collect_paths_no_repeats() {
    let keys = vec![meta("a:b:c", RedisType::String)];
    let tree = build_tree(&keys);
    let mut paths = vec!["a".to_string()];
    collect_namespace_paths(&tree[0], &mut paths);
    assert_eq!(paths, vec!["a".to_string(), "a:b".to_string()]);
}
