use ramag_tools::branches::{
    base_leaf_label, branch_leaf_label, branch_menu, delete_branch_prompt, group_branches,
    grouped_full_name, leaf_checks_out, sync_text, truncate_branch_display, BranchLeaf,
    BranchMenuItem,
};

#[test]
fn long_names_are_cut_in_the_middle() {
    assert_eq!(truncate_branch_display("main"), "main");
    let exact = "a".repeat(40);
    assert_eq!(truncate_branch_display(&exact), exact);
    let long: String = (0..45).map(|i| char::from(b'a' + (i % 26) as u8)).collect();
    let got = truncate_branch_display(&long);
    assert_eq!(got.chars().count(), 36);
    assert!(got.starts_with(&long[..20]));
    assert!(got.ends_with(&long[30..]));
    assert_eq!(got.chars().nth(20), Some('…'));
}

fn leaf(n: &str, head: bool) -> BranchLeaf {
    (n.to_string(), head, None)
}

#[test]
fn grouping_by_first_segment() {
    let items = vec![
        leaf("main", true),
        leaf("origin/main", false),
        leaf("feature/x/y", false),
        leaf("dev", false),
        leaf("feature/a", false),
        leaf("origin/dev", false),
    ];
    let (singles, groups) = group_branches(&items);
    let s: Vec<&str> = singles.iter().map(|l| l.0.as_str()).collect();
    assert_eq!(s, vec!["main", "dev"]);
    let g: Vec<(String, Vec<String>)> =
        groups.iter().map(|(p, ls)| (p.clone(), ls.iter().map(|l| l.0.clone()).collect())).collect();
    assert_eq!(
        g,
        vec![
            ("feature".to_string(), vec!["x/y".to_string(), "a".to_string()]),
            ("origin".to_string(), vec!["main".to_string(), "dev".to_string()]),
        ]
    );
    assert_eq!(grouped_full_name("feature", "x/y"), "feature/x/y");
}

#[test]
fn leaf_labels_and_actions() {
    assert_eq!(branch_leaf_label("main", true, false, Some("↑1 ↓0")), "✓  main    ↑1 ↓0");
    assert_eq!(branch_leaf_label("dev", false, false, Some("")), "    dev");
    assert_eq!(branch_leaf_label("main", true, true, None), "↗  main");
    assert_eq!(base_leaf_label("x", true), "↗  x");
    assert_eq!(base_leaf_label("x", false), "    x");
    assert!(!leaf_checks_out(true, false));
    assert!(leaf_checks_out(true, true));
    assert!(leaf_checks_out(false, false));
}

#[test]
fn rows_and_menus() {
    assert_eq!(sync_text(Some(3), Some(0)).as_deref(), Some("↑3 ↓0"));
    assert_eq!(sync_text(Some(0), Some(0)), None);
    assert_eq!(sync_text(None, Some(2)), None);
    assert!(branch_menu(true, false).is_empty());
    assert_eq!(
        branch_menu(false, true),
        vec![BranchMenuItem::CheckoutRemote, BranchMenuItem::Merge, BranchMenuItem::Rebase]
    );
    assert_eq!(branch_menu(false, false).len(), 6);
    assert_eq!(BranchMenuItem::Delete.label(), "删除分支");
    assert_eq!(
        delete_branch_prompt("dev"),
        "将删除本地分支「dev」（仅当已合并；未合并会报错）。\n确认继续吗？"
    );
}
