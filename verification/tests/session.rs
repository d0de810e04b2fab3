use ramag_tools::session::{
    danger_prompt, delete_prompt, detail_label, initial_db, truncate_for_dialog, ActiveTab,
    CloseTabOutcome, DeleteTarget, SessionTabs, ToolKind, ToolTab,
};

#[test]
fn dialog_truncation_counts_chars() {
    assert_eq!(truncate_for_dialog("abc", 3), "abc");
    assert_eq!(truncate_for_dialog("abcd", 3), "abc…");
    assert_eq!(truncate_for_dialog("中文字符", 2), "中文…");
    assert_eq!(truncate_for_dialog("", 0), "");
}

#[test]
fn delete_prompts() {
    let (t, d) = delete_prompt(&DeleteTarget::Key("user:1".into()));
    assert_eq!(t, "删除 Key？");
    assert_eq!(d, "将永久删除 key「user:1」，此操作不可撤销。");
    let (t, d) = delete_prompt(&DeleteTarget::ListElement("v".into(), 4));
    assert_eq!(t, "删除 List 元素？");
    assert_eq!(d, "将删除序号 4 的元素「v」（按值首匹配，仅删 1 个），此操作不可撤销。");
    let long = "x".repeat(100);
    let (_, d) = delete_prompt(&DeleteTarget::HashField(long));
    assert_eq!(d, format!("将删除字段「{}…」，此操作不可撤销。", "x".repeat(80)));
    let (t, _) = delete_prompt(&DeleteTarget::StreamEntry("1-0".into()));
    assert_eq!(t, "删除 Stream 条目？");
    assert_eq!(
        danger_prompt("FLUSHALL"),
        "命令 `FLUSHALL` 可能造成数据丢失或服务影响。\n确定执行？"
    );
}

#[test]
fn initial_database() {
    assert_eq!(initial_db(Some("3")), 3);
    assert_eq!(initial_db(Some("256")), 0);
    assert_eq!(initial_db(Some("x")), 0);
    assert_eq!(initial_db(None), 0);
}

#[test]
fn tab_labels() {
    assert_eq!(ToolTab { kind: ToolKind::Cli, id: 2 }.label(), "CLI 2");
    assert_eq!(ToolTab { kind: ToolKind::PubSub, id: 1 }.label(), "Pub/Sub 1");
    assert_eq!(detail_label(None), "Key 详情");
    assert_eq!(detail_label(Some("k")), "k");
}

#[test]
fn closing_tabs_moves_the_active_one() {
    let mut t = SessionTabs::new();
    assert_eq!(t.open_tool(ToolKind::Cli), 0);
    assert_eq!(t.open_tool(ToolKind::PubSub), 1);
    assert_eq!(t.open_tool(ToolKind::Cli), 2);
    assert_eq!(t.tools.iter().map(|x| x.id).collect::<Vec<_>>(), vec![1, 2, 3]);
    assert_eq!(t.active, ActiveTab::Tool(2));
    t.close_tool_tab(2);
    assert_eq!(t.active, ActiveTab::Tool(1));
    assert!(t.select_active(ActiveTab::Tool(0)));
    assert!(!t.select_active(ActiveTab::Tool(0)));
    t.close_tool_tab(1);
    assert_eq!(t.active, ActiveTab::Tool(0));
    t.close_tool_tab(5);
    assert_eq!(t.tools.len(), 1);
    assert_eq!(t.close_tab_action(true), CloseTabOutcome::ClosedTool(0));
    assert_eq!(t.active, ActiveTab::Detail);
    assert_eq!(t.close_tab_action(true), CloseTabOutcome::ClearKey);
    assert_eq!(t.close_tab_action(false), CloseTabOutcome::Propagate);
    assert_eq!(t.open_tool(ToolKind::Cli), 0);
    assert_eq!(t.tools[0].id, 4);
    assert_eq!(t.cli_positions(), vec![0]);
}

#[test]
fn selecting_a_missing_tab_is_kept() {
    let mut t = SessionTabs::new();
    assert!(t.select_active(ActiveTab::Tool(4)));
    assert_eq!(t.active, ActiveTab::Tool(4));
    assert_eq!(t.close_tab_action(false), CloseTabOutcome::ClosedTool(4));
    assert_eq!(t.active, ActiveTab::Tool(4));
    assert!(t.tools.is_empty());
}
