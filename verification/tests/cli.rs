use ramag_tools::cli::{
    elapsed_label, format_response, is_dangerous, submit_action, CliHistory, HistoryEntry,
    RedisValue, ResponseKind, StreamEntry, SubmitAction,
};

#[test]
fn dangerous_detection() {
    assert!(is_dangerous("FLUSHDB"));
    assert!(is_dangerous("flushall"));
    assert!(is_dangerous("config set maxmemory 1g"));
    assert!(is_dangerous("KEYS *"));
    assert!(is_dangerous("DEBUG SLEEP 5"));
    assert!(!is_dangerous("GET foo"));
    assert!(!is_dangerous("SET foo bar"));
}

#[test]
fn format_int() {
    assert_eq!(format_response(&RedisValue::Int(42)), "(integer) 42");
    assert_eq!(format_response(&RedisValue::Nil), "(nil)");
}

#[test]
fn format_array() {
    let v = RedisValue::Array(vec!["a".to_string(), "b".to_string()]);
    let s = format_response(&v);
    assert!(s.contains("1) a"));
    assert!(s.contains("2) b"));
}

#[test]
fn dangerous_needs_prefix_after_trim() {
    assert!(is_dangerous("   shutdown nosave"));
    assert!(is_dangerous("client kill id 3"));
    assert!(is_dangerous("Script Kill"));
    assert!(!is_dangerous("GET KEYS"));
    assert!(!is_dangerous(""));
}

#[test]
fn format_scalars_exactly() {
    assert_eq!(format_response(&RedisValue::Int(-7)), "(integer) -7");
    assert_eq!(format_response(&RedisValue::Text("hi".into())), "hi");
    assert_eq!(format_response(&RedisValue::Float("1.5".into())), "(double) 1.5");
    assert_eq!(format_response(&RedisValue::Bool(true)), "(boolean) true");
    assert_eq!(format_response(&RedisValue::Bool(false)), "(boolean) false");
    assert_eq!(format_response(&RedisValue::Bytes(vec![1, 2, 3])), "(binary) [3 bytes]");
}

#[test]
fn format_collections_exactly() {
    assert_eq!(
        format_response(&RedisValue::Array(vec!["a".into(), "b".into()])),
        "1) a\n2) b"
    );
    assert_eq!(format_response(&RedisValue::List(vec![])), "");
    assert_eq!(
        format_response(&RedisValue::Hash(vec![("f".into(), "v".into()), ("g".into(), "w".into())])),
        "f: v\ng: w"
    );
    assert_eq!(
        format_response(&RedisValue::ZSet(vec![("m".into(), "2".into())])),
        "m (2)"
    );
    let s = RedisValue::Stream(vec![
        StreamEntry { id: "1-0".into(), fields: vec![("a".into(), "1".into()), ("b".into(), "2".into())] },
        StreamEntry { id: "2-0".into(), fields: vec![] },
    ]);
    assert_eq!(format_response(&s), "1-0\n    a=1\n    b=2\n\n2-0\n");
}

#[test]
fn submit_splits_and_holds_back_dangerous() {
    assert!(matches!(submit_action("   "), SubmitAction::Ignore));
    match submit_action("  GET   foo ") {
        SubmitAction::Run(raw, argv) => {
            assert_eq!(raw, "GET   foo");
            assert_eq!(argv, vec!["GET", "foo"]);
        }
        _ => panic!("expected Run"),
    }
    match submit_action("flushdb") {
        SubmitAction::Confirm(raw, argv) => {
            assert_eq!(raw, "flushdb");
            assert_eq!(argv, vec!["flushdb"]);
        }
        _ => panic!("expected Confirm"),
    }
}

#[test]
fn history_recall_skips_repeats_and_finishes_blocks() {
    let mut h = CliHistory::new();
    let a = h.start("PING");
    let b = h.start("PING");
    let c = h.start("GET k");
    assert_eq!((a, b, c), (0, 1, 2));
    assert_eq!(h.commands, vec!["PING", "GET k"]);
    h.finish(1, 5, Ok("PONG".into()));
    h.finish(2, 7, Err("boom".into()));
    h.finish(9, 1, Ok("ignored".into()));
    assert!(matches!(h.entries[0].response, ResponseKind::Pending));
    assert!(matches!(&h.entries[1].response, ResponseKind::Reply(t) if t == "PONG"));
    assert!(matches!(&h.entries[2].response, ResponseKind::Failed(t) if t == "boom"));
    assert_eq!(elapsed_label(&h.entries[1]), "5 ms");
    assert_eq!(elapsed_label(&h.entries[0]), "");
    h.clear();
    assert!(h.entries.is_empty());
    assert_eq!(h.commands.len(), 2);
    let e = HistoryEntry { command: "x".into(), response: ResponseKind::Pending, elapsed_ms: 3 };
    assert_eq!(elapsed_label(&e), "");
}

#[test]
fn dangerous_ignores_case_and_padding() {
    for raw in ["flushdb", "  Config Set x 1  ", "client kill id 3", "keys *"] {
        assert!(is_dangerous(raw));
        assert_eq!(is_dangerous(raw), is_dangerous(&raw.to_ascii_lowercase()));
        assert_eq!(is_dangerous(raw), is_dangerous(&format!("  {raw}  ")));
    }
    assert!(!is_dangerous("  get keys  "));
}
