use ramag_tools::pubsub::{
    format_timestamp, parse_csv, pattern_note, timestamp_text, PubSubMessage, PubSubState,
    MAX_MESSAGES,
};

#[test]
fn csv_lists() {
    assert_eq!(parse_csv(" a, b ,,c "), vec!["a", "b", "c"]);
    assert!(parse_csv(" , ").is_empty());
    assert!(parse_csv("").is_empty());
}

fn msg(i: i64) -> PubSubMessage {
    PubSubMessage { channel: "ch".into(), pattern: None, payload: format!("m{i}"), received_at_ms: i }
}

#[test]
fn subscription_flow() {
    let mut s = PubSubState::new();
    assert!(s.request_subscribe(" ", ",").is_none());
    assert_eq!(s.status.as_deref(), Some("请至少填写一个 channel 或 pattern"));
    let (c, p) = s.request_subscribe("a,b", "n.*").unwrap();
    assert_eq!(c, vec!["a", "b"]);
    assert_eq!(p, vec!["n.*"]);
    assert!(s.subscribing);
    assert!(s.request_subscribe("x", "").is_none());
    s.subscribed(c, p);
    assert_eq!(s.status.as_deref(), Some("已订阅"));
    for i in 0..(MAX_MESSAGES as i64 + 3) {
        s.receive(msg(i));
    }
    assert_eq!(s.messages.len(), MAX_MESSAGES);
    assert_eq!(s.messages[0].received_at_ms, 3);
    assert_eq!(
        s.status_line(),
        format!("✓ 订阅中：channels=[\"a\", \"b\"] patterns=[\"n.*\"] · 已收 {MAX_MESSAGES} 条")
    );
    s.unsubscribe();
    assert_eq!(s.status_line(), "已取消订阅");
    assert!(s.request_publish("  ").is_none());
    assert_eq!(s.status.as_deref(), Some("请填写 channel"));
    assert_eq!(s.request_publish(" ch ").as_deref(), Some("ch"));
    s.published(Ok(2));
    assert_eq!(s.status.as_deref(), Some("发送成功，2 个订阅者收到"));
    s.published(Err("no".into()));
    assert_eq!(s.status.as_deref(), Some("发送失败：no"));
    s.clear_messages();
    assert!(s.messages.is_empty());
    s.stream_ended();
    assert_eq!(s.status.as_deref(), Some("订阅已结束"));
    assert_eq!(PubSubState::new().status_line(), "未订阅");
}

#[test]
fn message_rows() {
    let mut m = msg(5);
    assert_eq!(pattern_note(&m), "");
    m.pattern = Some("n.*".into());
    assert_eq!(pattern_note(&m), "（pattern=n.*）");
    assert_eq!(timestamp_text(None, 1234), "1234");
    assert_eq!(timestamp_text(Some("10:00:00.000".into()), 1), "10:00:00.000");
}

#[test]
fn clock_text_keeps_the_milliseconds() {
    let t = format_timestamp(1_700_000_123_456);
    assert_eq!(t.len(), 12);
    assert_eq!(&t[2..3], ":");
    assert_eq!(&t[5..6], ":");
    assert!(t.ends_with(".456"));
    let early = format_timestamp(-1);
    assert!(early.ends_with(".999") || early == "-1");
}
