use std::io::Write;

use ramag_tools::cli::RedisValue;
use ramag_tools::key_detail::{format_ttl_ms, gzip_view, scalar_text, ttl_label, KeyDetailState};
use ramag_tools::value_display::ViewMode;

#[test]
fn ttl_texts() {
    assert_eq!(format_ttl_ms(0), "0s");
    assert_eq!(format_ttl_ms(59_999), "59s");
    assert_eq!(format_ttl_ms(61_000), "1m 1s");
    assert_eq!(format_ttl_ms(7_260_000), "2h 1m");
    assert_eq!(format_ttl_ms(90_000_000), "1d 1h");
    assert_eq!(format_ttl_ms(-1500), "-1s");
    assert_eq!(format_ttl_ms(-999), "0s");
    assert_eq!(ttl_label(Some(-1)), "永久");
    assert_eq!(ttl_label(Some(-2)), "已过期");
    assert_eq!(ttl_label(Some(-3)), "—");
    assert_eq!(ttl_label(None), "—");
    assert_eq!(ttl_label(Some(5_000)), "5s");
}

#[test]
fn gzip_values_are_shown_decompressed() {
    let mut enc = flate2::write::GzEncoder::new(Vec::new(), flate2::Compression::default());
    enc.write_all(b"hello").unwrap();
    let gz = enc.finish().unwrap();
    let n = gz.len();
    let (shown, hint) = gzip_view(&RedisValue::Bytes(gz));
    assert_eq!(shown, b"hello");
    assert_eq!(
        hint.unwrap(),
        format!("🗜️ 检测到 Gzip 压缩，已自动解压（原 {n} bytes → 5 bytes）")
    );
    let (shown, hint) = gzip_view(&RedisValue::Text("plain".into()));
    assert_eq!(shown, b"plain");
    assert!(hint.is_none());
    assert_eq!(scalar_text(true, b"hi", ViewMode::Raw), "hi");
    assert_eq!(scalar_text(true, b"hi", ViewMode::Base64), "aGk=");
    assert_eq!(
        scalar_text(false, &[0xff, 0xfe], ViewMode::Raw),
        "[2 bytes：非 UTF-8，请切到 Hex/base64 查看]"
    );
}

#[test]
fn pane_state() {
    let mut s = KeyDetailState::new();
    assert!(!s.load_key("k"));
    s.set_connection(true, 2);
    assert!(s.load_key("k"));
    assert!(s.loading);
    s.loaded(Err("down".into()), Some(1000));
    assert!(!s.loading);
    assert_eq!(s.error.as_deref(), Some("加载值失败：down"));
    assert_eq!(s.ttl_ms, Some(1000));
    assert!(s.start_estimate());
    s.size_estimated(Ok(RedisValue::Int(64)));
    assert_eq!(s.key_size_bytes, Some(64));
    s.size_estimated(Ok(RedisValue::Nil));
    assert_eq!(s.key_size_bytes, None);
    s.size_estimated(Ok(RedisValue::Text("?".into())));
    assert_eq!(s.error.as_deref(), Some("MEMORY USAGE 应答异常（可能服务端不支持）"));
    s.size_estimated(Err("x".into()));
    assert_eq!(s.error.as_deref(), Some("MEMORY USAGE 失败：x"));
    assert_eq!(s.lrem_argv("v").unwrap(), vec!["LREM", "k", "1", "v"]);
    assert_eq!(s.hdel_argv("f").unwrap(), vec!["HDEL", "k", "f"]);
    assert_eq!(s.remove_item_argv("ZREM", "m").unwrap(), vec!["ZREM", "k", "m"]);
    assert!(!s.part_deleted(Err("e".into()), "删除元素失败："));
    assert_eq!(s.error.as_deref(), Some("删除元素失败：e"));
    assert!(s.part_deleted(Ok(()), "删除元素失败："));
    assert_eq!(s.key_deleted(Ok(())).as_deref(), Some("k"));
    assert!(s.key.is_none());
    assert!(s.lrem_argv("v").is_none());
    assert!(s.set_view_mode(ViewMode::Hex));
    assert!(!s.set_view_mode(ViewMode::Hex));
}

#[test]
fn part_delete_messages() {
    let mut s = KeyDetailState::new();
    assert!(!s.field_deleted(Err("e1".into())));
    assert_eq!(s.error.as_deref(), Some("删除字段失败：e1"));
    assert!(!s.element_deleted(Err("e2".into())));
    assert_eq!(s.error.as_deref(), Some("删除元素失败：e2"));
    assert!(s.element_deleted(Ok(())));
}
