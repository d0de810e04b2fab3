use ramag_tools::forms::{
    hash_field_argv, list_push_argv, parse_field_pairs, parse_ttl_edit, set_add_argv,
    stream_entry_argv, ttl_label, PushDir,
};

#[test]
fn parse_basic() {
    let r = parse_field_pairs("name alice\nage 30").unwrap();
    assert_eq!(r.len(), 2);
}

#[test]
fn parse_value_with_space() {
    let r = parse_field_pairs("desc hello world").unwrap();
    assert_eq!(r[0].1, "hello world");
}

#[test]
fn parse_missing_value_errors() {
    assert!(parse_field_pairs("only_field").is_err());
}

#[test]
fn stream_entry_command() {
    assert_eq!(
        stream_entry_argv("s", "a 1\nb two words").unwrap(),
        vec!["XADD", "s", "*", "a", "1", "b", "two words"]
    );
    assert_eq!(stream_entry_argv("s", "\n \n").unwrap_err(), "至少需要 1 个字段");
    assert_eq!(
        stream_entry_argv("s", "x").unwrap_err(),
        "第 1 行格式错误：需要 `field value`（空格分隔）"
    );
}

#[test]
fn hash_field_command() {
    assert_eq!(
        hash_field_argv("h", None, "  f ", "v 1").unwrap(),
        vec!["HSET", "h", "f", "v 1"]
    );
    assert_eq!(
        hash_field_argv("h", Some("keep"), "ignored", "v").unwrap(),
        vec!["HSET", "h", "keep", "v"]
    );
    assert_eq!(hash_field_argv("h", None, "   ", "v").unwrap_err(), "请填写字段名");
}

#[test]
fn list_push_command() {
    assert_eq!(
        list_push_argv("l", "a\r\n\nb", PushDir::Head).unwrap(),
        vec!["LPUSH", "l", "a", "b"]
    );
    assert_eq!(list_push_argv("l", "x", PushDir::Tail).unwrap(), vec!["RPUSH", "l", "x"]);
    assert_eq!(list_push_argv("l", "\n", PushDir::Tail).unwrap_err(), "至少填写 1 个元素");
}

#[test]
fn set_add_command_dedups_keeping_first() {
    let elems: Vec<String> = vec!["b".into(), "a".into(), "b".into(), "c".into(), "a".into()];
    assert_eq!(set_add_argv("s", &elems).unwrap(), vec!["SADD", "s", "b", "a", "c"]);
    assert_eq!(set_add_argv("s", &Vec::new()).unwrap_err(), "至少填写 1 个成员");
}

#[test]
fn ttl_dialog_input() {
    assert_eq!(parse_ttl_edit(" 30 "), Ok(30));
    assert_eq!(parse_ttl_edit("").unwrap_err(), "请输入秒数（或点击「设为永久」）");
    assert_eq!(parse_ttl_edit("0").unwrap_err(), "秒数必须是正整数");
    assert_eq!(parse_ttl_edit("abc").unwrap_err(), "秒数必须是正整数");
    assert_eq!(ttl_label(Some(90)), "90s");
    assert_eq!(ttl_label(None), "永久");
}
