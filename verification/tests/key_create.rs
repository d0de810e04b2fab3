use ramag_tools::key_create::{
    create_types, value_hint,
    float_literal_ok, parse_kv_pairs, parse_lines, parse_score_member, parse_ttl_secs,
    validate_and_build_argv,
};
use ramag_tools::key_tree::RedisType;

fn p(a: &str, b: &str) -> (String, String) {
    (a.to_string(), b.to_string())
}

#[test]
fn parse_lines_skips_empty() {
    let out = parse_lines("a\r\n\r\nb\nc\r\n");
    assert_eq!(out, vec!["a", "b", "c"]);
}

#[test]
fn parse_kv_basic() {
    let out = parse_kv_pairs("name alice\nage 30").unwrap();
    assert_eq!(out, vec![p("name", "alice"), p("age", "30")]);
}

#[test]
fn parse_kv_value_with_space_keeps_remainder() {
    let out = parse_kv_pairs("desc hello world").unwrap();
    assert_eq!(out, vec![p("desc", "hello world")]);
}

#[test]
fn parse_kv_missing_value_errors() {
    assert!(parse_kv_pairs("only_field").is_err());
}

#[test]
fn parse_score_member_works() {
    let out = parse_score_member("1.5 alice\n2 bob").unwrap();
    assert_eq!(out.len(), 2);
    assert_eq!(out[0].0, "1.5");
    assert_eq!(out[0].1, "alice");
}

#[test]
fn parse_score_invalid() {
    assert!(parse_score_member("not_a_number alice").is_err());
}

#[test]
fn kv_error_messages_name_the_line() {
    assert_eq!(
        parse_kv_pairs("a 1\n\nbad").unwrap_err(),
        "第 3 行格式错误：需要 `field value`（空格分隔）"
    );
    assert_eq!(parse_kv_pairs("ok 1\n  x").unwrap_err(), "第 2 行：field 为空");
    assert_eq!(parse_kv_pairs("").unwrap(), Vec::<(String, String)>::new());
    assert_eq!(parse_kv_pairs("k   v  \r\n").unwrap(), vec![p("k", "v  ")]);
}

#[test]
fn score_errors_and_forms() {
    assert_eq!(
        parse_score_member("x1 m").unwrap_err(),
        "第 1 行：score 必须是数字，实得 `x1`"
    );
    assert_eq!(parse_score_member("1 ").unwrap_err(), "第 1 行：member 为空");
    assert_eq!(
        parse_score_member("7").unwrap_err(),
        "第 1 行格式错误：需要 `score member`（空格分隔）"
    );
    let out = parse_score_member("-inf a\n+1e3 b\n.5 c\nNaN d").unwrap();
    assert_eq!(out, vec![p("-inf", "a"), p("+1e3", "b"), p(".5", "c"), p("NaN", "d")]);
}

#[test]
fn float_grammar_matches_std() {
    let cases = [
        "1", "1.", ".5", "1.5", "-2", "+3", "1e10", "1E-3", "2.5e+7", "inf", "-Infinity", "NaN",
        "", ".", "e5", "1e", "1.2.3", "--1", "1_0", " 1", "0x10", "infin", "1e+", "+", "-.e1",
    ];
    for c in cases {
        let chars: Vec<char> = c.chars().collect();
        assert_eq!(float_literal_ok(&chars), c.parse::<f64>().is_ok(), "case {c:?}");
    }
}

#[test]
fn argv_for_each_type() {
    assert_eq!(
        validate_and_build_argv("  k ", "v v", RedisType::String).unwrap(),
        vec!["SET", "k", "v v"]
    );
    assert_eq!(
        validate_and_build_argv("k", "a\n\nb", RedisType::List).unwrap(),
        vec!["RPUSH", "k", "a", "b"]
    );
    assert_eq!(
        validate_and_build_argv("k", "a\nb", RedisType::PlainSet).unwrap(),
        vec!["SADD", "k", "a", "b"]
    );
    assert_eq!(
        validate_and_build_argv("k", "f 1\ng 2", RedisType::Hash).unwrap(),
        vec!["HSET", "k", "f", "1", "g", "2"]
    );
    assert_eq!(
        validate_and_build_argv("k", "1 a\n2.5 b", RedisType::ZSet).unwrap(),
        vec!["ZADD", "k", "1", "a", "2.5", "b"]
    );
}

#[test]
fn argv_errors() {
    assert_eq!(validate_and_build_argv("  ", "x", RedisType::String).unwrap_err(), "请填写 Key 名");
    assert_eq!(
        validate_and_build_argv("k", "\n", RedisType::List).unwrap_err(),
        "List 至少需要 1 个元素（每行一个）"
    );
    assert_eq!(
        validate_and_build_argv("k", "", RedisType::PlainSet).unwrap_err(),
        "Set 至少需要 1 个元素（每行一个）"
    );
    assert_eq!(
        validate_and_build_argv("k", " ", RedisType::Hash).unwrap_err(),
        "Hash 至少需要 1 个字段（每行 `field value`）"
    );
    assert_eq!(
        validate_and_build_argv("k", "", RedisType::ZSet).unwrap_err(),
        "ZSet 至少需要 1 个成员（每行 `score member`）"
    );
    assert_eq!(
        validate_and_build_argv("k", "", RedisType::Stream).unwrap_err(),
        "Stream 类型暂未在 Stage 16 支持，请用命令面板执行 XADD"
    );
    assert_eq!(
        validate_and_build_argv("k", "nofield", RedisType::Hash).unwrap_err(),
        "第 1 行格式错误：需要 `field value`（空格分隔）"
    );
}

#[test]
fn ttl_field() {
    assert_eq!(parse_ttl_secs("  "), Ok(None));
    assert_eq!(parse_ttl_secs(" 60 "), Ok(Some(60)));
    assert_eq!(parse_ttl_secs("+5"), Ok(Some(5)));
    assert_eq!(parse_ttl_secs("0").unwrap_err(), "TTL 必须是正整数（秒）");
    assert_eq!(parse_ttl_secs("-3").unwrap_err(), "TTL 必须是正整数（秒）");
    assert_eq!(parse_ttl_secs("1.5").unwrap_err(), "TTL 必须是正整数（秒）");
    assert_eq!(parse_ttl_secs("9223372036854775807"), Ok(Some(i64::MAX)));
    assert!(parse_ttl_secs("9223372036854775808").is_err());
}

#[test]
fn type_choice_and_hints() {
    assert_eq!(
        create_types(),
        vec![RedisType::String, RedisType::List, RedisType::Hash, RedisType::PlainSet, RedisType::ZSet]
    );
    assert_eq!(value_hint(RedisType::PlainSet), "每行一个元素（自动去重）");
    assert_eq!(value_hint(RedisType::ZSet), "每行 `score member`，空格分隔");
    assert_eq!(value_hint(RedisType::Stream), "");
}
