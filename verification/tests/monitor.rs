use ramag_tools::cli::RedisValue;
use ramag_tools::key_tree::RedisType;
use ramag_tools::monitor::{
    forget_client, kill_client_argv, load_on_select, memory_usage, parse_clients, parse_info,
    parse_metrics, parse_slowlog, progress_due, rank_bigkeys, select_section, BigKeyResult,
    MetricSample, MetricsHistory, MonitorLoad, MonitorView, SlowField, SlowlogItem, SlowlogReply,
    SAMPLE_CAP, BigKeyScan,
};

#[test]
fn parse_info_basic() {
    let text = "# Server\r\nredis_version:7.2.4\r\nredis_mode:standalone\r\n\r\n# Clients\r\nconnected_clients:5\r\n";
    let secs = parse_info(text);
    assert_eq!(secs.len(), 2);
    assert_eq!(secs[0].name, "Server");
    assert_eq!(secs[0].pairs.len(), 2);
    assert_eq!(secs[0].pairs[0], ("redis_version".into(), "7.2.4".into()));
    assert_eq!(secs[1].name, "Clients");
    assert_eq!(secs[1].pairs[0].1, "5");
}

#[test]
fn parse_info_empty() {
    let secs = parse_info("");
    assert!(secs.is_empty());
}

#[test]
fn parse_info_value_with_colon() {
    let text = "# Commandstats\r\ncmdstat_set:calls=10,usec=20\r\n";
    let secs = parse_info(text);
    assert_eq!(secs.len(), 1);
    assert_eq!(
        secs[0].pairs[0],
        ("cmdstat_set".into(), "calls=10,usec=20".into())
    );
}

#[test]
fn parse_info_ignores_lines_before_heading_and_without_colon() {
    let secs = parse_info("orphan:1\n#  Keyspace  \nnocolon\ndb0:keys=1:x\n");
    assert_eq!(secs.len(), 1);
    assert_eq!(secs[0].name, "Keyspace");
    assert_eq!(secs[0].pairs, vec![("db0".to_string(), "keys=1:x".to_string())]);
}

#[test]
fn metrics_take_the_last_value() {
    let s = parse_metrics("used_memory:100\r\nused_memory_rss:7\ninstantaneous_ops_per_sec: 12 \nused_memory:x\n");
    assert_eq!(s, MetricSample { memory_bytes: 0, qps: 12 });
    assert_eq!(parse_metrics(""), MetricSample { memory_bytes: 0, qps: 0 });
}

#[test]
fn history_keeps_the_latest_samples() {
    let mut h = MetricsHistory::new();
    for i in 0..(SAMPLE_CAP as u64 + 5) {
        h.push(MetricSample { memory_bytes: i, qps: 2 * i });
    }
    assert_eq!(h.samples.len(), SAMPLE_CAP);
    assert_eq!(h.samples[0].memory_bytes, 5);
    assert_eq!(h.latest().memory_bytes, SAMPLE_CAP as u64 + 4);
    assert_eq!(h.memory_scale(), SAMPLE_CAP as u64 + 4);
    assert_eq!(h.qps_scale(), 2 * (SAMPLE_CAP as u64 + 4));
    let e = MetricsHistory::new();
    assert_eq!(e.memory_scale(), 1);
    assert_eq!(e.latest(), MetricSample { memory_bytes: 0, qps: 0 });
}

#[test]
fn clients_need_an_id() {
    let text = "id=3 addr=127.0.0.1:5000 name= age=10 idle=2 db=1 cmd=client|list\nid=0 addr=x\naddr=y\nid=7 db=abc\n";
    let cs = parse_clients(text);
    assert_eq!(cs.len(), 2);
    assert_eq!(cs[0].id, 3);
    assert_eq!(cs[0].addr, "127.0.0.1:5000");
    assert_eq!(cs[0].name, "");
    assert_eq!((cs[0].age_sec, cs[0].idle_sec, cs[0].db), (10, 2, 1));
    assert_eq!(cs[0].cmd, "client|list");
    assert_eq!((cs[1].id, cs[1].db), (7, 0));
    let mut cs = cs;
    forget_client(&mut cs, 3);
    assert_eq!(cs.len(), 1);
    assert_eq!(cs[0].id, 7);
    assert_eq!(kill_client_argv(42), vec!["CLIENT", "KILL", "ID", "42"]);
}

#[test]
fn slowlog_entries() {
    let reply = SlowlogReply::Entries(vec![
        SlowlogItem::Fields(vec![
            SlowField::Int(14, "14".into()),
            SlowField::Int(1700000000, "1700000000".into()),
            SlowField::Int(1200, "1200".into()),
            SlowField::Array(vec!["SET".into(), "k".into(), "v".into()]),
            SlowField::Scalar("127.0.0.1:1".into()),
        ]),
        SlowlogItem::Fields(vec![SlowField::Int(1, "1".into())]),
        SlowlogItem::NotArray,
        SlowlogItem::Fields(vec![
            SlowField::Scalar("x".into()),
            SlowField::Int(2, "2".into()),
            SlowField::Int(3, "3".into()),
            SlowField::Scalar("PING".into()),
        ]),
    ]);
    let es = parse_slowlog(&reply);
    assert_eq!(es.len(), 2);
    assert_eq!((es[0].id, es[0].timestamp, es[0].duration_us), (14, 1700000000, 1200));
    assert_eq!(es[0].command, "SET k v");
    assert_eq!((es[1].id, es[1].command.as_str()), (0, "PING"));
    assert!(parse_slowlog(&SlowlogReply::NotArray).is_empty());
}

fn bk(key: &str, size: u64) -> BigKeyResult {
    BigKeyResult { key: key.into(), key_type: RedisType::String, size_bytes: size }
}

#[test]
fn bigkeys_rank_largest_first_and_stable() {
    let r = rank_bigkeys(vec![bk("a", 5), bk("b", 9), bk("c", 5), bk("d", 1), bk("e", 9)]);
    let keys: Vec<&str> = r.iter().map(|x| x.key.as_str()).collect();
    assert_eq!(keys, vec!["b", "e", "a", "c", "d"]);
    assert_eq!(memory_usage(&RedisValue::Int(12)), Some(12));
    assert_eq!(memory_usage(&RedisValue::Int(-1)), None);
    assert_eq!(memory_usage(&RedisValue::Nil), None);
    assert!(progress_due(50) && progress_due(100) && !progress_due(51));
}

#[test]
fn view_switching() {
    assert_eq!(load_on_select(MonitorView::SlowLog), MonitorLoad::SlowLog);
    assert_eq!(load_on_select(MonitorView::BigKey), MonitorLoad::Nothing);
    assert_eq!(load_on_select(MonitorView::InfoSection(2)), MonitorLoad::Nothing);
    assert_eq!(select_section(MonitorView::Latency, 1, 3), MonitorView::InfoSection(1));
    assert_eq!(select_section(MonitorView::Latency, 3, 3), MonitorView::Latency);
}

#[test]
fn bigkey_scan_steps() {
    let mut s = BigKeyScan::new();
    assert!(s.start());
    assert!(!s.start());
    assert_eq!(s.progress, Some((0, None)));
    s.keys_listed(Ok(3));
    assert_eq!(s.progress, Some((0, Some(3))));
    s.key_measured("a".into(), &RedisValue::Int(10), Some(RedisType::Hash));
    s.key_measured("gone".into(), &RedisValue::Nil, None);
    s.key_measured("b".into(), &RedisValue::Int(30), None);
    s.finished();
    assert!(!s.scanning);
    assert_eq!(s.progress, Some((3, Some(3))));
    let got: Vec<(String, RedisType, u64)> =
        s.results.iter().map(|r| (r.key.clone(), r.key_type, r.size_bytes)).collect();
    assert_eq!(
        got,
        vec![("b".to_string(), RedisType::Missing, 30), ("a".to_string(), RedisType::Hash, 10)]
    );
    assert!(s.start());
    s.keys_listed(Err("down".into()));
    assert!(!s.scanning);
    assert_eq!(s.error.as_deref(), Some("BigKey 扫描失败：down"));
}
