use clip_llm::config::Config;
use clip_llm::json::Json;
use clip_llm::telemetry::parse_level;
use clip_llm::telemetry::plan;
use clip_llm::telemetry::victoria::detect_host;
use clip_llm::telemetry::victoria::gen_session;
use clip_llm::telemetry::victoria::host_of_env;
use clip_llm::telemetry::victoria::Batch;
use clip_llm::telemetry::victoria::Counts;
use clip_llm::telemetry::victoria::LogEvent;
use clip_llm::telemetry::victoria::LogField;
use clip_llm::telemetry::victoria::LogSpan;
use clip_llm::telemetry::victoria::VictoriaConfig;
use clip_llm::telemetry::victoria::VictoriaLayer;
use clip_llm::telemetry::Level;
use clip_llm::telemetry::DEFAULT_BATCH_MAX;

#[test]
fn parse_level_recognizes_all_known_levels() {
    assert_eq!(parse_level("trace"), Level::Trace);
    assert_eq!(parse_level("debug"), Level::Debug);
    assert_eq!(parse_level("info"), Level::Info);
    assert_eq!(parse_level("warn"), Level::Warn);
    assert_eq!(parse_level("error"), Level::Error);
    // Case-insensitive.
    assert_eq!(parse_level("ERROR"), Level::Error);
}

#[test]
fn parse_level_falls_back_to_info_on_typo() {
    assert_eq!(parse_level("eror"), Level::Info);
    assert_eq!(parse_level(""), Level::Info);
}

#[test]
fn records_are_sent_where_there_is_an_address() {
    let mut config = Config::default();
    assert!(plan(&config, 5).is_none());
    config.telemetry.url = Some(String::new());
    assert!(plan(&config, 5).is_none());
    config.telemetry.url = Some("http://logs:9428/".to_string());
    let p = plan(&config, 5).unwrap();
    assert_eq!(p.level, Level::Info);
    assert!(!p.level_unknown);
    assert_eq!(p.sink.batch_max, DEFAULT_BATCH_MAX);
    assert_eq!(p.sink.flush_ns, 5);
    assert_eq!(
        p.sink.ingest_url(),
        "http://logs:9428/insert/jsonline?_stream_fields=app,host,session&_msg_field=msg&_time_field=time"
    );
    config.telemetry.level = Some("loud".to_string());
    config.telemetry.batch_max = Some(0);
    let p = plan(&config, 5).unwrap();
    assert_eq!(p.level, Level::Info);
    assert!(p.level_unknown);
    assert_eq!(p.sink.batch_max, 1);
}

fn field(name: &str, value: &str) -> LogField {
    LogField { name: name.to_string(), value: Json::str(value) }
}

#[test]
fn what_an_event_says_goes_over_what_its_spans_say() {
    let layer = VictoriaLayer::new("1.0".to_string(), "h".to_string(), "s".to_string());
    let line = layer.line(LogEvent {
        time: 42,
        level: "INFO".to_string(),
        target: "clip_llm".to_string(),
        file: None,
        line: Some(7),
        spans: vec![
            LogSpan { name: "outer".to_string(), fields: vec![field("a", "1"), field("b", "1")] },
            LogSpan { name: "inner".to_string(), fields: vec![field("b", "2"), field("c", "2")] },
        ],
        fields: vec![field("message", "hi"), field("c", "3"), field("host", "other")],
    });
    let v: serde_json::Value = serde_json::from_str(&line).unwrap();
    assert_eq!(v["time"].as_u64(), Some(42));
    assert_eq!(v["line"].as_u64(), Some(7));
    assert!(v.get("file").is_none());
    for (key, value) in [
        ("app", "clip-llm"),
        ("version", "1.0"),
        ("session", "s"),
        ("span", "inner"),
        ("a", "1"),
        ("b", "2"),
        ("c", "3"),
        ("msg", "hi"),
        ("host", "other"),
    ] {
        assert_eq!(v[key].as_str(), Some(value), "{key}");
    }
}

#[test]
fn a_batch_is_sent_when_it_is_full_or_late() {
    let config = VictoriaConfig { url: String::new(), batch_max: 2, flush_ns: 10 };
    let mut b = Batch::begin(&config, "{}", 100);
    assert_eq!(b.wait(104), Some(6));
    assert_eq!(b.wait(110), None);
    b.add("[]");
    assert_eq!(b.wait(104), None);
    assert_eq!(b.count(), 2);
    assert_eq!(b.body(), "{}\n[]\n");
}

#[test]
fn records_that_are_not_sent_are_spoken_of_once() {
    let mut c = Counts::new();
    assert_eq!(c.report(), None);
    c.drop_one();
    c.drop_one();
    assert_eq!(
        c.report().as_deref(),
        Some("victoria-logs: dropped 2 record(s) (buffer full)")
    );
    assert_eq!(c.report(), None);
    assert_eq!(c.answered(3, Ok(204)), None);
    assert_eq!(
        c.answered(1, Ok(503)).as_deref(),
        Some("victoria-logs: ingest rejected (HTTP 503)")
    );
    assert_eq!(
        c.answered(1, Err("refused")).as_deref(),
        Some("victoria-logs: ingest failed: refused")
    );
    assert_eq!(c.counts(), (3, 2));
}

#[test]
fn the_machine_has_a_name() {
    let some = |s: &str| Some(s.to_string());
    assert_eq!(host_of_env(some("a"), some("b")).as_deref(), Some("a"));
    assert_eq!(host_of_env(None, some("b")).as_deref(), Some("b"));
    assert_eq!(host_of_env(some(""), some("b")), None);
    assert_eq!(detect_host(None, None, Some(b" box\n".to_vec())), "box");
    assert_eq!(detect_host(None, None, Some(b"\n".to_vec())), "unknown");
    assert_eq!(detect_host(None, None, None), "unknown");
    assert_eq!(detect_host(some("a"), None, Some(b"box".to_vec())), "a");
}

#[test]
fn a_run_has_a_name_of_eight_digits() {
    assert_eq!(gen_session(0, 0), "00000000");
    assert_eq!(gen_session(0x1234_5678_9abc_def0, 0x11), format!("{:08x}", 0x9abc_def0u32 ^ 0x1234_5678 ^ 0x11));
}
