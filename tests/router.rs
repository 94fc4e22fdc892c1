use cernan::filter::{
    DenyLogsFilter, DenyLogsFilterConfig, DenyTelemetryFilter, DenyTelemetryFilterConfig,
    FilterKind,
};
use cernan::flush::FlushTimer;
use cernan::metric::{AggregationKind, Event, LogLine, Telemetry};
use cernan::tags::{key_less, TagMap};
use cernan::topology::{build_topology, populate_forwards, ConfigError, NodeSpec, TopologyConfig};
use cernan::verbosity::{log_level, LogLevel};

fn metric(name: &str, value: f64) -> Event {
    Event::Telemetry(Telemetry {
        name: name.to_string(),
        value_bits: value.to_bits(),
        kind: AggregationKind::Counter,
        sample_rate_bits: 1.0f64.to_bits(),
        timestamp: 100,
        tags: TagMap::new(),
    })
}

fn log(payload: &str) -> Event {
    Event::Log(LogLine {
        path: "/var/log/app".to_string(),
        value: payload.to_string(),
        timestamp: 100,
        tags: TagMap::new(),
    })
}

fn strings(v: &[&str]) -> Vec<String> {
    v.iter().map(|s| s.to_string()).collect()
}

fn node(path: &str, forwards: &[&str]) -> NodeSpec {
    NodeSpec { config_path: path.to_string(), forwards: strings(forwards) }
}

fn deny_logs() -> FilterKind {
    let cfg = DenyLogsFilterConfig {
        config_path: Some("filters.no_logs".to_string()),
        forwards: strings(&["sinks.console"]),
    };
    FilterKind::DenyLogs(DenyLogsFilter::new(&cfg))
}

fn deny_telemetry() -> FilterKind {
    let cfg = DenyTelemetryFilterConfig { config_path: None, forwards: Vec::new() };
    FilterKind::DenyTelemetry(DenyTelemetryFilter::new(&cfg))
}

#[test]
fn deny_logs_passes_telemetry_and_flush() {
    let mut f = deny_logs();
    let out = f.process_all(vec![metric("m1", 1.0), log("l1"), metric("m2", 2.0), Event::TimerFlush(5)]);
    assert_eq!(out, vec![metric("m1", 1.0), metric("m2", 2.0), Event::TimerFlush(5)]);
}

#[test]
fn deny_telemetry_passes_logs_and_flush() {
    let mut f = deny_telemetry();
    let out = f.process_all(vec![metric("m1", 1.0), log("l1"), metric("m2", 2.0), Event::TimerFlush(5)]);
    assert_eq!(out, vec![log("l1"), Event::TimerFlush(5)]);
}

#[test]
fn deny_logs_process_appends() {
    let cfg = DenyLogsFilterConfig { config_path: None, forwards: Vec::new() };
    let mut f = DenyLogsFilter::new(&cfg);
    let mut res = vec![Event::TimerFlush(1)];
    assert!(f.process(log("dropped"), &mut res).is_ok());
    assert_eq!(res, vec![Event::TimerFlush(1)]);
    assert!(f.process(metric("kept", 3.0), &mut res).is_ok());
    assert_eq!(res, vec![Event::TimerFlush(1), metric("kept", 3.0)]);
}

#[test]
fn deny_telemetry_process_appends() {
    let cfg = DenyTelemetryFilterConfig { config_path: None, forwards: Vec::new() };
    let mut f = DenyTelemetryFilter::new(&cfg);
    let mut res = Vec::new();
    assert!(f.process(metric("dropped", 3.0), &mut res).is_ok());
    assert!(res.is_empty());
    assert!(f.process(log("kept"), &mut res).is_ok());
    assert!(f.process(Event::TimerFlush(9), &mut res).is_ok());
    assert_eq!(res, vec![log("kept"), Event::TimerFlush(9)]);
}

#[test]
fn deny_logs_twice_is_once() {
    let trace = || vec![log("a"), metric("m", 1.0), log("b"), Event::TimerFlush(1), metric("n", 2.0), Event::TimerFlush(2)];
    let once = deny_logs().process_all(trace());
    let twice = deny_logs().process_all(deny_logs().process_all(trace()));
    assert_eq!(once, twice);
}

#[test]
fn filter_step_clears_scratch() {
    let mut f = deny_logs();
    let mut scratch = vec![metric("stale", 0.0)];
    assert!(f.step(log("x"), &mut scratch).is_ok());
    assert!(scratch.is_empty());
    assert!(f.step(Event::TimerFlush(3), &mut scratch).is_ok());
    assert_eq!(scratch, vec![Event::TimerFlush(3)]);
}

#[test]
fn window_data_precedes_its_flush() {
    let mut f = deny_telemetry();
    let out = f.process_all(vec![log("a"), metric("m", 1.0), log("b"), Event::TimerFlush(7)]);
    assert_eq!(out.last(), Some(&Event::TimerFlush(7)));
    assert_eq!(out, vec![log("a"), log("b"), Event::TimerFlush(7)]);
}

#[test]
fn flush_epochs_survive_filter_in_order() {
    let mut f = deny_logs();
    let out = f.process_all(vec![Event::TimerFlush(1), log("a"), Event::TimerFlush(2), Event::TimerFlush(4)]);
    assert_eq!(out, vec![Event::TimerFlush(1), Event::TimerFlush(2), Event::TimerFlush(4)]);
}

#[test]
fn timer_rejects_zero_interval() {
    assert!(FlushTimer::new(0).is_none());
    let t = FlushTimer::new(60).unwrap();
    assert_eq!(t.interval, 60);
    assert_eq!(t.last, None);
}

#[test]
fn timer_tick_epochs() {
    let mut t = FlushTimer::new(60).unwrap();
    assert_eq!(t.tick(125), Some(2));
    assert_eq!(t.tick(170), None);
    assert_eq!(t.tick(180), Some(3));
    assert_eq!(t.last, Some(3));
}

#[test]
fn timer_backward_jump_is_silent() {
    let mut t = FlushTimer::new(1).unwrap();
    assert_eq!(t.tick(100), Some(100));
    assert_eq!(t.tick(90), None);
    assert_eq!(t.tick(100), None);
    assert_eq!(t.tick(101), Some(101));
}

#[test]
fn timer_forward_jump_skips() {
    let mut t = FlushTimer::new(10).unwrap();
    let out = t.run(&vec![10, 15, 20, 95, 40, 100]);
    assert_eq!(out, vec![1, 2, 9, 10]);
    assert_eq!(t.last, Some(10));
}

#[test]
fn unresolved_forward_is_rejected() {
    let cfg = TopologyConfig {
        sinks: strings(&["sinks.console"]),
        filters: Vec::new(),
        sources: vec![node("sources.statsd.primary", &["sinks.nonexistent"])],
        internal: node("sources.internal", &["sinks.console"]),
    };
    match build_topology(&cfg) {
        Err(ConfigError::UnresolvedForward { config_path, forward }) => {
            assert_eq!(config_path, "sources.statsd.primary");
            assert_eq!(forward, "sinks.nonexistent");
        }
        other => panic!("unexpected {:?}", other),
    }
}

#[test]
fn duplicate_config_path_is_rejected() {
    let cfg = TopologyConfig {
        sinks: strings(&["sinks.console", "sinks.console"]),
        filters: Vec::new(),
        sources: Vec::new(),
        internal: node("sources.internal", &[]),
    };
    match build_topology(&cfg) {
        Err(ConfigError::DuplicateConfigPath(p)) => assert_eq!(p, "sinks.console"),
        other => panic!("unexpected {:?}", other),
    }
}

#[test]
fn filter_may_not_forward_to_later_filter() {
    let cfg = TopologyConfig {
        sinks: strings(&["sinks.null"]),
        filters: vec![node("filters.a", &["filters.b"]), node("filters.b", &["sinks.null"])],
        sources: Vec::new(),
        internal: node("sources.internal", &["filters.a"]),
    };
    assert!(matches!(build_topology(&cfg), Err(ConfigError::UnresolvedForward { .. })));
}

#[test]
fn filter_may_not_forward_to_itself() {
    let cfg = TopologyConfig {
        sinks: Vec::new(),
        filters: vec![node("filters.loop", &["filters.loop"])],
        sources: Vec::new(),
        internal: node("sources.internal", &[]),
    };
    assert!(matches!(build_topology(&cfg), Err(ConfigError::UnresolvedForward { .. })));
}

#[test]
fn silent_source_still_gets_flushed_sink() {
    let cfg = TopologyConfig {
        sinks: strings(&["sinks.wavefront", "sinks.console"]),
        filters: vec![node("filters.no_logs", &["sinks.console"])],
        sources: vec![
            node("sources.statsd.primary", &["sinks.wavefront"]),
            node("sources.graphite.primary", &["filters.no_logs", "sinks.wavefront"]),
        ],
        internal: node("sources.internal", &["sinks.console"]),
    };
    let t = build_topology(&cfg).unwrap();
    assert_eq!(t.queues, strings(&["sinks.wavefront", "sinks.console", "filters.no_logs"]));
    assert_eq!(t.filter_forwards, vec![vec![1]]);
    assert_eq!(t.source_forwards, vec![vec![0], vec![2, 0]]);
    assert_eq!(t.internal_forwards, vec![1]);
    assert_eq!(t.flush_targets, vec![0, 2, 1]);
}

#[test]
fn populate_forwards_records_top_level() {
    let available = strings(&["sinks.a", "sinks.b"]);
    let mut sends = vec![7];
    let mut top = vec![1];
    let r = populate_forwards(&mut sends, &mut top, true, &strings(&["sinks.b", "sinks.a", "sinks.b"]), &"sources.x".to_string(), &available);
    assert!(r.is_ok());
    assert_eq!(sends, vec![7, 1, 0, 1]);
    assert_eq!(top, vec![1, 0]);
    let mut top2 = Vec::new();
    let mut sends2 = Vec::new();
    assert!(populate_forwards(&mut sends2, &mut top2, false, &strings(&["sinks.a"]), &"filters.y".to_string(), &available).is_ok());
    assert!(top2.is_empty());
    assert_eq!(sends2, vec![0]);
}

#[test]
fn tags_serialize_sorted_whatever_insert_order() {
    let mut a = TagMap::new();
    a.insert("source".to_string(), "cernan".to_string());
    a.insert("host".to_string(), "web1".to_string());
    a.insert("env".to_string(), "prod".to_string());
    let mut b = TagMap::new();
    b.insert("env".to_string(), "prod".to_string());
    b.insert("source".to_string(), "cernan".to_string());
    b.insert("host".to_string(), "web1".to_string());
    assert_eq!(a.serialize(), "env:prod,host:web1,source:cernan");
    assert_eq!(a.serialize(), b.serialize());
    assert_eq!(a, b);
}

#[test]
fn tags_insert_replaces_value() {
    let mut a = TagMap::new();
    a.insert("host".to_string(), "web1".to_string());
    a.insert("host".to_string(), "web2".to_string());
    assert_eq!(a.len(), 1);
    assert_eq!(a.get(&"host".to_string()), Some("web2".to_string()));
    assert_eq!(a.get(&"env".to_string()), None);
    assert_eq!(a.serialize(), "host:web2");
    assert_eq!(TagMap::new().serialize(), "");
}

#[test]
fn key_order_is_lexicographic() {
    assert!(key_less(&"a".to_string(), &"b".to_string()));
    assert!(key_less(&"ab".to_string(), &"abc".to_string()));
    assert!(!key_less(&"abc".to_string(), &"ab".to_string()));
    assert!(!key_less(&"x".to_string(), &"x".to_string()));
    assert!(key_less(&"".to_string(), &"a".to_string()));
    assert!(key_less(&"Z".to_string(), &"a".to_string()));
}

#[test]
fn verbosity_levels() {
    assert_eq!(log_level(0), LogLevel::Error);
    assert_eq!(log_level(1), LogLevel::Warning);
    assert_eq!(log_level(2), LogLevel::Info);
    assert_eq!(log_level(3), LogLevel::Debug);
    assert_eq!(log_level(4), LogLevel::Trace);
    assert_eq!(log_level(17), LogLevel::Trace);
}

#[test]
fn flush_marker_is_recognised() {
    assert!(Event::TimerFlush(3).is_timer_flush());
    assert!(!metric("m", 1.0).is_timer_flush());
    assert!(!log("l").is_timer_flush());
}

#[test]
fn filter_kind_process_dispatches() {
    let mut f = deny_telemetry();
    let mut res = Vec::new();
    assert!(f.process(metric("m", 1.0), &mut res).is_ok());
    assert!(f.process(log("l"), &mut res).is_ok());
    assert_eq!(res, vec![log("l")]);
    let mut g = deny_logs();
    assert!(g.process(log("l"), &mut res).is_ok());
    assert!(g.process(metric("m", 1.0), &mut res).is_ok());
    assert_eq!(res, vec![log("l"), metric("m", 1.0)]);
}
