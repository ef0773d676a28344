use std::collections::VecDeque;

use rustpulse::alerts::{
    compute_status, is_active, matches_service, metric_window_ok, metric_window_values,
    window_delta_ok,
};
use rustpulse::error::AppError;
use rustpulse::models::{
    finite_bits, AlertOperator, AlertRule, AlertSeverity, AlertSourceType, AlertStatus,
    AlertsQuery, CreateAlertRuleRequest, HeartbeatIngest, LogIngest, LogLevel, LogsQuery,
    MetricEvent, MetricIngest, MetricQuery, OneOrMany, RealtimeEvent, ServiceStatus, StoreConfig,
    Tag, Tags, UpdateAlertRuleRequest,
};
use rustpulse::series::{compute_bucket_start, SeriesData};
use rustpulse::auth::require_admin;
use rustpulse::settings::{parse_unsigned, setting_or, DEFAULT_PORT};
use rustpulse::socket::{socket_step, SocketAction, SocketInput};
use rustpulse::store::Store;
use rustpulse::text::{str_contains, str_is_blank, vec_text_lt, chars_of};
use rustpulse::time::{compute_window_start, Timestamp};

fn ts(secs: i64) -> Timestamp {
    Timestamp { secs, nanos: 0 }
}

fn now_ts() -> Timestamp {
    let now = chrono::Utc::now();
    Timestamp { secs: now.timestamp(), nanos: now.timestamp_subsec_nanos() }
}

fn config(metric_retention: usize, log_retention: usize) -> StoreConfig {
    StoreConfig {
        metric_retention,
        log_retention,
        degraded_after_secs: 15,
        offline_after_secs: 30,
        default_environment: "dev".to_string(),
    }
}

fn metric(service: &str, name: &str, value: f64, at: Timestamp) -> MetricIngest {
    MetricIngest {
        service: service.into(),
        metric: name.into(),
        value_bits: value.to_bits(),
        timestamp: at,
        tags: Tags::Nil,
    }
}

fn log(service: &str, level: LogLevel, message: &str, at: Timestamp) -> LogIngest {
    LogIngest {
        service: service.into(),
        level,
        message: message.into(),
        timestamp: at,
        metadata: Tags::Nil,
    }
}

fn rule_request(name: &str, source: AlertSourceType, window: u64) -> CreateAlertRuleRequest {
    CreateAlertRuleRequest {
        name: name.into(),
        service: "*".into(),
        source_type: source,
        metric: Some("cpu".into()),
        level: None,
        operator: AlertOperator::GreaterThan,
        threshold_bits: 1.0f64.to_bits(),
        window_seconds: window,
        severity: AlertSeverity::Low,
        enabled: None,
    }
}

fn no_alert_filter() -> AlertsQuery {
    AlertsQuery { status: None, severity: None, service: None, from: None, to: None }
}

fn bad_request_message<T>(r: Result<T, AppError>) -> String {
    match r {
        Err(AppError::BadRequest(m)) => m,
        Err(other) => panic!("unexpected error {other:?}"),
        Ok(_) => panic!("expected a bad request"),
    }
}

#[test]
fn one_or_many_into_vec() {
    assert_eq!(OneOrMany::One(3).into_vec(), vec![3]);
    assert_eq!(OneOrMany::Many(vec![1, 2]).into_vec(), vec![1, 2]);
    assert_eq!(OneOrMany::<u8>::Many(vec![]).into_vec(), Vec::<u8>::new());
}

#[test]
fn active_statuses() {
    assert!(is_active(&AlertStatus::Pending));
    assert!(is_active(&AlertStatus::Firing));
    assert!(!is_active(&AlertStatus::Resolved));
}

#[test]
fn wildcard_rule_matches_every_service() {
    let mut store = Store::new(config(10, 10));
    let rule = store.create_rule(rule_request("cpu", AlertSourceType::Metric, 60)).unwrap();
    assert!(matches_service(&rule, "anything"));
    let mut named = rule.copy();
    named.service = "api".into();
    assert!(matches_service(&named, "api"));
    assert!(!matches_service(&named, "web"));
}

#[test]
fn metric_validation_errors() {
    let mut store = Store::new(config(10, 10));
    let now = now_ts();
    assert_eq!(
        bad_request_message(store.ingest_metric(metric(" \t", "cpu", 1.0, now))),
        "metric service is required"
    );
    assert_eq!(
        bad_request_message(store.ingest_metric(metric("api", "\u{3000}", 1.0, now))),
        "metric name is required"
    );
    assert_eq!(
        bad_request_message(store.ingest_metric(metric("api", "cpu", f64::NAN, now))),
        "metric value must be finite"
    );
    assert_eq!(
        bad_request_message(store.ingest_metric(metric("api", "cpu", f64::INFINITY, now))),
        "metric value must be finite"
    );
    assert!(store.services.is_empty());
    assert!(store.metrics.is_empty());
}

#[test]
fn log_and_heartbeat_validation_errors() {
    let mut store = Store::new(config(10, 10));
    let now = now_ts();
    assert_eq!(
        bad_request_message(store.ingest_log(log("", LogLevel::Info, "hi", now))),
        "log service is required"
    );
    assert_eq!(
        bad_request_message(store.ingest_log(log("api", LogLevel::Info, "  ", now))),
        "log message is required"
    );
    assert_eq!(
        bad_request_message(
            store.ingest_heartbeat(HeartbeatIngest { service: "\n".into(), timestamp: now })
        ),
        "heartbeat service is required"
    );
    assert!(store.services.is_empty());
}

#[test]
fn rule_validation_errors() {
    let mut store = Store::new(config(10, 10));
    let mut blank = rule_request(" ", AlertSourceType::Metric, 60);
    assert_eq!(bad_request_message(store.create_rule(blank.clone())), "alert rule name is required");
    blank.name = "ok".into();
    blank.threshold_bits = f64::NEG_INFINITY.to_bits();
    assert_eq!(
        bad_request_message(store.create_rule(blank.clone())),
        "alert rule threshold must be finite"
    );
    blank.threshold_bits = 2.0f64.to_bits();
    blank.window_seconds = 0;
    assert_eq!(
        bad_request_message(store.create_rule(blank)),
        "alert rule window_seconds must be greater than zero"
    );
    assert!(store.rules.is_empty());
}

#[test]
fn rule_defaults_to_enabled_and_lists_by_name() {
    let mut store = Store::new(config(10, 10));
    store.create_rule(rule_request("zeta", AlertSourceType::Metric, 60)).unwrap();
    let mut off = rule_request("alpha", AlertSourceType::Log, 30);
    off.enabled = Some(false);
    store.create_rule(off).unwrap();
    store.create_rule(rule_request("Beta", AlertSourceType::Heartbeat, 30)).unwrap();
    let names: Vec<String> = store.list_rules().into_iter().map(|r| r.name).collect();
    assert_eq!(names, vec!["Beta", "alpha", "zeta"]);
    let rules = store.list_rules();
    assert!(!rules[1].enabled);
    assert!(rules[2].enabled);
}

#[test]
fn update_missing_rule_is_not_found_with_its_identifier() {
    let mut store = Store::new(config(10, 10));
    let id: u128 = 0x0123_4567_89ab_cdef_0123_4567_89ab_cdef;
    let request = UpdateAlertRuleRequest {
        name: Some("x".into()),
        service: None,
        source_type: None,
        metric: None,
        level: None,
        operator: None,
        threshold_bits: None,
        window_seconds: None,
        severity: None,
        enabled: None,
    };
    match store.update_rule(id, request) {
        Err(AppError::NotFound(m)) => {
            assert_eq!(m, "alert rule '01234567-89ab-cdef-0123-456789abcdef' not found")
        }
        _ => panic!("expected not found"),
    }
    match store.delete_rule(id) {
        Err(AppError::NotFound(m)) => {
            assert_eq!(m, "alert rule '01234567-89ab-cdef-0123-456789abcdef' not found")
        }
        _ => panic!("expected not found"),
    }
}

#[test]
fn update_keeps_changes_even_when_invalid() {
    let mut store = Store::new(config(10, 10));
    let rule = store.create_rule(rule_request("cpu", AlertSourceType::Metric, 60)).unwrap();
    let request = UpdateAlertRuleRequest {
        name: None,
        service: Some("api".into()),
        source_type: None,
        metric: None,
        level: Some(LogLevel::Warn),
        operator: None,
        threshold_bits: None,
        window_seconds: Some(0),
        severity: Some(AlertSeverity::Critical),
        enabled: Some(false),
    };
    assert_eq!(
        bad_request_message(store.update_rule(rule.id, request)),
        "alert rule window_seconds must be greater than zero"
    );
    let stored = &store.rules[0];
    assert_eq!(stored.window_seconds, 0);
    assert_eq!(stored.service, "api");
    assert_eq!(stored.level, Some(LogLevel::Warn));
    assert_eq!(stored.severity, AlertSeverity::Critical);
    assert!(!stored.enabled);
    assert_eq!(stored.metric.as_deref(), Some("cpu"));
}

#[test]
fn delete_rule_drops_rule_and_its_evaluation_state() {
    let mut store = Store::new(config(10, 10));
    let rule = store.create_rule(rule_request("cpu", AlertSourceType::Metric, 60)).unwrap();
    let other = store.create_rule(rule_request("mem", AlertSourceType::Metric, 60)).unwrap();
    let now = now_ts();
    store.apply_rule_condition(&rule, &"api".to_string(), 0, true, now, "m".into()).unwrap();
    store.apply_rule_condition(&other, &"api".to_string(), 0, false, now, "m".into()).unwrap();
    assert_eq!(store.runtime.len(), 2);
    store.delete_rule(rule.id).unwrap();
    assert_eq!(store.rules.len(), 1);
    assert_eq!(store.rules[0].id, other.id);
    assert_eq!(store.runtime.len(), 1);
    assert_eq!(store.runtime[0].rule_id, other.id);
    // the alert it raised stays in the history
    assert_eq!(store.alerts.len(), 1);
}

#[test]
fn retention_keeps_newest_samples() {
    let mut store = Store::new(config(2, 1));
    let base = now_ts();
    for (i, v) in [1.0, 2.0, 3.0].iter().enumerate() {
        store.ingest_metric(metric("api", "cpu", *v, Timestamp { secs: base.secs + i as i64, nanos: 0 })).unwrap();
        store.ingest_log(log("api", LogLevel::Info, "line", base)).unwrap();
    }
    assert_eq!(store.metrics.len(), 2);
    assert_eq!(f64::from_bits(store.metrics[0].value_bits), 2.0);
    assert_eq!(f64::from_bits(store.metrics[1].value_bits), 3.0);
    assert_eq!(store.logs.len(), 1);
    let mut none = Store::new(config(0, 0));
    none.ingest_metric(metric("api", "cpu", 1.0, base)).unwrap();
    assert!(none.metrics.is_empty());
    assert_eq!(none.services.len(), 1);
}

#[test]
fn environment_comes_from_env_tag_or_default() {
    let mut store = Store::new(config(10, 10));
    let now = now_ts();
    let mut m = metric("api", "cpu", 1.0, now);
    m.tags = Tags::Cons(
        Tag { key: "env".into(), value: "prod".into() },
        Box::new(Tags::Cons(Tag { key: "zone".into(), value: "a".into() }, Box::new(Tags::Nil))),
    );
    let first = store.ingest_metric(m).unwrap();
    assert_eq!(first.changed.as_ref().unwrap().environment, "prod");
    store.ingest_log(log("api", LogLevel::Info, "x", now)).unwrap();
    assert_eq!(store.services[0].environment, "dev");
    assert_eq!(store.services.len(), 1);
}

#[test]
fn first_contact_is_reported_and_later_contact_is_not() {
    let mut store = Store::new(config(10, 10));
    let now = now_ts();
    let first = store.ingest_metric(metric("api", "cpu", 1.0, now)).unwrap();
    let svc = first.changed.expect("a new service is announced");
    assert_eq!(svc.status, ServiceStatus::Healthy);
    assert_eq!(svc.created_at, now);
    let later = Timestamp { secs: now.secs + 1, nanos: now.nanos };
    let second = store.ingest_metric(metric("api", "cpu", 1.0, later)).unwrap();
    assert!(second.changed.is_none());
    assert_eq!(store.services[0].last_seen_at, later);
    // an older sample does not move the last-seen instant back
    let earlier = Timestamp { secs: now.secs - 5, nanos: now.nanos };
    store.ingest_metric(metric("api", "cpu", 1.0, earlier)).unwrap();
    assert_eq!(store.services[0].last_seen_at, later);
}

#[test]
fn contact_after_silence_marks_service_healthy_again() {
    let mut store = Store::new(config(10, 10));
    let old = Timestamp { secs: now_ts().secs - 100, nanos: 0 };
    store.ingest_heartbeat(HeartbeatIngest { service: "gw".into(), timestamp: old }).unwrap();
    let round = store.start_housekeeping();
    assert_eq!(round.changes.len(), 1);
    assert_eq!(store.services[0].status, ServiceStatus::Offline);
    let svc = store
        .ingest_heartbeat(HeartbeatIngest { service: "gw".into(), timestamp: now_ts() })
        .unwrap();
    assert_eq!(svc.status, ServiceStatus::Healthy);
}

#[test]
fn health_thresholds() {
    let cfg = config(1, 1);
    let seen = ts(1_000);
    assert_eq!(compute_status(&cfg, seen, ts(1_014)), ServiceStatus::Healthy);
    assert_eq!(compute_status(&cfg, seen, ts(1_015)), ServiceStatus::Degraded);
    assert_eq!(compute_status(&cfg, seen, ts(1_029)), ServiceStatus::Degraded);
    assert_eq!(compute_status(&cfg, seen, ts(1_030)), ServiceStatus::Offline);
    assert_eq!(compute_status(&cfg, seen, ts(900)), ServiceStatus::Healthy);
    let mut huge = config(1, 1);
    huge.offline_after_secs = u64::MAX;
    huge.degraded_after_secs = u64::MAX;
    assert_eq!(compute_status(&huge, seen, ts(1_015)), ServiceStatus::Degraded);
    assert_eq!(compute_status(&huge, seen, ts(1_030)), ServiceStatus::Offline);
}

#[test]
fn window_start_edges() {
    let now = ts(1_000);
    assert_eq!(compute_window_start(now, 60), Some(ts(940)));
    // a window above i64::MAX seconds wraps to a negative length
    assert_eq!(compute_window_start(now, u64::MAX), Some(ts(1_001)));
    assert!(window_delta_ok(9_223_372_036_854_775));
    assert!(!window_delta_ok(9_223_372_036_854_776));
    assert_eq!(compute_window_start(now, 9_223_372_036_854_775), None);
}

#[test]
fn metric_window_is_inclusive_and_filtered() {
    let rule = AlertRule {
        id: 1,
        name: "cpu".into(),
        service: "api".into(),
        source_type: AlertSourceType::Metric,
        metric: Some("cpu".into()),
        level: None,
        operator: AlertOperator::Equal,
        threshold_bits: 0,
        window_seconds: 10,
        severity: AlertSeverity::Low,
        enabled: true,
    };
    let mut ms = VecDeque::new();
    for (svc, name, at, v) in [
        ("api", "cpu", 90, 1.0),
        ("api", "cpu", 89, 2.0),
        ("api", "cpu", 100, 3.0),
        ("api", "cpu", 101, 4.0),
        ("web", "cpu", 95, 5.0),
        ("api", "mem", 95, 6.0),
    ] {
        ms.push_back(MetricEvent {
            id: 0,
            service: svc.into(),
            metric: name.into(),
            value_bits: f64::to_bits(v),
            timestamp: ts(at),
            tags: Tags::Nil,
        });
    }
    let now = ts(100);
    assert!(metric_window_ok(&rule, "api", now));
    let values = metric_window_values(&rule, "api", &ms, now).unwrap();
    let values: Vec<f64> = values.into_iter().map(f64::from_bits).collect();
    assert_eq!(values, vec![1.0, 3.0]);
    assert!(metric_window_values(&rule, "web", &ms, now).is_none());
    let mut log_rule = rule.copy();
    log_rule.source_type = AlertSourceType::Log;
    assert!(metric_window_values(&log_rule, "api", &ms, now).is_none());
}

#[test]
fn alert_lifecycle_pending_firing_resolved() {
    let mut store = Store::new(config(10, 10));
    let rule = store.create_rule(rule_request("cpu", AlertSourceType::Metric, 60)).unwrap();
    let svc = "api".to_string();
    let t0 = ts(1_000_000);
    let events = store.apply_rule_condition(&rule, &svc, 5.0f64.to_bits(), true, t0, "m1".into()).unwrap();
    assert!(events.is_empty());
    assert_eq!(store.alerts.len(), 1);
    assert_eq!(store.alerts[0].status, AlertStatus::Pending);
    assert_eq!(store.alerts[0].triggered_at, t0);
    // still within the window
    store.apply_rule_condition(&rule, &svc, 6.0f64.to_bits(), true, ts(1_000_059), "m2".into()).unwrap();
    assert_eq!(store.alerts[0].status, AlertStatus::Pending);
    assert_eq!(store.alerts[0].message, "m2");
    // held for the window
    let fired = store.apply_rule_condition(&rule, &svc, 7.0f64.to_bits(), true, ts(1_000_060), "m3".into()).unwrap();
    assert_eq!(fired.len(), 1);
    assert!(matches!(&fired[0], RealtimeEvent::AlertFired(a) if a.status == AlertStatus::Firing));
    assert_eq!(store.alerts.len(), 1);
    // condition clears
    let resolved = store.apply_rule_condition(&rule, &svc, 0.0f64.to_bits(), false, ts(1_000_070), "m4".into()).unwrap();
    assert_eq!(resolved.len(), 1);
    assert_eq!(store.alerts[0].status, AlertStatus::Resolved);
    assert_eq!(store.alerts[0].resolved_at, Some(ts(1_000_070)));
    assert_eq!(store.alerts[0].observed_bits, Some(0.0f64.to_bits()));
    // a new episode raises a new alert
    store.apply_rule_condition(&rule, &svc, 9.0f64.to_bits(), true, ts(1_000_080), "m5".into()).unwrap();
    assert_eq!(store.alerts.len(), 2);
    assert_eq!(store.alerts[0].status, AlertStatus::Resolved);
    assert_eq!(store.alerts[1].status, AlertStatus::Pending);
    let active = store.query_alerts(&AlertsQuery { status: Some(AlertStatus::Pending), ..no_alert_filter() });
    assert_eq!(active.len(), 1);
}

#[test]
fn each_service_keeps_its_own_active_alert() {
    let mut store = Store::new(config(10, 10));
    let rule = store.create_rule(rule_request("cpu", AlertSourceType::Metric, 60)).unwrap();
    let api = "api".to_string();
    let web = "web".to_string();
    store.apply_rule_condition(&rule, &api, 1, true, ts(2_000), "a".into()).unwrap();
    store.apply_rule_condition(&rule, &web, 1, true, ts(2_001), "w".into()).unwrap();
    store.apply_rule_condition(&rule, &api, 1, true, ts(2_002), "a2".into()).unwrap();
    assert_eq!(store.alerts.len(), 2);
    assert_eq!(store.alerts[0].service, "api");
    assert_eq!(store.alerts[0].message, "a2");
    assert_eq!(store.alerts[1].service, "web");
    // clearing one service leaves the other active
    store.apply_rule_condition(&rule, &web, 0, false, ts(2_003), "w2".into()).unwrap();
    assert_eq!(store.alerts[0].status, AlertStatus::Pending);
    assert_eq!(store.alerts[1].status, AlertStatus::Resolved);
}

#[test]
fn huge_window_stops_evaluation_of_pending_alert() {
    let mut store = Store::new(config(10, 10));
    let mut req = rule_request("beat", AlertSourceType::Heartbeat, 60);
    req.window_seconds = u64::MAX / 2;
    let rule = store.create_rule(req).unwrap();
    let svc = "api".to_string();
    let r = store.apply_rule_condition(&rule, &svc, 0, true, ts(1_000), "m".into());
    assert!(r.is_none());
    // the alert raised before the check stays
    assert_eq!(store.alerts.len(), 1);
    // a condition that is not met still completes
    assert!(store.apply_rule_condition(&rule, &svc, 0, false, ts(1_001), "m".into()).is_some());
}

#[test]
fn log_plan_counts_by_level() {
    let mut store = Store::new(config(10, 10));
    let mut req = rule_request("errors", AlertSourceType::Log, 60);
    req.level = Some(LogLevel::Error);
    store.create_rule(req).unwrap();
    let mut disabled = rule_request("off", AlertSourceType::Log, 60);
    disabled.enabled = Some(false);
    store.create_rule(disabled).unwrap();
    let now = now_ts();
    store.ingest_log(log("api", LogLevel::Error, "a", now)).unwrap();
    store.ingest_log(log("api", LogLevel::Warn, "b", now)).unwrap();
    let (checks, stopped) = store.log_rule_plan("api", now);
    assert!(!stopped);
    assert_eq!(checks.len(), 1);
    assert_eq!(checks[0].count, 1);
}

#[test]
fn heartbeat_plan_covers_wildcard_and_named_services() {
    let mut store = Store::new(config(10, 10));
    let base = now_ts();
    store.ingest_heartbeat(HeartbeatIngest { service: "a".into(), timestamp: Timestamp { secs: base.secs - 40, nanos: 0 } }).unwrap();
    store.ingest_heartbeat(HeartbeatIngest { service: "b".into(), timestamp: base }).unwrap();
    store.create_rule(rule_request("all", AlertSourceType::Heartbeat, 30)).unwrap();
    let mut named = rule_request("missing", AlertSourceType::Heartbeat, 30);
    named.service = "c".into();
    store.create_rule(named).unwrap();
    let mut only_b = rule_request("b only", AlertSourceType::Heartbeat, 30);
    only_b.service = "b".into();
    store.create_rule(only_b).unwrap();
    let now = Timestamp { secs: base.secs, nanos: 999_999_999 };
    let checks = store.heartbeat_rule_plan(now);
    let seen: Vec<(String, i64)> =
        checks.iter().map(|c| (c.service_name.clone(), c.seconds_since_last_seen)).collect();
    assert_eq!(seen.len(), 3);
    assert_eq!(seen[0].0, "a");
    assert!(seen[0].1 >= 40);
    assert_eq!(seen[1].0, "b");
    assert_eq!(seen[2].0, "b");
}

#[test]
fn log_search_orders_newest_first_and_limits() {
    let mut store = Store::new(config(10, 10));
    let mut l = log("api", LogLevel::Info, "Disk FULL", ts(300));
    l.metadata = Tags::Cons(Tag { key: "host".into(), value: "Alpha".into() }, Box::new(Tags::Nil));
    store.ingest_log(log("api", LogLevel::Info, "first", ts(100))).unwrap();
    store.ingest_log(log("api", LogLevel::Info, "second", ts(200))).unwrap();
    store.ingest_log(l).unwrap();
    store.ingest_log(log("api", LogLevel::Info, "tie", ts(200))).unwrap();
    let all = LogsQuery { service: None, level: None, q: None, from: None, to: None, limit: None };
    let msgs: Vec<String> = store.query_logs(&all).into_iter().map(|l| l.message).collect();
    assert_eq!(msgs, vec!["Disk FULL", "second", "tie", "first"]);
    let limited = LogsQuery { limit: Some(2), ..all.clone() };
    assert_eq!(store.query_logs(&limited).len(), 2);
    let text = LogsQuery { q: Some("full".into()), ..all.clone() };
    assert_eq!(store.query_logs(&text).len(), 1);
    let meta = LogsQuery { q: Some("ALPHA".into()), ..all.clone() };
    assert_eq!(store.query_logs(&meta)[0].message, "Disk FULL");
    let range = LogsQuery { from: Some(ts(150)), to: Some(ts(200)), ..all };
    let msgs: Vec<String> = store.query_logs(&range).into_iter().map(|l| l.message).collect();
    assert_eq!(msgs, vec!["second", "tie"]);
}

#[test]
fn metric_series_raw_and_bucketed() {
    let mut store = Store::new(config(100, 10));
    for (at, v) in [(130, 3.0), (100, 1.0), (119, 2.0), (125, 9.0)] {
        store.ingest_metric(metric("api", "cpu", v, ts(at))).unwrap();
    }
    store.ingest_metric(metric("api", "mem", 7.0, ts(110))).unwrap();
    let id = store.services[0].id;
    let raw = store
        .query_metrics(id, &MetricQuery { metric: Some("cpu".into()), from: Some(ts(100)), to: Some(ts(130)), resolution: None })
        .unwrap();
    match raw.data {
        SeriesData::Raw(points) => {
            let secs: Vec<i64> = points.iter().map(|p| p.timestamp.secs).collect();
            assert_eq!(secs, vec![100, 119, 125, 130]);
        }
        _ => panic!("expected raw points"),
    }
    let buckets = store
        .query_metrics(id, &MetricQuery { metric: Some("cpu".into()), from: Some(ts(100)), to: Some(ts(130)), resolution: Some(20) })
        .unwrap();
    match buckets.data {
        SeriesData::Buckets(groups) => {
            let keys: Vec<i64> = groups.iter().map(|g| g.start_secs).collect();
            assert_eq!(keys, vec![100, 120]);
            let second: Vec<f64> = groups[1].values.iter().map(|b| f64::from_bits(*b)).collect();
            assert_eq!(second, vec![9.0, 3.0]);
        }
        _ => panic!("expected buckets"),
    }
    assert_eq!(
        bad_request_message(store.query_metrics(id, &MetricQuery { metric: None, from: None, to: None, resolution: None })),
        "metric query parameter is required"
    );
    assert_eq!(
        bad_request_message(store.query_metrics(id, &MetricQuery { metric: Some("cpu".into()), from: Some(ts(200)), to: Some(ts(100)), resolution: None })),
        "metric 'from' must be before 'to'"
    );
    assert!(matches!(
        store.query_metrics(id ^ 1, &MetricQuery { metric: Some("cpu".into()), from: None, to: None, resolution: None }),
        Err(AppError::NotFound(_))
    ));
}

#[test]
fn bucket_starts_round_toward_zero() {
    assert_eq!(compute_bucket_start(125, 60), 120);
    assert_eq!(compute_bucket_start(-125, 60), -120);
    assert_eq!(compute_bucket_start(-59, 60), 0);
    // a width above i64::MAX is taken as a negative width of the same size
    assert_eq!(compute_bucket_start(125, u64::MAX - 59), 120);
}

#[test]
fn overview_counts_and_details() {
    let mut store = Store::new(config(100, 100));
    let now = now_ts();
    store.ingest_metric(metric("api", "request_count", 10.0, now)).unwrap();
    store.ingest_metric(metric("web", "request_count", 5.0, now)).unwrap();
    store.ingest_metric(metric("api", "request_latency_ms", 40.0, now)).unwrap();
    store.ingest_metric(metric("api", "request_count", 99.0, Timestamp { secs: now.secs - 120, nanos: 0 })).unwrap();
    store.ingest_log(log("api", LogLevel::Error, "bad", now)).unwrap();
    store.ingest_log(log("api", LogLevel::Info, "ok", now)).unwrap();
    let rule = store.create_rule(rule_request("cpu", AlertSourceType::Metric, 60)).unwrap();
    store.apply_rule_condition(&rule, &"api".to_string(), 0, true, now, "m".into()).unwrap();
    let o = store.overview();
    assert_eq!(o.total_services, 2);
    assert_eq!(o.healthy_services, 2);
    assert_eq!(o.degraded_services + o.offline_services, 0);
    assert_eq!(o.active_alerts, 1);
    let requests: f64 = o.request_counts.iter().map(|b| f64::from_bits(*b)).sum();
    assert_eq!(requests, 15.0);
    assert_eq!(o.latencies.len(), 1);
    assert_eq!(o.recent_errors, 1);

    let api = store.services[0].id;
    let d = store.service_details(api).unwrap();
    assert_eq!(d.service.name, "api");
    assert_eq!(d.active_alerts.len(), 1);
    assert_eq!(d.recent_logs[0].message, "ok");
    assert_eq!(d.latest_metrics.len(), 3);
    assert_eq!(d.samples.request_counts.len(), 1);
    assert!(matches!(store.service_details(api ^ 1), Err(AppError::NotFound(_))));

    let listed = store.list_services();
    let names: Vec<&str> = listed.iter().map(|e| e.service.name.as_str()).collect();
    assert_eq!(names, vec!["api", "web"]);
}

#[test]
fn details_keep_the_newest_twenty_five() {
    let mut store = Store::new(config(100, 100));
    let base = now_ts();
    for i in 0..30 {
        store.ingest_metric(metric("api", "cpu", i as f64, Timestamp { secs: base.secs + i, nanos: 0 })).unwrap();
    }
    let d = store.service_details(store.services[0].id).unwrap();
    assert_eq!(d.latest_metrics.len(), 25);
    assert_eq!(f64::from_bits(d.latest_metrics[0].value_bits), 29.0);
    assert_eq!(f64::from_bits(d.latest_metrics[24].value_bits), 5.0);
}

#[test]
fn text_helpers() {
    assert!(str_is_blank(""));
    assert!(str_is_blank(" \t\n\u{00a0}\u{2003}"));
    assert!(!str_is_blank(" a "));
    assert!(str_contains("payment timeout", "timeout"));
    assert!(str_contains("abc", ""));
    assert!(!str_contains("abc", "abcd"));
    assert!(vec_text_lt(&chars_of("Zed"), &chars_of("alpha")));
    assert!(vec_text_lt(&chars_of("ab"), &chars_of("abc")));
    assert!(!vec_text_lt(&chars_of("abc"), &chars_of("abc")));
    assert!(finite_bits(1.5f64.to_bits()));
    assert!(!finite_bits(f64::NAN.to_bits()));
}

#[test]
fn admin_requests_need_the_bearer_token() {
    assert!(require_admin(Some("Bearer secret"), "secret").is_ok());
    assert!(matches!(require_admin(None, "secret"), Err(AppError::Unauthorized)));
    assert!(matches!(require_admin(Some("secret"), "secret"), Err(AppError::Unauthorized)));
    assert!(matches!(require_admin(Some("bearer secret"), "secret"), Err(AppError::Unauthorized)));
    assert!(matches!(require_admin(Some("Bearer  secret"), "secret"), Err(AppError::Unauthorized)));
    assert!(matches!(require_admin(Some("Bearer secret2"), "secret"), Err(AppError::Unauthorized)));
    assert!(matches!(require_admin(Some("Bearer"), ""), Err(AppError::Unauthorized)));
    assert!(require_admin(Some("Bearer "), "").is_ok());
}

#[test]
fn settings_parse_unsigned_decimals() {
    assert_eq!(parse_unsigned("8080", u16::MAX as u64), Some(8080));
    assert_eq!(parse_unsigned("+42", u64::MAX), Some(42));
    assert_eq!(parse_unsigned("007", u64::MAX), Some(7));
    assert_eq!(parse_unsigned("", u64::MAX), None);
    assert_eq!(parse_unsigned("+", u64::MAX), None);
    assert_eq!(parse_unsigned("-1", u64::MAX), None);
    assert_eq!(parse_unsigned(" 1", u64::MAX), None);
    assert_eq!(parse_unsigned("1x", u64::MAX), None);
    assert_eq!(parse_unsigned("65536", u16::MAX as u64), None);
    assert_eq!(parse_unsigned("65535", u16::MAX as u64), Some(65535));
    assert_eq!(parse_unsigned("18446744073709551615", u64::MAX), Some(u64::MAX));
    assert_eq!(parse_unsigned("18446744073709551616", u64::MAX), None);
    assert_eq!(parse_unsigned("5", 3), None);
    assert_eq!(setting_or(None, u16::MAX as u64, DEFAULT_PORT as u64), 8080);
    assert_eq!(setting_or(Some("abc"), u64::MAX, 15), 15);
    assert_eq!(setting_or(Some("90"), u64::MAX, 15), 90);
}

#[test]
fn socket_steps() {
    assert!(matches!(socket_step(SocketInput::Broadcast(Some("x".to_string()))), SocketAction::SendText(t) if t == "x"));
    assert!(matches!(socket_step(SocketInput::Broadcast(None)), SocketAction::Stop));
    assert!(matches!(socket_step(SocketInput::Ping(vec![1, 2])), SocketAction::SendPong(p) if p == vec![1, 2]));
    assert!(matches!(socket_step(SocketInput::Other), SocketAction::Continue));
    assert!(matches!(socket_step(SocketInput::Close), SocketAction::Stop));
    assert!(matches!(socket_step(SocketInput::Ended), SocketAction::Stop));
    assert!(matches!(socket_step(SocketInput::ReadFailed), SocketAction::Stop));
    assert!(matches!(socket_step(SocketInput::SendFailed), SocketAction::Stop));
}

#[test]
fn tags_insert_keeps_key_order_and_replaces() {
    let t = Tags::new()
        .insert("zone".into(), "a".into())
        .insert("env".into(), "prod".into())
        .insert("host".into(), "h1".into())
        .insert("env".into(), "dev".into());
    let mut keys = Vec::new();
    let mut cur = &t;
    while let Tags::Cons(tag, rest) = cur {
        keys.push(format!("{}={}", tag.key, tag.value));
        cur = rest;
    }
    assert_eq!(keys, vec!["env=dev", "host=h1", "zone=a"]);
    assert_eq!(t.get("env"), Some("dev".to_string()));
    assert_eq!(t.get("missing"), None);
}

#[test]
fn log_search_by_environment() {
    let mut store = Store::new(config(10, 10));
    let mut prod = log("api", LogLevel::Error, "boom", ts(100));
    prod.metadata = Tags::new().insert("env".into(), "prod".into());
    store.ingest_log(prod).unwrap();
    store.ingest_log(log("web", LogLevel::Error, "oops", ts(200))).unwrap();
    let mut later = log("api", LogLevel::Info, "later", ts(300));
    later.metadata = Tags::new().insert("env".into(), "prod".into());
    store.ingest_log(later).unwrap();
    let all = LogsQuery { service: None, level: None, q: None, from: None, to: None, limit: None };
    let in_prod: Vec<String> =
        store.query_logs_in_environment(&all, "prod").into_iter().map(|l| l.message).collect();
    assert_eq!(in_prod, vec!["later", "boom"]);
    let in_dev: Vec<String> =
        store.query_logs_in_environment(&all, "dev").into_iter().map(|l| l.message).collect();
    assert_eq!(in_dev, vec!["oops"]);
    let errors = LogsQuery { level: Some(LogLevel::Error), ..all.clone() };
    assert_eq!(store.query_logs_in_environment(&errors, "prod").len(), 1);
    assert!(store.query_logs_in_environment(&all, "staging").is_empty());
}

#[test]
fn repeated_evaluation_at_same_instant_changes_nothing() {
    let mut store = Store::new(config(10, 10));
    let mut rule = store.create_rule(rule_request("beat", AlertSourceType::Heartbeat, 60)).unwrap();
    rule.window_seconds = 0;
    let svc = "api".to_string();
    let first = store.apply_rule_condition(&rule, &svc, 1, true, ts(5_000), "m".into()).unwrap();
    // a zero window fires at once
    assert_eq!(first.len(), 1);
    assert_eq!(store.alerts[0].status, AlertStatus::Firing);
    assert_eq!(store.alerts[0].resolved_at, None);
    let second = store.apply_rule_condition(&rule, &svc, 1, true, ts(5_000), "m".into()).unwrap();
    assert!(second.is_empty());
    assert_eq!(store.alerts.len(), 1);
    assert_eq!(store.alerts[0].status, AlertStatus::Firing);
    store.apply_rule_condition(&rule, &svc, 1, false, ts(5_001), "m".into()).unwrap();
    assert_eq!(store.alerts[0].resolved_at, Some(ts(5_001)));
    let again = store.apply_rule_condition(&rule, &svc, 1, false, ts(5_001), "m".into()).unwrap();
    assert!(again.is_empty());
    assert_eq!(store.alerts[0].status, AlertStatus::Resolved);
}

#[test]
fn retention_over_a_batch_keeps_the_newest() {
    let mut store = Store::new(config(3, 10));
    for i in 0..5 {
        store.ingest_metric(metric("api", "cpu", i as f64, ts(100 + i))).unwrap();
    }
    let values: Vec<f64> = store.metrics.iter().map(|m| f64::from_bits(m.value_bits)).collect();
    assert_eq!(values, vec![2.0, 3.0, 4.0]);
}

#[test]
fn alerts_and_services_by_environment() {
    let mut store = Store::new(config(10, 10));
    let mut prod = metric("api", "cpu", 1.0, ts(100));
    prod.tags = Tags::new().insert("env".into(), "prod".into());
    store.ingest_metric(prod).unwrap();
    store.ingest_metric(metric("web", "cpu", 1.0, ts(100))).unwrap();
    let rule = store.create_rule(rule_request("cpu", AlertSourceType::Metric, 60)).unwrap();
    store.apply_rule_condition(&rule, &"api".to_string(), 1, true, ts(200), "a".into()).unwrap();
    store.apply_rule_condition(&rule, &"web".to_string(), 1, true, ts(300), "w".into()).unwrap();
    let in_prod = store.query_alerts_in_environment(&no_alert_filter(), "prod");
    assert_eq!(in_prod.len(), 1);
    assert_eq!(in_prod[0].service, "api");
    let in_dev = store.query_alerts_in_environment(&no_alert_filter(), "dev");
    assert_eq!(in_dev.len(), 1);
    assert_eq!(in_dev[0].service, "web");
    let names: Vec<String> =
        store.list_services_in_environment("dev").into_iter().map(|e| e.service.name).collect();
    assert_eq!(names, vec!["web"]);
    assert!(store.list_services_in_environment("staging").is_empty());
    assert_eq!(store.list_services().len(), 2);
}

#[test]
fn log_batch_keeps_the_newest_lines() {
    let mut store = Store::new(config(10, 2));
    for i in 0..4 {
        store.ingest_log(log("api", LogLevel::Info, &format!("l{i}"), ts(100 + i))).unwrap();
    }
    let msgs: Vec<String> = store.logs.iter().map(|l| l.message.clone()).collect();
    assert_eq!(msgs, vec!["l2", "l3"]);
}
