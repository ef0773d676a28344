use std::collections::VecDeque;

use rustpulse::alerts::{log_window_count, metric_window_values, should_transition_to_firing};
use rustpulse::models::{
    AlertOperator, AlertRule, AlertSeverity, AlertSourceType, AlertStatus, AlertsQuery,
    CreateAlertRuleRequest, HeartbeatIngest, LogEvent, LogIngest, LogLevel, LogsQuery,
    MetricEvent, MetricIngest, ServiceStatus, StoreConfig, Tags,
};
use rustpulse::store::Store;
use rustpulse::time::Timestamp;

fn now_ts() -> Timestamp {
    let now = chrono::Utc::now();
    Timestamp { secs: now.timestamp(), nanos: now.timestamp_subsec_nanos() }
}

fn plus(t: Timestamp, secs: i64) -> Timestamp {
    Timestamp { secs: t.secs + secs, nanos: t.nanos }
}

fn default_config() -> StoreConfig {
    StoreConfig {
        metric_retention: 20_000,
        log_retention: 10_000,
        degraded_after_secs: 15,
        offline_after_secs: 30,
        default_environment: "dev".to_string(),
    }
}

fn new_id() -> u128 {
    uuid::Uuid::new_v4().as_u128()
}

#[test]
fn metric_window_uses_average_over_window() {
    let now = now_ts();
    let rule = AlertRule {
        id: new_id(),
        name: "high latency".into(),
        service: "auth".into(),
        source_type: AlertSourceType::Metric,
        metric: Some("request_latency_ms".into()),
        level: None,
        operator: AlertOperator::GreaterThan,
        threshold_bits: 500.0f64.to_bits(),
        window_seconds: 60,
        severity: AlertSeverity::High,
        enabled: true,
    };

    let mut metrics = VecDeque::new();
    metrics.push_back(MetricEvent {
        id: new_id(),
        service: "auth".into(),
        metric: "request_latency_ms".into(),
        value_bits: 700.0f64.to_bits(),
        timestamp: now,
        tags: Tags::Nil,
    });
    metrics.push_back(MetricEvent {
        id: new_id(),
        service: "auth".into(),
        metric: "request_latency_ms".into(),
        value_bits: 650.0f64.to_bits(),
        timestamp: now,
        tags: Tags::Nil,
    });

    let values = metric_window_values(&rule, "auth", &metrics, now).expect("rule should apply");
    let observed = values.iter().map(|b| f64::from_bits(*b)).sum::<f64>() / values.len() as f64;
    let matched = observed > f64::from_bits(rule.threshold_bits);

    assert!(matched);
    assert!(observed > 600.0);
}

#[test]
fn log_window_counts_matching_logs() {
    let now = now_ts();
    let rule = AlertRule {
        id: new_id(),
        name: "error burst".into(),
        service: "*".into(),
        source_type: AlertSourceType::Log,
        metric: None,
        level: Some(LogLevel::Error),
        operator: AlertOperator::GreaterThanOrEqual,
        threshold_bits: 2.0f64.to_bits(),
        window_seconds: 60,
        severity: AlertSeverity::High,
        enabled: true,
    };

    let mut logs = VecDeque::new();
    logs.push_back(LogEvent {
        id: new_id(),
        service: "api".into(),
        level: LogLevel::Error,
        message: "boom".into(),
        timestamp: now,
        metadata: Tags::Nil,
    });
    logs.push_back(LogEvent {
        id: new_id(),
        service: "api".into(),
        level: LogLevel::Error,
        message: "boom again".into(),
        timestamp: now,
        metadata: Tags::Nil,
    });

    let count = log_window_count(&rule, "api", &logs, now).expect("rule should apply");
    let observed = count as f64;
    let matched = observed >= f64::from_bits(rule.threshold_bits);

    assert_eq!(observed, 2.0);
    assert!(matched);
}

#[test]
fn firing_requires_condition_to_hold_for_window() {
    let started_at = now_ts();
    let later = plus(started_at, 30);
    let much_later = plus(started_at, 61);

    assert!(!should_transition_to_firing(started_at, later, 60));
    assert!(should_transition_to_firing(started_at, much_later, 60));
}

/// Ingests one latency sample and evaluates the metric rules it triggers,
/// the way the service does (mean of the window, `>` comparison).
fn ingest_latency(store: &mut Store, value: f64, timestamp: Timestamp) {
    let record = store
        .ingest_metric(MetricIngest {
            service: "auth".into(),
            metric: "request_latency_ms".into(),
            value_bits: value.to_bits(),
            timestamp,
            tags: Tags::Nil,
        })
        .expect("metric ingest should succeed");
    let (checks, stopped) = store.metric_rule_plan(&record.event.service, timestamp);
    assert!(!stopped);
    for check in checks {
        let values: Vec<f64> = check.values.iter().map(|b| f64::from_bits(*b)).collect();
        let observed = values.iter().sum::<f64>() / values.len() as f64;
        let matched = observed > f64::from_bits(check.rule.threshold_bits);
        store
            .apply_rule_condition(
                &check.rule,
                &record.event.service,
                observed.to_bits(),
                matched,
                timestamp,
                "latency high".to_string(),
            )
            .expect("evaluation completes");
    }
}

#[test]
fn metric_alert_transitions_from_pending_to_firing() {
    let mut store = Store::new(default_config());
    let rule = store
        .create_rule(CreateAlertRuleRequest {
            name: "high latency".into(),
            service: "auth".into(),
            source_type: AlertSourceType::Metric,
            metric: Some("request_latency_ms".into()),
            level: None,
            operator: AlertOperator::GreaterThan,
            threshold_bits: 500.0f64.to_bits(),
            window_seconds: 60,
            severity: AlertSeverity::High,
            enabled: Some(true),
        })
        .expect("rule should be created");

    let now = now_ts();
    ingest_latency(&mut store, 700.0, now);
    ingest_latency(&mut store, 710.0, plus(now, 61));

    let alerts = store.query_alerts(&AlertsQuery {
        status: None,
        severity: None,
        service: None,
        from: None,
        to: None,
    });
    let alert = alerts.iter().find(|alert| alert.rule_id == rule.id).expect("alert should exist");
    assert_eq!(alert.status, AlertStatus::Firing);
}

#[test]
fn logs_can_be_filtered_by_level_and_text() {
    let mut store = Store::new(default_config());
    let now = now_ts();
    store
        .ingest_log(LogIngest {
            service: "orders".into(),
            level: LogLevel::Error,
            message: "payment timeout".into(),
            timestamp: now,
            metadata: Tags::Nil,
        })
        .expect("log ingest should succeed");
    store
        .ingest_log(LogIngest {
            service: "orders".into(),
            level: LogLevel::Info,
            message: "payment completed".into(),
            timestamp: now,
            metadata: Tags::Nil,
        })
        .expect("log ingest should succeed");

    let logs = store.query_logs(&LogsQuery {
        service: Some("orders".into()),
        level: Some(LogLevel::Error),
        q: Some("timeout".into()),
        from: None,
        to: None,
        limit: Some(10),
    });

    assert_eq!(logs.len(), 1);
    assert_eq!(logs[0].message, "payment timeout");
}

#[test]
fn housekeeping_marks_silent_service_offline() {
    let mut store = Store::new(default_config());
    let now = plus(now_ts(), -45);
    store
        .ingest_heartbeat(HeartbeatIngest { service: "gateway".into(), timestamp: now })
        .expect("heartbeat should register service");

    store.start_housekeeping();

    let services = store.list_services();
    let service = services
        .iter()
        .find(|entry| entry.service.name == "gateway")
        .expect("service should exist");
    assert_eq!(service.service.status, ServiceStatus::Offline);
}
