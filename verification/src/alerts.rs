//! Alert rule applicability, look-back windows, firing delay and service
//! health derived from silence.
use std::collections::VecDeque;
use vstd::prelude::*;

use crate::models::{
    AlertRule, AlertSourceType, AlertStatus, LogEvent, MetricEvent, ServiceStatus, StoreConfig,
};
use crate::text::str_eq;
use crate::time::{
    as_i64, compute_elapsed_nanos, compute_window_start, delta_secs_ok, elapsed_nanos,
    is_at_or_before, ts_le, u64_as_i64, window_start, Timestamp, MAX_DELTA_SECS,
};

verus! {

/// An alert is active while it is pending or firing.
pub open spec fn spec_is_active(status: AlertStatus) -> bool {
    status == AlertStatus::Pending || status == AlertStatus::Firing
}

pub fn is_active(status: &AlertStatus) -> (r: bool)
    ensures
        r == spec_is_active(*status),
{
    match status {
        AlertStatus::Pending => true,
        AlertStatus::Firing => true,
        AlertStatus::Resolved => false,
    }
}

/// A rule covers a service when it names that service or names `"*"`.
pub open spec fn rule_matches(rule: AlertRule, service: Seq<char>) -> bool {
    rule.service@ == "*"@ || rule.service@ == service
}

pub fn matches_service(rule: &AlertRule, service_name: &str) -> (r: bool)
    ensures
        r == rule_matches(*rule, service_name@),
{
    str_eq(rule.service.as_str(), "*") || str_eq(rule.service.as_str(), service_name)
}

/// A condition that started at `started` has held for the rule's window by
/// `now` (the window is taken as a signed count of seconds).
pub open spec fn held_for_window(started: Timestamp, now: Timestamp, window_seconds: u64) -> bool {
    elapsed_nanos(now, started) >= as_i64(window_seconds) * 1_000_000_000
}

/// Whether a condition that started at `condition_started_at` has held long
/// enough by `now` for its alert to fire.
pub fn should_transition_to_firing(
    condition_started_at: Timestamp,
    now: Timestamp,
    window_seconds: u64,
) -> (r: bool)
    requires
        delta_secs_ok(as_i64(window_seconds)),
    ensures
        r == held_for_window(condition_started_at, now, window_seconds),
{
    let w = u64_as_i64(window_seconds);
    compute_elapsed_nanos(now, condition_started_at) >= (w as i128) * 1_000_000_000i128
}

/// Whether the window of a rule can be used as a signed duration.
pub fn window_delta_ok(window_seconds: u64) -> (r: bool)
    ensures
        r == delta_secs_ok(as_i64(window_seconds)),
{
    let w = u64_as_i64(window_seconds);
    -MAX_DELTA_SECS <= w && w <= MAX_DELTA_SECS
}

/// A configured silence threshold in seconds, or `fallback` when it is too
/// long to be a signed duration.
pub open spec fn effective_secs(secs: u64, fallback: int) -> int {
    if secs <= MAX_DELTA_SECS {
        secs as int
    } else {
        fallback
    }
}

/// The health of a service last seen at `last_seen_at`, judged at `now`:
/// offline after the offline threshold of silence (30 s when unusable),
/// degraded after the degraded threshold (15 s when unusable), else healthy.
pub open spec fn status_at(config: StoreConfig, last_seen_at: Timestamp, now: Timestamp) -> ServiceStatus {
    let silence = elapsed_nanos(now, last_seen_at);
    if silence >= effective_secs(config.offline_after_secs, 30) * 1_000_000_000 {
        ServiceStatus::Offline
    } else if silence >= effective_secs(config.degraded_after_secs, 15) * 1_000_000_000 {
        ServiceStatus::Degraded
    } else {
        ServiceStatus::Healthy
    }
}

pub fn compute_status(config: &StoreConfig, last_seen_at: Timestamp, now: Timestamp) -> (r:
    ServiceStatus)
    ensures
        r == status_at(*config, last_seen_at, now),
{
    let silence = compute_elapsed_nanos(now, last_seen_at);
    let offline: i128 = if config.offline_after_secs <= 9_223_372_036_854_775u64 {
        config.offline_after_secs as i128
    } else {
        30
    };
    let degraded: i128 = if config.degraded_after_secs <= 9_223_372_036_854_775u64 {
        config.degraded_after_secs as i128
    } else {
        15
    };
    if silence >= offline * 1_000_000_000i128 {
        ServiceStatus::Offline
    } else if silence >= degraded * 1_000_000_000i128 {
        ServiceStatus::Degraded
    } else {
        ServiceStatus::Healthy
    }
}

/// A rule is evaluated against a metric sample of `service` when it is a
/// metric rule covering that service and naming a metric.
pub open spec fn metric_rule_applies(rule: AlertRule, service: Seq<char>) -> bool {
    rule.source_type == AlertSourceType::Metric && rule_matches(rule, service) && rule.metric is Some
}

/// A rule is evaluated against a log line of `service` when it is a log
/// rule covering that service.
pub open spec fn log_rule_applies(rule: AlertRule, service: Seq<char>) -> bool {
    rule.source_type == AlertSourceType::Log && rule_matches(rule, service)
}

/// A rule is evaluated against the silence of `service` when it is a
/// heartbeat rule covering that service.
pub open spec fn heartbeat_rule_applies(rule: AlertRule, service: Seq<char>) -> bool {
    rule.source_type == AlertSourceType::Heartbeat && rule_matches(rule, service)
}

pub fn heartbeat_applies(rule: &AlertRule, service_name: &str) -> (r: bool)
    ensures
        r == heartbeat_rule_applies(*rule, service_name@),
{
    match rule.source_type {
        AlertSourceType::Heartbeat => matches_service(rule, service_name),
        _ => false,
    }
}

/// The window of an applicable rule can be placed before `now` (evaluating
/// the rule does not overflow).
pub open spec fn metric_window_in_range(rule: AlertRule, service: Seq<char>, now: Timestamp) -> bool {
    metric_rule_applies(rule, service) ==> window_start(now, rule.window_seconds) is Some
}

pub open spec fn log_window_in_range(rule: AlertRule, service: Seq<char>, now: Timestamp) -> bool {
    log_rule_applies(rule, service) ==> window_start(now, rule.window_seconds) is Some
}

/// A metric sample is of `service` and `metric` and lies in `[start, now]`.
pub open spec fn in_metric_window(
    m: MetricEvent,
    service: Seq<char>,
    metric: Seq<char>,
    start: Timestamp,
    now: Timestamp,
) -> bool {
    m.service@ == service && m.metric@ == metric && ts_le(start, m.timestamp) && ts_le(
        m.timestamp,
        now,
    )
}

/// The values, in order, of the samples of `ms` in the window.
pub open spec fn window_values(
    ms: Seq<MetricEvent>,
    service: Seq<char>,
    metric: Seq<char>,
    start: Timestamp,
    now: Timestamp,
) -> Seq<u64>
    decreases ms.len(),
{
    if ms.len() == 0 {
        seq![]
    } else {
        let rest = window_values(ms.drop_last(), service, metric, start, now);
        if in_metric_window(ms.last(), service, metric, start, now) {
            rest.push(ms.last().value_bits)
        } else {
            rest
        }
    }
}

/// What evaluating a metric rule for `service` at `now` looks at: nothing
/// when the rule does not apply, else the values of the samples of its
/// metric in its window.
pub open spec fn metric_window(
    rule: AlertRule,
    service: Seq<char>,
    ms: Seq<MetricEvent>,
    now: Timestamp,
) -> Option<Seq<u64>> {
    if metric_rule_applies(rule, service) {
        Some(
            window_values(
                ms,
                service,
                rule.metric->0@,
                window_start(now, rule.window_seconds)->0,
                now,
            ),
        )
    } else {
        None
    }
}

/// Whether the window of `rule` can be placed before `now` for `service`.
pub fn metric_window_ok(rule: &AlertRule, service_name: &str, now: Timestamp) -> (r: bool)
    requires
        now.wf(),
    ensures
        r == metric_window_in_range(*rule, service_name@, now),
{
    match rule.source_type {
        AlertSourceType::Metric => {},
        _ => return true,
    }
    if !matches_service(rule, service_name) || rule.metric.is_none() {
        return true;
    }
    compute_window_start(now, rule.window_seconds).is_some()
}

pub fn log_window_ok(rule: &AlertRule, service_name: &str, now: Timestamp) -> (r: bool)
    requires
        now.wf(),
    ensures
        r == log_window_in_range(*rule, service_name@, now),
{
    match rule.source_type {
        AlertSourceType::Log => {},
        _ => return true,
    }
    if !matches_service(rule, service_name) {
        return true;
    }
    compute_window_start(now, rule.window_seconds).is_some()
}

/// Selects the values that a metric rule averages: `None` when the rule is
/// not a metric rule for `service_name` or names no metric.
pub fn metric_window_values(
    rule: &AlertRule,
    service_name: &str,
    metrics: &VecDeque<MetricEvent>,
    now: Timestamp,
) -> (r: Option<Vec<u64>>)
    requires
        now.wf(),
        metric_window_in_range(*rule, service_name@, now),
    ensures
        r matches Some(v) ==> metric_window(*rule, service_name@, metrics@, now) == Some(v@),
        r is None ==> metric_window(*rule, service_name@, metrics@, now) is None,
{
    broadcast use vstd::std_specs::vecdeque::group_vec_dequeue_axioms;

    match rule.source_type {
        AlertSourceType::Metric => {},
        _ => return None,
    }
    if !matches_service(rule, service_name) {
        return None;
    }
    let metric_name = match &rule.metric {
        Some(m) => m,
        None => return None,
    };
    let start = match compute_window_start(now, rule.window_seconds) {
        Some(s) => s,
        None => return None,
    };
    let mut values: Vec<u64> = Vec::new();
    let mut i: usize = 0;
    while i < metrics.len()
        invariant
            i <= metrics@.len(),
            values@ == window_values(metrics@.take(i as int), service_name@, metric_name@, start, now),
        decreases metrics@.len() - i,
    {
        let m = &metrics[i];
        assert(metrics@.take(i + 1).drop_last() =~= metrics@.take(i as int));
        if str_eq(m.service.as_str(), service_name) && str_eq(m.metric.as_str(), metric_name.as_str())
            && is_at_or_before(start, m.timestamp) && is_at_or_before(m.timestamp, now) {
            values.push(m.value_bits);
        }
        i = i + 1;
    }
    assert(metrics@.take(i as int) =~= metrics@);
    Some(values)
}

/// A log line is of `service`, lies in `[start, now]`, and has the rule's
/// level when the rule names one.
pub open spec fn in_log_window(
    l: LogEvent,
    rule: AlertRule,
    service: Seq<char>,
    start: Timestamp,
    now: Timestamp,
) -> bool {
    &&& l.service@ == service
    &&& ts_le(start, l.timestamp)
    &&& ts_le(l.timestamp, now)
    &&& (rule.level matches Some(level) ==> level == l.level)
}

/// How many lines of `ls` are in the window.
pub open spec fn window_count(
    ls: Seq<LogEvent>,
    rule: AlertRule,
    service: Seq<char>,
    start: Timestamp,
    now: Timestamp,
) -> nat
    decreases ls.len(),
{
    if ls.len() == 0 {
        0
    } else {
        window_count(ls.drop_last(), rule, service, start, now) + if in_log_window(
            ls.last(),
            rule,
            service,
            start,
            now,
        ) {
            1nat
        } else {
            0nat
        }
    }
}

/// What evaluating a log rule for `service` at `now` looks at: nothing when
/// the rule does not apply, else the number of matching lines in its window.
pub open spec fn log_window(rule: AlertRule, service: Seq<char>, ls: Seq<LogEvent>, now: Timestamp) -> Option<nat> {
    if log_rule_applies(rule, service) {
        Some(window_count(ls, rule, service, window_start(now, rule.window_seconds)->0, now))
    } else {
        None
    }
}

pub proof fn lemma_window_count_bound(
    ls: Seq<LogEvent>,
    rule: AlertRule,
    service: Seq<char>,
    start: Timestamp,
    now: Timestamp,
)
    ensures
        window_count(ls, rule, service, start, now) <= ls.len(),
    decreases ls.len(),
{
    if ls.len() > 0 {
        lemma_window_count_bound(ls.drop_last(), rule, service, start, now);
    }
}

/// Counts the log lines that a log rule compares with its threshold: `None`
/// when the rule is not a log rule for `service_name`.
pub fn log_window_count(
    rule: &AlertRule,
    service_name: &str,
    logs: &VecDeque<LogEvent>,
    now: Timestamp,
) -> (r: Option<usize>)
    requires
        now.wf(),
        log_window_in_range(*rule, service_name@, now),
    ensures
        r matches Some(n) ==> log_window(*rule, service_name@, logs@, now) == Some(n as nat),
        r is None ==> log_window(*rule, service_name@, logs@, now) is None,
{
    broadcast use vstd::std_specs::vecdeque::group_vec_dequeue_axioms;

    match rule.source_type {
        AlertSourceType::Log => {},
        _ => return None,
    }
    if !matches_service(rule, service_name) {
        return None;
    }
    let start = match compute_window_start(now, rule.window_seconds) {
        Some(s) => s,
        None => return None,
    };
    let mut count: usize = 0;
    let mut i: usize = 0;
    while i < logs.len()
        invariant
            i <= logs@.len(),
            count == window_count(logs@.take(i as int), *rule, service_name@, start, now),
        decreases logs@.len() - i,
    {
        let l = &logs[i];
        assert(logs@.take(i + 1).drop_last() =~= logs@.take(i as int));
        proof {
            lemma_window_count_bound(logs@.take(i as int), *rule, service_name@, start, now);
        }
        let level_ok = match rule.level {
            Some(level) => level == l.level,
            None => true,
        };
        if str_eq(l.service.as_str(), service_name) && is_at_or_before(start, l.timestamp)
            && is_at_or_before(l.timestamp, now) && level_ok {
            count = count + 1;
        }
        i = i + 1;
    }
    assert(logs@.take(i as int) =~= logs@);
    Some(count)
}

} // verus!
