//! What the store's selections and evaluations guarantee about their
//! results, stated over the inputs: which samples, lines and alerts they
//! keep, which rules they evaluate, and what a raised alert carries.
use vstd::prelude::*;

use crate::alerts::{
    in_log_window, log_rule_applies, metric_rule_applies, rule_matches, window_count,
    window_values,
};
use crate::engine::{condition_outcome, has_alert_id, last_alert_index, raised_alert, runtime_entry};
use crate::evaluation::{heartbeat_plan, log_plan, metric_plan};
use crate::models::{
    AlertsQuery, LogsQuery, ServiceStatus, AlertEvent, AlertRule, AlertSourceType, AlertStatus, CreateAlertRuleRequest, LogEvent, LogLevel,
    MetricEvent, Service, UpdateAlertRuleRequest,
};
use crate::rules::{has_rule, rule_from_request, rule_index, updated_rule};
use crate::store::{has_service, rule_ids_unique, RuleRuntime};
use crate::time::window_start;
use crate::queries::recent_values;
use crate::search::{
    alerts_matching, count_active, count_errors_since, count_status, logs_matching, overview_of,
    tags_hit, OverviewCounts,
};
use crate::text::{contains_text, lowercase};
use crate::series::{series_answer, series_samples, MetricSeries, SeriesData};
use crate::store::Store;
use crate::time::{minus_secs, ts_le, Timestamp};

verus! {

/// Every element that a filter keeps satisfies the predicate and comes
/// from the filtered sequence.
pub proof fn lemma_filter_members<A>(s: Seq<A>, pred: spec_fn(A) -> bool)
    ensures
        forall|k: int|
            0 <= k < s.filter(pred).len() ==> pred(#[trigger] s.filter(pred)[k]) && exists|i: int|
                0 <= i < s.len() && s[i] == s.filter(pred)[k],
    decreases s.len(),
{
    reveal(Seq::filter);
    if s.len() > 0 {
        let init = s.drop_last();
        lemma_filter_members(init, pred);
        let f = s.filter(pred);
        let g = init.filter(pred);
        assert forall|k: int| 0 <= k < f.len() implies pred(#[trigger] f[k]) && exists|i: int|
            0 <= i < s.len() && s[i] == f[k] by {
            if k < g.len() {
                assert(f[k] == g[k]);
                let i = choose|i: int| 0 <= i < init.len() && init[i] == g[k];
                assert(s[i] == init[i]);
            } else {
                assert(f[k] == s[s.len() - 1]);
            }
        }
    }
}

/// A sample of service `name` and metric `metric` taken within
/// `[from, to]`.
pub open spec fn sample_in_range(
    m: MetricEvent,
    name: Seq<char>,
    metric: Seq<char>,
    from: Timestamp,
    to: Timestamp,
) -> bool {
    m.service@ == name && m.metric@ == metric && ts_le(from, m.timestamp) && ts_le(m.timestamp, to)
}

/// The samples a series is drawn from are exactly the retained samples of
/// that service and metric within the range, in retention order.
pub proof fn lemma_series_samples_are_the_service_samples(
    ms: Seq<MetricEvent>,
    name: Seq<char>,
    metric: Seq<char>,
    from: Timestamp,
    to: Timestamp,
)
    ensures
        series_samples(ms, name, metric, from, to) == ms.filter(
            |m: MetricEvent| sample_in_range(m, name, metric, from, to),
        ),
        forall|k: int|
            0 <= k < series_samples(ms, name, metric, from, to).len() ==> sample_in_range(
                #[trigger] series_samples(ms, name, metric, from, to)[k],
                name,
                metric,
                from,
                to,
            ) && exists|i: int| 0 <= i < ms.len() && ms[i] == series_samples(ms, name, metric, from, to)[k],
    decreases ms.len(),
{
    reveal(Seq::filter);
    let pred = |m: MetricEvent| sample_in_range(m, name, metric, from, to);
    if ms.len() > 0 {
        lemma_series_samples_are_the_service_samples(ms.drop_last(), name, metric, from, to);
    }
    lemma_filter_members(ms, pred);
}

/// Every raw point of an answered series query is a retained sample of the
/// queried service (the one the answer names) and metric, taken within the
/// query's range: no sample of another service or metric gets in.
pub proof fn lemma_raw_series_points_belong_to_the_service(
    s: &Store,
    service_id: u128,
    query: crate::models::MetricQuery,
    clock_from: Timestamp,
    clock_to: Timestamp,
    series: MetricSeries,
)
    requires
        series_answer(s, service_id, query, clock_from, clock_to, Ok(series)),
        series.data is Raw,
    ensures
        ({
            let from = match query.from {
                Some(f) => f,
                None => minus_secs(clock_from, 900)->0,
            };
            let to = match query.to {
                Some(t) => t,
                None => clock_to,
            };
            let points = series.data->Raw_0@;
            forall|k: int|
                0 <= k < points.len() ==> exists|i: int|
                    0 <= i < s.metrics@.len() && sample_in_range(
                        #[trigger] s.metrics@[i],
                        series.service_name@,
                        series.metric@,
                        from,
                        to,
                    ) && s.metrics@[i].timestamp == (#[trigger] points[k]).timestamp
                        && s.metrics@[i].value_bits == points[k].value_bits
        }),
{
    let from = match query.from {
        Some(f) => f,
        None => minus_secs(clock_from, 900)->0,
    };
    let to = match query.to {
        Some(t) => t,
        None => clock_to,
    };
    let name = series.service_name@;
    let metric = series.metric@;
    let found = series_samples(s.metrics@, name, metric, from, to);
    lemma_series_samples_are_the_service_samples(s.metrics@, name, metric, from, to);
    let res = match query.resolution {
        Some(v) => v,
        None => 0,
    };
    let p = choose|p: Seq<usize>|
        #[trigger] crate::sort::is_ts_order(crate::series::sample_times(found), false, p) && {
            let sorted = Seq::new(p.len(), |k: int| found[p[k] as int]);
            if res == 0 {
                series.data matches SeriesData::Raw(points) && points@ == sorted.map_values(
                    |m: MetricEvent| crate::models::MetricPoint { timestamp: m.timestamp, value_bits: m.value_bits },
                )
            } else {
                series.data matches SeriesData::Buckets(groups) && crate::series::buckets_of(sorted, res, groups@)
            }
        };
    let points = series.data->Raw_0@;
    assert forall|k: int| 0 <= k < points.len() implies exists|i: int|
        0 <= i < s.metrics@.len() && sample_in_range(#[trigger] s.metrics@[i], name, metric, from, to)
            && s.metrics@[i].timestamp == (#[trigger] points[k]).timestamp && s.metrics@[i].value_bits
            == points[k].value_bits by {
        assert(p[k] < found.len());
        let m = found[p[k] as int];
        assert(sample_in_range(m, name, metric, from, to));
        let i = choose|i: int| 0 <= i < s.metrics@.len() && s.metrics@[i] == m;
        assert(sample_in_range(s.metrics@[i], name, metric, from, to));
    }
}

/// An error line at or after `start`.
pub open spec fn error_since(l: LogEvent, start: Timestamp) -> bool {
    l.level == LogLevel::Error && ts_le(start, l.timestamp)
}

/// The recent-error count is the number of error lines at or after `start`.
pub proof fn lemma_count_errors_counts_recent_error_lines(ls: Seq<LogEvent>, start: Timestamp)
    ensures
        count_errors_since(ls, start) == ls.filter(|l: LogEvent| error_since(l, start)).len(),
    decreases ls.len(),
{
    reveal(Seq::filter);
    if ls.len() > 0 {
        lemma_count_errors_counts_recent_error_lines(ls.drop_last(), start);
    }
}

/// The overview's error figure counts exactly the retained error lines of
/// the last minute (at or after one minute before `now`): older errors, and
/// lines of other levels, never count.
pub proof fn lemma_overview_counts_only_recent_errors(s: &Store, now: Timestamp, r: OverviewCounts)
    requires
        overview_of(s, now, r),
    ensures
        r.recent_errors == s.logs@.filter(|l: LogEvent| error_since(l, minus_secs(now, 60)->0)).len(),
        (forall|i: int| 0 <= i < s.logs@.len() ==> !error_since(#[trigger] s.logs@[i], minus_secs(now, 60)->0))
            ==> r.recent_errors == 0,
        r.recent_errors <= s.logs@.len(),
{
    let start = minus_secs(now, 60)->0;
    let pred = |l: LogEvent| error_since(l, start);
    lemma_count_errors_counts_recent_error_lines(s.logs@, start);
    s.logs@.lemma_filter_len(pred);
    let f = s.logs@.filter(pred);
    if forall|i: int| 0 <= i < s.logs@.len() ==> !error_since(#[trigger] s.logs@[i], start) {
        if f.len() > 0 {
            lemma_filter_members(s.logs@, pred);
            let i = choose|i: int| 0 <= i < s.logs@.len() && s.logs@[i] == f[0];
            assert(!error_since(s.logs@[i], start));
        }
    }
}

/// An evaluation adds at most one alert, and only when its condition is
/// met; an added alert has the drawn identifier and is for the evaluated
/// rule and service, with the rule's severity, raised at the evaluation
/// instant, not resolved and without a resolution instant.
pub proof fn lemma_raised_alert_carries_the_rule(
    alerts: Seq<AlertEvent>,
    rt: Seq<RuleRuntime>,
    rule: AlertRule,
    service: String,
    observed_bits: u64,
    matched: bool,
    now: Timestamp,
    message: String,
    fresh_id: u128,
)
    ensures
        ({
            let o = condition_outcome(alerts, rt, rule, service, observed_bits, matched, now, message, fresh_id);
            &&& o.alerts.len() <= alerts.len() + 1
            &&& (!matched ==> o.alerts.len() == alerts.len())
            &&& forall|i: int|
                alerts.len() <= i < o.alerts.len() ==> {
                    &&& (#[trigger] o.alerts[i]).id == fresh_id
                    &&& o.alerts[i].rule_id == rule.id
                    &&& o.alerts[i].service == service
                    &&& o.alerts[i].severity == rule.severity
                    &&& o.alerts[i].triggered_at == now
                    &&& o.alerts[i].status != AlertStatus::Resolved
                    &&& o.alerts[i].resolved_at is None
                }
            &&& forall|i: int|
                0 <= i < alerts.len() ==> (#[trigger] o.alerts[i]).severity == alerts[i].severity
                    && o.alerts[i].rule_id == alerts[i].rule_id && o.alerts[i].id == alerts[i].id
        }),
{
    let o = condition_outcome(alerts, rt, rule, service, observed_bits, matched, now, message, fresh_id);
    let entry = runtime_entry(rt, rule.id, service);
    if matched {
        let created = entry.active_alert_id is None;
        let alerts1 = if created {
            alerts.push(raised_alert(fresh_id, rule, service, observed_bits, now, message))
        } else {
            alerts
        };
        let entry1 = if created {
            RuleRuntime { active_alert_id: Some(fresh_id), condition_started_at: Some(now), ..entry }
        } else {
            entry
        };
        let aid = entry1.active_alert_id->0;
        if has_alert_id(alerts1, aid) {
            crate::engine::lemma_last_alert_index_exists(alerts1, aid);
            let j = last_alert_index(alerts1, aid);
            assert forall|i: int| 0 <= i < o.alerts.len() && i != j implies #[trigger] o.alerts[i] == alerts1[i] by {}
        }
        assert forall|i: int| 0 <= i < alerts.len() implies #[trigger] alerts1[i] == alerts[i] by {}
    } else {
        match entry.active_alert_id {
            Some(id) => {
                if has_alert_id(alerts, id) {
                    crate::engine::lemma_last_alert_index_exists(alerts, id);
                }
            },
            None => {},
        }
    }
}

/// The store after an evaluation: the alerts it adds carry the evaluated
/// rule (identifier and severity), the service, the evaluation instant and
/// the drawn identifier, and are not resolved.
pub proof fn lemma_applied_raise_carries_the_rule(
    old: &Store,
    new: &Store,
    r: Option<Vec<crate::models::RealtimeEvent>>,
    rule: AlertRule,
    service: String,
    observed_bits: u64,
    matched: bool,
    now: Timestamp,
    message: String,
    fresh_id: u128,
)
    requires
        crate::engine::condition_applied(old, new, r, rule, service, observed_bits, matched, now, message, fresh_id),
    ensures
        new.alerts@.len() <= old.alerts@.len() + 1,
        forall|i: int|
            old.alerts@.len() <= i < new.alerts@.len() ==> (#[trigger] new.alerts@[i]).severity == rule.severity
                && new.alerts@[i].rule_id == rule.id && new.alerts@[i].service == service
                && new.alerts@[i].id == fresh_id && new.alerts@[i].triggered_at == now
                && new.alerts@[i].status != AlertStatus::Resolved,
{
    lemma_raised_alert_carries_the_rule(old.alerts@, old.runtime@, rule, service, observed_bits, matched, now, message, fresh_id);
}

/// The values of the samples of `service` and `metric` within `[start, now]`,
/// in retention order.
pub proof fn lemma_window_values_are_the_window_samples(
    ms: Seq<MetricEvent>,
    service: Seq<char>,
    metric: Seq<char>,
    start: Timestamp,
    now: Timestamp,
)
    ensures
        window_values(ms, service, metric, start, now) == ms.filter(
            |m: MetricEvent| sample_in_range(m, service, metric, start, now),
        ).map_values(|m: MetricEvent| m.value_bits),
    decreases ms.len(),
{
    reveal(Seq::filter);
    let pred = |m: MetricEvent| sample_in_range(m, service, metric, start, now);
    if ms.len() > 0 {
        lemma_window_values_are_the_window_samples(ms.drop_last(), service, metric, start, now);
        let f = ms.drop_last().filter(pred);
        assert(f.push(ms.last()).map_values(|m: MetricEvent| m.value_bits) =~= f.map_values(
            |m: MetricEvent| m.value_bits,
        ).push(ms.last().value_bits));
    }
}

/// Every metric evaluation that a sample triggers is of an enabled metric
/// rule among the stored ones that covers the sample's service and names a
/// metric, and looks at exactly the values of that service's samples of
/// that metric within the rule's window before `now`.
pub proof fn lemma_metric_plan_evaluates_enabled_rules(
    rules: Seq<AlertRule>,
    ms: Seq<MetricEvent>,
    service: Seq<char>,
    now: Timestamp,
)
    ensures
        forall|k: int|
            0 <= k < metric_plan(rules, ms, service, now).0.len() ==> {
                let c = #[trigger] metric_plan(rules, ms, service, now).0[k];
                &&& c.0.enabled
                &&& c.0.source_type == AlertSourceType::Metric
                &&& rule_matches(c.0, service)
                &&& c.0.metric is Some
                &&& exists|i: int| 0 <= i < rules.len() && rules[i] == c.0
                &&& c.1 == ms.filter(
                    |m: MetricEvent|
                        sample_in_range(
                            m,
                            service,
                            c.0.metric->0@,
                            window_start(now, c.0.window_seconds)->0,
                            now,
                        ),
                ).map_values(|m: MetricEvent| m.value_bits)
            },
    decreases rules.len(),
{
    if rules.len() > 0 {
        let init = rules.drop_last();
        lemma_metric_plan_evaluates_enabled_rules(init, ms, service, now);
        let p = metric_plan(rules, ms, service, now).0;
        let q = metric_plan(init, ms, service, now).0;
        let rule = rules.last();
        if metric_rule_applies(rule, service) && rule.window_seconds == rule.window_seconds {
            lemma_window_values_are_the_window_samples(
                ms,
                service,
                rule.metric->0@,
                window_start(now, rule.window_seconds)->0,
                now,
            );
        }
        assert forall|k: int| 0 <= k < p.len() implies {
            let c = #[trigger] p[k];
            &&& c.0.enabled
            &&& c.0.source_type == AlertSourceType::Metric
            &&& rule_matches(c.0, service)
            &&& c.0.metric is Some
            &&& exists|i: int| 0 <= i < rules.len() && rules[i] == c.0
            &&& c.1 == ms.filter(
                |m: MetricEvent|
                    sample_in_range(m, service, c.0.metric->0@, window_start(now, c.0.window_seconds)->0, now),
            ).map_values(|m: MetricEvent| m.value_bits)
        } by {
            if k < q.len() {
                assert(p[k] == q[k]);
                let i = choose|i: int| 0 <= i < init.len() && init[i] == q[k].0;
                assert(rules[i] == init[i]);
            } else {
                assert(p[k].0 == rules[rules.len() - 1]);
            }
        }
    }
}

/// A line is in a log rule's window: of `service`, within `[start, now]`,
/// at the rule's level when it names one.
pub open spec fn line_in_window(l: LogEvent, level: Option<LogLevel>, service: Seq<char>, start: Timestamp, now: Timestamp) -> bool {
    l.service@ == service && ts_le(start, l.timestamp) && ts_le(l.timestamp, now) && (level matches Some(v)
        ==> v == l.level)
}

/// The count of a log rule's window is the number of lines in it.
pub proof fn lemma_window_count_counts_window_lines(
    ls: Seq<LogEvent>,
    rule: AlertRule,
    service: Seq<char>,
    start: Timestamp,
    now: Timestamp,
)
    ensures
        window_count(ls, rule, service, start, now) == ls.filter(
            |l: LogEvent| line_in_window(l, rule.level, service, start, now),
        ).len(),
    decreases ls.len(),
{
    reveal(Seq::filter);
    if ls.len() > 0 {
        lemma_window_count_counts_window_lines(ls.drop_last(), rule, service, start, now);
    }
}

/// Every log evaluation that a line triggers is of an enabled log rule
/// among the stored ones that covers the line's service, and counts exactly
/// the lines of that service (at the rule's level, if any) within the
/// rule's window before `now`.
pub proof fn lemma_log_plan_evaluates_enabled_rules(
    rules: Seq<AlertRule>,
    ls: Seq<LogEvent>,
    service: Seq<char>,
    now: Timestamp,
)
    ensures
        forall|k: int|
            0 <= k < log_plan(rules, ls, service, now).0.len() ==> {
                let c = #[trigger] log_plan(rules, ls, service, now).0[k];
                &&& c.0.enabled
                &&& c.0.source_type == AlertSourceType::Log
                &&& rule_matches(c.0, service)
                &&& exists|i: int| 0 <= i < rules.len() && rules[i] == c.0
                &&& c.1 == ls.filter(
                    |l: LogEvent|
                        line_in_window(l, c.0.level, service, window_start(now, c.0.window_seconds)->0, now),
                ).len()
            },
    decreases rules.len(),
{
    if rules.len() > 0 {
        let init = rules.drop_last();
        lemma_log_plan_evaluates_enabled_rules(init, ls, service, now);
        let p = log_plan(rules, ls, service, now).0;
        let q = log_plan(init, ls, service, now).0;
        let rule = rules.last();
        lemma_window_count_counts_window_lines(ls, rule, service, window_start(now, rule.window_seconds)->0, now);
        assert forall|k: int| 0 <= k < p.len() implies {
            let c = #[trigger] p[k];
            &&& c.0.enabled
            &&& c.0.source_type == AlertSourceType::Log
            &&& rule_matches(c.0, service)
            &&& exists|i: int| 0 <= i < rules.len() && rules[i] == c.0
            &&& c.1 == ls.filter(
                |l: LogEvent| line_in_window(l, c.0.level, service, window_start(now, c.0.window_seconds)->0, now),
            ).len()
        } by {
            if k < q.len() {
                assert(p[k] == q[k]);
                let i = choose|i: int| 0 <= i < init.len() && init[i] == q[k].0;
                assert(rules[i] == init[i]);
            } else {
                assert(p[k].0 == rules[rules.len() - 1]);
            }
        }
    }
}

/// Every heartbeat evaluation of a housekeeping round is of an enabled
/// heartbeat rule among the stored ones, for a registered service the rule
/// covers.
pub proof fn lemma_heartbeat_plan_evaluates_enabled_rules(
    rules: Seq<AlertRule>,
    services: Seq<Service>,
    now: Timestamp,
)
    ensures
        forall|k: int|
            0 <= k < heartbeat_plan(rules, services, now).len() ==> {
                let c = #[trigger] heartbeat_plan(rules, services, now)[k];
                &&& c.rule.enabled
                &&& c.rule.source_type == AlertSourceType::Heartbeat
                &&& rule_matches(c.rule, c.service_name@)
                &&& has_service(services, c.service_name@)
                &&& exists|i: int| 0 <= i < rules.len() && rules[i] == c.rule
            },
    decreases rules.len(),
{
    if rules.len() > 0 {
        let init = rules.drop_last();
        lemma_heartbeat_plan_evaluates_enabled_rules(init, services, now);
        let p = heartbeat_plan(rules, services, now);
        let q = heartbeat_plan(init, services, now);
        let last = crate::evaluation::heartbeat_checks_for(rules.last(), services, now);
        assert forall|k: int| 0 <= k < p.len() implies {
            let c = #[trigger] p[k];
            &&& c.rule.enabled
            &&& c.rule.source_type == AlertSourceType::Heartbeat
            &&& rule_matches(c.rule, c.service_name@)
            &&& has_service(services, c.service_name@)
            &&& exists|i: int| 0 <= i < rules.len() && rules[i] == c.rule
        } by {
            if k < q.len() {
                assert(p[k] == q[k]);
                let i = choose|i: int| 0 <= i < init.len() && init[i] == q[k].rule;
                assert(rules[i] == init[i]);
            } else {
                let m = k - q.len();
                assert(p[k] == last[m]);
                assert(last[m].rule == rules[rules.len() - 1]);
                if rules.last().service@ == "*"@ {
                    assert(last[m].service_name == services[m].name);
                } else {
                    let si = crate::store::service_index(services, rules.last().service@);
                    assert(services[si].name@ == rules.last().service@);
                }
            }
        }
    }
}

/// A created rule carries every field of its request and the identifier
/// it was stored under, and is enabled unless the request says otherwise.
pub proof fn lemma_created_rule_is_the_request(req: CreateAlertRuleRequest, id: u128)
    ensures
        ({
            let r = rule_from_request(req, id);
            &&& r.id == id
            &&& r.name == req.name
            &&& r.service == req.service
            &&& r.source_type == req.source_type
            &&& r.metric == req.metric
            &&& r.level == req.level
            &&& r.operator == req.operator
            &&& r.threshold_bits == req.threshold_bits
            &&& r.window_seconds == req.window_seconds
            &&& r.severity == req.severity
            &&& r.enabled == (req.enabled != Some(false))
        }),
{
}

/// After an update of rule `id`, the stored rule with that identifier has
/// every field the request gives set to the given value and every other
/// field as it was, and every other rule is unchanged.
pub proof fn lemma_update_sets_given_fields(
    old_rules: Seq<AlertRule>,
    new_rules: Seq<AlertRule>,
    id: u128,
    req: UpdateAlertRuleRequest,
)
    requires
        rule_ids_unique(old_rules),
        has_rule(old_rules, id),
        new_rules == old_rules.update(
            rule_index(old_rules, id),
            updated_rule(old_rules[rule_index(old_rules, id)], req),
        ),
    ensures
        has_rule(new_rules, id),
        ({
            let before = old_rules[rule_index(old_rules, id)];
            let after = new_rules[rule_index(new_rules, id)];
            &&& before.id == id
            &&& after.id == id
            &&& after.name == (if req.name is Some { req.name->0 } else { before.name })
            &&& after.service == (if req.service is Some { req.service->0 } else { before.service })
            &&& after.source_type == (if req.source_type is Some {
                req.source_type->0
            } else {
                before.source_type
            })
            &&& (req.metric is Some ==> after.metric == Some(req.metric->0))
            &&& (req.metric is None ==> after.metric == before.metric)
            &&& (req.level is Some ==> after.level == Some(req.level->0))
            &&& (req.level is None ==> after.level == before.level)
            &&& after.operator == (if req.operator is Some { req.operator->0 } else { before.operator })
            &&& after.threshold_bits == (if req.threshold_bits is Some {
                req.threshold_bits->0
            } else {
                before.threshold_bits
            })
            &&& after.window_seconds == (if req.window_seconds is Some {
                req.window_seconds->0
            } else {
                before.window_seconds
            })
            &&& after.severity == (if req.severity is Some { req.severity->0 } else { before.severity })
            &&& after.enabled == (if req.enabled is Some { req.enabled->0 } else { before.enabled })
        }),
        new_rules.len() == old_rules.len(),
        forall|k: int|
            0 <= k < old_rules.len() && old_rules[k].id != id ==> #[trigger] new_rules[k] == old_rules[k],
{
    let i = rule_index(old_rules, id);
    assert(old_rules[i].id == id);
    assert(new_rules[i].id == id);
    assert(has_rule(new_rules, id));
    let j = rule_index(new_rules, id);
    assert(new_rules[j].id == id);
    if j != i {
        assert(new_rules[j] == old_rules[j]);
    }
}

/// A recent sample: of metric `metric` (and of `service` when given), taken
/// at or after `start`.
pub open spec fn recent_sample(m: MetricEvent, service: Option<Seq<char>>, metric: Seq<char>, start: Timestamp) -> bool {
    (service matches Some(sv) ==> m.service@ == sv) && m.metric@ == metric && ts_le(start, m.timestamp)
}

/// The recent values are exactly those of the recent samples, in order.
pub proof fn lemma_recent_values_are_recent_samples(
    ms: Seq<MetricEvent>,
    service: Option<Seq<char>>,
    metric: Seq<char>,
    start: Timestamp,
)
    ensures
        recent_values(ms, service, metric, start) == ms.filter(
            |m: MetricEvent| recent_sample(m, service, metric, start),
        ).map_values(|m: MetricEvent| m.value_bits),
    decreases ms.len(),
{
    reveal(Seq::filter);
    let pred = |m: MetricEvent| recent_sample(m, service, metric, start);
    if ms.len() > 0 {
        lemma_recent_values_are_recent_samples(ms.drop_last(), service, metric, start);
        let f = ms.drop_last().filter(pred);
        assert(f.push(ms.last()).map_values(|m: MetricEvent| m.value_bits) =~= f.map_values(
            |m: MetricEvent| m.value_bits,
        ).push(ms.last().value_bits));
    }
}

proof fn lemma_count_status_is_filter(services: Seq<Service>, st: ServiceStatus)
    ensures
        count_status(services, st) == services.filter(|s: Service| s.status == st).len(),
    decreases services.len(),
{
    reveal(Seq::filter);
    if services.len() > 0 {
        lemma_count_status_is_filter(services.drop_last(), st);
    }
}

proof fn lemma_count_active_is_filter(alerts: Seq<AlertEvent>)
    ensures
        count_active(alerts) == alerts.filter(
            |a: AlertEvent| a.status == AlertStatus::Pending || a.status == AlertStatus::Firing,
        ).len(),
    decreases alerts.len(),
{
    reveal(Seq::filter);
    if alerts.len() > 0 {
        lemma_count_active_is_filter(alerts.drop_last());
    }
}

/// The overview counts: all services, the services of each health, the
/// pending or firing alerts, and over the last minute the request-count
/// and latency values of every service's samples.
pub proof fn lemma_overview_figures(s: &Store, now: Timestamp, r: OverviewCounts)
    requires
        overview_of(s, now, r),
    ensures
        r.total_services == s.services@.len(),
        r.healthy_services == s.services@.filter(|x: Service| x.status == ServiceStatus::Healthy).len(),
        r.degraded_services == s.services@.filter(|x: Service| x.status == ServiceStatus::Degraded).len(),
        r.offline_services == s.services@.filter(|x: Service| x.status == ServiceStatus::Offline).len(),
        r.active_alerts == s.alerts@.filter(
            |a: AlertEvent| a.status == AlertStatus::Pending || a.status == AlertStatus::Firing,
        ).len(),
        r.request_counts@ == s.metrics@.filter(
            |m: MetricEvent| recent_sample(m, None, "request_count"@, minus_secs(now, 60)->0),
        ).map_values(|m: MetricEvent| m.value_bits),
        r.latencies@ == s.metrics@.filter(
            |m: MetricEvent| recent_sample(m, None, "request_latency_ms"@, minus_secs(now, 60)->0),
        ).map_values(|m: MetricEvent| m.value_bits),
{
    let start = minus_secs(now, 60)->0;
    lemma_count_status_is_filter(s.services@, ServiceStatus::Healthy);
    lemma_count_status_is_filter(s.services@, ServiceStatus::Degraded);
    lemma_count_status_is_filter(s.services@, ServiceStatus::Offline);
    lemma_count_active_is_filter(s.alerts@);
    lemma_recent_values_are_recent_samples(s.metrics@, None, "request_count"@, start);
    lemma_recent_values_are_recent_samples(s.metrics@, None, "request_latency_ms"@, start);
}

/// A log line passes a query: of the queried service and level when given,
/// containing the query text (case-insensitively) in its message or in a
/// metadata key or value when given, and within the bounds when given.
pub open spec fn line_passes(l: LogEvent, q: LogsQuery) -> bool {
    &&& (q.service is Some ==> l.service@ == q.service->0@)
    &&& (q.level is Some ==> l.level == q.level->0)
    &&& (q.q is Some ==> contains_text(lowercase(l.message@), lowercase(q.q->0@)) || tags_hit(
        l.metadata,
        lowercase(q.q->0@),
    ))
    &&& (q.from is Some ==> ts_le(q.from->0, l.timestamp))
    &&& (q.to is Some ==> ts_le(l.timestamp, q.to->0))
}

/// A log search looks at exactly the retained lines that pass the query,
/// in retention order.
pub proof fn lemma_log_search_keeps_passing_lines(ls: Seq<LogEvent>, q: LogsQuery)
    ensures
        logs_matching(ls, q) == ls.filter(|l: LogEvent| line_passes(l, q)),
    decreases ls.len(),
{
    reveal(Seq::filter);
    if ls.len() > 0 {
        lemma_log_search_keeps_passing_lines(ls.drop_last(), q);
    }
}

/// An alert passes a query: of the queried service, severity and status
/// when given, raised within the bounds when given.
pub open spec fn alert_passes(a: AlertEvent, q: AlertsQuery) -> bool {
    &&& (q.service is Some ==> a.service@ == q.service->0@)
    &&& (q.severity is Some ==> a.severity == q.severity->0)
    &&& (q.status is Some ==> a.status == q.status->0)
    &&& (q.from is Some ==> ts_le(q.from->0, a.triggered_at))
    &&& (q.to is Some ==> ts_le(a.triggered_at, q.to->0))
}

/// An alert search looks at exactly the alerts that pass the query, in the
/// order raised.
pub proof fn lemma_alert_search_keeps_passing_alerts(alerts: Seq<AlertEvent>, q: AlertsQuery)
    ensures
        alerts_matching(alerts, q) == alerts.filter(|a: AlertEvent| alert_passes(a, q)),
    decreases alerts.len(),
{
    reveal(Seq::filter);
    if alerts.len() > 0 {
        lemma_alert_search_keeps_passing_alerts(alerts.drop_last(), q);
    }
}

/// Health from silence: with representable thresholds, a service silent
/// for at least the offline threshold is offline; one silent for at least
/// the degraded threshold but less than the offline one is degraded; one
/// silent for less than both is healthy.
pub proof fn lemma_health_from_silence(config: crate::models::StoreConfig, last_seen_at: Timestamp, now: Timestamp)
    requires
        config.degraded_after_secs <= crate::time::MAX_DELTA_SECS,
        config.offline_after_secs <= crate::time::MAX_DELTA_SECS,
    ensures
        ({
            let silence = crate::time::elapsed_nanos(now, last_seen_at);
            let d = config.degraded_after_secs * 1_000_000_000;
            let o = config.offline_after_secs * 1_000_000_000;
            let st = crate::alerts::status_at(config, last_seen_at, now);
            &&& (st == ServiceStatus::Offline <==> silence >= o)
            &&& (st == ServiceStatus::Degraded <==> silence < o && silence >= d)
            &&& (st == ServiceStatus::Healthy <==> silence < o && silence < d)
        }),
{
}

/// A condition has held for a window of `w` seconds (a window a signed
/// count of seconds can hold) exactly when at least `w` seconds have
/// passed since it started.
pub proof fn lemma_window_held_after_its_seconds(started: Timestamp, now: Timestamp, w: u64)
    requires
        w <= 0x7fff_ffff_ffff_ffff,
    ensures
        crate::alerts::held_for_window(started, now, w) <==> crate::time::elapsed_nanos(now, started)
            >= w * 1_000_000_000,
{
}

} // verus!
