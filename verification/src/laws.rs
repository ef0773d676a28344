//! Properties of the store that hold across its operations.
use vstd::prelude::*;

use crate::alerts::{held_for_window, status_at};
use crate::engine::{
    condition_outcome, has_alert_id, has_runtime, last_alert_index, raised_alert, refresh_outcome,
    resolve_outcome, runtime_entry, runtime_index, runtime_put,
};
use crate::models::{AlertEvent, AlertRule, AlertStatus, Service, ServiceStatus, StoreConfig};
use crate::rules::{has_rule, rule_index, rules_with};
use crate::store::{
    has_service, keep_last, log_recorded, metric_recorded, names_unique, rule_ids_unique,
    service_index, services_after_touch, LogRecord, MetricRecord, RuleRuntime, Store,
};
use crate::error::AppError;
use crate::models::{LogEvent, LogIngest, MetricEvent, MetricIngest};
use crate::time::{elapsed_nanos, ts_le, Timestamp};

verus! {

/// Pending comes before firing, which comes before resolved.
pub open spec fn status_rank(s: AlertStatus) -> int {
    match s {
        AlertStatus::Pending => 0,
        AlertStatus::Firing => 1,
        AlertStatus::Resolved => 2,
    }
}

/// `new` extends the alert history `old`: no alert disappears, each keeps
/// its identity (identifier, rule, service, severity, raise time) and its
/// status only moves forward along pending, firing, resolved.
pub open spec fn history_extends(old: Seq<AlertEvent>, new: Seq<AlertEvent>) -> bool {
    &&& old.len() <= new.len()
    &&& forall|i: int|
        0 <= i < old.len() ==> {
            &&& (#[trigger] new[i]).id == old[i].id
            &&& new[i].rule_id == old[i].rule_id
            &&& new[i].service == old[i].service
            &&& new[i].severity == old[i].severity
            &&& new[i].triggered_at == old[i].triggered_at
            &&& status_rank(old[i].status) <= status_rank(new[i].status)
        }
}

pub(crate) proof fn lemma_history_extends_transitive(a: Seq<AlertEvent>, b: Seq<AlertEvent>, c: Seq<AlertEvent>)
    requires
        history_extends(a, b),
        history_extends(b, c),
    ensures
        history_extends(a, c),
{
    assert forall|i: int| 0 <= i < a.len() implies {
        &&& (#[trigger] c[i]).id == a[i].id
        &&& c[i].rule_id == a[i].rule_id
        &&& c[i].service == a[i].service
        &&& c[i].severity == a[i].severity
        &&& c[i].triggered_at == a[i].triggered_at
        &&& status_rank(a[i].status) <= status_rank(c[i].status)
    } by {
        assert(b[i].id == a[i].id);
    }
}

pub(crate) proof fn lemma_refresh_effect(
    alerts: Seq<AlertEvent>,
    rt: Seq<RuleRuntime>,
    aid: u128,
    started: Option<Timestamp>,
    window_seconds: u64,
    observed_bits: u64,
    now: Timestamp,
    message: String,
)
    ensures
        ({
            let o = refresh_outcome(alerts, rt, aid, started, window_seconds, observed_bits, now, message);
            &&& history_extends(alerts, o.alerts)
            &&& o.alerts.len() == alerts.len()
            &&& o.runtime == rt
            &&& forall|i: int|
                0 <= i < alerts.len() && (#[trigger] o.alerts[i]).status == AlertStatus::Firing
                    && alerts[i].status != AlertStatus::Firing ==> started is Some && held_for_window(
                    started->0,
                    now,
                    window_seconds,
                )
        }),
{
    let o = refresh_outcome(alerts, rt, aid, started, window_seconds, observed_bits, now, message);
    if has_alert_id(alerts, aid) {
        crate::engine::lemma_last_alert_index_exists(alerts, aid);
        let j = last_alert_index(alerts, aid);
        assert forall|i: int| 0 <= i < alerts.len() implies {
            &&& (#[trigger] o.alerts[i]).id == alerts[i].id
            &&& o.alerts[i].rule_id == alerts[i].rule_id
            &&& o.alerts[i].service == alerts[i].service
            &&& o.alerts[i].severity == alerts[i].severity
            &&& o.alerts[i].triggered_at == alerts[i].triggered_at
            &&& status_rank(alerts[i].status) <= status_rank(o.alerts[i].status)
        } by {
            if i != j {
                assert(o.alerts[i] == alerts[i]);
            }
        }
    }
}

pub(crate) proof fn lemma_resolve_effect(
    alerts: Seq<AlertEvent>,
    rt: Seq<RuleRuntime>,
    aid: Option<u128>,
    observed_bits: u64,
    now: Timestamp,
)
    ensures
        ({
            let o = resolve_outcome(alerts, rt, aid, observed_bits, now);
            &&& history_extends(alerts, o.alerts)
            &&& o.alerts.len() == alerts.len()
            &&& o.runtime == rt
            &&& forall|i: int|
                0 <= i < alerts.len() && #[trigger] o.alerts[i] != alerts[i] ==> o.alerts[i].status
                    == AlertStatus::Resolved && o.alerts[i].resolved_at == Some(now)
        }),
{
    let o = resolve_outcome(alerts, rt, aid, observed_bits, now);
    match aid {
        Some(id) => {
            if has_alert_id(alerts, id) {
                crate::engine::lemma_last_alert_index_exists(alerts, id);
            }
            if has_alert_id(alerts, id) && alerts[last_alert_index(alerts, id)].status
                != AlertStatus::Resolved {
                let j = last_alert_index(alerts, id);
                assert forall|i: int| 0 <= i < alerts.len() implies {
                    &&& (#[trigger] o.alerts[i]).id == alerts[i].id
                    &&& o.alerts[i].rule_id == alerts[i].rule_id
                    &&& o.alerts[i].service == alerts[i].service
                    &&& o.alerts[i].severity == alerts[i].severity
                    &&& o.alerts[i].triggered_at == alerts[i].triggered_at
                    &&& status_rank(alerts[i].status) <= status_rank(o.alerts[i].status)
                } by {
                    if i != j {
                        assert(o.alerts[i] == alerts[i]);
                    }
                }
            }
        },
        None => {},
    }
}

pub(crate) proof fn lemma_runtime_put_found(rt: Seq<RuleRuntime>, rule_id: u128, service: Seq<char>, e: RuleRuntime)
    requires
        crate::store::runtime_keys_unique(rt),
        e.rule_id == rule_id,
        e.service_name@ == service,
    ensures
        has_runtime(runtime_put(rt, rule_id, service, e), rule_id, service),
        runtime_put(rt, rule_id, service, e)[runtime_index(
            runtime_put(rt, rule_id, service, e),
            rule_id,
            service,
        )] == e,
{
    let after = runtime_put(rt, rule_id, service, e);
    let i = if has_runtime(rt, rule_id, service) {
        runtime_index(rt, rule_id, service)
    } else {
        rt.len() as int
    };
    assert(after[i] == e);
    assert(has_runtime(after, rule_id, service));
    let k = runtime_index(after, rule_id, service);
    if k != i {
        assert(after[k] == rt[k]);
        if has_runtime(rt, rule_id, service) {
            assert(rt[i].rule_id == rule_id && rt[i].service_name@ == service);
        } else {
            assert(has_runtime(rt, rule_id, service));
        }
    }
}

/// Every evaluation of a rule keeps the alert history an extension of what
/// it was: alerts follow pending, firing, resolved and never go back.
pub proof fn lemma_evaluation_extends_history(
    alerts: Seq<AlertEvent>,
    rt: Seq<RuleRuntime>,
    rule: AlertRule,
    service: String,
    observed_bits: u64,
    matched: bool,
    now: Timestamp,
    message: String,
    fresh_id: u128,
)
    ensures
        history_extends(
            alerts,
            condition_outcome(alerts, rt, rule, service, observed_bits, matched, now, message, fresh_id).alerts,
        ),
{
    let entry = runtime_entry(rt, rule.id, service);
    if matched {
        let created = entry.active_alert_id is None;
        let alerts1 = if created {
            alerts.push(raised_alert(fresh_id, rule, service, observed_bits, now, message))
        } else {
            alerts
        };
        let entry1 = if created {
            RuleRuntime { active_alert_id: Some(fresh_id), condition_started_at: Some(now), ..entry }
        } else {
            entry
        };
        assert(history_extends(alerts, alerts1)) by {
            assert forall|i: int| 0 <= i < alerts.len() implies alerts1[i] == alerts[i] by {}
        }
        lemma_refresh_effect(
            alerts1,
            runtime_put(rt, rule.id, service@, entry1),
            entry1.active_alert_id->0,
            entry1.condition_started_at,
            rule.window_seconds,
            observed_bits,
            now,
            message,
        );
        lemma_history_extends_transitive(
            alerts,
            alerts1,
            condition_outcome(alerts, rt, rule, service, observed_bits, matched, now, message, fresh_id).alerts,
        );
    } else {
        lemma_resolve_effect(
            alerts,
            runtime_put(
                rt,
                rule.id,
                service@,
                RuleRuntime { active_alert_id: None, condition_started_at: None, ..entry },
            ),
            entry.active_alert_id,
            observed_bits,
            now,
        );
    }
}

/// Each alert records a resolution instant exactly when it is resolved.
pub open spec fn resolution_consistent(alerts: Seq<AlertEvent>) -> bool {
    forall|i: int|
        0 <= i < alerts.len() ==> ((#[trigger] alerts[i]).resolved_at is Some) == (alerts[i].status
            == AlertStatus::Resolved)
}

/// Every evaluation keeps each alert's resolution instant set exactly when
/// the alert is resolved, and announces at most one event.
pub proof fn lemma_evaluation_keeps_resolution_consistent(
    alerts: Seq<AlertEvent>,
    rt: Seq<RuleRuntime>,
    rule: AlertRule,
    service: String,
    observed_bits: u64,
    matched: bool,
    now: Timestamp,
    message: String,
    fresh_id: u128,
)
    requires
        resolution_consistent(alerts),
    ensures
        ({
            let o = condition_outcome(
                alerts,
                rt,
                rule,
                service,
                observed_bits,
                matched,
                now,
                message,
                fresh_id,
            );
            &&& resolution_consistent(o.alerts)
            &&& o.events.len() <= 1
        }),
{
    let entry = runtime_entry(rt, rule.id, service);
    let o = condition_outcome(alerts, rt, rule, service, observed_bits, matched, now, message, fresh_id);
    if matched {
        let created = entry.active_alert_id is None;
        let alerts1 = if created {
            alerts.push(raised_alert(fresh_id, rule, service, observed_bits, now, message))
        } else {
            alerts
        };
        let entry1 = if created {
            RuleRuntime { active_alert_id: Some(fresh_id), condition_started_at: Some(now), ..entry }
        } else {
            entry
        };
        assert(resolution_consistent(alerts1)) by {
            assert forall|i: int| 0 <= i < alerts1.len() implies ((#[trigger] alerts1[i]).resolved_at
                is Some) == (alerts1[i].status == AlertStatus::Resolved) by {
                if i < alerts.len() {
                    assert(alerts1[i] == alerts[i]);
                }
            }
        }
        let aid = entry1.active_alert_id->0;
        if has_alert_id(alerts1, aid) {
            crate::engine::lemma_last_alert_index_exists(alerts1, aid);
            let j = last_alert_index(alerts1, aid);
            assert forall|i: int| 0 <= i < o.alerts.len() implies ((#[trigger] o.alerts[i]).resolved_at
                is Some) == (o.alerts[i].status == AlertStatus::Resolved) by {
                if i != j {
                    assert(o.alerts[i] == alerts1[i]);
                } else {
                    assert(alerts1[j].resolved_at is Some == (alerts1[j].status == AlertStatus::Resolved));
                }
            }
        }
    } else {
        match entry.active_alert_id {
            Some(id) => {
                if has_alert_id(alerts, id) && alerts[last_alert_index(alerts, id)].status
                    != AlertStatus::Resolved {
                    crate::engine::lemma_last_alert_index_exists(alerts, id);
                    let j = last_alert_index(alerts, id);
                    assert forall|i: int| 0 <= i < o.alerts.len() implies ((#[trigger] o.alerts[
                        i]).resolved_at is Some) == (o.alerts[i].status == AlertStatus::Resolved) by {
                        if i != j {
                            assert(o.alerts[i] == alerts[i]);
                        }
                    }
                }
            },
            None => {},
        }
    }
}

/// An evaluation raises a new alert only when the condition is met and no
/// alert is active for the rule and service; the new alert, the only one
/// raised, is for that rule and service, raised at the evaluation instant
/// and not resolved.
pub proof fn lemma_raise_only_when_inactive(
    alerts: Seq<AlertEvent>,
    rt: Seq<RuleRuntime>,
    rule: AlertRule,
    service: String,
    observed_bits: u64,
    matched: bool,
    now: Timestamp,
    message: String,
    fresh_id: u128,
)
    ensures
        ({
            let o = condition_outcome(
                alerts,
                rt,
                rule,
                service,
                observed_bits,
                matched,
                now,
                message,
                fresh_id,
            );
            &&& o.alerts.len() <= alerts.len() + 1
            &&& o.alerts.len() == alerts.len() + 1 ==> {
                &&& matched
                &&& runtime_entry(rt, rule.id, service).active_alert_id is None
                &&& o.alerts[alerts.len() as int].id == fresh_id
                &&& o.alerts[alerts.len() as int].rule_id == rule.id
                &&& o.alerts[alerts.len() as int].service == service
                &&& o.alerts[alerts.len() as int].triggered_at == now
                &&& o.alerts[alerts.len() as int].status != AlertStatus::Resolved
            }
        }),
{
    let entry = runtime_entry(rt, rule.id, service);
    if matched {
        let created = entry.active_alert_id is None;
        let alerts1 = if created {
            alerts.push(raised_alert(fresh_id, rule, service, observed_bits, now, message))
        } else {
            alerts
        };
        let entry1 = if created {
            RuleRuntime { active_alert_id: Some(fresh_id), condition_started_at: Some(now), ..entry }
        } else {
            entry
        };
        lemma_refresh_effect(
            alerts1,
            runtime_put(rt, rule.id, service@, entry1),
            entry1.active_alert_id->0,
            entry1.condition_started_at,
            rule.window_seconds,
            observed_bits,
            now,
            message,
        );
        let o = condition_outcome(alerts, rt, rule, service, observed_bits, matched, now, message, fresh_id);
        if created {
            let n = alerts.len() as int;
            assert(o.alerts[n].id == alerts1[n].id);
            assert(o.alerts[n].status != AlertStatus::Resolved) by {
                if has_alert_id(alerts1, fresh_id) {
                    let j = last_alert_index(alerts1, fresh_id);
                    if j != n {
                        assert(alerts1[n].id == fresh_id);
                    }
                }
            }
        }
    } else {
        lemma_resolve_effect(
            alerts,
            runtime_put(
                rt,
                rule.id,
                service@,
                RuleRuntime { active_alert_id: None, condition_started_at: None, ..entry },
            ),
            entry.active_alert_id,
            observed_bits,
            now,
        );
    }
}

/// An alert starts firing only while its condition is met, once the
/// condition has held for the rule's window since the start recorded for
/// the rule and service.
pub proof fn lemma_firing_needs_window(
    alerts: Seq<AlertEvent>,
    rt: Seq<RuleRuntime>,
    rule: AlertRule,
    service: String,
    observed_bits: u64,
    matched: bool,
    now: Timestamp,
    message: String,
    fresh_id: u128,
    i: int,
)
    requires
        crate::store::runtime_keys_unique(rt),
        ({
            let o = condition_outcome(
                alerts,
                rt,
                rule,
                service,
                observed_bits,
                matched,
                now,
                message,
                fresh_id,
            );
            &&& 0 <= i < o.alerts.len()
            &&& o.alerts[i].status == AlertStatus::Firing
            &&& (i < alerts.len() ==> alerts[i].status != AlertStatus::Firing)
        }),
    ensures
        matched,
        ({
            let o = condition_outcome(
                alerts,
                rt,
                rule,
                service,
                observed_bits,
                matched,
                now,
                message,
                fresh_id,
            );
            let e = o.runtime[runtime_index(o.runtime, rule.id, service@)];
            &&& has_runtime(o.runtime, rule.id, service@)
            &&& e.condition_started_at is Some
            &&& held_for_window(e.condition_started_at->0, now, rule.window_seconds)
        }),
{
    let entry = runtime_entry(rt, rule.id, service);
    let o = condition_outcome(alerts, rt, rule, service, observed_bits, matched, now, message, fresh_id);
    if matched {
        let created = entry.active_alert_id is None;
        let alerts1 = if created {
            alerts.push(raised_alert(fresh_id, rule, service, observed_bits, now, message))
        } else {
            alerts
        };
        let entry1 = if created {
            RuleRuntime { active_alert_id: Some(fresh_id), condition_started_at: Some(now), ..entry }
        } else {
            entry
        };
        lemma_refresh_effect(
            alerts1,
            runtime_put(rt, rule.id, service@, entry1),
            entry1.active_alert_id->0,
            entry1.condition_started_at,
            rule.window_seconds,
            observed_bits,
            now,
            message,
        );
        if has_runtime(rt, rule.id, service@) {
            let ri = runtime_index(rt, rule.id, service@);
            assert(rt[ri].rule_id == rule.id && rt[ri].service_name@ == service@);
        }
        lemma_runtime_put_found(rt, rule.id, service@, entry1);
        if i < alerts.len() {
            assert(alerts1[i] == alerts[i]);
        }
    } else {
        lemma_resolve_effect(
            alerts,
            runtime_put(
                rt,
                rule.id,
                service@,
                RuleRuntime { active_alert_id: None, condition_started_at: None, ..entry },
            ),
            entry.active_alert_id,
            observed_bits,
            now,
        );
        assert(o.alerts[i] != alerts[i]);
    }
}

/// When the condition is no longer met, the rule and service are left with
/// no active alert and no condition start, and an alert changes only by
/// being resolved at the evaluation instant.
pub proof fn lemma_unmet_condition_resolves(
    alerts: Seq<AlertEvent>,
    rt: Seq<RuleRuntime>,
    rule: AlertRule,
    service: String,
    observed_bits: u64,
    now: Timestamp,
    message: String,
    fresh_id: u128,
)
    requires
        crate::store::runtime_keys_unique(rt),
    ensures
        ({
            let o = condition_outcome(
                alerts,
                rt,
                rule,
                service,
                observed_bits,
                false,
                now,
                message,
                fresh_id,
            );
            let e = o.runtime[runtime_index(o.runtime, rule.id, service@)];
            &&& has_runtime(o.runtime, rule.id, service@)
            &&& e.active_alert_id is None
            &&& e.condition_started_at is None
            &&& o.alerts.len() == alerts.len()
            &&& forall|j: int|
                0 <= j < alerts.len() && #[trigger] o.alerts[j] != alerts[j] ==> o.alerts[j].status
                    == AlertStatus::Resolved && o.alerts[j].resolved_at == Some(now)
        }),
{
    let entry = runtime_entry(rt, rule.id, service);
    let e1 = RuleRuntime { active_alert_id: None, condition_started_at: None, ..entry };
    if has_runtime(rt, rule.id, service@) {
        let ri = runtime_index(rt, rule.id, service@);
        assert(rt[ri].rule_id == rule.id && rt[ri].service_name@ == service@);
    }
    lemma_runtime_put_found(rt, rule.id, service@, e1);
    lemma_resolve_effect(alerts, runtime_put(rt, rule.id, service@, e1), entry.active_alert_id, observed_bits, now);
}

/// What the store keeps of a telemetry stream: the newest `n` items (all of
/// them when there are fewer), in arrival order, so that the newest item
/// is kept whenever anything is.
pub proof fn lemma_retention_keeps_newest<T>(s: Seq<T>, item: T, n: nat)
    ensures
        keep_last(s.push(item), n).len() == if s.len() + 1 <= n {
            s.len() + 1
        } else {
            n
        },
        keep_last(s.push(item), n).len() <= n,
        n > 0 ==> keep_last(s.push(item), n).last() == item,
        forall|i: int|
            0 <= i < keep_last(s.push(item), n).len() ==> #[trigger] keep_last(s.push(item), n)[i]
                == s.push(item)[s.len() + 1 - keep_last(s.push(item), n).len() + i],
{
}

/// The stream kept after recording `items` one at a time, oldest first,
/// each record keeping the newest `n` items.
pub open spec fn retain_each<T>(s: Seq<T>, items: Seq<T>, n: nat) -> Seq<T>
    decreases items.len(),
{
    if items.len() == 0 {
        s
    } else {
        retain_each(keep_last(s.push(items[0]), n), items.drop_first(), n)
    }
}

proof fn lemma_keep_last_append<T>(u: Seq<T>, t: Seq<T>, n: nat)
    ensures
        keep_last(keep_last(u, n) + t, n) == keep_last(u + t, n),
{
    if u.len() > n {
        let a = keep_last(u, n);
        let l = keep_last(a + t, n);
        let r = keep_last(u + t, n);
        assert(l.len() == r.len());
        assert forall|k: int| 0 <= k < l.len() implies #[trigger] l[k] == r[k] by {
            if t.len() + k < n {
                assert(l[k] == a[t.len() + k]);
            }
        }
        assert(l =~= r);
    }
}

/// Recording a batch one item at a time, starting from a stream within the
/// limit `n`, keeps exactly the newest `n` of the old items followed by the
/// batch: the oldest are dropped first, the order is kept, and never more
/// than `n` remain.
pub proof fn lemma_retention_over_batch<T>(s: Seq<T>, items: Seq<T>, n: nat)
    requires
        s.len() <= n,
    ensures
        retain_each(s, items, n) == keep_last(s + items, n),
        retain_each(s, items, n).len() <= n,
    decreases items.len(),
{
    if items.len() == 0 {
        assert(s + items =~= s);
    } else {
        let s1 = keep_last(s.push(items[0]), n);
        lemma_retention_over_batch(s1, items.drop_first(), n);
        lemma_keep_last_append(s.push(items[0]), items.drop_first(), n);
        assert(s.push(items[0]) + items.drop_first() =~= s + items);
    }
}

/// The samples that the accepted records of a batch hold, in order.
pub open spec fn accepted_metrics(results: Seq<Result<MetricRecord, AppError>>) -> Seq<MetricEvent>
    decreases results.len(),
{
    if results.len() == 0 {
        seq![]
    } else {
        let rest = accepted_metrics(results.drop_last());
        match results.last() {
            Ok(rec) => rest.push(rec.event),
            Err(_) => rest,
        }
    }
}

/// The log lines that the accepted records of a batch hold, in order.
pub open spec fn accepted_logs(results: Seq<Result<LogRecord, AppError>>) -> Seq<LogEvent>
    decreases results.len(),
{
    if results.len() == 0 {
        seq![]
    } else {
        let rest = accepted_logs(results.drop_last());
        match results.last() {
            Ok(rec) => rest.push(rec.event),
            Err(_) => rest,
        }
    }
}

/// Recording a batch of samples one by one (store `stores[k + 1]` is
/// `stores[k]` after recording `payloads[k]` with result `results[k]`),
/// starting within the retention limit `R`: the stored samples are exactly
/// the newest `R` of the old ones followed by the accepted ones, oldest
/// dropped first and order kept, never more than `R`; each accepted sample
/// carries its payload's fields and the identifier drawn for it.
pub proof fn lemma_metric_batch_retention(
    stores: Seq<Store>,
    payloads: Seq<MetricIngest>,
    results: Seq<Result<MetricRecord, AppError>>,
    event_ids: Seq<u128>,
    service_ids: Seq<u128>,
    nows: Seq<Timestamp>,
)
    requires
        stores.len() == payloads.len() + 1,
        results.len() == payloads.len(),
        event_ids.len() == payloads.len(),
        service_ids.len() == payloads.len(),
        nows.len() == payloads.len(),
        stores[0].metrics@.len() <= stores[0].config.metric_retention,
        forall|k: int|
            0 <= k < payloads.len() ==> metric_recorded(
                &#[trigger] stores[k],
                &stores[k + 1],
                payloads[k],
                results[k],
                event_ids[k],
                service_ids[k],
                nows[k],
            ),
    ensures
        stores.last().config == stores[0].config,
        stores.last().metrics@ == keep_last(
            stores[0].metrics@ + accepted_metrics(results),
            stores[0].config.metric_retention as nat,
        ),
        stores.last().metrics@.len() <= stores[0].config.metric_retention,
        forall|k: int|
            0 <= k < payloads.len() ==> (#[trigger] results[k] matches Ok(rec) ==> rec.event == MetricEvent {
                id: event_ids[k],
                service: payloads[k].service,
                metric: payloads[k].metric,
                value_bits: payloads[k].value_bits,
                timestamp: payloads[k].timestamp,
                tags: payloads[k].tags,
            }),
    decreases payloads.len(),
{
    let n = payloads.len();
    let r = stores[0].config.metric_retention as nat;
    if n > 0 {
        let st = stores.drop_last();
        let m = (n - 1) as int;
        assert forall|k: int| 0 <= k < m implies metric_recorded(
            &#[trigger] st[k],
            &st[k + 1],
            payloads.drop_last()[k],
            results.drop_last()[k],
            event_ids.drop_last()[k],
            service_ids.drop_last()[k],
            nows.drop_last()[k],
        ) by {
            assert(metric_recorded(&stores[k], &stores[k + 1], payloads[k], results[k], event_ids[k], service_ids[k], nows[k]));
        }
        lemma_metric_batch_retention(
            st,
            payloads.drop_last(),
            results.drop_last(),
            event_ids.drop_last(),
            service_ids.drop_last(),
            nows.drop_last(),
        );
        assert(metric_recorded(&stores[m], &stores[m + 1], payloads[m], results[m], event_ids[m], service_ids[m], nows[m]));
        assert(st.last() == stores[m]);
        let mid = stores[m].metrics@;
        lemma_retention_over_batch(
            mid,
            seq![],
            r,
        );
        match results[m] {
            Ok(rec) => {
                lemma_keep_last_append(stores[0].metrics@ + accepted_metrics(results.drop_last()), seq![rec.event], r);
                assert(stores[0].metrics@ + accepted_metrics(results.drop_last()) + seq![rec.event]
                    =~= stores[0].metrics@ + accepted_metrics(results));
                assert(mid + seq![rec.event] =~= mid.push(rec.event));
            },
            Err(_) => {},
        }
        assert(results.drop_last() =~= results.subrange(0, m));
    }
}

/// Recording a batch of log lines one by one (store `stores[k + 1]` is
/// `stores[k]` after recording `payloads[k]` with result `results[k]`),
/// starting within the retention limit `R`: the stored lines are exactly
/// the newest `R` of the old ones followed by the accepted ones, oldest
/// dropped first and order kept, never more than `R`; each accepted line
/// carries its payload's fields and the identifier drawn for it.
pub proof fn lemma_log_batch_retention(
    stores: Seq<Store>,
    payloads: Seq<LogIngest>,
    results: Seq<Result<LogRecord, AppError>>,
    event_ids: Seq<u128>,
    service_ids: Seq<u128>,
    nows: Seq<Timestamp>,
)
    requires
        stores.len() == payloads.len() + 1,
        results.len() == payloads.len(),
        event_ids.len() == payloads.len(),
        service_ids.len() == payloads.len(),
        nows.len() == payloads.len(),
        stores[0].logs@.len() <= stores[0].config.log_retention,
        forall|k: int|
            0 <= k < payloads.len() ==> log_recorded(
                &#[trigger] stores[k],
                &stores[k + 1],
                payloads[k],
                results[k],
                event_ids[k],
                service_ids[k],
                nows[k],
            ),
    ensures
        stores.last().config == stores[0].config,
        stores.last().logs@ == keep_last(
            stores[0].logs@ + accepted_logs(results),
            stores[0].config.log_retention as nat,
        ),
        stores.last().logs@.len() <= stores[0].config.log_retention,
        forall|k: int|
            0 <= k < payloads.len() ==> (#[trigger] results[k] matches Ok(rec) ==> rec.event == LogEvent {
                id: event_ids[k],
                service: payloads[k].service,
                level: payloads[k].level,
                message: payloads[k].message,
                timestamp: payloads[k].timestamp,
                metadata: payloads[k].metadata,
            }),
    decreases payloads.len(),
{
    let n = payloads.len();
    let r = stores[0].config.log_retention as nat;
    if n > 0 {
        let st = stores.drop_last();
        let m = (n - 1) as int;
        assert forall|k: int| 0 <= k < m implies log_recorded(
            &#[trigger] st[k],
            &st[k + 1],
            payloads.drop_last()[k],
            results.drop_last()[k],
            event_ids.drop_last()[k],
            service_ids.drop_last()[k],
            nows.drop_last()[k],
        ) by {
            assert(log_recorded(&stores[k], &stores[k + 1], payloads[k], results[k], event_ids[k], service_ids[k], nows[k]));
        }
        lemma_log_batch_retention(
            st,
            payloads.drop_last(),
            results.drop_last(),
            event_ids.drop_last(),
            service_ids.drop_last(),
            nows.drop_last(),
        );
        assert(log_recorded(&stores[m], &stores[m + 1], payloads[m], results[m], event_ids[m], service_ids[m], nows[m]));
        assert(st.last() == stores[m]);
        let mid = stores[m].logs@;
        lemma_retention_over_batch(
            mid,
            seq![],
            r,
        );
        match results[m] {
            Ok(rec) => {
                lemma_keep_last_append(stores[0].logs@ + accepted_logs(results.drop_last()), seq![rec.event], r);
                assert(stores[0].logs@ + accepted_logs(results.drop_last()) + seq![rec.event]
                    =~= stores[0].logs@ + accepted_logs(results));
                assert(mid + seq![rec.event] =~= mid.push(rec.event));
            },
            Err(_) => {},
        }
        assert(results.drop_last() =~= results.subrange(0, m));
    }
}

/// Contact from a service leaves exactly one registry entry with its name,
/// healthy, last seen no earlier than the contact nor than before.
pub proof fn lemma_contact_marks_healthy(
    s: Seq<Service>,
    name: String,
    environment: String,
    seen_at: Timestamp,
    fresh_id: u128,
)
    requires
        names_unique(s),
    ensures
        ({
            let after = services_after_touch(s, name, environment, seen_at, fresh_id);
            let svc = after[service_index(after, name@)];
            &&& names_unique(after)
            &&& has_service(after, name@)
            &&& svc.status == ServiceStatus::Healthy
            &&& ts_le(seen_at, svc.last_seen_at)
            &&& has_service(s, name@) ==> ts_le(s[service_index(s, name@)].last_seen_at, svc.last_seen_at)
            &&& after.len() == if has_service(s, name@) {
                s.len()
            } else {
                s.len() + 1
            }
        }),
{
    let after = services_after_touch(s, name, environment, seen_at, fresh_id);
    if has_service(s, name@) {
        let i = service_index(s, name@);
        assert(after[i].name@ == name@);
        assert(has_service(after, name@));
        let j = service_index(after, name@);
        if j != i {
            assert(after[j] == s[j]);
            assert(s[j].name@ == name@);
        }
    } else {
        let i = s.len() as int;
        assert(after[i].name@ == name@);
        assert(has_service(after, name@));
        let j = service_index(after, name@);
        if j != i {
            assert(after[j] == s[j]);
            assert(has_service(s, name@));
        }
    }
    assert(names_unique(after)) by {
        assert forall|a: int, b: int|
            0 <= a < after.len() && 0 <= b < after.len() && a != b implies #[trigger] after[a].name@
            != #[trigger] after[b].name@ by {
            if has_service(s, name@) {
                let i = service_index(s, name@);
                if a != i && b != i {
                    assert(after[a] == s[a] && after[b] == s[b]);
                } else if a == i {
                    assert(after[b] == s[b]);
                } else {
                    assert(after[a] == s[a]);
                }
            } else {
                if a < s.len() && b < s.len() {
                    assert(after[a] == s[a] && after[b] == s[b]);
                } else if a < s.len() {
                    assert(after[a] == s[a]);
                } else {
                    assert(after[b] == s[b]);
                }
            }
        }
    }
}

/// Healthy comes before degraded, which comes before offline.
pub open spec fn health_rank(s: ServiceStatus) -> int {
    match s {
        ServiceStatus::Healthy => 0,
        ServiceStatus::Degraded => 1,
        ServiceStatus::Offline => 2,
    }
}

/// Health derived from silence only worsens as the silence grows.
pub proof fn lemma_health_worsens_with_silence(
    config: StoreConfig,
    last_seen_at: Timestamp,
    earlier: Timestamp,
    later: Timestamp,
)
    requires
        elapsed_nanos(earlier, last_seen_at) <= elapsed_nanos(later, last_seen_at),
    ensures
        health_rank(status_at(config, last_seen_at, earlier)) <= health_rank(
            status_at(config, last_seen_at, later),
        ),
{
}

/// A stored rule can be found again under its identifier, and the other
/// rules stay as they were.
pub proof fn lemma_stored_rule_found(r: Seq<AlertRule>, rule: AlertRule)
    requires
        rule_ids_unique(r),
    ensures
        rule_ids_unique(rules_with(r, rule)),
        has_rule(rules_with(r, rule), rule.id),
        rules_with(r, rule)[rule_index(rules_with(r, rule), rule.id)] == rule,
        forall|i: int|
            0 <= i < r.len() && r[i].id != rule.id ==> #[trigger] rules_with(r, rule)[i] == r[i],
{
    let after = rules_with(r, rule);
    let i = if has_rule(r, rule.id) {
        rule_index(r, rule.id)
    } else {
        r.len() as int
    };
    assert(after[i] == rule);
    assert(rule_ids_unique(after)) by {
        assert forall|a: int, b: int| 0 <= a < after.len() && 0 <= b < after.len() && a != b implies #[trigger] after[a].id
            != #[trigger] after[b].id by {
            if a != i && b != i {
                assert(after[a] == r[a] && after[b] == r[b]);
            } else if a == i {
                assert(after[b] == r[b]);
                if has_rule(r, rule.id) {
                    assert(r[i].id == rule.id);
                } else {
                    assert(r[b].id != rule.id);
                }
            } else {
                assert(after[a] == r[a]);
                if has_rule(r, rule.id) {
                    assert(r[i].id == rule.id);
                } else {
                    assert(r[a].id != rule.id);
                }
            }
        }
    }
    assert(has_rule(after, rule.id));
    let j = rule_index(after, rule.id);
    assert(after[j].id == rule.id);
}

/// After a rule is deleted no rule has its identifier.
pub proof fn lemma_deleted_rule_gone(r: Seq<AlertRule>, id: u128)
    requires
        rule_ids_unique(r),
        has_rule(r, id),
    ensures
        !has_rule(r.remove(rule_index(r, id)), id),
        r.remove(rule_index(r, id)).len() == r.len() - 1,
{
    let i = rule_index(r, id);
    let after = r.remove(i);
    if has_rule(after, id) {
        let j = choose|j: int| 0 <= j < after.len() && #[trigger] after[j].id == id;
        let oj = if j < i {
            j
        } else {
            j + 1
        };
        assert(after[j] == r[oj]);
        assert(r[i].id == id);
    }
}

/// Alert `a` was raised for the rule and service of evaluation state `e`.
pub open spec fn alert_belongs(a: AlertEvent, e: RuleRuntime) -> bool {
    a.rule_id == e.rule_id && a.service@ == e.service_name@
}

/// The evaluation states agree with the alert history: a state records a
/// condition start exactly when it has an active alert, and its active
/// alert (the most recent alert with that identifier) was raised for its
/// rule and service and is not resolved.
pub open spec fn runtime_consistent(alerts: Seq<AlertEvent>, rt: Seq<RuleRuntime>) -> bool {
    forall|k: int|
        0 <= k < rt.len() ==> {
            &&& ((#[trigger] rt[k]).active_alert_id is Some) == (rt[k].condition_started_at is Some)
            &&& (rt[k].active_alert_id matches Some(id) ==> {
                &&& has_alert_id(alerts, id)
                &&& alert_belongs(alerts[last_alert_index(alerts, id)], rt[k])
                &&& alerts[last_alert_index(alerts, id)].status != AlertStatus::Resolved
            })
        }
}

pub(crate) proof fn lemma_last_index_after_push(alerts: Seq<AlertEvent>, x: AlertEvent, id: u128)
    requires
        has_alert_id(alerts, id),
        x.id != id,
    ensures
        has_alert_id(alerts.push(x), id),
        last_alert_index(alerts.push(x), id) == last_alert_index(alerts, id),
{
    crate::engine::lemma_last_alert_index_exists(alerts, id);
    let i = last_alert_index(alerts, id);
    let a2 = alerts.push(x);
    assert(a2[i].id == id);
    assert forall|j: int| i < j < a2.len() implies #[trigger] a2[j].id != id by {
        if j < alerts.len() {
            assert(a2[j] == alerts[j]);
        }
    }
    crate::engine::lemma_last_alert_index_exists(a2, id);
    let k = last_alert_index(a2, id);
    if k < i {
        assert(a2[i].id == id);
    } else if k > i {
        assert(a2[k].id != id);
    }
}

pub(crate) proof fn lemma_last_index_of_pushed(alerts: Seq<AlertEvent>, x: AlertEvent)
    ensures
        has_alert_id(alerts.push(x), x.id),
        last_alert_index(alerts.push(x), x.id) == alerts.len(),
{
    let a2 = alerts.push(x);
    assert(a2[alerts.len() as int].id == x.id);
    crate::engine::lemma_last_alert_index_exists(a2, x.id);
}

pub(crate) proof fn lemma_last_index_after_update(alerts: Seq<AlertEvent>, j: int, y: AlertEvent, id: u128)
    requires
        0 <= j < alerts.len(),
        y.id == alerts[j].id,
        has_alert_id(alerts, id),
    ensures
        has_alert_id(alerts.update(j, y), id),
        last_alert_index(alerts.update(j, y), id) == last_alert_index(alerts, id),
{
    crate::engine::lemma_last_alert_index_exists(alerts, id);
    let i = last_alert_index(alerts, id);
    let a2 = alerts.update(j, y);
    assert(a2[i].id == id);
    assert forall|m: int| i < m < a2.len() implies #[trigger] a2[m].id != id by {
        assert(a2[m].id == alerts[m].id);
    }
    crate::engine::lemma_last_alert_index_exists(a2, id);
    let k = last_alert_index(a2, id);
    if k < i {
        assert(a2[i].id == id);
    } else if k > i {
        assert(a2[k].id != id);
    }
}

/// Storing `e` under its own key keeps the keys unique; the entry lands at
/// the key's old position, or at the end for a new key, and every other
/// entry stays where it was.
pub(crate) proof fn lemma_put_shape(rt: Seq<RuleRuntime>, rule_id: u128, service: Seq<char>, e: RuleRuntime) -> (ri:
    int)
    requires
        crate::store::runtime_keys_unique(rt),
        e.rule_id == rule_id,
        e.service_name@ == service,
    ensures
        ri == (if has_runtime(rt, rule_id, service) {
            runtime_index(rt, rule_id, service)
        } else {
            rt.len() as int
        }),
        0 <= ri <= rt.len(),
        has_runtime(rt, rule_id, service) ==> ri < rt.len() && rt[ri].rule_id == rule_id
            && rt[ri].service_name@ == service,
        runtime_put(rt, rule_id, service, e).len() == (if has_runtime(rt, rule_id, service) {
            rt.len() as int
        } else {
            rt.len() + 1int
        }),
        runtime_put(rt, rule_id, service, e)[ri] == e,
        forall|k: int|
            0 <= k < runtime_put(rt, rule_id, service, e).len() && k != ri ==> #[trigger] runtime_put(
                rt,
                rule_id,
                service,
                e,
            )[k] == rt[k],
        forall|k: int|
            0 <= k < rt.len() && k != ri ==> !(#[trigger] rt[k].rule_id == rule_id
                && rt[k].service_name@ == service),
        crate::store::runtime_keys_unique(runtime_put(rt, rule_id, service, e)),
{
    let known = has_runtime(rt, rule_id, service);
    let ri = if known {
        runtime_index(rt, rule_id, service)
    } else {
        rt.len() as int
    };
    let rt1 = runtime_put(rt, rule_id, service, e);
    assert forall|k: int| 0 <= k < rt.len() && k != ri implies !(#[trigger] rt[k].rule_id == rule_id
        && rt[k].service_name@ == service) by {
        if rt[k].rule_id == rule_id && rt[k].service_name@ == service {
            assert(has_runtime(rt, rule_id, service));
        }
    }
    assert forall|k: int| 0 <= k < rt1.len() && k != ri implies #[trigger] rt1[k] == rt[k] by {}
    assert forall|a: int, b: int| 0 <= a < rt1.len() && 0 <= b < rt1.len() && a != b implies !(
    #[trigger] rt1[a].rule_id == #[trigger] rt1[b].rule_id && rt1[a].service_name@
        == rt1[b].service_name@) by {
        if a != ri && b != ri {
            assert(rt1[a] == rt[a] && rt1[b] == rt[b]);
        } else if a == ri {
            assert(rt1[b] == rt[b]);
        } else {
            assert(rt1[a] == rt[a]);
        }
    }
    ri
}

/// The clause of `runtime_consistent` for one state.
pub open spec fn state_consistent(alerts: Seq<AlertEvent>, e: RuleRuntime) -> bool {
    &&& (e.active_alert_id is Some) == (e.condition_started_at is Some)
    &&& (e.active_alert_id matches Some(id) ==> {
        &&& has_alert_id(alerts, id)
        &&& alert_belongs(alerts[last_alert_index(alerts, id)], e)
        &&& alerts[last_alert_index(alerts, id)].status != AlertStatus::Resolved
    })
}

pub(crate) proof fn lemma_consistent_elim(alerts: Seq<AlertEvent>, rt: Seq<RuleRuntime>, k: int)
    requires
        runtime_consistent(alerts, rt),
        0 <= k < rt.len(),
    ensures
        state_consistent(alerts, rt[k]),
{
}

pub(crate) proof fn lemma_consistent_intro(alerts: Seq<AlertEvent>, rt: Seq<RuleRuntime>)
    requires
        forall|k: int| 0 <= k < rt.len() ==> state_consistent(alerts, #[trigger] rt[k]),
    ensures
        runtime_consistent(alerts, rt),
{
    assert forall|k: int| 0 <= k < rt.len() implies {
        &&& ((#[trigger] rt[k]).active_alert_id is Some) == (rt[k].condition_started_at is Some)
        &&& (rt[k].active_alert_id matches Some(id) ==> {
            &&& has_alert_id(alerts, id)
            &&& alert_belongs(alerts[last_alert_index(alerts, id)], rt[k])
            &&& alerts[last_alert_index(alerts, id)].status != AlertStatus::Resolved
        })
    } by {
        assert(state_consistent(alerts, rt[k]));
    }
}

/// A state whose active alert is not at position `j` stays consistent when
/// the alert at `j` is replaced by one with the same identifier.
proof fn lemma_state_after_update(alerts: Seq<AlertEvent>, j: int, y: AlertEvent, e: RuleRuntime)
    requires
        0 <= j < alerts.len(),
        y.id == alerts[j].id,
        state_consistent(alerts, e),
        e.active_alert_id matches Some(id) ==> last_alert_index(alerts, id) != j,
    ensures
        state_consistent(alerts.update(j, y), e),
{
    if let Some(id) = e.active_alert_id {
        lemma_alert_kept_by_update(alerts, j, y, id);
    }
}

pub(crate) proof fn lemma_alert_kept_by_update(alerts: Seq<AlertEvent>, j: int, y: AlertEvent, id: u128)
    requires
        0 <= j < alerts.len(),
        y.id == alerts[j].id,
        has_alert_id(alerts, id),
        last_alert_index(alerts, id) != j,
    ensures
        has_alert_id(alerts.update(j, y), id),
        alerts.update(j, y)[last_alert_index(alerts.update(j, y), id)] == alerts[last_alert_index(
            alerts,
            id,
        )],
{
    lemma_last_index_after_update(alerts, j, y, id);
    crate::engine::lemma_last_alert_index_exists(alerts, id);
}

/// The met-condition half of `lemma_evaluation_keeps_runtime_consistent`.
#[verifier::rlimit(40)]
proof fn lemma_matched_keeps_consistent(
    alerts: Seq<AlertEvent>,
    rt: Seq<RuleRuntime>,
    rule: AlertRule,
    service: String,
    observed_bits: u64,
    now: Timestamp,
    message: String,
    fresh_id: u128,
)
    requires
        crate::store::runtime_keys_unique(rt),
        runtime_consistent(alerts, rt),
        !has_alert_id(alerts, fresh_id),
    ensures
        ({
            let o = condition_outcome(alerts, rt, rule, service, observed_bits, true, now, message, fresh_id);
            &&& crate::store::runtime_keys_unique(o.runtime)
            &&& runtime_consistent(o.alerts, o.runtime)
        }),
{
    let entry = runtime_entry(rt, rule.id, service);
    let created = entry.active_alert_id is None;
    let new_alert = raised_alert(fresh_id, rule, service, observed_bits, now, message);
    let alerts1 = if created {
        alerts.push(new_alert)
    } else {
        alerts
    };
    let entry1 = if created {
        RuleRuntime { active_alert_id: Some(fresh_id), condition_started_at: Some(now), ..entry }
    } else {
        entry
    };
    let ri = lemma_put_shape(rt, rule.id, service@, entry1);
    let rt1 = runtime_put(rt, rule.id, service@, entry1);
    let aid = entry1.active_alert_id->0;
    let o = condition_outcome(alerts, rt, rule, service, observed_bits, true, now, message, fresh_id);
    if has_runtime(rt, rule.id, service@) {
        lemma_consistent_elim(alerts, rt, ri);
    }
    // the alert the entry points to
    if created {
        lemma_last_index_of_pushed(alerts, new_alert);
    }
    crate::engine::lemma_last_alert_index_exists(alerts1, aid);
    let j = last_alert_index(alerts1, aid);
    assert(state_consistent(alerts1, entry1));
    // other states are consistent with alerts1 and point elsewhere than j
    assert forall|k: int| 0 <= k < rt1.len() && k != ri implies {
        &&& state_consistent(alerts1, #[trigger] rt1[k])
        &&& (rt1[k].active_alert_id matches Some(id) ==> last_alert_index(alerts1, id) != j)
    } by {
        assert(rt1[k] == rt[k]);
        lemma_consistent_elim(alerts, rt, k);
        if let Some(id) = rt[k].active_alert_id {
            crate::engine::lemma_last_alert_index_exists(alerts, id);
            if created {
                assert(id != fresh_id);
                lemma_last_index_after_push(alerts, new_alert, id);
                assert(alerts1[last_alert_index(alerts, id)] == alerts[last_alert_index(alerts, id)]);
            }
            let jk = last_alert_index(alerts, id);
            if jk == j {
                assert(rt[k].rule_id == rule.id && rt[k].service_name@ == service@);
            }
        }
    }
    lemma_refresh_effect(alerts1, rt1, aid, entry1.condition_started_at, rule.window_seconds, observed_bits, now, message);
    let a_after = o.alerts;
    assert forall|m: int| 0 <= m < alerts1.len() && m != j implies #[trigger] a_after[m] == alerts1[m] by {}
    assert(a_after[j].id == alerts1[j].id);
    assert(a_after =~= alerts1.update(j, a_after[j]));
    assert(o.runtime == rt1);
    assert forall|k: int| 0 <= k < rt1.len() implies state_consistent(a_after, #[trigger] rt1[k]) by {
        if k == ri {
            lemma_last_index_after_update(alerts1, j, a_after[j], aid);
        } else {
            lemma_state_after_update(alerts1, j, a_after[j], rt1[k]);
        }
    }
    lemma_consistent_intro(a_after, rt1);
}

/// The unmet-condition half of `lemma_evaluation_keeps_runtime_consistent`.
#[verifier::rlimit(40)]
proof fn lemma_unmatched_keeps_consistent(
    alerts: Seq<AlertEvent>,
    rt: Seq<RuleRuntime>,
    rule: AlertRule,
    service: String,
    observed_bits: u64,
    now: Timestamp,
    message: String,
    fresh_id: u128,
)
    requires
        crate::store::runtime_keys_unique(rt),
        runtime_consistent(alerts, rt),
    ensures
        ({
            let o = condition_outcome(alerts, rt, rule, service, observed_bits, false, now, message, fresh_id);
            &&& crate::store::runtime_keys_unique(o.runtime)
            &&& runtime_consistent(o.alerts, o.runtime)
        }),
{
    let entry = runtime_entry(rt, rule.id, service);
    let entry1 = RuleRuntime { active_alert_id: None, condition_started_at: None, ..entry };
    let ri = lemma_put_shape(rt, rule.id, service@, entry1);
    let rt1 = runtime_put(rt, rule.id, service@, entry1);
    let o = condition_outcome(alerts, rt, rule, service, observed_bits, false, now, message, fresh_id);
    lemma_resolve_effect(alerts, rt1, entry.active_alert_id, observed_bits, now);
    assert(o.runtime == rt1);
    if has_runtime(rt, rule.id, service@) {
        lemma_consistent_elim(alerts, rt, ri);
    }
    match entry.active_alert_id {
        Some(aid) => {
            crate::engine::lemma_last_alert_index_exists(alerts, aid);
            let j = last_alert_index(alerts, aid);
            if o.alerts != alerts {
                assert(o.alerts =~= alerts.update(j, o.alerts[j]));
            }
            assert forall|k: int| 0 <= k < rt1.len() implies state_consistent(o.alerts, #[trigger] rt1[k]) by {
                if k != ri {
                    assert(rt1[k] == rt[k]);
                    lemma_consistent_elim(alerts, rt, k);
                    if let Some(id) = rt[k].active_alert_id {
                        crate::engine::lemma_last_alert_index_exists(alerts, id);
                        if last_alert_index(alerts, id) == j {
                            assert(rt[k].rule_id == rule.id && rt[k].service_name@ == service@);
                        }
                    }
                    if o.alerts != alerts {
                        lemma_state_after_update(alerts, j, o.alerts[j], rt[k]);
                    }
                }
            }
        },
        None => {
            assert(o.alerts == alerts);
            assert forall|k: int| 0 <= k < rt1.len() implies state_consistent(o.alerts, #[trigger] rt1[k]) by {
                if k != ri {
                    assert(rt1[k] == rt[k]);
                    lemma_consistent_elim(alerts, rt, k);
                }
            }
        },
    }
    lemma_consistent_intro(o.alerts, rt1);
}

/// Each evaluation keeps the evaluation states consistent with the alert
/// history (see `runtime_consistent`), provided the identifier drawn for a
/// new alert is not already in the history: so a rule and service never
/// have more than the one active alert their state points to, and the
/// state never points to a resolved alert.
pub proof fn lemma_evaluation_keeps_runtime_consistent(
    alerts: Seq<AlertEvent>,
    rt: Seq<RuleRuntime>,
    rule: AlertRule,
    service: String,
    observed_bits: u64,
    matched: bool,
    now: Timestamp,
    message: String,
    fresh_id: u128,
)
    requires
        crate::store::runtime_keys_unique(rt),
        runtime_consistent(alerts, rt),
        !has_alert_id(alerts, fresh_id),
    ensures
        ({
            let o = condition_outcome(
                alerts,
                rt,
                rule,
                service,
                observed_bits,
                matched,
                now,
                message,
                fresh_id,
            );
            &&& crate::store::runtime_keys_unique(o.runtime)
            &&& runtime_consistent(o.alerts, o.runtime)
        }),
{
    if matched {
        lemma_matched_keeps_consistent(alerts, rt, rule, service, observed_bits, now, message, fresh_id);
    } else {
        lemma_unmatched_keeps_consistent(alerts, rt, rule, service, observed_bits, now, message, fresh_id);
    }
}

} // verus!
