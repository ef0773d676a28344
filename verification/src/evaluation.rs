//! Which rules an event or a housekeeping round evaluates, with the
//! telemetry each evaluation looks at, and the health refresh of
//! housekeeping.
use vstd::prelude::*;

use crate::alerts::{
    compute_status, log_window, log_window_count, log_window_in_range,
    log_window_ok, metric_window, metric_window_in_range, metric_window_ok, metric_window_values,
    status_at,
};
use crate::models::{AlertRule, AlertSourceType, LogEvent, MetricEvent, RealtimeEvent, Service};
use crate::store::{has_service, service_index, Store};
use crate::text::str_eq;
use crate::time::{compute_whole_secs_since, utc_now, whole_secs_since, Timestamp};

verus! {

/// A metric rule to evaluate, with the sample values in its window.
pub struct MetricCheck {
    pub rule: AlertRule,
    pub values: Vec<u64>,
}

/// The metric rule evaluations a sample of `service` at `now` triggers, in
/// rule order: enabled metric rules covering the service and naming a
/// metric. The flag is set when evaluation stops at a rule whose window
/// cannot be placed before `now` (the checks before it still stand).
pub open spec fn metric_plan(
    rules: Seq<AlertRule>,
    ms: Seq<MetricEvent>,
    service: Seq<char>,
    now: Timestamp,
) -> (Seq<(AlertRule, Seq<u64>)>, bool)
    decreases rules.len(),
{
    if rules.len() == 0 {
        (seq![], false)
    } else {
        let (checks, stopped) = metric_plan(rules.drop_last(), ms, service, now);
        let rule = rules.last();
        if stopped || !rule.enabled {
            (checks, stopped)
        } else if !metric_window_in_range(rule, service, now) {
            (checks, true)
        } else {
            match metric_window(rule, service, ms, now) {
                Some(values) => (checks.push((rule, values)), false),
                None => (checks, false),
            }
        }
    }
}

/// A log rule to evaluate, with the number of lines in its window.
pub struct LogCheck {
    pub rule: AlertRule,
    pub count: usize,
}

/// The log rule evaluations a line of `service` at `now` triggers, in rule
/// order: enabled log rules covering the service; the flag as for metrics.
pub open spec fn log_plan(rules: Seq<AlertRule>, ls: Seq<LogEvent>, service: Seq<char>, now: Timestamp) -> (
    Seq<(AlertRule, nat)>,
    bool,
)
    decreases rules.len(),
{
    if rules.len() == 0 {
        (seq![], false)
    } else {
        let (checks, stopped) = log_plan(rules.drop_last(), ls, service, now);
        let rule = rules.last();
        if stopped || !rule.enabled {
            (checks, stopped)
        } else if !log_window_in_range(rule, service, now) {
            (checks, true)
        } else {
            match log_window(rule, service, ls, now) {
                Some(n) => (checks.push((rule, n)), false),
                None => (checks, false),
            }
        }
    }
}

/// A heartbeat rule to evaluate for one service, with the whole seconds
/// since that service was last seen.
#[derive(Clone, Debug)]
pub struct HeartbeatCheck {
    pub rule: AlertRule,
    pub service_name: String,
    pub seconds_since_last_seen: i64,
}

/// The heartbeat evaluations of one rule: none unless it is an enabled
/// heartbeat rule; for `"*"` one per registered service, in registry order;
/// else one for the named service when it is registered.
pub open spec fn heartbeat_checks_for(rule: AlertRule, services: Seq<Service>, now: Timestamp) -> Seq<
    HeartbeatCheck,
> {
    if !rule.enabled || rule.source_type != AlertSourceType::Heartbeat {
        seq![]
    } else if rule.service@ == "*"@ {
        Seq::new(
            services.len(),
            |i: int|
                HeartbeatCheck {
                    rule,
                    service_name: services[i].name,
                    seconds_since_last_seen: whole_secs_since(now, services[i].last_seen_at) as i64,
                },
        )
    } else if has_service(services, rule.service@) {
        seq![
            HeartbeatCheck {
                rule,
                service_name: rule.service,
                seconds_since_last_seen: whole_secs_since(
                    now,
                    services[service_index(services, rule.service@)].last_seen_at,
                ) as i64,
            },
        ]
    } else {
        seq![]
    }
}

/// The heartbeat evaluations of a housekeeping round, rule by rule.
pub open spec fn heartbeat_plan(rules: Seq<AlertRule>, services: Seq<Service>, now: Timestamp) -> Seq<
    HeartbeatCheck,
>
    decreases rules.len(),
{
    if rules.len() == 0 {
        seq![]
    } else {
        heartbeat_plan(rules.drop_last(), services, now) + heartbeat_checks_for(
            rules.last(),
            services,
            now,
        )
    }
}

/// A service with its health judged at `now`.
pub open spec fn refreshed(config: crate::models::StoreConfig, s: Service, now: Timestamp) -> Service {
    Service { status: status_at(config, s.last_seen_at, now), ..s }
}

/// The announcements of a health refresh: each service whose health
/// changed, as it now stands, in registry order.
pub open spec fn status_changes(config: crate::models::StoreConfig, services: Seq<Service>, now: Timestamp) -> Seq<
    RealtimeEvent,
>
    decreases services.len(),
{
    if services.len() == 0 {
        seq![]
    } else {
        let rest = status_changes(config, services.drop_last(), now);
        let s = services.last();
        if status_at(config, s.last_seen_at, now) != s.status {
            rest.push(RealtimeEvent::ServiceStatusChanged(refreshed(config, s, now)))
        } else {
            rest
        }
    }
}

/// The start of a housekeeping round: the clock reading it uses and the
/// health changes it announces.
pub struct HousekeepingRound {
    pub now: Timestamp,
    pub changes: Vec<RealtimeEvent>,
}

impl Store {
    /// The metric rule evaluations that a sample of `service_name` at `now`
    /// triggers (see `metric_plan`).
    pub fn metric_rule_plan(&self, service_name: &str, now: Timestamp) -> (r: (Vec<MetricCheck>, bool))
        requires
            now.wf(),
        ensures
            ({
                let (checks, stopped) = metric_plan(self.rules@, self.metrics@, service_name@, now);
                &&& r.1 == stopped
                &&& r.0@.len() == checks.len()
                &&& forall|k: int|
                    0 <= k < checks.len() ==> (#[trigger] r.0@[k]).rule == checks[k].0 && r.0@[k].values@
                        == checks[k].1
            }),
    {
        let mut checks: Vec<MetricCheck> = Vec::new();
        let mut i: usize = 0;
        while i < self.rules.len()
            invariant
                i <= self.rules@.len(),
                now.wf(),
                ({
                    let (cs, stopped) = metric_plan(self.rules@.take(i as int), self.metrics@, service_name@, now);
                    &&& !stopped
                    &&& checks@.len() == cs.len()
                    &&& forall|k: int|
                        0 <= k < cs.len() ==> (#[trigger] checks@[k]).rule == cs[k].0 && checks@[k].values@
                            == cs[k].1
                }),
            decreases self.rules@.len() - i,
        {
            let rule = &self.rules[i];
            assert(self.rules@.take(i + 1).drop_last() =~= self.rules@.take(i as int));
            if rule.enabled {
                if !metric_window_ok(rule, service_name, now) {
                    proof {
                        lemma_metric_plan_stays_stopped(self.rules@, self.metrics@, service_name@, now, i as int + 1);
                    }
                    return (checks, true);
                }
                match metric_window_values(rule, service_name, &self.metrics, now) {
                    Some(values) => {
                        checks.push(MetricCheck { rule: rule.copy(), values });
                    },
                    None => {},
                }
            }
            i = i + 1;
        }
        assert(self.rules@.take(i as int) =~= self.rules@);
        (checks, false)
    }

    /// The log rule evaluations that a line of `service_name` at `now`
    /// triggers (see `log_plan`).
    pub fn log_rule_plan(&self, service_name: &str, now: Timestamp) -> (r: (Vec<LogCheck>, bool))
        requires
            now.wf(),
        ensures
            ({
                let (checks, stopped) = log_plan(self.rules@, self.logs@, service_name@, now);
                &&& r.1 == stopped
                &&& r.0@.len() == checks.len()
                &&& forall|k: int|
                    0 <= k < checks.len() ==> (#[trigger] r.0@[k]).rule == checks[k].0 && r.0@[k].count
                        == checks[k].1
            }),
    {
        let mut checks: Vec<LogCheck> = Vec::new();
        let mut i: usize = 0;
        while i < self.rules.len()
            invariant
                i <= self.rules@.len(),
                now.wf(),
                ({
                    let (cs, stopped) = log_plan(self.rules@.take(i as int), self.logs@, service_name@, now);
                    &&& !stopped
                    &&& checks@.len() == cs.len()
                    &&& forall|k: int|
                        0 <= k < cs.len() ==> (#[trigger] checks@[k]).rule == cs[k].0 && checks@[k].count
                            == cs[k].1
                }),
            decreases self.rules@.len() - i,
        {
            let rule = &self.rules[i];
            assert(self.rules@.take(i + 1).drop_last() =~= self.rules@.take(i as int));
            if rule.enabled {
                if !log_window_ok(rule, service_name, now) {
                    proof {
                        lemma_log_plan_stays_stopped(self.rules@, self.logs@, service_name@, now, i as int + 1);
                    }
                    return (checks, true);
                }
                match log_window_count(rule, service_name, &self.logs, now) {
                    Some(count) => {
                        checks.push(LogCheck { rule: rule.copy(), count });
                    },
                    None => {},
                }
            }
            i = i + 1;
        }
        assert(self.rules@.take(i as int) =~= self.rules@);
        (checks, false)
    }

    /// Judges the health of every service at `now`, and reports each change
    /// (see `status_changes`).
    pub fn refresh_statuses(&mut self, now: Timestamp) -> (r: Vec<RealtimeEvent>)
        requires
            old(self).wf(),
        ensures
            final(self).wf(),
            final(self).services@ == old(self).services@.map_values(
                |s: Service| refreshed(old(self).config, s, now),
            ),
            r@ == status_changes(old(self).config, old(self).services@, now),
            final(self).config == old(self).config,
            final(self).metrics@ == old(self).metrics@,
            final(self).logs@ == old(self).logs@,
            final(self).rules@ == old(self).rules@,
            final(self).alerts@ == old(self).alerts@,
            final(self).runtime@ == old(self).runtime@,
    {
        let ghost s0 = self.services@;
        let mut events: Vec<RealtimeEvent> = Vec::new();
        let mut i: usize = 0;
        while i < self.services.len()
            invariant
                i <= self.services@.len(),
                self.services@.len() == s0.len(),
                forall|k: int| 0 <= k < i ==> #[trigger] self.services@[k] == refreshed(self.config, s0[k], now),
                forall|k: int| i <= k < s0.len() ==> #[trigger] self.services@[k] == s0[k],
                events@ == status_changes(self.config, s0.take(i as int), now),
                self.config == old(self).config,
                self.metrics@ == old(self).metrics@,
                self.logs@ == old(self).logs@,
                self.rules@ == old(self).rules@,
                self.alerts@ == old(self).alerts@,
                self.runtime@ == old(self).runtime@,
                s0 == old(self).services@,
            decreases s0.len() - i,
        {
            assert(s0.take(i + 1).drop_last() =~= s0.take(i as int));
            let cur = self.services[i].copy();
            let next = compute_status(&self.config, cur.last_seen_at, now);
            if next != cur.status {
                let svc = Service { status: next, ..cur };
                events.push(RealtimeEvent::ServiceStatusChanged(svc.copy()));
                self.services.set(i, svc);
            }
            i = i + 1;
        }
        assert(self.services@ =~= s0.map_values(|s: Service| refreshed(self.config, s, now)));
        assert(s0.take(i as int) =~= s0);
        assert(crate::store::names_unique(self.services@)) by {
            assert forall|a: int, b: int|
                0 <= a < self.services@.len() && 0 <= b < self.services@.len() && a != b implies #[trigger] self.services@[a].name@
                != #[trigger] self.services@[b].name@ by {
                assert(self.services@[a].name == s0[a].name);
                assert(self.services@[b].name == s0[b].name);
            }
        }
        events
    }

    /// Starts a housekeeping round: reads the clock and refreshes the health
    /// of every service at that instant.
    pub fn start_housekeeping(&mut self) -> (r: HousekeepingRound)
        requires
            old(self).wf(),
        ensures
            final(self).wf(),
            r.now.wf(),
            final(self).services@ == old(self).services@.map_values(
                |s: Service| refreshed(old(self).config, s, r.now),
            ),
            r.changes@ == status_changes(old(self).config, old(self).services@, r.now),
            final(self).config == old(self).config,
            final(self).metrics@ == old(self).metrics@,
            final(self).logs@ == old(self).logs@,
            final(self).rules@ == old(self).rules@,
            final(self).alerts@ == old(self).alerts@,
            final(self).runtime@ == old(self).runtime@,
    {
        let now = utc_now();
        let changes = self.refresh_statuses(now);
        HousekeepingRound { now, changes }
    }

    /// The heartbeat evaluations of a housekeeping round at `now` (see
    /// `heartbeat_plan`).
    pub fn heartbeat_rule_plan(&self, now: Timestamp) -> (r: Vec<HeartbeatCheck>)
        requires
            self.wf(),
            now.wf(),
        ensures
            r@ == heartbeat_plan(self.rules@, self.services@, now),
    {
        let mut out: Vec<HeartbeatCheck> = Vec::new();
        let mut i: usize = 0;
        while i < self.rules.len()
            invariant
                i <= self.rules@.len(),
                self.wf(),
                now.wf(),
                out@ == heartbeat_plan(self.rules@.take(i as int), self.services@, now),
            decreases self.rules@.len() - i,
        {
            assert(self.rules@.take(i + 1).drop_last() =~= self.rules@.take(i as int));
            let rule = &self.rules[i];
            let is_heartbeat = match rule.source_type {
                AlertSourceType::Heartbeat => true,
                _ => false,
            };
            let ghost before = out@;
            if rule.enabled && is_heartbeat {
                if str_eq(rule.service.as_str(), "*") {
                    let mut k: usize = 0;
                    while k < self.services.len()
                        invariant
                            k <= self.services@.len(),
                            i < self.rules@.len(),
                            *rule == self.rules@[i as int],
                            rule.enabled,
                            rule.source_type == AlertSourceType::Heartbeat,
                            rule.service@ == "*"@,
                            now.wf(),
                            self.wf(),
                            out@ == before + heartbeat_checks_for(*rule, self.services@, now).take(k as int),
                        decreases self.services@.len() - k,
                    {
                        let svc = &self.services[k];
                        let secs = compute_whole_secs_since(now, svc.last_seen_at);
                        out.push(
                            HeartbeatCheck {
                                rule: rule.copy(),
                                service_name: svc.name.clone(),
                                seconds_since_last_seen: secs,
                            },
                        );
                        k = k + 1;
                        assert(out@ =~= before + heartbeat_checks_for(*rule, self.services@, now).take(k as int));
                    }
                    assert(heartbeat_checks_for(*rule, self.services@, now).take(k as int)
                        =~= heartbeat_checks_for(*rule, self.services@, now));
                } else {
                    match self.find_service(rule.service.as_str()) {
                        Some(j) => {
                            let secs = compute_whole_secs_since(now, self.services[j].last_seen_at);
                            out.push(
                                HeartbeatCheck {
                                    rule: rule.copy(),
                                    service_name: rule.service.clone(),
                                    seconds_since_last_seen: secs,
                                },
                            );
                            assert(out@ =~= before + heartbeat_checks_for(*rule, self.services@, now));
                        },
                        None => {
                            assert(out@ =~= before + heartbeat_checks_for(*rule, self.services@, now));
                        },
                    }
                }
            } else {
                assert(out@ =~= before + heartbeat_checks_for(*rule, self.services@, now));
            }
            i = i + 1;
        }
        assert(self.rules@.take(i as int) =~= self.rules@);
        out
    }
}

proof fn lemma_metric_plan_stays_stopped(
    rules: Seq<AlertRule>,
    ms: Seq<MetricEvent>,
    service: Seq<char>,
    now: Timestamp,
    i: int,
)
    requires
        0 < i <= rules.len(),
        metric_plan(rules.take(i), ms, service, now).1,
    ensures
        metric_plan(rules, ms, service, now) == metric_plan(rules.take(i), ms, service, now),
    decreases rules.len() - i,
{
    if i < rules.len() {
        assert(rules.take(i + 1).drop_last() =~= rules.take(i));
        lemma_metric_plan_stays_stopped(rules, ms, service, now, i + 1);
    } else {
        assert(rules.take(i) =~= rules);
    }
}

proof fn lemma_log_plan_stays_stopped(
    rules: Seq<AlertRule>,
    ls: Seq<LogEvent>,
    service: Seq<char>,
    now: Timestamp,
    i: int,
)
    requires
        0 < i <= rules.len(),
        log_plan(rules.take(i), ls, service, now).1,
    ensures
        log_plan(rules, ls, service, now) == log_plan(rules.take(i), ls, service, now),
    decreases rules.len() - i,
{
    if i < rules.len() {
        assert(rules.take(i + 1).drop_last() =~= rules.take(i));
        lemma_log_plan_stays_stopped(rules, ls, service, now, i + 1);
    } else {
        assert(rules.take(i) =~= rules);
    }
}

} // verus!
