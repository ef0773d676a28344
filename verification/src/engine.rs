//! The alert lifecycle: how one evaluation of a rule for a service moves its
//! alert from pending to firing to resolved.
use vstd::prelude::*;

use crate::alerts::{held_for_window, should_transition_to_firing, window_delta_ok};
use crate::ids::new_id;
use crate::models::{AlertEvent, AlertRule, AlertStatus, RealtimeEvent};
use crate::store::{runtime_keys_unique, RuleRuntime, Store};
use crate::text::str_eq;
use crate::time::{as_i64, delta_secs_ok, Timestamp};

verus! {

/// An evaluation state for (`rule_id`, `service`) exists.
pub open spec fn has_runtime(rt: Seq<RuleRuntime>, rule_id: u128, service: Seq<char>) -> bool {
    exists|i: int| 0 <= i < rt.len() && #[trigger] rt[i].rule_id == rule_id && rt[i].service_name@ == service
}

/// Its position (meaningful when it exists).
pub open spec fn runtime_index(rt: Seq<RuleRuntime>, rule_id: u128, service: Seq<char>) -> int {
    choose|i: int| 0 <= i < rt.len() && #[trigger] rt[i].rule_id == rule_id && rt[i].service_name@ == service
}

/// Some alert has identifier `id`.
pub open spec fn has_alert_id(alerts: Seq<AlertEvent>, id: u128) -> bool {
    exists|i: int| 0 <= i < alerts.len() && #[trigger] alerts[i].id == id
}

/// The position of the most recently raised alert with identifier `id`
/// (the one an identifier lookup finds; meaningful when there is one).
pub open spec fn last_alert_index(alerts: Seq<AlertEvent>, id: u128) -> int {
    choose|i: int|
        0 <= i < alerts.len() && #[trigger] alerts[i].id == id && forall|j: int|
            i < j < alerts.len() ==> #[trigger] alerts[j].id != id
}

/// The effect of one evaluation: the alert history and evaluation states
/// after it, the events to announce, and whether it completes (it does not
/// when the rule's window cannot be a signed duration and the firing delay
/// had to be checked).
pub struct ConditionOutcome {
    pub alerts: Seq<AlertEvent>,
    pub runtime: Seq<RuleRuntime>,
    pub events: Seq<RealtimeEvent>,
    pub completed: bool,
}

/// The alert that a newly met condition raises.
pub open spec fn raised_alert(
    id: u128,
    rule: AlertRule,
    service: String,
    observed_bits: u64,
    now: Timestamp,
    message: String,
) -> AlertEvent {
    AlertEvent {
        id,
        rule_id: rule.id,
        service,
        status: AlertStatus::Pending,
        severity: rule.severity,
        message,
        triggered_at: now,
        resolved_at: None,
        observed_bits: Some(observed_bits),
    }
}

/// The evaluation state of (`rule_id`, `service`), a fresh one when none
/// exists.
pub open spec fn runtime_entry(rt: Seq<RuleRuntime>, rule_id: u128, service: String) -> RuleRuntime {
    if has_runtime(rt, rule_id, service@) {
        rt[runtime_index(rt, rule_id, service@)]
    } else {
        RuleRuntime {
            rule_id,
            service_name: service,
            condition_started_at: None,
            active_alert_id: None,
        }
    }
}

/// The evaluation states with `e` stored under (`rule_id`, `service`).
pub open spec fn runtime_put(
    rt: Seq<RuleRuntime>,
    rule_id: u128,
    service: Seq<char>,
    e: RuleRuntime,
) -> Seq<RuleRuntime> {
    if has_runtime(rt, rule_id, service) {
        rt.update(runtime_index(rt, rule_id, service), e)
    } else {
        rt.push(e)
    }
}

/// A met condition refreshes the active alert `aid` (the most recent alert
/// with that identifier, if any): new message and observed value; a pending
/// alert whose condition started at `started` fires once it has held for
/// `window_seconds`. It does not complete when that check is due and the
/// window is not a signed duration.
pub open spec fn refresh_outcome(
    alerts: Seq<AlertEvent>,
    rt: Seq<RuleRuntime>,
    aid: u128,
    started: Option<Timestamp>,
    window_seconds: u64,
    observed_bits: u64,
    now: Timestamp,
    message: String,
) -> ConditionOutcome {
    if has_alert_id(alerts, aid) {
        let j = last_alert_index(alerts, aid);
        let a1 = AlertEvent { message, observed_bits: Some(observed_bits), ..alerts[j] };
        let check = alerts[j].status == AlertStatus::Pending && started is Some;
        if check && !delta_secs_ok(as_i64(window_seconds)) {
            ConditionOutcome { alerts: alerts.update(j, a1), runtime: rt, events: seq![], completed: false }
        } else if check && held_for_window(started->0, now, window_seconds) {
            let a2 = AlertEvent { status: AlertStatus::Firing, ..a1 };
            ConditionOutcome {
                alerts: alerts.update(j, a2),
                runtime: rt,
                events: seq![RealtimeEvent::AlertFired(a2)],
                completed: true,
            }
        } else {
            ConditionOutcome { alerts: alerts.update(j, a1), runtime: rt, events: seq![], completed: true }
        }
    } else {
        ConditionOutcome { alerts, runtime: rt, events: seq![], completed: true }
    }
}

/// A condition no longer met resolves the alert `aid` (the most recent alert
/// with that identifier), unless there is none or it is resolved already.
pub open spec fn resolve_outcome(
    alerts: Seq<AlertEvent>,
    rt: Seq<RuleRuntime>,
    aid: Option<u128>,
    observed_bits: u64,
    now: Timestamp,
) -> ConditionOutcome {
    match aid {
        Some(id) => {
            if has_alert_id(alerts, id) && alerts[last_alert_index(alerts, id)].status
                != AlertStatus::Resolved {
                let j = last_alert_index(alerts, id);
                let a1 = AlertEvent {
                    status: AlertStatus::Resolved,
                    resolved_at: Some(now),
                    observed_bits: Some(observed_bits),
                    ..alerts[j]
                };
                ConditionOutcome {
                    alerts: alerts.update(j, a1),
                    runtime: rt,
                    events: seq![RealtimeEvent::AlertResolved(a1)],
                    completed: true,
                }
            } else {
                ConditionOutcome { alerts, runtime: rt, events: seq![], completed: true }
            }
        },
        None => ConditionOutcome { alerts, runtime: rt, events: seq![], completed: true },
    }
}

/// One evaluation of `rule` for `service` with outcome `matched` and
/// observed value `observed_bits` at `now`:
/// - met: raise a pending alert (identifier `fresh_id`) unless one is active,
///   recording when the condition started, then refresh the active alert
///   (see `refresh_outcome`);
/// - not met: forget the active alert and the condition start, and resolve
///   that alert (see `resolve_outcome`).
pub open spec fn condition_outcome(
    alerts: Seq<AlertEvent>,
    rt: Seq<RuleRuntime>,
    rule: AlertRule,
    service: String,
    observed_bits: u64,
    matched: bool,
    now: Timestamp,
    message: String,
    fresh_id: u128,
) -> ConditionOutcome {
    let entry = runtime_entry(rt, rule.id, service);
    if matched {
        let created = entry.active_alert_id is None;
        let alerts1 = if created {
            alerts.push(raised_alert(fresh_id, rule, service, observed_bits, now, message))
        } else {
            alerts
        };
        let entry1 = if created {
            RuleRuntime { active_alert_id: Some(fresh_id), condition_started_at: Some(now), ..entry }
        } else {
            entry
        };
        refresh_outcome(
            alerts1,
            runtime_put(rt, rule.id, service@, entry1),
            entry1.active_alert_id->0,
            entry1.condition_started_at,
            rule.window_seconds,
            observed_bits,
            now,
            message,
        )
    } else {
        resolve_outcome(
            alerts,
            runtime_put(
                rt,
                rule.id,
                service@,
                RuleRuntime { active_alert_id: None, condition_started_at: None, ..entry },
            ),
            entry.active_alert_id,
            observed_bits,
            now,
        )
    }
}

/// The store after an evaluation is as `condition_outcome` says, with the
/// registry, telemetry and rules unchanged.
pub open spec fn condition_applied(
    old: &Store,
    new: &Store,
    r: Option<Vec<RealtimeEvent>>,
    rule: AlertRule,
    service: String,
    observed_bits: u64,
    matched: bool,
    now: Timestamp,
    message: String,
    fresh_id: u128,
) -> bool {
    let o = condition_outcome(
        old.alerts@,
        old.runtime@,
        rule,
        service,
        observed_bits,
        matched,
        now,
        message,
        fresh_id,
    );
    &&& new.alerts@ == o.alerts
    &&& new.runtime@ == o.runtime
    &&& (r is Some) == o.completed
    &&& (r matches Some(v) ==> v@ == o.events)
    &&& new.config == old.config
    &&& new.services@ == old.services@
    &&& new.metrics@ == old.metrics@
    &&& new.logs@ == old.logs@
    &&& new.rules@ == old.rules@
}

impl RuleRuntime {
    pub fn copy(&self) -> (r: RuleRuntime)
        ensures
            r == *self,
    {
        RuleRuntime {
            rule_id: self.rule_id,
            service_name: self.service_name.clone(),
            condition_started_at: self.condition_started_at,
            active_alert_id: self.active_alert_id,
        }
    }
}

proof fn lemma_runtime_index(rt: Seq<RuleRuntime>, rule_id: u128, service: Seq<char>, i: int)
    requires
        runtime_keys_unique(rt),
        0 <= i < rt.len(),
        rt[i].rule_id == rule_id,
        rt[i].service_name@ == service,
    ensures
        has_runtime(rt, rule_id, service),
        runtime_index(rt, rule_id, service) == i,
{
    assert(has_runtime(rt, rule_id, service));
    let j = runtime_index(rt, rule_id, service);
    assert(rt[j].rule_id == rule_id && rt[j].service_name@ == service);
}

proof fn lemma_last_alert_index(alerts: Seq<AlertEvent>, id: u128, i: int)
    requires
        0 <= i < alerts.len(),
        alerts[i].id == id,
        forall|j: int| i < j < alerts.len() ==> #[trigger] alerts[j].id != id,
    ensures
        has_alert_id(alerts, id),
        last_alert_index(alerts, id) == i,
{
    assert(has_alert_id(alerts, id));
    let k = last_alert_index(alerts, id);
    if k < i {
        assert(alerts[i].id != id);
    } else if k > i {
        assert(alerts[k].id != id);
    }
}

/// When some alert has identifier `id`, the most recent one is a position
/// holding `id` after which no alert holds it.
pub proof fn lemma_last_alert_index_exists(alerts: Seq<AlertEvent>, id: u128)
    requires
        has_alert_id(alerts, id),
    ensures
        0 <= last_alert_index(alerts, id) < alerts.len(),
        alerts[last_alert_index(alerts, id)].id == id,
        forall|j: int| last_alert_index(alerts, id) < j < alerts.len() ==> #[trigger] alerts[j].id != id,
    decreases alerts.len(),
{
    if alerts.last().id == id {
        assert forall|j: int| alerts.len() - 1 < j < alerts.len() implies #[trigger] alerts[j].id != id by {}
        lemma_last_alert_index(alerts, id, alerts.len() - 1);
    } else {
        let init = alerts.drop_last();
        let w = choose|i: int| 0 <= i < alerts.len() && #[trigger] alerts[i].id == id;
        assert(init[w].id == id);
        lemma_last_alert_index_exists(init, id);
        let k = last_alert_index(init, id);
        assert forall|j: int| k < j < alerts.len() implies #[trigger] alerts[j].id != id by {
            if j < alerts.len() - 1 {
                assert(alerts[j] == init[j]);
            }
        }
        lemma_last_alert_index(alerts, id, k);
    }
}

/// Finds the position of the most recently raised alert with identifier
/// `id`.
pub fn find_alert(alerts: &Vec<AlertEvent>, id: u128) -> (r: Option<usize>)
    ensures
        r matches Some(j) ==> j < alerts@.len() && has_alert_id(alerts@, id) && last_alert_index(
            alerts@,
            id,
        ) == j,
        r is None ==> !has_alert_id(alerts@, id),
{
    let mut k: usize = alerts.len();
    while k > 0
        invariant
            k <= alerts@.len(),
            forall|j: int| k <= j < alerts@.len() ==> #[trigger] alerts@[j].id != id,
        decreases k,
    {
        if alerts[k - 1].id == id {
            proof {
                lemma_last_alert_index(alerts@, id, k - 1);
            }
            return Some(k - 1);
        }
        k = k - 1;
    }
    None
}

impl Store {
    /// The position of the evaluation state of (`rule_id`, `service`), if
    /// any.
    pub fn find_runtime(&self, rule_id: u128, service: &str) -> (r: Option<usize>)
        requires
            self.base_wf(),
        ensures
            r matches Some(i) ==> i < self.runtime@.len() && has_runtime(self.runtime@, rule_id, service@)
                && runtime_index(self.runtime@, rule_id, service@) == i,
            r is None ==> !has_runtime(self.runtime@, rule_id, service@),
    {
        let mut i: usize = 0;
        while i < self.runtime.len()
            invariant
                i <= self.runtime@.len(),
                self.base_wf(),
                forall|j: int|
                    0 <= j < i ==> !(#[trigger] self.runtime@[j].rule_id == rule_id
                        && self.runtime@[j].service_name@ == service@),
            decreases self.runtime@.len() - i,
        {
            if self.runtime[i].rule_id == rule_id && str_eq(self.runtime[i].service_name.as_str(), service) {
                proof {
                    lemma_runtime_index(self.runtime@, rule_id, service@, i as int);
                }
                return Some(i);
            }
            i = i + 1;
        }
        None
    }

    fn apply_condition_core(
        &mut self,
        rule: &AlertRule,
        service_name: &String,
        observed_bits: u64,
        matched: bool,
        now: Timestamp,
        message: String,
        fresh_id: u128,
    ) -> (r: Option<Vec<RealtimeEvent>>)
        requires
            old(self).base_wf(),
        ensures
            final(self).base_wf(),
            condition_applied(
                old(self),
                final(self),
                r,
                *rule,
                *service_name,
                observed_bits,
                matched,
                now,
                message,
                fresh_id,
            ),
    {
        let ghost rt0 = self.runtime@;
        let ri = self.prepare_runtime(rule.id, service_name);
        proof {
            if !has_runtime(rt0, rule.id, service_name@) {
                assert(self.runtime@.drop_last() =~= rt0);
            }
        }
        let entry = self.runtime[ri].copy();
        if matched {
            let entry1 = match entry.active_alert_id {
                Some(_) => entry,
                None => {
                    let alert = AlertEvent {
                        id: fresh_id,
                        rule_id: rule.id,
                        service: service_name.clone(),
                        status: AlertStatus::Pending,
                        severity: rule.severity,
                        message: message.clone(),
                        triggered_at: now,
                        resolved_at: None,
                        observed_bits: Some(observed_bits),
                    };
                    self.alerts.push(alert);
                    RuleRuntime {
                        active_alert_id: Some(fresh_id),
                        condition_started_at: Some(now),
                        ..entry
                    }
                },
            };
            let aid = match entry1.active_alert_id {
                Some(a) => a,
                None => fresh_id,
            };
            let started = entry1.condition_started_at;
            self.store_runtime(ri, entry1, Ghost(rt0), Ghost(rule.id), Ghost(*service_name));
            self.refresh_active(aid, started, rule.window_seconds, observed_bits, now, message)
        } else {
            let aid = entry.active_alert_id;
            let entry1 = RuleRuntime { active_alert_id: None, condition_started_at: None, ..entry };
            self.store_runtime(ri, entry1, Ghost(rt0), Ghost(rule.id), Ghost(*service_name));
            Some(self.resolve_active(aid, observed_bits, now))
        }
    }

    /// Makes sure an evaluation state exists for (`rule_id`, `service`) and
    /// returns its position.
    fn prepare_runtime(&mut self, rule_id: u128, service: &String) -> (ri: usize)
        requires
            old(self).base_wf(),
        ensures
            final(self).base_wf(),
            ri < final(self).runtime@.len(),
            final(self).runtime@[ri as int] == runtime_entry(old(self).runtime@, rule_id, *service),
            has_runtime(old(self).runtime@, rule_id, service@) ==> final(self).runtime@
                == old(self).runtime@ && ri == runtime_index(old(self).runtime@, rule_id, service@),
            !has_runtime(old(self).runtime@, rule_id, service@) ==> final(self).runtime@
                == old(self).runtime@.push(runtime_entry(old(self).runtime@, rule_id, *service))
                && ri == old(self).runtime@.len(),
            final(self).alerts@ == old(self).alerts@,
            final(self).config == old(self).config,
            final(self).services@ == old(self).services@,
            final(self).metrics@ == old(self).metrics@,
            final(self).logs@ == old(self).logs@,
            final(self).rules@ == old(self).rules@,
    {
        let ghost rt0 = self.runtime@;
        match self.find_runtime(rule_id, service.as_str()) {
            Some(i) => i,
            None => {
                let n = self.runtime.len();
                self.runtime.push(
                    RuleRuntime {
                        rule_id,
                        service_name: service.clone(),
                        condition_started_at: None,
                        active_alert_id: None,
                    },
                );
                assert(runtime_keys_unique(self.runtime@)) by {
                    assert forall|a: int, b: int|
                        0 <= a < self.runtime@.len() && 0 <= b < self.runtime@.len() && a != b implies !(
                    #[trigger] self.runtime@[a].rule_id == #[trigger] self.runtime@[b].rule_id
                        && self.runtime@[a].service_name@ == self.runtime@[b].service_name@) by {
                        if a == n as int || b == n as int {
                            let c = if a == n as int {
                                b
                            } else {
                                a
                            };
                            assert(self.runtime@[c] == rt0[c]);
                        }
                    }
                }
                n
            },
        }
    }

    /// Stores evaluation state `e` at position `ri`, which holds the state of
    /// (`rule_id`, `service`).
    fn store_runtime(
        &mut self,
        ri: usize,
        e: RuleRuntime,
        Ghost(rt0): Ghost<Seq<RuleRuntime>>,
        Ghost(rule_id): Ghost<u128>,
        Ghost(service): Ghost<String>,
    )
        requires
            old(self).base_wf(),
            ri < old(self).runtime@.len(),
            old(self).runtime@[ri as int].rule_id == rule_id,
            old(self).runtime@[ri as int].service_name@ == service@,
            e.rule_id == rule_id,
            e.service_name@ == service@,
            has_runtime(rt0, rule_id, service@) ==> old(self).runtime@ == rt0 && ri == runtime_index(
                rt0,
                rule_id,
                service@,
            ),
            !has_runtime(rt0, rule_id, service@) ==> old(self).runtime@.len() == rt0.len() + 1
                && old(self).runtime@.drop_last() == rt0 && ri == rt0.len(),
        ensures
            final(self).base_wf(),
            final(self).runtime@ == runtime_put(rt0, rule_id, service@, e),
            final(self).alerts@ == old(self).alerts@,
            final(self).config == old(self).config,
            final(self).services@ == old(self).services@,
            final(self).metrics@ == old(self).metrics@,
            final(self).logs@ == old(self).logs@,
            final(self).rules@ == old(self).rules@,
    {
        let ghost rt_before = self.runtime@;
        self.runtime.set(ri, e);
        assert(runtime_keys_unique(self.runtime@)) by {
            assert forall|a: int, b: int|
                0 <= a < self.runtime@.len() && 0 <= b < self.runtime@.len() && a != b implies !(
            #[trigger] self.runtime@[a].rule_id == #[trigger] self.runtime@[b].rule_id
                && self.runtime@[a].service_name@ == self.runtime@[b].service_name@) by {
                assert(self.runtime@[a].rule_id == rt_before[a].rule_id);
                assert(self.runtime@[b].rule_id == rt_before[b].rule_id);
                assert(self.runtime@[a].service_name@ == rt_before[a].service_name@);
                assert(self.runtime@[b].service_name@ == rt_before[b].service_name@);
            }
        }
        proof {
            if !has_runtime(rt0, rule_id, service@) {
                assert(self.runtime@ =~= rt0.push(e));
            }
        }
    }

    /// Refreshes the active alert `aid` (see `refresh_outcome`).
    fn refresh_active(
        &mut self,
        aid: u128,
        started: Option<Timestamp>,
        window_seconds: u64,
        observed_bits: u64,
        now: Timestamp,
        message: String,
    ) -> (r: Option<Vec<RealtimeEvent>>)
        requires
            old(self).base_wf(),
        ensures
            final(self).base_wf(),
            ({
                let o = refresh_outcome(
                    old(self).alerts@,
                    old(self).runtime@,
                    aid,
                    started,
                    window_seconds,
                    observed_bits,
                    now,
                    message,
                );
                &&& final(self).alerts@ == o.alerts
                &&& (r is Some) == o.completed
                &&& r matches Some(v) ==> v@ == o.events
            }),
            final(self).runtime@ == old(self).runtime@,
            final(self).config == old(self).config,
            final(self).services@ == old(self).services@,
            final(self).metrics@ == old(self).metrics@,
            final(self).logs@ == old(self).logs@,
            final(self).rules@ == old(self).rules@,
    {
        match find_alert(&self.alerts, aid) {
            Some(j) => {
                let cur = self.alerts[j].copy();
                let pending = match cur.status {
                    AlertStatus::Pending => true,
                    _ => false,
                };
                let a1 = AlertEvent { message, observed_bits: Some(observed_bits), ..cur };
                match started {
                    Some(s) => {
                        if pending {
                            if !window_delta_ok(window_seconds) {
                                self.alerts.set(j, a1);
                                return None;
                            }
                            if should_transition_to_firing(s, now, window_seconds) {
                                let a2 = AlertEvent { status: AlertStatus::Firing, ..a1 };
                                let ev = RealtimeEvent::AlertFired(a2.copy());
                                self.alerts.set(j, a2);
                                let mut v: Vec<RealtimeEvent> = Vec::new();
                                v.push(ev);
                                return Some(v);
                            }
                        }
                    },
                    None => {},
                }
                self.alerts.set(j, a1);
                Some(Vec::new())
            },
            None => Some(Vec::new()),
        }
    }

    /// Resolves the alert `aid`, if any (see `resolve_outcome`).
    fn resolve_active(&mut self, aid: Option<u128>, observed_bits: u64, now: Timestamp) -> (r: Vec<
        RealtimeEvent,
    >)
        requires
            old(self).base_wf(),
        ensures
            final(self).base_wf(),
            ({
                let o = resolve_outcome(old(self).alerts@, old(self).runtime@, aid, observed_bits, now);
                &&& final(self).alerts@ == o.alerts
                &&& r@ == o.events
            }),
            final(self).runtime@ == old(self).runtime@,
            final(self).config == old(self).config,
            final(self).services@ == old(self).services@,
            final(self).metrics@ == old(self).metrics@,
            final(self).logs@ == old(self).logs@,
            final(self).rules@ == old(self).rules@,
    {
        match aid {
            Some(id) => {
                match find_alert(&self.alerts, id) {
                    Some(j) => {
                        let cur = self.alerts[j].copy();
                        let resolved = match cur.status {
                            AlertStatus::Resolved => true,
                            _ => false,
                        };
                        if !resolved {
                            let a1 = AlertEvent {
                                status: AlertStatus::Resolved,
                                resolved_at: Some(now),
                                observed_bits: Some(observed_bits),
                                ..cur
                            };
                            let ev = RealtimeEvent::AlertResolved(a1.copy());
                            self.alerts.set(j, a1);
                            let mut v: Vec<RealtimeEvent> = Vec::new();
                            v.push(ev);
                            v
                        } else {
                            Vec::new()
                        }
                    },
                    None => Vec::new(),
                }
            },
            None => Vec::new(),
        }
    }

    /// Applies one evaluation of `rule` for `service_name` (see
    /// `condition_outcome`); `None` when it does not complete. The store
    /// invariant, alert invariant included, is kept when `fresh_id`, the
    /// identifier for an alert the evaluation may raise, is not already in
    /// the history.
    pub fn apply_rule_condition_with_id(
        &mut self,
        rule: &AlertRule,
        service_name: &String,
        observed_bits: u64,
        matched: bool,
        now: Timestamp,
        message: String,
        fresh_id: u128,
    ) -> (r: Option<Vec<RealtimeEvent>>)
        requires
            old(self).wf(),
        ensures
            final(self).base_wf(),
            !has_alert_id(old(self).alerts@, fresh_id) ==> final(self).wf(),
            condition_applied(
                old(self),
                final(self),
                r,
                *rule,
                *service_name,
                observed_bits,
                matched,
                now,
                message,
                fresh_id,
            ),
    {
        let ghost a0 = self.alerts@;
        let ghost rt0 = self.runtime@;
        let r = self.apply_condition_core(rule, service_name, observed_bits, matched, now, message, fresh_id);
        proof {
            if !has_alert_id(a0, fresh_id) {
                crate::alert_state::lemma_evaluation_keeps_alerts_wf(
                    a0,
                    rt0,
                    self.rules@,
                    *rule,
                    *service_name,
                    observed_bits,
                    matched,
                    now,
                    message,
                    fresh_id,
                );
            }
        }
        r
    }

    /// Applies one evaluation of `rule` for `service_name`, drawing a fresh
    /// identifier for an alert it raises.
    pub fn apply_rule_condition(
        &mut self,
        rule: &AlertRule,
        service_name: &String,
        observed_bits: u64,
        matched: bool,
        now: Timestamp,
        message: String,
    ) -> (r: Option<Vec<RealtimeEvent>>)
        requires
            old(self).wf(),
        ensures
            final(self).base_wf(),
            exists|fresh_id: u128|
                (!has_alert_id(old(self).alerts@, fresh_id) ==> final(self).wf()) && condition_applied(
                    old(self),
                    final(self),
                    r,
                    *rule,
                    *service_name,
                    observed_bits,
                    matched,
                    now,
                    message,
                    fresh_id,
                ),
    {
        let fresh_id = new_id();
        self.apply_rule_condition_with_id(rule, service_name, observed_bits, matched, now, message, fresh_id)
    }
}

} // verus!
