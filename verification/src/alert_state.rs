//! The alert invariant of the store: evaluation states agree with the alert
//! history, resolution instants are set exactly on resolved alerts, and
//! every unresolved alert of a stored rule is the one active alert of its
//! rule and service.
use vstd::prelude::*;

use crate::engine::{
    condition_outcome, has_alert_id, has_runtime, last_alert_index, raised_alert, runtime_entry,
    runtime_index, runtime_put,
};
use crate::laws::{
    lemma_evaluation_extends_history, lemma_evaluation_keeps_resolution_consistent,
    lemma_evaluation_keeps_runtime_consistent, lemma_unmet_condition_resolves,
    lemma_last_index_after_push, lemma_last_index_after_update, lemma_last_index_of_pushed,
    lemma_put_shape, lemma_refresh_effect, lemma_resolve_effect, resolution_consistent,
    runtime_consistent, status_rank,
};
use crate::models::{AlertEvent, AlertRule, AlertStatus};
use crate::rules::has_rule;
use crate::store::{runtime_keys_unique, RuleRuntime};
use crate::time::Timestamp;

verus! {

/// The alert at position `i` is the active alert of the evaluation state
/// of its rule and service, and the most recent alert with its identifier.
#[verifier::opaque]
pub open spec fn alert_tracked(alerts: Seq<AlertEvent>, rt: Seq<RuleRuntime>, i: int) -> bool {
    exists|k: int|
        0 <= k < rt.len() && #[trigger] rt[k].rule_id == alerts[i].rule_id && rt[k].service_name@
            == alerts[i].service@ && rt[k].active_alert_id == Some(alerts[i].id) && last_alert_index(
            alerts,
            alerts[i].id,
        ) == i
}

/// Every unresolved alert of a stored rule is tracked (see `alert_tracked`).
pub open spec fn active_tracked(alerts: Seq<AlertEvent>, rt: Seq<RuleRuntime>, rules: Seq<AlertRule>) -> bool {
    forall|i: int|
        0 <= i < alerts.len() && alerts[i].status != AlertStatus::Resolved && has_rule(
            rules,
            alerts[i].rule_id,
        ) ==> #[trigger] alert_tracked(alerts, rt, i)
}

/// The alert invariant of the store.
pub open spec fn alerts_wf(alerts: Seq<AlertEvent>, rt: Seq<RuleRuntime>, rules: Seq<AlertRule>) -> bool {
    &&& runtime_consistent(alerts, rt)
    &&& resolution_consistent(alerts)
    &&& active_tracked(alerts, rt, rules)
}

/// Under the alert invariant, a stored rule and a service have at most one
/// alert that is pending or firing.
pub proof fn lemma_one_active_alert_per_rule_and_service(
    alerts: Seq<AlertEvent>,
    rt: Seq<RuleRuntime>,
    rules: Seq<AlertRule>,
    i: int,
    j: int,
)
    requires
        runtime_keys_unique(rt),
        alerts_wf(alerts, rt, rules),
        0 <= i < alerts.len(),
        0 <= j < alerts.len(),
        alerts[i].status != AlertStatus::Resolved,
        alerts[j].status != AlertStatus::Resolved,
        alerts[i].rule_id == alerts[j].rule_id,
        alerts[i].service@ == alerts[j].service@,
        has_rule(rules, alerts[i].rule_id),
    ensures
        i == j,
{
    assert(alert_tracked(alerts, rt, i));
    assert(alert_tracked(alerts, rt, j));
    let ki = lemma_tracked_witness(alerts, rt, i);
    let kj = lemma_tracked_witness(alerts, rt, j);
    assert(ki == kj);
}

/// The evaluation state that tracks the alert at position `i`.
pub(crate) proof fn lemma_tracked_witness(alerts: Seq<AlertEvent>, rt: Seq<RuleRuntime>, i: int) -> (k: int)
    requires
        alert_tracked(alerts, rt, i),
    ensures
        0 <= k < rt.len(),
        rt[k].rule_id == alerts[i].rule_id,
        rt[k].service_name@ == alerts[i].service@,
        rt[k].active_alert_id == Some(alerts[i].id),
        last_alert_index(alerts, alerts[i].id) == i,
{
    reveal(alert_tracked);
    choose|k: int|
        0 <= k < rt.len() && #[trigger] rt[k].rule_id == alerts[i].rule_id && rt[k].service_name@
            == alerts[i].service@ && rt[k].active_alert_id == Some(alerts[i].id) && last_alert_index(
            alerts,
            alerts[i].id,
        ) == i
}

/// With unique keys, the state at `k` is the one found for its key.
proof fn lemma_index_of_key(rt: Seq<RuleRuntime>, k: int)
    requires
        runtime_keys_unique(rt),
        0 <= k < rt.len(),
    ensures
        has_runtime(rt, rt[k].rule_id, rt[k].service_name@),
        runtime_index(rt, rt[k].rule_id, rt[k].service_name@) == k,
{
    assert(has_runtime(rt, rt[k].rule_id, rt[k].service_name@));
    let r = runtime_index(rt, rt[k].rule_id, rt[k].service_name@);
    assert(rt[r].rule_id == rt[k].rule_id && rt[r].service_name@ == rt[k].service_name@);
}

/// The alert at `i`, tracked by the state at `k` before an evaluation, is
/// still tracked by it after the evaluation, when the evaluation leaves
/// that state and that alert's identifier as they were.
pub(crate) proof fn lemma_still_tracked(
    alerts: Seq<AlertEvent>,
    rt: Seq<RuleRuntime>,
    alerts2: Seq<AlertEvent>,
    rt2: Seq<RuleRuntime>,
    i: int,
    k: int,
)
    requires
        0 <= i < alerts.len(),
        0 <= i < alerts2.len(),
        0 <= k < rt.len(),
        0 <= k < rt2.len(),
        rt2[k] == rt[k],
        rt[k].rule_id == alerts[i].rule_id,
        rt[k].service_name@ == alerts[i].service@,
        rt[k].active_alert_id == Some(alerts[i].id),
        alerts2[i].id == alerts[i].id,
        alerts2[i].rule_id == alerts[i].rule_id,
        alerts2[i].service == alerts[i].service,
        last_alert_index(alerts2, alerts[i].id) == i,
    ensures
        alert_tracked(alerts2, rt2, i),
{
    reveal(alert_tracked);
    assert(rt2[k].rule_id == alerts2[i].rule_id);
}

/// The shape of a met evaluation: the history before the refresh (with the
/// new alert when one is raised), the position the refresh touches, and the
/// stored state.
proof fn lemma_met_shape(
    alerts: Seq<AlertEvent>,
    rt: Seq<RuleRuntime>,
    rule: AlertRule,
    service: String,
    observed_bits: u64,
    now: Timestamp,
    message: String,
    fresh_id: u128,
) -> (r: (Seq<AlertEvent>, int, int, RuleRuntime))
    requires
        runtime_keys_unique(rt),
    ensures
        ({
            let o = condition_outcome(alerts, rt, rule, service, observed_bits, true, now, message, fresh_id);
            let (alerts1, j, ri, entry1) = r;
            let entry = runtime_entry(rt, rule.id, service);
            &&& alerts1 == (if entry.active_alert_id is None {
                alerts.push(raised_alert(fresh_id, rule, service, observed_bits, now, message))
            } else {
                alerts
            })
            &&& entry1 == (if entry.active_alert_id is None {
                RuleRuntime { active_alert_id: Some(fresh_id), condition_started_at: Some(now), ..entry }
            } else {
                entry
            })
            &&& o.runtime == runtime_put(rt, rule.id, service@, entry1)
            &&& ri == (if has_runtime(rt, rule.id, service@) {
                runtime_index(rt, rule.id, service@)
            } else {
                rt.len() as int
            })
            &&& o.runtime[ri] == entry1
            &&& forall|k: int| 0 <= k < rt.len() && k != ri ==> #[trigger] o.runtime[k] == rt[k]
            &&& o.alerts.len() == alerts1.len()
            &&& (o.alerts == alerts1 || (0 <= j < alerts1.len() && o.alerts == alerts1.update(j, o.alerts[j])
                && o.alerts[j].id == alerts1[j].id && alerts1[j].id == entry1.active_alert_id->0
                && has_alert_id(alerts1, entry1.active_alert_id->0) && j == last_alert_index(
                alerts1,
                entry1.active_alert_id->0,
            )))
            &&& (entry.active_alert_id is None ==> j == alerts.len() && has_alert_id(alerts1, fresh_id)
                && last_alert_index(alerts1, fresh_id) == alerts.len())
            &&& forall|m: int| 0 <= m < alerts.len() ==> #[trigger] alerts1[m] == alerts[m]
        }),
{
    let o = condition_outcome(alerts, rt, rule, service, observed_bits, true, now, message, fresh_id);
    let entry = runtime_entry(rt, rule.id, service);
    let created = entry.active_alert_id is None;
    let new_alert = raised_alert(fresh_id, rule, service, observed_bits, now, message);
    let alerts1 = if created {
        alerts.push(new_alert)
    } else {
        alerts
    };
    let entry1 = if created {
        RuleRuntime { active_alert_id: Some(fresh_id), condition_started_at: Some(now), ..entry }
    } else {
        entry
    };
    let ri = lemma_put_shape(rt, rule.id, service@, entry1);
    let rt1 = runtime_put(rt, rule.id, service@, entry1);
    let aid = entry1.active_alert_id->0;
    if created {
        lemma_last_index_of_pushed(alerts, new_alert);
    }
    lemma_refresh_effect(alerts1, rt1, aid, entry1.condition_started_at, rule.window_seconds, observed_bits, now, message);
    if has_alert_id(alerts1, aid) {
        crate::engine::lemma_last_alert_index_exists(alerts1, aid);
    }
    let j = last_alert_index(alerts1, aid);
    if has_alert_id(alerts1, aid) {
        assert(o.alerts =~= alerts1.update(j, o.alerts[j]));
    }
    (alerts1, j, ri, entry1)
}

/// A met evaluation tracks the alert it raises.
#[verifier::spinoff_prover]
proof fn lemma_met_tracks_new(
    alerts: Seq<AlertEvent>,
    rt: Seq<RuleRuntime>,
    rule: AlertRule,
    service: String,
    observed_bits: u64,
    now: Timestamp,
    message: String,
    fresh_id: u128,
)
    requires
        runtime_keys_unique(rt),
        alerts.len() < condition_outcome(alerts, rt, rule, service, observed_bits, true, now, message, fresh_id).alerts.len(),
    ensures
        ({
            let o = condition_outcome(alerts, rt, rule, service, observed_bits, true, now, message, fresh_id);
            alert_tracked(o.alerts, o.runtime, alerts.len() as int)
        }),
{
    let o = condition_outcome(alerts, rt, rule, service, observed_bits, true, now, message, fresh_id);
    let (alerts1, j, ri, entry1) = lemma_met_shape(alerts, rt, rule, service, observed_bits, now, message, fresh_id);
    let i = alerts.len() as int;
    let aid = entry1.active_alert_id->0;
    assert(j == i);
    if o.alerts != alerts1 {
        lemma_last_index_after_update(alerts1, j, o.alerts[j], aid);
    }
    assert(o.runtime[ri].rule_id == o.alerts[i].rule_id);
    lemma_still_tracked(o.alerts, o.runtime, o.alerts, o.runtime, i, ri);
}

/// A met evaluation keeps an earlier unresolved, tracked alert tracked.
#[verifier::spinoff_prover]
proof fn lemma_met_keeps_tracked(
    alerts: Seq<AlertEvent>,
    rt: Seq<RuleRuntime>,
    rule: AlertRule,
    service: String,
    observed_bits: u64,
    now: Timestamp,
    message: String,
    fresh_id: u128,
    i: int,
)
    requires
        runtime_keys_unique(rt),
        !has_alert_id(alerts, fresh_id),
        0 <= i < alerts.len(),
        alerts[i].status != AlertStatus::Resolved,
        alert_tracked(alerts, rt, i),
    ensures
        ({
            let o = condition_outcome(alerts, rt, rule, service, observed_bits, true, now, message, fresh_id);
            alert_tracked(o.alerts, o.runtime, i)
        }),
{
    let o = condition_outcome(alerts, rt, rule, service, observed_bits, true, now, message, fresh_id);
    let (alerts1, j, ri, entry1) = lemma_met_shape(alerts, rt, rule, service, observed_bits, now, message, fresh_id);
    let entry = runtime_entry(rt, rule.id, service);
    let created = entry.active_alert_id is None;
    let k = lemma_tracked_witness(alerts, rt, i);
    let id = alerts[i].id;
    assert(alerts[i].id == id);
    assert(has_alert_id(alerts, id));
    if created {
        assert(id != fresh_id);
        lemma_last_index_after_push(alerts, raised_alert(fresh_id, rule, service, observed_bits, now, message), id);
    }
    assert(alerts1[i] == alerts[i]);
    if o.alerts != alerts1 {
        lemma_last_index_after_update(alerts1, j, o.alerts[j], id);
    }
    if k == ri {
        lemma_index_of_key(rt, k);
        assert(entry == rt[k]);
        assert(!created);
    }
    assert(o.runtime[k] == rt[k]);
    lemma_still_tracked(alerts, rt, o.alerts, o.runtime, i, k);
}

/// An evaluation whose condition is not met keeps unresolved alerts of
/// stored rules tracked.
#[verifier::spinoff_prover]
#[verifier::rlimit(60)]
proof fn lemma_unmet_keeps_tracked(
    alerts: Seq<AlertEvent>,
    rt: Seq<RuleRuntime>,
    rule: AlertRule,
    service: String,
    observed_bits: u64,
    now: Timestamp,
    message: String,
    fresh_id: u128,
    i: int,
)
    requires
        runtime_keys_unique(rt),
        ({
            let o = condition_outcome(alerts, rt, rule, service, observed_bits, false, now, message, fresh_id);
            &&& 0 <= i < o.alerts.len()
            &&& o.alerts[i].status != AlertStatus::Resolved
        }),
        0 <= i < alerts.len(),
        alerts[i].status != AlertStatus::Resolved,
        alert_tracked(alerts, rt, i),
    ensures
        ({
            let o = condition_outcome(alerts, rt, rule, service, observed_bits, false, now, message, fresh_id);
            alert_tracked(o.alerts, o.runtime, i)
        }),
{
    let o = condition_outcome(alerts, rt, rule, service, observed_bits, false, now, message, fresh_id);
    let entry = runtime_entry(rt, rule.id, service);
    let entry1 = RuleRuntime { active_alert_id: None, condition_started_at: None, ..entry };
    let ri = lemma_put_shape(rt, rule.id, service@, entry1);
    let rt1 = runtime_put(rt, rule.id, service@, entry1);
    lemma_resolve_effect(alerts, rt1, entry.active_alert_id, observed_bits, now);
    assert(o.runtime == rt1);
    assert(o.alerts[i] == alerts[i]);
    let k = lemma_tracked_witness(alerts, rt, i);
    let id = alerts[i].id;
    assert(has_alert_id(alerts, id));
    if k == ri {
        lemma_index_of_key(rt, k);
        assert(entry == rt[k]);
        assert(o.alerts[i].status == AlertStatus::Resolved);
    }
    assert(rt1[k] == rt[k]);
    if o.alerts != alerts {
        let a = entry.active_alert_id->0;
        crate::engine::lemma_last_alert_index_exists(alerts, a);
        let j = last_alert_index(alerts, a);
        assert(o.alerts =~= alerts.update(j, o.alerts[j]));
        lemma_last_index_after_update(alerts, j, o.alerts[j], id);
    }
    lemma_still_tracked(alerts, rt, o.alerts, rt1, i, k);
}

/// Each evaluation keeps the alert invariant, provided the identifier it
/// draws for a new alert is not already in the history.
pub proof fn lemma_evaluation_keeps_alerts_wf(
    alerts: Seq<AlertEvent>,
    rt: Seq<RuleRuntime>,
    rules: Seq<AlertRule>,
    rule: AlertRule,
    service: String,
    observed_bits: u64,
    matched: bool,
    now: Timestamp,
    message: String,
    fresh_id: u128,
)
    requires
        runtime_keys_unique(rt),
        alerts_wf(alerts, rt, rules),
        !has_alert_id(alerts, fresh_id),
    ensures
        ({
            let o = condition_outcome(alerts, rt, rule, service, observed_bits, matched, now, message, fresh_id);
            &&& runtime_keys_unique(o.runtime)
            &&& alerts_wf(o.alerts, o.runtime, rules)
        }),
{
    let o = condition_outcome(alerts, rt, rule, service, observed_bits, matched, now, message, fresh_id);
    lemma_evaluation_keeps_runtime_consistent(alerts, rt, rule, service, observed_bits, matched, now, message, fresh_id);
    lemma_evaluation_keeps_resolution_consistent(alerts, rt, rule, service, observed_bits, matched, now, message, fresh_id);
    assert forall|i: int|
        0 <= i < o.alerts.len() && o.alerts[i].status != AlertStatus::Resolved && has_rule(
            rules,
            o.alerts[i].rule_id,
        ) implies #[trigger] alert_tracked(o.alerts, o.runtime, i) by {
        lemma_evaluation_extends_history(alerts, rt, rule, service, observed_bits, matched, now, message, fresh_id);
        if i < alerts.len() {
            assert(status_rank(alerts[i].status) <= status_rank(o.alerts[i].status));
            assert(o.alerts[i].rule_id == alerts[i].rule_id);
            assert(alert_tracked(alerts, rt, i));
            if matched {
                lemma_met_keeps_tracked(alerts, rt, rule, service, observed_bits, now, message, fresh_id, i);
            } else {
                lemma_unmet_keeps_tracked(alerts, rt, rule, service, observed_bits, now, message, fresh_id, i);
            }
        } else {
            if matched {
                lemma_met_shape(alerts, rt, rule, service, observed_bits, now, message, fresh_id);
                lemma_met_tracks_new(alerts, rt, rule, service, observed_bits, now, message, fresh_id);
            } else {
                lemma_unmet_condition_resolves(alerts, rt, rule, service, observed_bits, now, message, fresh_id);
            }
        }
    }
}

/// The alert invariant holds for any rules that are all among `rules`.
pub proof fn lemma_alerts_wf_fewer_rules(
    alerts: Seq<AlertEvent>,
    rt: Seq<RuleRuntime>,
    rules: Seq<AlertRule>,
    fewer: Seq<AlertRule>,
)
    requires
        alerts_wf(alerts, rt, rules),
        forall|x: u128| has_rule(fewer, x) ==> has_rule(rules, x),
    ensures
        alerts_wf(alerts, rt, fewer),
{
    assert forall|i: int|
        0 <= i < alerts.len() && alerts[i].status != AlertStatus::Resolved && has_rule(
            fewer,
            alerts[i].rule_id,
        ) implies #[trigger] alert_tracked(alerts, rt, i) by {
        assert(has_rule(rules, alerts[i].rule_id));
    }
}

} // verus!
