//! Repeating evaluations at the same instant: once a round of evaluations
//! has run, running it again at the same instant changes nothing.
use vstd::prelude::*;

use crate::alerts::held_for_window;
use crate::engine::{
    condition_outcome, has_alert_id, has_runtime, last_alert_index, raised_alert, runtime_entry,
    runtime_index, runtime_put, ConditionOutcome,
};
use crate::laws::{
    history_extends, lemma_evaluation_extends_history, lemma_evaluation_keeps_resolution_consistent,
    lemma_history_extends_transitive, alert_belongs, lemma_alert_kept_by_update, lemma_consistent_elim,
    lemma_evaluation_keeps_runtime_consistent, lemma_last_index_after_push,
    lemma_last_index_after_update, lemma_last_index_of_pushed, lemma_put_shape,
    lemma_refresh_effect, lemma_resolve_effect, lemma_runtime_put_found, runtime_consistent,
};
use crate::evaluation::{heartbeat_checks_for, heartbeat_plan, refreshed, status_changes, HeartbeatCheck};
use crate::models::{AlertEvent, AlertRule, AlertStatus, Service, StoreConfig};
use crate::alert_state::{alerts_wf, lemma_evaluation_keeps_alerts_wf};
use crate::store::{names_unique, rule_ids_unique, runtime_keys_unique, RuleRuntime, Store};
use crate::time::{as_i64, delta_secs_ok, Timestamp};

verus! {

/// One evaluation of a round: a rule for a service, with its verdict (met
/// or not), the observed value and the alert message.
pub struct Evaluation {
    pub rule: AlertRule,
    pub service: String,
    pub observed_bits: u64,
    pub matched: bool,
    pub message: String,
}

/// The effect of evaluation `ev` at `now`, drawing `fresh_id` for a new
/// alert.
pub open spec fn eval_outcome(
    alerts: Seq<AlertEvent>,
    rt: Seq<RuleRuntime>,
    ev: Evaluation,
    now: Timestamp,
    fresh_id: u128,
) -> ConditionOutcome {
    condition_outcome(alerts, rt, ev.rule, ev.service, ev.observed_bits, ev.matched, now, ev.message, fresh_id)
}

/// Evaluation `ev` at `now` has nothing left to do: its rule and service
/// have an evaluation state; when met, the active alert carries the
/// verdict's message and value and is firing, or pending with a window not
/// yet elapsed (and representable); when not met, nothing is active.
pub open spec fn settled(alerts: Seq<AlertEvent>, rt: Seq<RuleRuntime>, ev: Evaluation, now: Timestamp) -> bool {
    let e = runtime_entry(rt, ev.rule.id, ev.service);
    &&& has_runtime(rt, ev.rule.id, ev.service@)
    &&& if ev.matched {
        &&& e.active_alert_id is Some
        &&& e.condition_started_at is Some
        &&& has_alert_id(alerts, e.active_alert_id->0)
        &&& ({
            let x = alerts[last_alert_index(alerts, e.active_alert_id->0)];
            &&& x.message == ev.message
            &&& x.observed_bits == Some(ev.observed_bits)
            &&& (x.status == AlertStatus::Firing || (x.status == AlertStatus::Pending && delta_secs_ok(
                as_i64(ev.rule.window_seconds),
            ) && !held_for_window(e.condition_started_at->0, now, ev.rule.window_seconds)))
        })
    } else {
        &&& e.active_alert_id is None
        &&& e.condition_started_at is None
    }
}

/// A settled evaluation changes nothing and announces nothing.
pub proof fn lemma_settled_is_fixed(
    alerts: Seq<AlertEvent>,
    rt: Seq<RuleRuntime>,
    ev: Evaluation,
    now: Timestamp,
    fresh_id: u128,
)
    requires
        runtime_keys_unique(rt),
        settled(alerts, rt, ev, now),
    ensures
        ({
            let o = eval_outcome(alerts, rt, ev, now, fresh_id);
            &&& o.alerts == alerts
            &&& o.runtime == rt
            &&& o.events.len() == 0
            &&& o.completed
        }),
{
    let ri = runtime_index(rt, ev.rule.id, ev.service@);
    assert(rt[ri].rule_id == ev.rule.id && rt[ri].service_name@ == ev.service@);
    let entry = runtime_entry(rt, ev.rule.id, ev.service);
    assert(rt.update(ri, entry) =~= rt);
    if ev.matched {
        let aid = entry.active_alert_id->0;
        crate::engine::lemma_last_alert_index_exists(alerts, aid);
        let j = last_alert_index(alerts, aid);
        let x = alerts[j];
        let a1 = AlertEvent { message: ev.message, observed_bits: Some(ev.observed_bits), ..x };
        assert(a1 == x);
        assert(alerts.update(j, a1) =~= alerts);
    } else {
        let e1 = RuleRuntime { active_alert_id: None, condition_started_at: None, ..entry };
        assert(e1 == entry);
    }
}

/// The evaluation state that `ev` leaves for its rule and service is what
/// `runtime_put` stored.
proof fn lemma_entry_after(rt: Seq<RuleRuntime>, ev: Evaluation, e: RuleRuntime)
    requires
        runtime_keys_unique(rt),
        e.rule_id == ev.rule.id,
        e.service_name@ == ev.service@,
    ensures
        has_runtime(runtime_put(rt, ev.rule.id, ev.service@, e), ev.rule.id, ev.service@),
        runtime_entry(runtime_put(rt, ev.rule.id, ev.service@, e), ev.rule.id, ev.service) == e,
        runtime_keys_unique(runtime_put(rt, ev.rule.id, ev.service@, e)),
{
    lemma_runtime_put_found(rt, ev.rule.id, ev.service@, e);
    lemma_put_shape(rt, ev.rule.id, ev.service@, e);
}

#[verifier::rlimit(40)]
proof fn lemma_met_evaluation_settles(
    alerts: Seq<AlertEvent>,
    rt: Seq<RuleRuntime>,
    ev: Evaluation,
    now: Timestamp,
    fresh_id: u128,
)
    requires
        ev.matched,
        runtime_keys_unique(rt),
        runtime_consistent(alerts, rt),
        !has_alert_id(alerts, fresh_id),
        eval_outcome(alerts, rt, ev, now, fresh_id).completed,
    ensures
        settled(
            eval_outcome(alerts, rt, ev, now, fresh_id).alerts,
            eval_outcome(alerts, rt, ev, now, fresh_id).runtime,
            ev,
            now,
        ),
{
    let o = eval_outcome(alerts, rt, ev, now, fresh_id);
    let rule = ev.rule;
    let service = ev.service;
    let entry = runtime_entry(rt, rule.id, service);
    if has_runtime(rt, rule.id, service@) {
        let ri = runtime_index(rt, rule.id, service@);
        assert(rt[ri].rule_id == rule.id && rt[ri].service_name@ == service@);
        lemma_consistent_elim(alerts, rt, ri);
    }
    let created = entry.active_alert_id is None;
    let new_alert = raised_alert(fresh_id, rule, service, ev.observed_bits, now, ev.message);
    let alerts1 = if created {
        alerts.push(new_alert)
    } else {
        alerts
    };
    let entry1 = if created {
        RuleRuntime { active_alert_id: Some(fresh_id), condition_started_at: Some(now), ..entry }
    } else {
        entry
    };
    let rt1 = runtime_put(rt, rule.id, service@, entry1);
    lemma_entry_after(rt, ev, entry1);
    let aid = entry1.active_alert_id->0;
    if created {
        lemma_last_index_of_pushed(alerts, new_alert);
    }
    assert(has_alert_id(alerts1, aid));
    crate::engine::lemma_last_alert_index_exists(alerts1, aid);
    let j = last_alert_index(alerts1, aid);
    assert(alerts1[j].status != AlertStatus::Resolved);
    assert(o == crate::engine::refresh_outcome(
        alerts1,
        rt1,
        aid,
        entry1.condition_started_at,
        rule.window_seconds,
        ev.observed_bits,
        now,
        ev.message,
    ));
    assert(o.alerts =~= alerts1.update(j, o.alerts[j]));
    lemma_last_index_after_update(alerts1, j, o.alerts[j], aid);
}

proof fn lemma_unmet_evaluation_settles(
    alerts: Seq<AlertEvent>,
    rt: Seq<RuleRuntime>,
    ev: Evaluation,
    now: Timestamp,
    fresh_id: u128,
)
    requires
        !ev.matched,
        runtime_keys_unique(rt),
    ensures
        settled(
            eval_outcome(alerts, rt, ev, now, fresh_id).alerts,
            eval_outcome(alerts, rt, ev, now, fresh_id).runtime,
            ev,
            now,
        ),
{
    let entry = runtime_entry(rt, ev.rule.id, ev.service);
    if has_runtime(rt, ev.rule.id, ev.service@) {
        let ri = runtime_index(rt, ev.rule.id, ev.service@);
        assert(rt[ri].rule_id == ev.rule.id && rt[ri].service_name@ == ev.service@);
    }
    let entry1 = RuleRuntime { active_alert_id: None, condition_started_at: None, ..entry };
    lemma_entry_after(rt, ev, entry1);
    let rt1 = runtime_put(rt, ev.rule.id, ev.service@, entry1);
    lemma_resolve_effect(alerts, rt1, entry.active_alert_id, ev.observed_bits, now);
}

/// After an evaluation that completes, the same evaluation at the same
/// instant is settled, provided the states agree with the history and the
/// identifier drawn is new.
pub proof fn lemma_evaluation_settles(
    alerts: Seq<AlertEvent>,
    rt: Seq<RuleRuntime>,
    ev: Evaluation,
    now: Timestamp,
    fresh_id: u128,
)
    requires
        runtime_keys_unique(rt),
        runtime_consistent(alerts, rt),
        !has_alert_id(alerts, fresh_id),
        eval_outcome(alerts, rt, ev, now, fresh_id).completed,
    ensures
        settled(
            eval_outcome(alerts, rt, ev, now, fresh_id).alerts,
            eval_outcome(alerts, rt, ev, now, fresh_id).runtime,
            ev,
            now,
        ),
{
    if ev.matched {
        lemma_met_evaluation_settles(alerts, rt, ev, now, fresh_id);
    } else {
        lemma_unmet_evaluation_settles(alerts, rt, ev, now, fresh_id);
    }
}

/// The same evaluation run twice at the same instant: the second run
/// changes nothing and announces nothing (given evaluation states that agree
/// with the alert history and a new identifier for the first run).
pub proof fn lemma_repeated_evaluation_changes_nothing(
    alerts: Seq<AlertEvent>,
    rt: Seq<RuleRuntime>,
    ev: Evaluation,
    now: Timestamp,
    first_id: u128,
    second_id: u128,
)
    requires
        runtime_keys_unique(rt),
        runtime_consistent(alerts, rt),
        !has_alert_id(alerts, first_id),
        eval_outcome(alerts, rt, ev, now, first_id).completed,
    ensures
        ({
            let o1 = eval_outcome(alerts, rt, ev, now, first_id);
            let o2 = eval_outcome(o1.alerts, o1.runtime, ev, now, second_id);
            &&& o2.alerts == o1.alerts
            &&& o2.runtime == o1.runtime
            &&& o2.events.len() == 0
            &&& o2.completed
        }),
{
    let o1 = eval_outcome(alerts, rt, ev, now, first_id);
    lemma_evaluation_settles(alerts, rt, ev, now, first_id);
    lemma_evaluation_keeps_runtime_consistent(
        alerts,
        rt,
        ev.rule,
        ev.service,
        ev.observed_bits,
        ev.matched,
        now,
        ev.message,
        first_id,
    );
    lemma_settled_is_fixed(o1.alerts, o1.runtime, ev, now, second_id);
}

/// Evaluations of different rules or services.
pub open spec fn distinct_keys(a: Evaluation, b: Evaluation) -> bool {
    !(a.rule.id == b.rule.id && a.service@ == b.service@)
}

/// Storing an evaluation state under another key leaves the state of
/// (`rule_id`, `service`) as it was.
proof fn lemma_entry_kept(
    rt: Seq<RuleRuntime>,
    rule_id: u128,
    service: String,
    ev2: Evaluation,
    e2: RuleRuntime,
)
    requires
        runtime_keys_unique(rt),
        has_runtime(rt, rule_id, service@),
        !(rule_id == ev2.rule.id && service@ == ev2.service@),
        e2.rule_id == ev2.rule.id,
        e2.service_name@ == ev2.service@,
    ensures
        has_runtime(runtime_put(rt, ev2.rule.id, ev2.service@, e2), rule_id, service@),
        runtime_entry(runtime_put(rt, ev2.rule.id, ev2.service@, e2), rule_id, service) == runtime_entry(
            rt,
            rule_id,
            service,
        ),
        runtime_index(rt, rule_id, service@) != (if has_runtime(rt, ev2.rule.id, ev2.service@) {
            runtime_index(rt, ev2.rule.id, ev2.service@)
        } else {
            rt.len() as int
        }),
{
    let ri2 = lemma_put_shape(rt, ev2.rule.id, ev2.service@, e2);
    let rt2 = runtime_put(rt, ev2.rule.id, ev2.service@, e2);
    let i1 = runtime_index(rt, rule_id, service@);
    assert(rt[i1].rule_id == rule_id && rt[i1].service_name@ == service@);
    assert(i1 != ri2);
    assert(rt2[i1] == rt[i1]);
    assert(has_runtime(rt2, rule_id, service@));
    let k = runtime_index(rt2, rule_id, service@);
    assert(rt2[k].rule_id == rule_id && rt2[k].service_name@ == service@);
    assert(k == i1);
}

/// An evaluation leaves in the history only identifiers that were there
/// before, and the one it drew; it adds at most one alert.
pub proof fn lemma_ids_after(
    alerts: Seq<AlertEvent>,
    rt: Seq<RuleRuntime>,
    ev: Evaluation,
    now: Timestamp,
    fresh_id: u128,
)
    ensures
        forall|x: u128|
            #[trigger] has_alert_id(eval_outcome(alerts, rt, ev, now, fresh_id).alerts, x) ==> has_alert_id(
                alerts,
                x,
            ) || x == fresh_id,
{
    let o = eval_outcome(alerts, rt, ev, now, fresh_id);
    let rule = ev.rule;
    let service = ev.service;
    let entry = runtime_entry(rt, rule.id, service);
    if ev.matched {
        let created = entry.active_alert_id is None;
        let alerts1 = if created {
            alerts.push(raised_alert(fresh_id, rule, service, ev.observed_bits, now, ev.message))
        } else {
            alerts
        };
        let entry1 = if created {
            RuleRuntime { active_alert_id: Some(fresh_id), condition_started_at: Some(now), ..entry }
        } else {
            entry
        };
        lemma_refresh_effect(
            alerts1,
            runtime_put(rt, rule.id, service@, entry1),
            entry1.active_alert_id->0,
            entry1.condition_started_at,
            rule.window_seconds,
            ev.observed_bits,
            now,
            ev.message,
        );
        assert forall|x: u128| #[trigger] has_alert_id(o.alerts, x) implies has_alert_id(alerts, x) || x
            == fresh_id by {
            let i = choose|i: int| 0 <= i < o.alerts.len() && #[trigger] o.alerts[i].id == x;
            assert(o.alerts[i].id == alerts1[i].id);
            if i < alerts.len() {
                assert(alerts1[i] == alerts[i]);
            }
        }
    } else {
        let entry1 = RuleRuntime { active_alert_id: None, condition_started_at: None, ..entry };
        lemma_resolve_effect(
            alerts,
            runtime_put(rt, rule.id, service@, entry1),
            entry.active_alert_id,
            ev.observed_bits,
            now,
        );
        assert forall|x: u128| #[trigger] has_alert_id(o.alerts, x) implies has_alert_id(alerts, x) || x
            == fresh_id by {
            let i = choose|i: int| 0 <= i < o.alerts.len() && #[trigger] o.alerts[i].id == x;
            assert(o.alerts[i].id == alerts[i].id);
        }
    }
}

/// Evaluating another rule or service keeps a settled evaluation settled.
#[verifier::rlimit(60)]
pub proof fn lemma_other_evaluation_keeps_settled(
    alerts: Seq<AlertEvent>,
    rt: Seq<RuleRuntime>,
    ev1: Evaluation,
    ev2: Evaluation,
    now: Timestamp,
    fresh_id: u128,
)
    requires
        runtime_keys_unique(rt),
        runtime_consistent(alerts, rt),
        !has_alert_id(alerts, fresh_id),
        settled(alerts, rt, ev1, now),
        distinct_keys(ev1, ev2),
    ensures
        settled(
            eval_outcome(alerts, rt, ev2, now, fresh_id).alerts,
            eval_outcome(alerts, rt, ev2, now, fresh_id).runtime,
            ev1,
            now,
        ),
{
    let o = eval_outcome(alerts, rt, ev2, now, fresh_id);
    let rule = ev2.rule;
    let service = ev2.service;
    let entry = runtime_entry(rt, rule.id, service);
    let e1 = runtime_entry(rt, ev1.rule.id, ev1.service);
    let i1 = runtime_index(rt, ev1.rule.id, ev1.service@);
    assert(rt[i1].rule_id == ev1.rule.id && rt[i1].service_name@ == ev1.service@);
    lemma_consistent_elim(alerts, rt, i1);
    if has_runtime(rt, rule.id, service@) {
        let ri = runtime_index(rt, rule.id, service@);
        assert(rt[ri].rule_id == rule.id && rt[ri].service_name@ == service@);
        lemma_consistent_elim(alerts, rt, ri);
    }
    if ev2.matched {
        let created = entry.active_alert_id is None;
        let new_alert = raised_alert(fresh_id, rule, service, ev2.observed_bits, now, ev2.message);
        let alerts1 = if created {
            alerts.push(new_alert)
        } else {
            alerts
        };
        let entry1 = if created {
            RuleRuntime { active_alert_id: Some(fresh_id), condition_started_at: Some(now), ..entry }
        } else {
            entry
        };
        lemma_entry_kept(rt, ev1.rule.id, ev1.service, ev2, entry1);
        if ev1.matched {
            let a1 = e1.active_alert_id->0;
            crate::engine::lemma_last_alert_index_exists(alerts, a1);
            let j1 = last_alert_index(alerts, a1);
            assert(alert_belongs(alerts[j1], rt[i1]));
            if created {
                assert(a1 != fresh_id);
                lemma_last_index_after_push(alerts, new_alert, a1);
                assert(alerts1[j1] == alerts[j1]);
            }
            let aid = entry1.active_alert_id->0;
            if has_alert_id(alerts1, aid) {
                crate::engine::lemma_last_alert_index_exists(alerts1, aid);
                let j2 = last_alert_index(alerts1, aid);
                if created {
                    lemma_last_index_of_pushed(alerts, new_alert);
                }
                assert(j2 != j1);
                lemma_refresh_effect(
                    alerts1,
                    runtime_put(rt, rule.id, service@, entry1),
                    aid,
                    entry1.condition_started_at,
                    rule.window_seconds,
                    ev2.observed_bits,
                    now,
                    ev2.message,
                );
                assert(o.alerts =~= alerts1.update(j2, o.alerts[j2]));
                lemma_alert_kept_by_update(alerts1, j2, o.alerts[j2], a1);
            }
        }
    } else {
        let entry1 = RuleRuntime { active_alert_id: None, condition_started_at: None, ..entry };
        lemma_entry_kept(rt, ev1.rule.id, ev1.service, ev2, entry1);
        lemma_resolve_effect(
            alerts,
            runtime_put(rt, rule.id, service@, entry1),
            entry.active_alert_id,
            ev2.observed_bits,
            now,
        );
        if ev1.matched {
            let a1 = e1.active_alert_id->0;
            crate::engine::lemma_last_alert_index_exists(alerts, a1);
            let j1 = last_alert_index(alerts, a1);
            if o.alerts != alerts {
                let a2 = entry.active_alert_id->0;
                crate::engine::lemma_last_alert_index_exists(alerts, a2);
                let j2 = last_alert_index(alerts, a2);
                assert(j2 != j1);
                assert(o.alerts =~= alerts.update(j2, o.alerts[j2]));
                lemma_alert_kept_by_update(alerts, j2, o.alerts[j2], a1);
            }
        }
    }
}

/// The effect of running the evaluations `evs` in order at `now`, the k-th
/// drawing `ids[k]` for a new alert: the final history and states, every
/// announcement in order, and whether all of them completed.
pub open spec fn apply_all(
    alerts: Seq<AlertEvent>,
    rt: Seq<RuleRuntime>,
    evs: Seq<Evaluation>,
    now: Timestamp,
    ids: Seq<u128>,
) -> ConditionOutcome
    decreases evs.len(),
{
    if evs.len() == 0 {
        ConditionOutcome { alerts, runtime: rt, events: seq![], completed: true }
    } else {
        let o = eval_outcome(alerts, rt, evs[0], now, ids[0]);
        let r = apply_all(o.alerts, o.runtime, evs.drop_first(), now, ids.drop_first());
        ConditionOutcome {
            alerts: r.alerts,
            runtime: r.runtime,
            events: o.events + r.events,
            completed: o.completed && r.completed,
        }
    }
}

/// No two of the evaluations are for the same rule and service.
pub open spec fn keys_distinct(evs: Seq<Evaluation>) -> bool {
    forall|i: int, j: int| 0 <= i < j < evs.len() ==> distinct_keys(#[trigger] evs[i], #[trigger] evs[j])
}

/// The first `n` identifiers are distinct and none is in the history.
pub open spec fn ids_fresh(alerts: Seq<AlertEvent>, ids: Seq<u128>, n: int) -> bool {
    &&& n <= ids.len()
    &&& forall|i: int| 0 <= i < n ==> !has_alert_id(alerts, #[trigger] ids[i])
    &&& forall|i: int, j: int| 0 <= i < j < n ==> #[trigger] ids[i] != #[trigger] ids[j]
}

/// Evaluations that are all settled change nothing and announce nothing.
proof fn lemma_settled_round_is_fixed(
    alerts: Seq<AlertEvent>,
    rt: Seq<RuleRuntime>,
    evs: Seq<Evaluation>,
    now: Timestamp,
    ids: Seq<u128>,
)
    requires
        runtime_keys_unique(rt),
        forall|k: int| 0 <= k < evs.len() ==> settled(alerts, rt, #[trigger] evs[k], now),
    ensures
        ({
            let o = apply_all(alerts, rt, evs, now, ids);
            &&& o.alerts == alerts
            &&& o.runtime == rt
            &&& o.events.len() == 0
            &&& o.completed
        }),
    decreases evs.len(),
{
    if evs.len() > 0 {
        lemma_settled_is_fixed(alerts, rt, evs[0], now, ids[0]);
        let rest = evs.drop_first();
        assert forall|k: int| 0 <= k < rest.len() implies settled(alerts, rt, #[trigger] rest[k], now) by {
            assert(rest[k] == evs[k + 1]);
        }
        lemma_settled_round_is_fixed(alerts, rt, rest, now, ids.drop_first());
        let o = eval_outcome(alerts, rt, evs[0], now, ids[0]);
        assert(o.events + seq![] =~= o.events);
    }
}

/// Running the evaluations `evs` keeps the evaluation states unique and
/// consistent with the history, and keeps settled an evaluation of a rule
/// and service that none of them is for.
proof fn lemma_round_keeps_settled(
    alerts: Seq<AlertEvent>,
    rt: Seq<RuleRuntime>,
    evs: Seq<Evaluation>,
    now: Timestamp,
    ids: Seq<u128>,
    ev: Evaluation,
)
    requires
        runtime_keys_unique(rt),
        runtime_consistent(alerts, rt),
        ids_fresh(alerts, ids, evs.len() as int),
        settled(alerts, rt, ev, now),
        forall|k: int| 0 <= k < evs.len() ==> distinct_keys(ev, #[trigger] evs[k]),
    ensures
        ({
            let o = apply_all(alerts, rt, evs, now, ids);
            &&& runtime_keys_unique(o.runtime)
            &&& runtime_consistent(o.alerts, o.runtime)
            &&& settled(o.alerts, o.runtime, ev, now)
        }),
    decreases evs.len(),
{
    if evs.len() > 0 {
        let e0 = evs[0];
        let o = eval_outcome(alerts, rt, e0, now, ids[0]);
        assert(!has_alert_id(alerts, ids[0]));
        lemma_other_evaluation_keeps_settled(alerts, rt, ev, e0, now, ids[0]);
        lemma_evaluation_keeps_runtime_consistent(
            alerts,
            rt,
            e0.rule,
            e0.service,
            e0.observed_bits,
            e0.matched,
            now,
            e0.message,
            ids[0],
        );
        lemma_ids_after(alerts, rt, e0, now, ids[0]);
        let rest = evs.drop_first();
        let ids1 = ids.drop_first();
        assert forall|i: int| 0 <= i < rest.len() implies !has_alert_id(o.alerts, #[trigger] ids1[i]) by {
            assert(ids1[i] == ids[i + 1]);
            assert(ids[0] != ids[i + 1]);
            assert(!has_alert_id(alerts, ids[i + 1]));
        }
        assert forall|i: int, j: int| 0 <= i < j < rest.len() implies #[trigger] ids1[i] != #[trigger] ids1[j] by {
            assert(ids[i + 1] != ids[j + 1]);
        }
        assert forall|k: int| 0 <= k < rest.len() implies distinct_keys(ev, #[trigger] rest[k]) by {
            assert(rest[k] == evs[k + 1]);
        }
        lemma_round_keeps_settled(o.alerts, o.runtime, rest, now, ids1, ev);
    }
}

/// A round that completes leaves every one of its evaluations settled, and
/// the evaluation states unique and consistent with the history.
proof fn lemma_round_settles(
    alerts: Seq<AlertEvent>,
    rt: Seq<RuleRuntime>,
    evs: Seq<Evaluation>,
    now: Timestamp,
    ids: Seq<u128>,
)
    requires
        runtime_keys_unique(rt),
        runtime_consistent(alerts, rt),
        keys_distinct(evs),
        ids_fresh(alerts, ids, evs.len() as int),
        apply_all(alerts, rt, evs, now, ids).completed,
    ensures
        ({
            let o = apply_all(alerts, rt, evs, now, ids);
            &&& runtime_keys_unique(o.runtime)
            &&& runtime_consistent(o.alerts, o.runtime)
            &&& forall|k: int| 0 <= k < evs.len() ==> settled(o.alerts, o.runtime, #[trigger] evs[k], now)
        }),
    decreases evs.len(),
{
    if evs.len() > 0 {
        let e0 = evs[0];
        let o = eval_outcome(alerts, rt, e0, now, ids[0]);
        assert(!has_alert_id(alerts, ids[0]));
        lemma_evaluation_settles(alerts, rt, e0, now, ids[0]);
        lemma_evaluation_keeps_runtime_consistent(
            alerts,
            rt,
            e0.rule,
            e0.service,
            e0.observed_bits,
            e0.matched,
            now,
            e0.message,
            ids[0],
        );
        lemma_ids_after(alerts, rt, e0, now, ids[0]);
        let rest = evs.drop_first();
        let ids1 = ids.drop_first();
        assert forall|i: int| 0 <= i < rest.len() implies !has_alert_id(o.alerts, #[trigger] ids1[i]) by {
            assert(ids1[i] == ids[i + 1]);
            assert(ids[0] != ids[i + 1]);
            assert(!has_alert_id(alerts, ids[i + 1]));
        }
        assert forall|i: int, j: int| 0 <= i < j < rest.len() implies #[trigger] ids1[i] != #[trigger] ids1[j] by {
            assert(ids[i + 1] != ids[j + 1]);
        }
        assert forall|i: int, j: int| 0 <= i < j < rest.len() implies distinct_keys(#[trigger] rest[i], #[trigger] rest[j]) by {
            assert(rest[i] == evs[i + 1] && rest[j] == evs[j + 1]);
        }
        assert forall|k: int| 0 <= k < rest.len() implies distinct_keys(e0, #[trigger] rest[k]) by {
            assert(rest[k] == evs[k + 1]);
        }
        lemma_round_settles(o.alerts, o.runtime, rest, now, ids1);
        lemma_round_keeps_settled(o.alerts, o.runtime, rest, now, ids1, e0);
        let f = apply_all(alerts, rt, evs, now, ids);
        assert forall|k: int| 0 <= k < evs.len() implies settled(f.alerts, f.runtime, #[trigger] evs[k], now) by {
            if k > 0 {
                assert(evs[k] == rest[k - 1]);
            }
        }
    }
}

/// A round of evaluations for distinct rules and services, run a second
/// time at the same instant with the same verdicts, changes no alert and no
/// evaluation state and announces nothing, provided the first run
/// completed, the states agreed with the history, and the identifiers the
/// first run drew were new and distinct.
pub proof fn lemma_round_twice_changes_nothing(
    alerts: Seq<AlertEvent>,
    rt: Seq<RuleRuntime>,
    evs: Seq<Evaluation>,
    now: Timestamp,
    first_ids: Seq<u128>,
    second_ids: Seq<u128>,
)
    requires
        runtime_keys_unique(rt),
        runtime_consistent(alerts, rt),
        keys_distinct(evs),
        ids_fresh(alerts, first_ids, evs.len() as int),
        apply_all(alerts, rt, evs, now, first_ids).completed,
    ensures
        ({
            let o1 = apply_all(alerts, rt, evs, now, first_ids);
            let o2 = apply_all(o1.alerts, o1.runtime, evs, now, second_ids);
            &&& o2.alerts == o1.alerts
            &&& o2.runtime == o1.runtime
            &&& o2.events.len() == 0
            &&& o2.completed
        }),
{
    let o1 = apply_all(alerts, rt, evs, now, first_ids);
    lemma_round_settles(alerts, rt, evs, now, first_ids);
    lemma_settled_round_is_fixed(o1.alerts, o1.runtime, evs, now, second_ids);
}

/// What the verdicts of a housekeeping round make of its heartbeat checks:
/// for each check in order, the evaluation with the verdict (observed value,
/// met or not, message) that `verdict` gives it, skipping checks it gives
/// none for.
pub open spec fn round_evaluations(
    checks: Seq<HeartbeatCheck>,
    verdict: spec_fn(HeartbeatCheck) -> Option<(u64, bool, String)>,
) -> Seq<Evaluation>
    decreases checks.len(),
{
    if checks.len() == 0 {
        seq![]
    } else {
        let rest = round_evaluations(checks.drop_last(), verdict);
        let c = checks.last();
        match verdict(c) {
            Some(v) => rest.push(
                Evaluation {
                    rule: c.rule,
                    service: c.service_name,
                    observed_bits: v.0,
                    matched: v.1,
                    message: v.2,
                },
            ),
            None => rest,
        }
    }
}

/// No two checks are for the same rule and service.
pub open spec fn check_keys_distinct(checks: Seq<HeartbeatCheck>) -> bool {
    forall|i: int, j: int|
        0 <= i < j < checks.len() ==> !(#[trigger] checks[i].rule.id == #[trigger] checks[j].rule.id
            && checks[i].service_name@ == checks[j].service_name@)
}

proof fn lemma_round_evaluations_from_checks(
    checks: Seq<HeartbeatCheck>,
    verdict: spec_fn(HeartbeatCheck) -> Option<(u64, bool, String)>,
)
    ensures
        forall|k: int|
            0 <= k < round_evaluations(checks, verdict).len() ==> exists|i: int|
                0 <= i < checks.len() && (#[trigger] round_evaluations(checks, verdict)[k]).rule.id
                    == checks[i].rule.id && round_evaluations(checks, verdict)[k].service@
                    == checks[i].service_name@,
        check_keys_distinct(checks) ==> keys_distinct(round_evaluations(checks, verdict)),
    decreases checks.len(),
{
    if checks.len() > 0 {
        let front = checks.drop_last();
        lemma_round_evaluations_from_checks(front, verdict);
        let evs = round_evaluations(checks, verdict);
        let rest = round_evaluations(front, verdict);
        assert forall|k: int| 0 <= k < evs.len() implies exists|i: int|
            0 <= i < checks.len() && (#[trigger] evs[k]).rule.id == checks[i].rule.id && evs[k].service@
                == checks[i].service_name@ by {
            if k < rest.len() {
                assert(evs[k] == rest[k]);
                let i = choose|i: int|
                    0 <= i < front.len() && rest[k].rule.id == front[i].rule.id && rest[k].service@
                        == front[i].service_name@;
                assert(front[i] == checks[i]);
            } else {
                assert(evs[k].rule.id == checks[checks.len() - 1].rule.id);
            }
        }
        if check_keys_distinct(checks) {
            assert(check_keys_distinct(front)) by {
                assert forall|i: int, j: int| 0 <= i < j < front.len() implies !(#[trigger] front[i].rule.id
                    == #[trigger] front[j].rule.id && front[i].service_name@ == front[j].service_name@) by {
                    assert(front[i] == checks[i] && front[j] == checks[j]);
                }
            }
            assert forall|a: int, b: int| 0 <= a < b < evs.len() implies distinct_keys(
                #[trigger] evs[a],
                #[trigger] evs[b],
            ) by {
                assert(evs[a] == rest[a]);
                let i = choose|i: int|
                    0 <= i < front.len() && rest[a].rule.id == front[i].rule.id && rest[a].service@
                        == front[i].service_name@;
                assert(front[i] == checks[i]);
                if b < rest.len() {
                    assert(evs[b] == rest[b]);
                    assert(distinct_keys(rest[a], rest[b]));
                } else {
                    let last = checks.len() - 1;
                    assert(evs[b].rule.id == checks[last].rule.id);
                    assert(i < last);
                }
            }
        }
    }
}

/// Every check of a plan is for one of the plan's rules.
proof fn lemma_plan_rules(rules: Seq<AlertRule>, services: Seq<Service>, now: Timestamp)
    ensures
        forall|k: int|
            0 <= k < heartbeat_plan(rules, services, now).len() ==> exists|i: int|
                0 <= i < rules.len() && (#[trigger] heartbeat_plan(rules, services, now)[k]).rule.id
                    == rules[i].id,
    decreases rules.len(),
{
    if rules.len() > 0 {
        let front = rules.drop_last();
        lemma_plan_rules(front, services, now);
        let p = heartbeat_plan(rules, services, now);
        let pf = heartbeat_plan(front, services, now);
        let last = heartbeat_checks_for(rules.last(), services, now);
        assert forall|k: int| 0 <= k < p.len() implies exists|i: int|
            0 <= i < rules.len() && (#[trigger] p[k]).rule.id == rules[i].id by {
            if k < pf.len() {
                assert(p[k] == pf[k]);
                let i = choose|i: int| 0 <= i < front.len() && pf[k].rule.id == front[i].id;
                assert(front[i] == rules[i]);
            } else {
                assert(p[k] == last[k - pf.len()]);
                assert(last[k - pf.len()].rule == rules.last());
                assert(rules.last() == rules[rules.len() - 1]);
            }
        }
    }
}

/// A plan over rules with distinct identifiers and services with distinct
/// names has no two checks for the same rule and service.
proof fn lemma_plan_keys_distinct(rules: Seq<AlertRule>, services: Seq<Service>, now: Timestamp)
    requires
        rule_ids_unique(rules),
        names_unique(services),
    ensures
        check_keys_distinct(heartbeat_plan(rules, services, now)),
    decreases rules.len(),
{
    if rules.len() > 0 {
        let front = rules.drop_last();
        assert(rule_ids_unique(front)) by {
            assert forall|i: int, j: int| 0 <= i < front.len() && 0 <= j < front.len() && i != j implies #[trigger] front[i].id
                != #[trigger] front[j].id by {
                assert(front[i] == rules[i] && front[j] == rules[j]);
            }
        }
        lemma_plan_keys_distinct(front, services, now);
        lemma_plan_rules(front, services, now);
        let p = heartbeat_plan(rules, services, now);
        let pf = heartbeat_plan(front, services, now);
        let r = rules.last();
        let last = heartbeat_checks_for(r, services, now);
        assert forall|a: int, b: int| 0 <= a < b < p.len() implies !(#[trigger] p[a].rule.id
            == #[trigger] p[b].rule.id && p[a].service_name@ == p[b].service_name@) by {
            if b < pf.len() {
                assert(p[a] == pf[a] && p[b] == pf[b]);
            } else if a < pf.len() {
                assert(p[a] == pf[a]);
                assert(p[b] == last[b - pf.len()]);
                let i = choose|i: int| 0 <= i < front.len() && pf[a].rule.id == front[i].id;
                assert(front[i] == rules[i]);
                assert(rules[i].id != rules[rules.len() - 1].id);
            } else {
                assert(p[a] == last[a - pf.len()]);
                assert(p[b] == last[b - pf.len()]);
                if r.service@ == "*"@ {
                    assert(last[a - pf.len()].service_name == services[a - pf.len()].name);
                    assert(last[b - pf.len()].service_name == services[b - pf.len()].name);
                }
            }
        }
    }
}

/// Health already judged at `now` is judged the same again, with no change
/// to announce.
proof fn lemma_refresh_again(config: StoreConfig, services: Seq<Service>, now: Timestamp)
    ensures
        ({
            let s1 = services.map_values(|s: Service| refreshed(config, s, now));
            &&& s1.map_values(|s: Service| refreshed(config, s, now)) == s1
            &&& status_changes(config, s1, now).len() == 0
        }),
    decreases services.len(),
{
    let s1 = services.map_values(|s: Service| refreshed(config, s, now));
    assert(s1.map_values(|s: Service| refreshed(config, s, now)) =~= s1);
    if services.len() > 0 {
        lemma_refresh_again(config, services.drop_last(), now);
        assert(services.drop_last().map_values(|s: Service| refreshed(config, s, now)) =~= s1.drop_last());
    }
}

/// Two housekeeping rounds at the same clock reading: the second judges no
/// service differently and announces no health change, plans the same
/// heartbeat checks, and (its checks getting the same verdicts) changes no
/// alert and no evaluation state and announces nothing. This holds when the
/// first round's evaluations all completed, the store's invariants held
/// before it, and the identifiers it drew for new alerts were new and
/// distinct.
pub proof fn lemma_housekeeping_twice_changes_nothing(
    config: StoreConfig,
    services: Seq<Service>,
    rules: Seq<AlertRule>,
    alerts: Seq<AlertEvent>,
    rt: Seq<RuleRuntime>,
    now: Timestamp,
    verdict: spec_fn(HeartbeatCheck) -> Option<(u64, bool, String)>,
    first_ids: Seq<u128>,
    second_ids: Seq<u128>,
)
    requires
        names_unique(services),
        rule_ids_unique(rules),
        runtime_keys_unique(rt),
        runtime_consistent(alerts, rt),
        ({
            let s1 = services.map_values(|s: Service| refreshed(config, s, now));
            let evs = round_evaluations(heartbeat_plan(rules, s1, now), verdict);
            &&& ids_fresh(alerts, first_ids, evs.len() as int)
            &&& apply_all(alerts, rt, evs, now, first_ids).completed
        }),
    ensures
        ({
            let s1 = services.map_values(|s: Service| refreshed(config, s, now));
            let s2 = s1.map_values(|s: Service| refreshed(config, s, now));
            let evs = round_evaluations(heartbeat_plan(rules, s1, now), verdict);
            let o1 = apply_all(alerts, rt, evs, now, first_ids);
            let evs2 = round_evaluations(heartbeat_plan(rules, s2, now), verdict);
            let o2 = apply_all(o1.alerts, o1.runtime, evs2, now, second_ids);
            &&& s2 == s1
            &&& status_changes(config, s1, now).len() == 0
            &&& evs2 == evs
            &&& o2.alerts == o1.alerts
            &&& o2.runtime == o1.runtime
            &&& o2.events.len() == 0
            &&& o2.completed
        }),
{
    let s1 = services.map_values(|s: Service| refreshed(config, s, now));
    lemma_refresh_again(config, services, now);
    assert(names_unique(s1)) by {
        assert forall|i: int, j: int| 0 <= i < s1.len() && 0 <= j < s1.len() && i != j implies #[trigger] s1[i].name@
            != #[trigger] s1[j].name@ by {
            assert(s1[i].name == services[i].name && s1[j].name == services[j].name);
        }
    }
    let checks = heartbeat_plan(rules, s1, now);
    lemma_plan_keys_distinct(rules, s1, now);
    lemma_round_evaluations_from_checks(checks, verdict);
    let evs = round_evaluations(checks, verdict);
    lemma_round_twice_changes_nothing(alerts, rt, evs, now, first_ids, second_ids);
}

/// A run of evaluations over a fixed rule set: history `alerts[k + 1]` and
/// states `rts[k + 1]` are what evaluation `evs[k]` at `nows[k]`, drawing
/// `ids[k]`, makes of `alerts[k]` and `rts[k]`.
pub open spec fn evaluation_run(
    alerts: Seq<Seq<AlertEvent>>,
    rts: Seq<Seq<RuleRuntime>>,
    evs: Seq<Evaluation>,
    nows: Seq<Timestamp>,
    ids: Seq<u128>,
) -> bool {
    &&& alerts.len() == evs.len() + 1
    &&& rts.len() == evs.len() + 1
    &&& nows.len() == evs.len()
    &&& forall|k: int|
        0 <= k < evs.len() ==> {
            &&& #[trigger] alerts[k + 1] == eval_outcome(alerts[k], rts[k], evs[k], nows[k], ids[k]).alerts
            &&& rts[k + 1] == eval_outcome(alerts[k], rts[k], evs[k], nows[k], ids[k]).runtime
        }
}

proof fn lemma_run_prefix(
    alerts: Seq<Seq<AlertEvent>>,
    rts: Seq<Seq<RuleRuntime>>,
    rules: Seq<AlertRule>,
    evs: Seq<Evaluation>,
    nows: Seq<Timestamp>,
    ids: Seq<u128>,
    m: int,
)
    requires
        evaluation_run(alerts, rts, evs, nows, ids),
        runtime_keys_unique(rts[0]),
        alerts_wf(alerts[0], rts[0], rules),
        ids_fresh(alerts[0], ids, evs.len() as int),
        0 <= m <= evs.len(),
    ensures
        runtime_keys_unique(rts[m]),
        alerts_wf(alerts[m], rts[m], rules),
        history_extends(alerts[0], alerts[m]),
        forall|j: int| m <= j < evs.len() ==> !has_alert_id(alerts[m], #[trigger] ids[j]),
    decreases m,
{
    if m == 0 {
        assert forall|i: int| 0 <= i < alerts[0].len() implies {
            &&& (#[trigger] alerts[0][i]).id == alerts[0][i].id
        } by {}
    } else {
        let p = m - 1;
        lemma_run_prefix(alerts, rts, rules, evs, nows, ids, p);
        let e = evs[p];
        assert(alerts[p + 1] == eval_outcome(alerts[p], rts[p], e, nows[p], ids[p]).alerts);
        lemma_evaluation_keeps_alerts_wf(
            alerts[p],
            rts[p],
            rules,
            e.rule,
            e.service,
            e.observed_bits,
            e.matched,
            nows[p],
            e.message,
            ids[p],
        );
        lemma_evaluation_extends_history(
            alerts[p],
            rts[p],
            e.rule,
            e.service,
            e.observed_bits,
            e.matched,
            nows[p],
            e.message,
            ids[p],
        );
        lemma_history_extends_transitive(alerts[0], alerts[p], alerts[m]);
        lemma_ids_after(alerts[p], rts[p], e, nows[p], ids[p]);
        assert forall|j: int| m <= j < evs.len() implies !has_alert_id(alerts[m], #[trigger] ids[j]) by {
            assert(ids[p] != ids[j]);
        }
    }
}

/// Over any run of evaluations that starts from a history and states
/// satisfying the alert invariant (the empty ones do), with distinct
/// identifiers drawn that the starting history does not hold: after every
/// step the alert invariant holds (so a stored rule and a service have at
/// most one pending or firing alert, the one their state points to, and an
/// alert records a resolution instant exactly when resolved), the history
/// only grows, with each alert keeping its identity and its status moving
/// only forward along pending, firing, resolved, and each step announces
/// at most one event.
pub proof fn lemma_alert_lifecycle_over_runs(
    alerts: Seq<Seq<AlertEvent>>,
    rts: Seq<Seq<RuleRuntime>>,
    rules: Seq<AlertRule>,
    evs: Seq<Evaluation>,
    nows: Seq<Timestamp>,
    ids: Seq<u128>,
)
    requires
        evaluation_run(alerts, rts, evs, nows, ids),
        runtime_keys_unique(rts[0]),
        alerts_wf(alerts[0], rts[0], rules),
        ids_fresh(alerts[0], ids, evs.len() as int),
    ensures
        forall|k: int|
            0 <= k <= evs.len() ==> runtime_keys_unique(#[trigger] rts[k]) && alerts_wf(alerts[k], rts[k], rules),
        forall|k: int| 0 <= k <= evs.len() ==> history_extends(alerts[0], #[trigger] alerts[k]),
        forall|k: int|
            0 <= k < evs.len() ==> (#[trigger] eval_outcome(alerts[k], rts[k], evs[k], nows[k], ids[k])).events.len()
                <= 1,
{
    assert forall|k: int| 0 <= k <= evs.len() implies runtime_keys_unique(#[trigger] rts[k]) && alerts_wf(
        alerts[k],
        rts[k],
        rules,
    ) by {
        lemma_run_prefix(alerts, rts, rules, evs, nows, ids, k);
    }
    assert forall|k: int| 0 <= k <= evs.len() implies history_extends(alerts[0], #[trigger] alerts[k]) by {
        lemma_run_prefix(alerts, rts, rules, evs, nows, ids, k);
    }
    assert forall|k: int| 0 <= k < evs.len() implies (#[trigger] eval_outcome(
        alerts[k],
        rts[k],
        evs[k],
        nows[k],
        ids[k],
    )).events.len() <= 1 by {
        lemma_run_prefix(alerts, rts, rules, evs, nows, ids, k);
        let e = evs[k];
        lemma_evaluation_keeps_resolution_consistent(
            alerts[k],
            rts[k],
            e.rule,
            e.service,
            e.observed_bits,
            e.matched,
            nows[k],
            e.message,
            ids[k],
        );
    }
}

/// The housekeeping law of `lemma_housekeeping_twice_changes_nothing` for a
/// store: under its invariant, only the identifiers drawn by the first round
/// need to be new and distinct.
pub proof fn lemma_store_housekeeping_twice_changes_nothing(
    store: Store,
    now: Timestamp,
    verdict: spec_fn(HeartbeatCheck) -> Option<(u64, bool, String)>,
    first_ids: Seq<u128>,
    second_ids: Seq<u128>,
)
    requires
        store.wf(),
        ({
            let s1 = store.services@.map_values(|s: Service| refreshed(store.config, s, now));
            let evs = round_evaluations(heartbeat_plan(store.rules@, s1, now), verdict);
            &&& ids_fresh(store.alerts@, first_ids, evs.len() as int)
            &&& apply_all(store.alerts@, store.runtime@, evs, now, first_ids).completed
        }),
    ensures
        ({
            let s1 = store.services@.map_values(|s: Service| refreshed(store.config, s, now));
            let s2 = s1.map_values(|s: Service| refreshed(store.config, s, now));
            let evs = round_evaluations(heartbeat_plan(store.rules@, s1, now), verdict);
            let o1 = apply_all(store.alerts@, store.runtime@, evs, now, first_ids);
            let evs2 = round_evaluations(heartbeat_plan(store.rules@, s2, now), verdict);
            let o2 = apply_all(o1.alerts, o1.runtime, evs2, now, second_ids);
            &&& s2 == s1
            &&& status_changes(store.config, s1, now).len() == 0
            &&& evs2 == evs
            &&& o2.alerts == o1.alerts
            &&& o2.runtime == o1.runtime
            &&& o2.events.len() == 0
            &&& o2.completed
        }),
{
    lemma_housekeeping_twice_changes_nothing(
        store.config,
        store.services@,
        store.rules@,
        store.alerts@,
        store.runtime@,
        now,
        verdict,
        first_ids,
        second_ids,
    );
}

} // verus!
