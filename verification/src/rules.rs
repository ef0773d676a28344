//! Alert rule administration: create, list, update and delete.
use vstd::prelude::*;

use crate::error::{is_not_found, not_found, not_found_text, AppError};
use crate::ids::new_id;
use crate::alert_state::{alert_tracked, alerts_wf, lemma_tracked_witness};
use crate::engine::{has_alert_id, last_alert_index};
use crate::laws::{alert_belongs, lemma_consistent_elim};
use crate::models::{AlertEvent, AlertRule, AlertStatus, CreateAlertRuleRequest, UpdateAlertRuleRequest};
use crate::sort::{is_text_order, text_order};
use crate::store::{rule_error, rule_ids_unique, runtime_keys_unique, validate_rule_request, validated, RuleRuntime, Store};
use crate::text::chars_of;

verus! {

/// A rule with identifier `id` exists.
pub open spec fn has_rule(r: Seq<AlertRule>, id: u128) -> bool {
    exists|i: int| 0 <= i < r.len() && #[trigger] r[i].id == id
}

/// The position of the rule with identifier `id` (meaningful when there is
/// one).
pub open spec fn rule_index(r: Seq<AlertRule>, id: u128) -> int {
    choose|i: int| 0 <= i < r.len() && #[trigger] r[i].id == id
}

/// The rule a creation request describes; enabled unless it says otherwise.
pub open spec fn rule_from_request(req: CreateAlertRuleRequest, id: u128) -> AlertRule {
    AlertRule {
        id,
        name: req.name,
        service: req.service,
        source_type: req.source_type,
        metric: req.metric,
        level: req.level,
        operator: req.operator,
        threshold_bits: req.threshold_bits,
        window_seconds: req.window_seconds,
        severity: req.severity,
        enabled: match req.enabled {
            Some(b) => b,
            None => true,
        },
    }
}

/// The rules with `rule` stored under its identifier (replacing a rule with
/// the same identifier, else added last).
pub open spec fn rules_with(r: Seq<AlertRule>, rule: AlertRule) -> Seq<AlertRule> {
    if has_rule(r, rule.id) {
        r.update(rule_index(r, rule.id), rule)
    } else {
        r.push(rule)
    }
}

/// A rule with every field that the request gives replaced.
pub open spec fn updated_rule(rule: AlertRule, req: UpdateAlertRuleRequest) -> AlertRule {
    AlertRule {
        id: rule.id,
        name: match req.name {
            Some(v) => v,
            None => rule.name,
        },
        service: match req.service {
            Some(v) => v,
            None => rule.service,
        },
        source_type: match req.source_type {
            Some(v) => v,
            None => rule.source_type,
        },
        metric: match req.metric {
            Some(v) => Some(v),
            None => rule.metric,
        },
        level: match req.level {
            Some(v) => Some(v),
            None => rule.level,
        },
        operator: match req.operator {
            Some(v) => v,
            None => rule.operator,
        },
        threshold_bits: match req.threshold_bits {
            Some(v) => v,
            None => rule.threshold_bits,
        },
        window_seconds: match req.window_seconds {
            Some(v) => v,
            None => rule.window_seconds,
        },
        severity: match req.severity {
            Some(v) => v,
            None => rule.severity,
        },
        enabled: match req.enabled {
            Some(v) => v,
            None => rule.enabled,
        },
    }
}

/// The evaluation states that do not belong to rule `id`, in order.
pub open spec fn runtime_without(rt: Seq<RuleRuntime>, id: u128) -> Seq<RuleRuntime>
    decreases rt.len(),
{
    if rt.len() == 0 {
        seq![]
    } else {
        let rest = runtime_without(rt.drop_last(), id);
        if rt.last().rule_id != id {
            rest.push(rt.last())
        } else {
            rest
        }
    }
}

/// Everything but the rules and the evaluation states is as before.
pub open spec fn same_except_rules(a: &Store, b: &Store) -> bool {
    &&& a.config == b.config
    &&& a.services@ == b.services@
    &&& a.metrics@ == b.metrics@
    &&& a.logs@ == b.logs@
    &&& a.alerts@ == b.alerts@
}

/// `out` lists the rules of `rules`, each once, stably sorted by name.
pub open spec fn sorted_by_name(rules: Seq<AlertRule>, out: Seq<AlertRule>) -> bool {
    exists|p: Seq<usize>|
        is_text_order(rules.map_values(|r: AlertRule| r.name@), p) && out == Seq::new(
            p.len(),
            |k: int| rules[p[k] as int],
        )
}

proof fn lemma_rule_index(r: Seq<AlertRule>, id: u128, i: int)
    requires
        rule_ids_unique(r),
        0 <= i < r.len(),
        r[i].id == id,
    ensures
        has_rule(r, id),
        rule_index(r, id) == i,
{
    assert(has_rule(r, id));
    let j = rule_index(r, id);
    assert(r[j].id == id);
}

proof fn lemma_runtime_without_subset(rt: Seq<RuleRuntime>, id: u128, k: int)
    requires
        0 <= k < runtime_without(rt, id).len(),
    ensures
        exists|j: int| 0 <= j < rt.len() && rt[j] == runtime_without(rt, id)[k] && rt[j].rule_id != id,
    decreases rt.len(),
{
    if rt.len() > 0 {
        let rest = runtime_without(rt.drop_last(), id);
        if k < rest.len() {
            lemma_runtime_without_subset(rt.drop_last(), id, k);
            let j = choose|j: int|
                0 <= j < rt.drop_last().len() && rt.drop_last()[j] == rest[k] && rt.drop_last()[j].rule_id != id;
            assert(rt[j] == rt.drop_last()[j]);
        } else {
            assert(rt[rt.len() - 1] == runtime_without(rt, id)[k]);
        }
    }
}

proof fn lemma_runtime_without_keeps(rt: Seq<RuleRuntime>, id: u128, j: int)
    requires
        0 <= j < rt.len(),
        rt[j].rule_id != id,
    ensures
        exists|k: int| 0 <= k < runtime_without(rt, id).len() && runtime_without(rt, id)[k] == rt[j],
    decreases rt.len(),
{
    let w = runtime_without(rt, id);
    if j < rt.len() - 1 {
        lemma_runtime_without_keeps(rt.drop_last(), id, j);
        let rest = runtime_without(rt.drop_last(), id);
        let k = choose|k: int| 0 <= k < rest.len() && rest[k] == rt.drop_last()[j];
        assert(w[k] == rest[k]);
    } else {
        assert(w[w.len() - 1] == rt[j]);
    }
}

/// A rule identifier that is stored already, or that no alert carries.
pub open spec fn rule_id_free(alerts: Seq<AlertEvent>, rules: Seq<AlertRule>, id: u128) -> bool {
    has_rule(rules, id) || forall|i: int| 0 <= i < alerts.len() ==> (#[trigger] alerts[i]).rule_id != id
}

/// Storing a rule under a free identifier keeps the alert invariant.
proof fn lemma_alerts_wf_rule_stored(
    alerts: Seq<AlertEvent>,
    rt: Seq<RuleRuntime>,
    rules: Seq<AlertRule>,
    rule: AlertRule,
)
    requires
        alerts_wf(alerts, rt, rules),
        rule_id_free(alerts, rules, rule.id),
    ensures
        alerts_wf(alerts, rt, rules_with(rules, rule)),
{
    let r2 = rules_with(rules, rule);
    assert forall|i: int|
        0 <= i < alerts.len() && alerts[i].status != AlertStatus::Resolved && has_rule(r2, alerts[i].rule_id)
            implies #[trigger] alert_tracked(alerts, rt, i) by {
        let x = alerts[i].rule_id;
        let w = choose|m: int| 0 <= m < r2.len() && #[trigger] r2[m].id == x;
        if has_rule(rules, rule.id) {
            let ri = rule_index(rules, rule.id);
            assert(rules[ri].id == rule.id);
            if w != ri {
                assert(r2[w] == rules[w]);
            }
            assert(has_rule(rules, x));
        } else if w < rules.len() {
            assert(r2[w] == rules[w]);
            assert(has_rule(rules, x));
        } else {
            assert(x == rule.id);
            assert(alerts[i].rule_id != rule.id);
        }
    }
}

/// Deleting the rule at `idx`, with its evaluation states, keeps the alert
/// invariant.
proof fn lemma_alerts_wf_rule_deleted(
    alerts: Seq<AlertEvent>,
    rt: Seq<RuleRuntime>,
    rules: Seq<AlertRule>,
    idx: int,
)
    requires
        alerts_wf(alerts, rt, rules),
        rule_ids_unique(rules),
        0 <= idx < rules.len(),
    ensures
        alerts_wf(alerts, runtime_without(rt, rules[idx].id), rules.remove(idx)),
{
    let id = rules[idx].id;
    let r2 = rules.remove(idx);
    let rt2 = runtime_without(rt, id);
    assert forall|k: int| 0 <= k < rt2.len() implies {
        &&& ((#[trigger] rt2[k]).active_alert_id is Some) == (rt2[k].condition_started_at is Some)
        &&& (rt2[k].active_alert_id matches Some(a) ==> {
            &&& has_alert_id(alerts, a)
            &&& alert_belongs(alerts[last_alert_index(alerts, a)], rt2[k])
            &&& alerts[last_alert_index(alerts, a)].status != AlertStatus::Resolved
        })
    } by {
        lemma_runtime_without_subset(rt, id, k);
        let j = choose|j: int| 0 <= j < rt.len() && rt[j] == rt2[k] && rt[j].rule_id != id;
        lemma_consistent_elim(alerts, rt, j);
    }
    assert forall|i: int|
        0 <= i < alerts.len() && alerts[i].status != AlertStatus::Resolved && has_rule(r2, alerts[i].rule_id)
            implies #[trigger] alert_tracked(alerts, rt2, i) by {
        let x = alerts[i].rule_id;
        let w = choose|m: int| 0 <= m < r2.len() && #[trigger] r2[m].id == x;
        let ow = if w < idx { w } else { w + 1 };
        assert(r2[w] == rules[ow]);
        assert(has_rule(rules, x));
        assert(x != id);
        assert(alert_tracked(alerts, rt, i));
        let k = lemma_tracked_witness(alerts, rt, i);
        lemma_runtime_without_keeps(rt, id, k);
        let k2 = choose|k2: int| 0 <= k2 < rt2.len() && rt2[k2] == rt[k];
        reveal(alert_tracked);
        assert(rt2[k2].rule_id == alerts[i].rule_id);
    }
}

proof fn lemma_runtime_without_unique(rt: Seq<RuleRuntime>, id: u128)
    requires
        runtime_keys_unique(rt),
    ensures
        runtime_keys_unique(runtime_without(rt, id)),
    decreases rt.len(),
{
    if rt.len() > 0 {
        let init = rt.drop_last();
        assert(runtime_keys_unique(init)) by {
            assert forall|i: int, j: int| 0 <= i < init.len() && 0 <= j < init.len() && i != j implies !(
            #[trigger] init[i].rule_id == #[trigger] init[j].rule_id && init[i].service_name@
                == init[j].service_name@) by {
                assert(init[i] == rt[i]);
                assert(init[j] == rt[j]);
            }
        }
        lemma_runtime_without_unique(init, id);
        let rest = runtime_without(init, id);
        if rt.last().rule_id != id {
            let out = rest.push(rt.last());
            assert forall|i: int, j: int| 0 <= i < out.len() && 0 <= j < out.len() && i != j implies !(
            #[trigger] out[i].rule_id == #[trigger] out[j].rule_id && out[i].service_name@
                == out[j].service_name@) by {
                if i == rest.len() || j == rest.len() {
                    let k = if i == rest.len() {
                        j
                    } else {
                        i
                    };
                    lemma_runtime_without_subset(init, id, k);
                    let m = choose|m: int| 0 <= m < init.len() && init[m] == rest[k] && init[m].rule_id != id;
                    assert(rt[m] == init[m]);
                    assert(rt[rt.len() - 1] == rt.last());
                }
            }
        }
    }
}

impl Store {
    /// The position of the rule with identifier `id`, if any.
    pub fn find_rule(&self, id: u128) -> (r: Option<usize>)
        requires
            self.wf(),
        ensures
            r matches Some(i) ==> i < self.rules@.len() && has_rule(self.rules@, id)
                && rule_index(self.rules@, id) == i,
            r is None ==> !has_rule(self.rules@, id),
    {
        let mut i: usize = 0;
        while i < self.rules.len()
            invariant
                i <= self.rules@.len(),
                self.wf(),
                forall|j: int| 0 <= j < i ==> #[trigger] self.rules@[j].id != id,
            decreases self.rules@.len() - i,
        {
            if self.rules[i].id == id {
                proof {
                    lemma_rule_index(self.rules@, id, i as int);
                }
                return Some(i);
            }
            i = i + 1;
        }
        None
    }

    /// Validates a rule request and stores the rule under identifier `id`.
    pub fn create_rule_with_id(&mut self, request: CreateAlertRuleRequest, id: u128) -> (r: Result<
        AlertRule,
        AppError,
    >)
        requires
            old(self).wf(),
        ensures
            final(self).base_wf(),
            rule_id_free(old(self).alerts@, old(self).rules@, id) ==> final(self).wf(),
            validated(
                r,
                rule_error(request.name@, request.threshold_bits, request.window_seconds),
            ),
            r is Err ==> *final(self) == *old(self),
            r matches Ok(rule) ==> {
                &&& rule == rule_from_request(request, id)
                &&& final(self).rules@ == rules_with(old(self).rules@, rule)
                &&& final(self).runtime@ == old(self).runtime@
                &&& same_except_rules(old(self), final(self))
            },
    {
        match validate_rule_request(request.name.as_str(), request.threshold_bits, request.window_seconds) {
            Err(e) => return Err(e),
            Ok(()) => {},
        }
        let rule = AlertRule {
            id,
            name: request.name,
            service: request.service,
            source_type: request.source_type,
            metric: request.metric,
            level: request.level,
            operator: request.operator,
            threshold_bits: request.threshold_bits,
            window_seconds: request.window_seconds,
            severity: request.severity,
            enabled: match request.enabled {
                Some(b) => b,
                None => true,
            },
        };
        let out = rule.copy();
        match self.find_rule(id) {
            Some(i) => {
                self.rules.set(i, rule);
            },
            None => {
                self.rules.push(rule);
            },
        }
        assert(rule_ids_unique(self.rules@)) by {
            assert forall|i: int, j: int|
                0 <= i < self.rules@.len() && 0 <= j < self.rules@.len() && i != j implies #[trigger] self.rules@[i].id
                != #[trigger] self.rules@[j].id by {
                if i != old(self).rules@.len() && j != old(self).rules@.len() && self.rules@[i].id == id {
                    assert(old(self).rules@[i].id == id || i == rule_index(old(self).rules@, id));
                }
            }
        }
        proof {
            if rule_id_free(old(self).alerts@, old(self).rules@, id) {
                assert(self.rules@ == rules_with(old(self).rules@, out));
                lemma_alerts_wf_rule_stored(old(self).alerts@, old(self).runtime@, old(self).rules@, out);
            }
        }
        Ok(out)
    }

    /// Validates a rule request and stores the rule under a fresh
    /// identifier.
    pub fn create_rule(&mut self, request: CreateAlertRuleRequest) -> (r: Result<AlertRule, AppError>)
        requires
            old(self).wf(),
        ensures
            final(self).base_wf(),
            r matches Ok(rule) ==> rule_id_free(old(self).alerts@, old(self).rules@, rule.id) ==> final(self).wf(),
            validated(
                r,
                rule_error(request.name@, request.threshold_bits, request.window_seconds),
            ),
            r is Err ==> *final(self) == *old(self),
            r matches Ok(rule) ==> {
                &&& exists|id: u128| rule == rule_from_request(request, id)
                &&& final(self).rules@ == rules_with(old(self).rules@, rule)
                &&& final(self).runtime@ == old(self).runtime@
                &&& same_except_rules(old(self), final(self))
            },
    {
        let id = new_id();
        self.create_rule_with_id(request, id)
    }

    /// The rules, stably sorted by name.
    pub fn list_rules(&self) -> (out: Vec<AlertRule>)
        ensures
            sorted_by_name(self.rules@, out@),
    {
        let mut names: Vec<Vec<char>> = Vec::new();
        let mut i: usize = 0;
        while i < self.rules.len()
            invariant
                i <= self.rules@.len(),
                names@.len() == i,
                forall|k: int| 0 <= k < i ==> #[trigger] names@[k]@ == self.rules@[k].name@,
            decreases self.rules@.len() - i,
        {
            names.push(chars_of(self.rules[i].name.as_str()));
            i = i + 1;
        }
        let p = text_order(&names);
        let ghost keys = self.rules@.map_values(|r: AlertRule| r.name@);
        assert(names@.map_values(|k: Vec<char>| k@) =~= keys);
        let mut out: Vec<AlertRule> = Vec::new();
        let mut k: usize = 0;
        while k < p.len()
            invariant
                k <= p@.len(),
                is_text_order(keys, p@),
                keys.len() == self.rules@.len(),
                out@ == Seq::new(k as nat, |j: int| self.rules@[p@[j] as int]),
            decreases p@.len() - k,
        {
            out.push(self.rules[p[k]].copy());
            k = k + 1;
            assert(out@ =~= Seq::new(k as nat, |j: int| self.rules@[p@[j] as int]));
        }
        assert(out@ =~= Seq::new(p@.len(), |j: int| self.rules@[p@[j] as int]));
        out
    }

    /// Applies the fields a request gives to rule `rule_id`, then validates
    /// the result. The changes stay in the store even when validation then
    /// fails.
    pub fn update_rule(&mut self, rule_id: u128, request: UpdateAlertRuleRequest) -> (r: Result<
        AlertRule,
        AppError,
    >)
        requires
            old(self).wf(),
        ensures
            final(self).wf(),
            !has_rule(old(self).rules@, rule_id) ==> is_not_found(
                r,
                not_found_text("alert rule"@, rule_id),
            ) && *final(self) == *old(self),
            has_rule(old(self).rules@, rule_id) ==> {
                let rule = updated_rule(
                    old(self).rules@[rule_index(old(self).rules@, rule_id)],
                    request,
                );
                &&& final(self).rules@ == old(self).rules@.update(
                    rule_index(old(self).rules@, rule_id),
                    rule,
                )
                &&& final(self).runtime@ == old(self).runtime@
                &&& same_except_rules(old(self), final(self))
                &&& validated(r, rule_error(rule.name@, rule.threshold_bits, rule.window_seconds))
                &&& r matches Ok(out) ==> out == rule
            },
    {
        let i = match self.find_rule(rule_id) {
            Some(i) => i,
            None => return Err(not_found("alert rule", rule_id)),
        };
        let cur = self.rules[i].copy();
        let rule = AlertRule {
            id: cur.id,
            name: match request.name {
                Some(v) => v,
                None => cur.name,
            },
            service: match request.service {
                Some(v) => v,
                None => cur.service,
            },
            source_type: match request.source_type {
                Some(v) => v,
                None => cur.source_type,
            },
            metric: match request.metric {
                Some(v) => Some(v),
                None => cur.metric,
            },
            level: match request.level {
                Some(v) => Some(v),
                None => cur.level,
            },
            operator: match request.operator {
                Some(v) => v,
                None => cur.operator,
            },
            threshold_bits: match request.threshold_bits {
                Some(v) => v,
                None => cur.threshold_bits,
            },
            window_seconds: match request.window_seconds {
                Some(v) => v,
                None => cur.window_seconds,
            },
            severity: match request.severity {
                Some(v) => v,
                None => cur.severity,
            },
            enabled: match request.enabled {
                Some(v) => v,
                None => cur.enabled,
            },
        };
        let out = rule.copy();
        self.rules.set(i, rule);
        assert(rule_ids_unique(self.rules@)) by {
            assert forall|a: int, b: int|
                0 <= a < self.rules@.len() && 0 <= b < self.rules@.len() && a != b implies #[trigger] self.rules@[a].id
                != #[trigger] self.rules@[b].id by {
                assert(old(self).rules@[a].id != old(self).rules@[b].id);
            }
        }
        match validate_rule_request(out.name.as_str(), out.threshold_bits, out.window_seconds) {
            Err(e) => Err(e),
            Ok(()) => Ok(out),
        }
    }

    /// Deletes rule `rule_id` and its evaluation states; alerts it raised
    /// stay in the history.
    pub fn delete_rule(&mut self, rule_id: u128) -> (r: Result<(), AppError>)
        requires
            old(self).wf(),
        ensures
            final(self).wf(),
            !has_rule(old(self).rules@, rule_id) ==> is_not_found(
                r,
                not_found_text("alert rule"@, rule_id),
            ) && *final(self) == *old(self),
            has_rule(old(self).rules@, rule_id) ==> {
                &&& r is Ok
                &&& final(self).rules@ == old(self).rules@.remove(
                    rule_index(old(self).rules@, rule_id),
                )
                &&& final(self).runtime@ == runtime_without(old(self).runtime@, rule_id)
                &&& same_except_rules(old(self), final(self))
            },
    {
        let i = match self.find_rule(rule_id) {
            Some(i) => i,
            None => return Err(not_found("alert rule", rule_id)),
        };
        let _ = self.rules.remove(i);
        assert(rule_ids_unique(self.rules@)) by {
            assert forall|a: int, b: int|
                0 <= a < self.rules@.len() && 0 <= b < self.rules@.len() && a != b implies #[trigger] self.rules@[a].id
                != #[trigger] self.rules@[b].id by {
                let oa = if a < i { a } else { a + 1 };
                let ob = if b < i { b } else { b + 1 };
                assert(self.rules@[a] == old(self).rules@[oa]);
                assert(self.rules@[b] == old(self).rules@[ob]);
            }
        }
        let ghost old_rt = self.runtime@;
        let mut kept: Vec<RuleRuntime> = Vec::new();
        let mut k: usize = 0;
        while k < self.runtime.len()
            invariant
                k <= self.runtime@.len(),
                self.runtime@ == old_rt,
                kept@ == runtime_without(old_rt.take(k as int), rule_id),
            decreases self.runtime@.len() - k,
        {
            assert(old_rt.take(k + 1).drop_last() =~= old_rt.take(k as int));
            if self.runtime[k].rule_id != rule_id {
                let e = RuleRuntime {
                    rule_id: self.runtime[k].rule_id,
                    service_name: self.runtime[k].service_name.clone(),
                    condition_started_at: self.runtime[k].condition_started_at,
                    active_alert_id: self.runtime[k].active_alert_id,
                };
                kept.push(e);
            }
            k = k + 1;
        }
        assert(old_rt.take(k as int) =~= old_rt);
        proof {
            lemma_runtime_without_unique(old_rt, rule_id);
            lemma_alerts_wf_rule_deleted(old(self).alerts@, old_rt, old(self).rules@, i as int);
        }
        self.runtime = kept;
        Ok(())
    }
}

} // verus!
