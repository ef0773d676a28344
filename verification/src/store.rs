//! The store: service registry, retained telemetry, alert rules, alert
//! history and per-rule evaluation state, with the ingestion operations.
use std::collections::VecDeque;
use vstd::prelude::*;

use crate::alerts::{compute_status, status_at};
use crate::error::{bad_request, is_bad_request, AppError};
use crate::ids::new_id;
use crate::models::{
    is_finite_bits, finite_bits, AlertEvent, AlertRule, HeartbeatIngest, LogEvent, LogIngest,
    MetricEvent, MetricIngest, Service, ServiceStatus, StoreConfig,
};
use crate::text::{is_blank, str_eq, str_is_blank};
use crate::time::{is_before, ts_lt, utc_now, Timestamp};

verus! {

/// Evaluation state of one rule for one service.
#[derive(Clone, Debug)]
pub struct RuleRuntime {
    pub rule_id: u128,
    pub service_name: String,
    pub condition_started_at: Option<Timestamp>,
    pub active_alert_id: Option<u128>,
}

/// All state of the monitoring backend.
#[derive(Debug)]
pub struct Store {
    pub config: StoreConfig,
    /// Registered services, in registration order.
    pub services: Vec<Service>,
    /// Retained metric samples, oldest first.
    pub metrics: VecDeque<MetricEvent>,
    /// Retained log lines, oldest first.
    pub logs: VecDeque<LogEvent>,
    /// Alert rules.
    pub rules: Vec<AlertRule>,
    /// Every alert raised, in the order raised.
    pub alerts: Vec<AlertEvent>,
    /// Evaluation state per (rule, service).
    pub runtime: Vec<RuleRuntime>,
}

/// No two services share a name.
pub open spec fn names_unique(s: Seq<Service>) -> bool {
    forall|i: int, j: int|
        0 <= i < s.len() && 0 <= j < s.len() && i != j ==> #[trigger] s[i].name@
            != #[trigger] s[j].name@
}

/// No two rules share an identifier.
pub open spec fn rule_ids_unique(r: Seq<AlertRule>) -> bool {
    forall|i: int, j: int|
        0 <= i < r.len() && 0 <= j < r.len() && i != j ==> #[trigger] r[i].id != #[trigger] r[j].id
}

/// No two evaluation states share a (rule, service) key.
pub open spec fn runtime_keys_unique(r: Seq<RuleRuntime>) -> bool {
    forall|i: int, j: int|
        0 <= i < r.len() && 0 <= j < r.len() && i != j ==> !(#[trigger] r[i].rule_id == #[trigger] r[j].rule_id
            && r[i].service_name@ == r[j].service_name@)
}

/// The tags of every metric sample are in key order.
pub open spec fn metric_tags_wf(ms: Seq<MetricEvent>) -> bool {
    forall|i: int| 0 <= i < ms.len() ==> (#[trigger] ms[i]).tags.wf()
}

/// The metadata of every log line is in key order.
pub open spec fn log_metadata_wf(ls: Seq<LogEvent>) -> bool {
    forall|i: int| 0 <= i < ls.len() ==> (#[trigger] ls[i]).metadata.wf()
}

/// Every service was seen and created at representable instants.
pub open spec fn services_wf(s: Seq<Service>) -> bool {
    forall|i: int| 0 <= i < s.len() ==> (#[trigger] s[i]).last_seen_at.wf() && s[i].created_at.wf()
}

impl Store {
    /// The base invariant: unique service names, rule identifiers and
    /// evaluation keys, representable service instants, and retained
    /// telemetry within the retention limits.
    pub open spec fn base_wf(&self) -> bool {
        &&& names_unique(self.services@)
        &&& rule_ids_unique(self.rules@)
        &&& runtime_keys_unique(self.runtime@)
        &&& services_wf(self.services@)
        &&& self.metrics@.len() <= self.config.metric_retention
        &&& self.logs@.len() <= self.config.log_retention
        &&& metric_tags_wf(self.metrics@)
        &&& log_metadata_wf(self.logs@)
    }

    /// The store invariant: the base invariant (see `base_wf`) and the alert
    /// invariant (see `alerts_wf`).
    pub open spec fn wf(&self) -> bool {
        &&& self.base_wf()
        &&& crate::alert_state::alerts_wf(self.alerts@, self.runtime@, self.rules@)
    }

    /// An empty store.
    pub fn new(config: StoreConfig) -> (s: Store)
        ensures
            s.wf(),
            s.config == config,
            s.services@.len() == 0,
            s.metrics@.len() == 0,
            s.logs@.len() == 0,
            s.rules@.len() == 0,
            s.alerts@.len() == 0,
            s.runtime@.len() == 0,
    {
        Store {
            config,
            services: Vec::new(),
            metrics: VecDeque::new(),
            logs: VecDeque::new(),
            rules: Vec::new(),
            alerts: Vec::new(),
            runtime: Vec::new(),
        }
    }
}

/// A service named `name` is registered.
pub open spec fn has_service(s: Seq<Service>, name: Seq<char>) -> bool {
    exists|i: int| 0 <= i < s.len() && #[trigger] s[i].name@ == name
}

/// The position of the service named `name` (meaningful when there is one).
pub open spec fn service_index(s: Seq<Service>, name: Seq<char>) -> int {
    choose|i: int| 0 <= i < s.len() && #[trigger] s[i].name@ == name
}

/// The service a first contact registers.
pub open spec fn new_service(id: u128, name: String, environment: String, seen_at: Timestamp) -> Service {
    Service {
        id,
        name,
        environment,
        status: ServiceStatus::Healthy,
        last_seen_at: seen_at,
        created_at: seen_at,
    }
}

/// A registered service after contact at `seen_at`: last seen at the later
/// of the two instants, in `environment` unless that is empty, healthy.
pub open spec fn touched(base: Service, environment: String, seen_at: Timestamp) -> Service {
    Service {
        last_seen_at: if ts_lt(base.last_seen_at, seen_at) {
            seen_at
        } else {
            base.last_seen_at
        },
        environment: if environment@.len() > 0 {
            environment
        } else {
            base.environment
        },
        status: ServiceStatus::Healthy,
        ..base
    }
}

/// The service as it stood before the contact (a new one when absent).
pub open spec fn touch_base(
    s: Seq<Service>,
    name: String,
    environment: String,
    seen_at: Timestamp,
    fresh_id: u128,
) -> Service {
    if has_service(s, name@) {
        s[service_index(s, name@)]
    } else {
        new_service(fresh_id, name, environment, seen_at)
    }
}

/// The registry after contact from service `name`.
pub open spec fn services_after_touch(
    s: Seq<Service>,
    name: String,
    environment: String,
    seen_at: Timestamp,
    fresh_id: u128,
) -> Seq<Service> {
    let rec = touched(touch_base(s, name, environment, seen_at, fresh_id), environment, seen_at);
    if has_service(s, name@) {
        s.update(service_index(s, name@), rec)
    } else {
        s.push(rec)
    }
}

/// What contact reports: the touched service when it was not healthy before,
/// would not be healthy by its silence at `now`, or was created at `seen_at`.
pub open spec fn touch_report(
    config: StoreConfig,
    s: Seq<Service>,
    name: String,
    environment: String,
    seen_at: Timestamp,
    now: Timestamp,
    fresh_id: u128,
) -> Option<Service> {
    let base = touch_base(s, name, environment, seen_at, fresh_id);
    let rec = touched(base, environment, seen_at);
    if status_at(config, rec.last_seen_at, now) != ServiceStatus::Healthy || base.status
        != ServiceStatus::Healthy || base.created_at == seen_at {
        Some(rec)
    } else {
        None
    }
}

/// Keeps the last `n` items of `s`.
pub open spec fn keep_last<T>(s: Seq<T>, n: nat) -> Seq<T> {
    if s.len() > n {
        s.skip(s.len() - n)
    } else {
        s
    }
}

/// The environment that telemetry tags name, else the default one.
pub open spec fn environment_of(tag_env: Option<String>, config: StoreConfig) -> String {
    match tag_env {
        Some(e) => e,
        None => config.default_environment,
    }
}

/// What recording a metric sample reports: the service change, if any, and
/// the stored sample.
pub struct MetricRecord {
    pub changed: Option<Service>,
    pub event: MetricEvent,
}

pub struct LogRecord {
    pub changed: Option<Service>,
    pub event: LogEvent,
}

/// The validation error of a metric sample, if any, in the order checked.
pub open spec fn metric_error(p: MetricIngest) -> Option<Seq<char>> {
    if is_blank(p.service@) {
        Some("metric service is required"@)
    } else if is_blank(p.metric@) {
        Some("metric name is required"@)
    } else if !is_finite_bits(p.value_bits) {
        Some("metric value must be finite"@)
    } else {
        None
    }
}

/// The validation error of a log line, if any.
pub open spec fn log_error(p: LogIngest) -> Option<Seq<char>> {
    if is_blank(p.service@) {
        Some("log service is required"@)
    } else if is_blank(p.message@) {
        Some("log message is required"@)
    } else {
        None
    }
}

/// The validation error of an alert rule, if any.
pub open spec fn rule_error(name: Seq<char>, threshold_bits: u64, window_seconds: u64) -> Option<Seq<char>> {
    if is_blank(name) {
        Some("alert rule name is required"@)
    } else if !is_finite_bits(threshold_bits) {
        Some("alert rule threshold must be finite"@)
    } else if window_seconds == 0 {
        Some("alert rule window_seconds must be greater than zero"@)
    } else {
        None
    }
}

/// `r` reports `err` as a bad request when there is one, and is `Ok`
/// otherwise.
pub open spec fn validated<T>(r: Result<T, AppError>, err: Option<Seq<char>>) -> bool {
    match err {
        Some(msg) => is_bad_request(r, msg),
        None => r is Ok,
    }
}

pub fn validate_metric(payload: &MetricIngest) -> (r: Result<(), AppError>)
    ensures
        validated(r, metric_error(*payload)),
{
    if str_is_blank(payload.service.as_str()) {
        return Err(bad_request("metric service is required"));
    }
    if str_is_blank(payload.metric.as_str()) {
        return Err(bad_request("metric name is required"));
    }
    if !finite_bits(payload.value_bits) {
        return Err(bad_request("metric value must be finite"));
    }
    Ok(())
}

pub fn validate_log(payload: &LogIngest) -> (r: Result<(), AppError>)
    ensures
        validated(r, log_error(*payload)),
{
    if str_is_blank(payload.service.as_str()) {
        return Err(bad_request("log service is required"));
    }
    if str_is_blank(payload.message.as_str()) {
        return Err(bad_request("log message is required"));
    }
    Ok(())
}

pub fn validate_rule_request(name: &str, threshold_bits: u64, window_seconds: u64) -> (r: Result<
    (),
    AppError,
>)
    ensures
        validated(r, rule_error(name@, threshold_bits, window_seconds)),
{
    if str_is_blank(name) {
        return Err(bad_request("alert rule name is required"));
    }
    if !finite_bits(threshold_bits) {
        return Err(bad_request("alert rule threshold must be finite"));
    }
    if window_seconds == 0 {
        return Err(bad_request("alert rule window_seconds must be greater than zero"));
    }
    Ok(())
}

/// Everything but the registry, the retained samples and the retained logs
/// is as before.
pub open spec fn same_rules_and_alerts(a: &Store, b: &Store) -> bool {
    &&& a.config == b.config
    &&& a.rules@ == b.rules@
    &&& a.alerts@ == b.alerts@
    &&& a.runtime@ == b.runtime@
}

/// Recording a metric sample: on a validation error nothing changes;
/// otherwise the sender's service is touched and the sample, with identifier
/// `event_id`, is appended to the retained samples, of which the newest
/// `metric_retention` are kept.
pub open spec fn metric_recorded(
    old: &Store,
    new: &Store,
    payload: MetricIngest,
    r: Result<MetricRecord, AppError>,
    event_id: u128,
    service_id: u128,
    now: Timestamp,
) -> bool {
    let env = environment_of(payload.tags.lookup("env"@), old.config);
    let event = MetricEvent {
        id: event_id,
        service: payload.service,
        metric: payload.metric,
        value_bits: payload.value_bits,
        timestamp: payload.timestamp,
        tags: payload.tags,
    };
    &&& validated(r, metric_error(payload))
    &&& r is Err ==> new == old
    &&& r matches Ok(rec) ==> {
        &&& rec.event == event
        &&& rec.changed == touch_report(
            old.config,
            old.services@,
            payload.service,
            env,
            payload.timestamp,
            now,
            service_id,
        )
        &&& new.services@ == services_after_touch(
            old.services@,
            payload.service,
            env,
            payload.timestamp,
            service_id,
        )
        &&& new.metrics@ == keep_last(old.metrics@.push(event), old.config.metric_retention as nat)
        &&& new.logs@ == old.logs@
        &&& same_rules_and_alerts(old, new)
    }
}

/// Recording a log line, as for metric samples.
pub open spec fn log_recorded(
    old: &Store,
    new: &Store,
    payload: LogIngest,
    r: Result<LogRecord, AppError>,
    event_id: u128,
    service_id: u128,
    now: Timestamp,
) -> bool {
    let env = environment_of(payload.metadata.lookup("env"@), old.config);
    let event = LogEvent {
        id: event_id,
        service: payload.service,
        level: payload.level,
        message: payload.message,
        timestamp: payload.timestamp,
        metadata: payload.metadata,
    };
    &&& validated(r, log_error(payload))
    &&& r is Err ==> new == old
    &&& r matches Ok(rec) ==> {
        &&& rec.event == event
        &&& rec.changed == touch_report(
            old.config,
            old.services@,
            payload.service,
            env,
            payload.timestamp,
            now,
            service_id,
        )
        &&& new.services@ == services_after_touch(
            old.services@,
            payload.service,
            env,
            payload.timestamp,
            service_id,
        )
        &&& new.logs@ == keep_last(old.logs@.push(event), old.config.log_retention as nat)
        &&& new.metrics@ == old.metrics@
        &&& same_rules_and_alerts(old, new)
    }
}

/// Recording a heartbeat: a blank service name is refused and nothing
/// changes; otherwise the service is touched in the default environment and
/// returned as it now stands.
pub open spec fn heartbeat_recorded(
    old: &Store,
    new: &Store,
    payload: HeartbeatIngest,
    r: Result<Service, AppError>,
    service_id: u128,
) -> bool {
    let env = old.config.default_environment;
    let after = services_after_touch(old.services@, payload.service, env, payload.timestamp, service_id);
    &&& validated(
        r,
        if is_blank(payload.service@) {
            Some("heartbeat service is required"@)
        } else {
            None
        },
    )
    &&& r is Err ==> new == old
    &&& r matches Ok(svc) ==> {
        &&& svc == after[service_index(after, payload.service@)]
        &&& new.services@ == after
        &&& new.metrics@ == old.metrics@
        &&& new.logs@ == old.logs@
        &&& same_rules_and_alerts(old, new)
    }
}

proof fn lemma_service_index(s: Seq<Service>, name: Seq<char>, i: int)
    requires
        names_unique(s),
        0 <= i < s.len(),
        s[i].name@ == name,
    ensures
        has_service(s, name),
        service_index(s, name) == i,
{
    assert(has_service(s, name));
    let j = service_index(s, name);
    assert(s[j].name@ == name);
}

proof fn lemma_touch_keeps_names_unique(
    s: Seq<Service>,
    name: String,
    environment: String,
    seen_at: Timestamp,
    fresh_id: u128,
)
    requires
        names_unique(s),
    ensures
        names_unique(services_after_touch(s, name, environment, seen_at, fresh_id)),
        has_service(services_after_touch(s, name, environment, seen_at, fresh_id), name@),
{
    let after = services_after_touch(s, name, environment, seen_at, fresh_id);
    if has_service(s, name@) {
        let i = service_index(s, name@);
        assert(after[i].name@ == name@);
    } else {
        assert(after[s.len() as int].name@ == name@);
    }
}

impl Store {
    /// The position of the service named `name`, if registered.
    pub fn find_service(&self, name: &str) -> (r: Option<usize>)
        requires
            self.wf(),
        ensures
            r matches Some(i) ==> i < self.services@.len() && has_service(self.services@, name@)
                && service_index(self.services@, name@) == i,
            r is None ==> !has_service(self.services@, name@),
    {
        let mut i: usize = 0;
        while i < self.services.len()
            invariant
                i <= self.services@.len(),
                self.wf(),
                forall|j: int| 0 <= j < i ==> #[trigger] self.services@[j].name@ != name@,
            decreases self.services@.len() - i,
        {
            if str_eq(self.services[i].name.as_str(), name) {
                proof {
                    lemma_service_index(self.services@, name@, i as int);
                }
                return Some(i);
            }
            i = i + 1;
        }
        None
    }

    /// Registers contact from service `name` seen at `seen_at`, creating it
    /// with identifier `fresh_id` when new; reports the service when its
    /// health is to be announced.
    pub fn touch_service(
        &mut self,
        name: &String,
        environment: &String,
        seen_at: Timestamp,
        now: Timestamp,
        fresh_id: u128,
    ) -> (r: Option<Service>)
        requires
            old(self).wf(),
            seen_at.wf(),
        ensures
            final(self).wf(),
            final(self).services@ == services_after_touch(
                old(self).services@,
                *name,
                *environment,
                seen_at,
                fresh_id,
            ),
            r == touch_report(
                old(self).config,
                old(self).services@,
                *name,
                *environment,
                seen_at,
                now,
                fresh_id,
            ),
            final(self).metrics@ == old(self).metrics@,
            final(self).logs@ == old(self).logs@,
            same_rules_and_alerts(old(self), final(self)),
    {
        proof {
            lemma_touch_keeps_names_unique(self.services@, *name, *environment, seen_at, fresh_id);
        }
        let pos = self.find_service(name.as_str());
        let (base, idx) = match pos {
            Some(i) => (self.services[i].copy(), i),
            None => {
                let svc = Service {
                    id: fresh_id,
                    name: name.clone(),
                    environment: environment.clone(),
                    status: ServiceStatus::Healthy,
                    last_seen_at: seen_at,
                    created_at: seen_at,
                };
                let n = self.services.len();
                self.services.push(svc);
                (self.services[n].copy(), n)
            },
        };
        let last_seen_at = if is_before(base.last_seen_at, seen_at) {
            seen_at
        } else {
            base.last_seen_at
        };
        let env = if !environment.as_str().is_empty() {
            environment.clone()
        } else {
            base.environment.clone()
        };
        let rec = Service {
            id: base.id,
            name: base.name.clone(),
            environment: env,
            status: ServiceStatus::Healthy,
            last_seen_at,
            created_at: base.created_at,
        };
        let report = rec.copy();
        self.services.set(idx, rec);
        let next_status = compute_status(&self.config, report.last_seen_at, now);
        let was_healthy = match base.status {
            ServiceStatus::Healthy => true,
            _ => false,
        };
        let still_healthy = match next_status {
            ServiceStatus::Healthy => true,
            _ => false,
        };
        if !still_healthy || !was_healthy || base.created_at == seen_at {
            Some(report)
        } else {
            None
        }
    }
}

/// Drops items from the front until at most `n` remain.
pub fn trim_front<T>(q: &mut VecDeque<T>, n: usize)
    ensures
        final(q)@ == keep_last(old(q)@, n as nat),
{
    broadcast use vstd::std_specs::vecdeque::group_vec_dequeue_axioms;

    let ghost full = q@;
    while q.len() > n
        invariant
            q@.len() <= full.len(),
            q@ == full.skip(full.len() - q@.len()),
            q@.len() >= n || q@.len() == full.len(),
        decreases q@.len(),
    {
        let ghost before = q@;
        let _ = q.pop_front();
        assert(q@ =~= full.skip(full.len() - q@.len()));
    }
    assert(q@ =~= keep_last(full, n as nat));
}

impl Store {
    /// Validates a metric sample and records it (see `metric_recorded`).
    pub fn record_metric(
        &mut self,
        payload: MetricIngest,
        event_id: u128,
        service_id: u128,
        now: Timestamp,
    ) -> (r: Result<MetricRecord, AppError>)
        requires
            old(self).wf(),
            payload.timestamp.wf(),
            payload.tags.wf(),
        ensures
            final(self).wf(),
            metric_recorded(old(self), final(self), payload, r, event_id, service_id, now),
    {
        match validate_metric(&payload) {
            Err(e) => return Err(e),
            Ok(()) => {},
        }
        let env = match payload.tags.get("env") {
            Some(e) => e,
            None => self.config.default_environment.clone(),
        };
        let changed = self.touch_service(&payload.service, &env, payload.timestamp, now, service_id);
        let event = MetricEvent {
            id: event_id,
            service: payload.service,
            metric: payload.metric,
            value_bits: payload.value_bits,
            timestamp: payload.timestamp,
            tags: payload.tags,
        };
        let copy = event.copy();
        self.metrics.push_back(event);
        trim_front(&mut self.metrics, self.config.metric_retention);
        Ok(MetricRecord { changed, event: copy })
    }

    /// Validates a log line and records it (see `log_recorded`).
    pub fn record_log(
        &mut self,
        payload: LogIngest,
        event_id: u128,
        service_id: u128,
        now: Timestamp,
    ) -> (r: Result<LogRecord, AppError>)
        requires
            old(self).wf(),
            payload.timestamp.wf(),
            payload.metadata.wf(),
        ensures
            final(self).wf(),
            log_recorded(old(self), final(self), payload, r, event_id, service_id, now),
    {
        match validate_log(&payload) {
            Err(e) => return Err(e),
            Ok(()) => {},
        }
        let env = match payload.metadata.get("env") {
            Some(e) => e,
            None => self.config.default_environment.clone(),
        };
        let changed = self.touch_service(&payload.service, &env, payload.timestamp, now, service_id);
        let event = LogEvent {
            id: event_id,
            service: payload.service,
            level: payload.level,
            message: payload.message,
            timestamp: payload.timestamp,
            metadata: payload.metadata,
        };
        let copy = event.copy();
        self.logs.push_back(event);
        trim_front(&mut self.logs, self.config.log_retention);
        Ok(LogRecord { changed, event: copy })
    }

    /// Records a heartbeat (see `heartbeat_recorded`).
    pub fn record_heartbeat(&mut self, payload: HeartbeatIngest, service_id: u128, now: Timestamp) -> (r:
        Result<Service, AppError>)
        requires
            old(self).wf(),
            payload.timestamp.wf(),
        ensures
            final(self).wf(),
            heartbeat_recorded(old(self), final(self), payload, r, service_id),
    {
        if str_is_blank(payload.service.as_str()) {
            return Err(bad_request("heartbeat service is required"));
        }
        let env = self.config.default_environment.clone();
        let reported = self.touch_service(&payload.service, &env, payload.timestamp, now, service_id);
        let ghost after = self.services@;
        match reported {
            Some(svc) => {
                proof {
                    lemma_touch_index(
                        old(self).services@,
                        payload.service,
                        env,
                        payload.timestamp,
                        service_id,
                    );
                }
                Ok(svc)
            },
            None => {
                match self.find_service(payload.service.as_str()) {
                    Some(i) => Ok(self.services[i].copy()),
                    None => {
                        proof {
                            lemma_touch_keeps_names_unique(
                                old(self).services@,
                                payload.service,
                                env,
                                payload.timestamp,
                                service_id,
                            );
                        }
                        Err(bad_request("heartbeat service is required"))
                    },
                }
            },
        }
    }

    /// Validates and records a metric sample, drawing fresh identifiers and
    /// reading the clock for the health check.
    pub fn ingest_metric(&mut self, payload: MetricIngest) -> (r: Result<MetricRecord, AppError>)
        requires
            old(self).wf(),
            payload.timestamp.wf(),
            payload.tags.wf(),
        ensures
            final(self).wf(),
            exists|event_id: u128, service_id: u128, now: Timestamp|
                metric_recorded(old(self), final(self), payload, r, event_id, service_id, now),
    {
        let service_id = new_id();
        let event_id = new_id();
        let now = utc_now();
        self.record_metric(payload, event_id, service_id, now)
    }

    /// Validates and records a log line, drawing fresh identifiers and
    /// reading the clock for the health check.
    pub fn ingest_log(&mut self, payload: LogIngest) -> (r: Result<LogRecord, AppError>)
        requires
            old(self).wf(),
            payload.timestamp.wf(),
            payload.metadata.wf(),
        ensures
            final(self).wf(),
            exists|event_id: u128, service_id: u128, now: Timestamp|
                log_recorded(old(self), final(self), payload, r, event_id, service_id, now),
    {
        let service_id = new_id();
        let event_id = new_id();
        let now = utc_now();
        self.record_log(payload, event_id, service_id, now)
    }

    /// Records a heartbeat, drawing a fresh identifier for a new service.
    pub fn ingest_heartbeat(&mut self, payload: HeartbeatIngest) -> (r: Result<Service, AppError>)
        requires
            old(self).wf(),
            payload.timestamp.wf(),
        ensures
            final(self).wf(),
            exists|service_id: u128| heartbeat_recorded(old(self), final(self), payload, r, service_id),
    {
        let service_id = new_id();
        let now = utc_now();
        self.record_heartbeat(payload, service_id, now)
    }
}

/// A reported touch is the registry entry of the touched service.
proof fn lemma_touch_index(
    s: Seq<Service>,
    name: String,
    environment: String,
    seen_at: Timestamp,
    fresh_id: u128,
)
    requires
        names_unique(s),
    ensures
        ({
            let after = services_after_touch(s, name, environment, seen_at, fresh_id);
            after[service_index(after, name@)] == touched(
                touch_base(s, name, environment, seen_at, fresh_id),
                environment,
                seen_at,
            )
        }),
{
    lemma_touch_keeps_names_unique(s, name, environment, seen_at, fresh_id);
    let after = services_after_touch(s, name, environment, seen_at, fresh_id);
    if has_service(s, name@) {
        let i = service_index(s, name@);
        lemma_service_index(after, name@, i);
    } else {
        lemma_service_index(after, name@, s.len() as int);
    }
}

} // verus!
