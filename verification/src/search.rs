//! Log and alert search, and the overview counts.
use vstd::prelude::*;

use crate::alerts::{is_active, spec_is_active};
use crate::models::{
    AlertEvent, AlertsQuery, LogEvent, LogLevel, LogsQuery, Service, ServiceStatus, Tags,
};
use crate::queries::recent_values;
use crate::sort::{is_ts_order, ts_order};
use crate::store::Store;
use crate::text::{contains_text, lowercase, str_contains, str_eq, to_lowercase};
use crate::time::{checked_minus_secs, is_at_or_before, minus_secs, ts_le, utc_now, Timestamp};

verus! {

/// Some tag's key or value, lower-cased, contains `needle`.
pub open spec fn tags_hit(t: Tags, needle: Seq<char>) -> bool
    decreases t,
{
    match t {
        Tags::Nil => false,
        Tags::Cons(tag, rest) => contains_text(lowercase(tag.key@), needle) || contains_text(
            lowercase(tag.value@),
            needle,
        ) || tags_hit(*rest, needle),
    }
}

fn tags_contain(t: &Tags, needle: &str) -> (r: bool)
    ensures
        r == tags_hit(*t, needle@),
    decreases t,
{
    match t {
        Tags::Nil => false,
        Tags::Cons(tag, rest) => {
            let k = to_lowercase(tag.key.as_str());
            if str_contains(k.as_str(), needle) {
                return true;
            }
            let v = to_lowercase(tag.value.as_str());
            if str_contains(v.as_str(), needle) {
                return true;
            }
            tags_contain(rest, needle)
        },
    }
}

/// A log line passes every filter the query sets: service, level, text
/// (case-insensitive, in the message or in a metadata key or value), and
/// the time bounds (inclusive).
pub open spec fn log_matches(l: LogEvent, q: LogsQuery) -> bool {
    &&& (q.service matches Some(s) ==> l.service@ == s@)
    &&& (q.level matches Some(v) ==> l.level == v)
    &&& (q.q matches Some(n) ==> (contains_text(lowercase(l.message@), lowercase(n@)) || tags_hit(
        l.metadata,
        lowercase(n@),
    )))
    &&& (q.from matches Some(f) ==> ts_le(f, l.timestamp))
    &&& (q.to matches Some(t) ==> ts_le(l.timestamp, t))
}

/// The log lines that pass the query's filters, in retention order.
pub open spec fn logs_matching(ls: Seq<LogEvent>, q: LogsQuery) -> Seq<LogEvent>
    decreases ls.len(),
{
    if ls.len() == 0 {
        seq![]
    } else {
        let rest = logs_matching(ls.drop_last(), q);
        if log_matches(ls.last(), q) {
            rest.push(ls.last())
        } else {
            rest
        }
    }
}

/// `out` is `items` stably sorted by instant (newest first with `desc`),
/// cut to at most `n` items.
pub open spec fn time_ordered<T>(items: Seq<T>, keys: Seq<Timestamp>, desc: bool, out: Seq<T>, n: nat) -> bool {
    exists|p: Seq<usize>|
        is_ts_order(keys, desc, p) && out.len() == (if n < p.len() {
            n
        } else {
            p.len()
        }) && forall|k: int| 0 <= k < out.len() ==> #[trigger] out[k] == items[p[k] as int]
}

fn log_filter(l: &LogEvent, q: &LogsQuery) -> (r: bool)
    ensures
        r == log_matches(*l, *q),
{
    match &q.service {
        Some(s) => {
            if !str_eq(l.service.as_str(), s.as_str()) {
                return false;
            }
        },
        None => {},
    }
    match q.level {
        Some(v) => {
            if v != l.level {
                return false;
            }
        },
        None => {},
    }
    match &q.q {
        Some(n) => {
            let needle = to_lowercase(n.as_str());
            let msg = to_lowercase(l.message.as_str());
            if !str_contains(msg.as_str(), needle.as_str()) && !tags_contain(&l.metadata, needle.as_str()) {
                return false;
            }
        },
        None => {},
    }
    match q.from {
        Some(f) => {
            if !is_at_or_before(f, l.timestamp) {
                return false;
            }
        },
        None => {},
    }
    match q.to {
        Some(t) => {
            if !is_at_or_before(l.timestamp, t) {
                return false;
            }
        },
        None => {},
    }
    true
}

/// An alert passes every filter the query sets: service, severity, status
/// and the bounds (inclusive) on when it was raised.
pub open spec fn alert_matches(a: AlertEvent, q: AlertsQuery) -> bool {
    &&& (q.service matches Some(s) ==> a.service@ == s@)
    &&& (q.severity matches Some(v) ==> a.severity == v)
    &&& (q.status matches Some(v) ==> a.status == v)
    &&& (q.from matches Some(f) ==> ts_le(f, a.triggered_at))
    &&& (q.to matches Some(t) ==> ts_le(a.triggered_at, t))
}

/// The alerts that pass the query's filters, in the order raised.
pub open spec fn alerts_matching(alerts: Seq<AlertEvent>, q: AlertsQuery) -> Seq<AlertEvent>
    decreases alerts.len(),
{
    if alerts.len() == 0 {
        seq![]
    } else {
        let rest = alerts_matching(alerts.drop_last(), q);
        if alert_matches(alerts.last(), q) {
            rest.push(alerts.last())
        } else {
            rest
        }
    }
}

fn alert_filter(a: &AlertEvent, q: &AlertsQuery) -> (r: bool)
    ensures
        r == alert_matches(*a, *q),
{
    match &q.service {
        Some(s) => {
            if !str_eq(a.service.as_str(), s.as_str()) {
                return false;
            }
        },
        None => {},
    }
    match q.severity {
        Some(v) => {
            if v != a.severity {
                return false;
            }
        },
        None => {},
    }
    match q.status {
        Some(v) => {
            if v != a.status {
                return false;
            }
        },
        None => {},
    }
    match q.from {
        Some(f) => {
            if !is_at_or_before(f, a.triggered_at) {
                return false;
            }
        },
        None => {},
    }
    match q.to {
        Some(t) => {
            if !is_at_or_before(a.triggered_at, t) {
                return false;
            }
        },
        None => {},
    }
    true
}

/// The figures of the overview, and the samples behind the request rate
/// (summed) and the average latency of the last minute.
pub struct OverviewCounts {
    pub total_services: usize,
    pub healthy_services: usize,
    pub degraded_services: usize,
    pub offline_services: usize,
    pub active_alerts: usize,
    pub request_counts: Vec<u64>,
    pub latencies: Vec<u64>,
    pub recent_errors: usize,
}

/// How many services have health `st`.
pub open spec fn count_status(services: Seq<Service>, st: ServiceStatus) -> nat
    decreases services.len(),
{
    if services.len() == 0 {
        0
    } else {
        count_status(services.drop_last(), st) + if services.last().status == st {
            1nat
        } else {
            0nat
        }
    }
}

/// How many alerts are active.
pub open spec fn count_active(alerts: Seq<AlertEvent>) -> nat
    decreases alerts.len(),
{
    if alerts.len() == 0 {
        0
    } else {
        count_active(alerts.drop_last()) + if spec_is_active(alerts.last().status) {
            1nat
        } else {
            0nat
        }
    }
}

/// How many error lines were logged at or after `start`.
pub open spec fn count_errors_since(ls: Seq<LogEvent>, start: Timestamp) -> nat
    decreases ls.len(),
{
    if ls.len() == 0 {
        0
    } else {
        count_errors_since(ls.drop_last(), start) + if ls.last().level == LogLevel::Error && ts_le(
            start,
            ls.last().timestamp,
        ) {
            1nat
        } else {
            0nat
        }
    }
}

/// The overview at `now`: service counts by health, active alerts, and over
/// the minute before `now` the request-count and latency samples of every
/// service and the number of error lines.
pub open spec fn overview_of(s: &Store, now: Timestamp, r: OverviewCounts) -> bool {
    let start = minus_secs(now, 60)->0;
    &&& r.total_services == s.services@.len()
    &&& r.healthy_services == count_status(s.services@, ServiceStatus::Healthy)
    &&& r.degraded_services == count_status(s.services@, ServiceStatus::Degraded)
    &&& r.offline_services == count_status(s.services@, ServiceStatus::Offline)
    &&& r.active_alerts == count_active(s.alerts@)
    &&& r.request_counts@ == recent_values(s.metrics@, None, "request_count"@, start)
    &&& r.latencies@ == recent_values(s.metrics@, None, "request_latency_ms"@, start)
    &&& r.recent_errors == count_errors_since(s.logs@, start)
}

proof fn lemma_count_status_bound(services: Seq<Service>, st: ServiceStatus)
    ensures
        count_status(services, st) <= services.len(),
    decreases services.len(),
{
    if services.len() > 0 {
        lemma_count_status_bound(services.drop_last(), st);
    }
}

proof fn lemma_count_active_bound(alerts: Seq<AlertEvent>)
    ensures
        count_active(alerts) <= alerts.len(),
    decreases alerts.len(),
{
    if alerts.len() > 0 {
        lemma_count_active_bound(alerts.drop_last());
    }
}

proof fn lemma_count_errors_bound(ls: Seq<LogEvent>, start: Timestamp)
    ensures
        count_errors_since(ls, start) <= ls.len(),
    decreases ls.len(),
{
    if ls.len() > 0 {
        lemma_count_errors_bound(ls.drop_last(), start);
    }
}

fn count_services_with(services: &Vec<Service>, st: ServiceStatus) -> (r: usize)
    ensures
        r == count_status(services@, st),
{
    let mut n: usize = 0;
    let mut i: usize = 0;
    while i < services.len()
        invariant
            i <= services@.len(),
            n == count_status(services@.take(i as int), st),
        decreases services@.len() - i,
    {
        assert(services@.take(i + 1).drop_last() =~= services@.take(i as int));
        proof {
            lemma_count_status_bound(services@.take(i as int), st);
        }
        if services[i].status == st {
            n = n + 1;
        }
        i = i + 1;
    }
    assert(services@.take(i as int) =~= services@);
    n
}

/// Some registered service named `name` is in environment `env`.
pub open spec fn service_in_environment(services: Seq<Service>, name: Seq<char>, env: Seq<char>) -> bool {
    exists|i: int|
        0 <= i < services.len() && #[trigger] services[i].name@ == name && services[i].environment@
            == env
}

/// The log lines that pass the query's filters and come from a service in
/// environment `env`, in retention order.
pub open spec fn logs_matching_in(
    ls: Seq<LogEvent>,
    q: LogsQuery,
    services: Seq<Service>,
    env: Seq<char>,
) -> Seq<LogEvent>
    decreases ls.len(),
{
    if ls.len() == 0 {
        seq![]
    } else {
        let rest = logs_matching_in(ls.drop_last(), q, services, env);
        if log_matches(ls.last(), q) && service_in_environment(services, ls.last().service@, env) {
            rest.push(ls.last())
        } else {
            rest
        }
    }
}

fn in_environment(services: &Vec<Service>, name: &str, env: &str) -> (r: bool)
    ensures
        r == service_in_environment(services@, name@, env@),
{
    let mut i: usize = 0;
    while i < services.len()
        invariant
            i <= services@.len(),
            forall|k: int|
                0 <= k < i ==> !(#[trigger] services@[k].name@ == name@ && services@[k].environment@
                    == env@),
        decreases services@.len() - i,
    {
        if str_eq(services[i].name.as_str(), name) && str_eq(services[i].environment.as_str(), env) {
            return true;
        }
        i = i + 1;
    }
    false
}

/// The `n` newest of `found` (whose instants are `keys`), newest first,
/// ties in their order in `found`.
fn newest_logs_first(found: &Vec<LogEvent>, keys: &Vec<Timestamp>, n: usize) -> (r: Vec<LogEvent>)
    requires
        keys@ == found@.map_values(|l: LogEvent| l.timestamp),
    ensures
        time_ordered(found@, keys@, true, r@, n as nat),
{
    let p = ts_order(keys, true);
    let m = if n < p.len() {
        n
    } else {
        p.len()
    };
    let mut out: Vec<LogEvent> = Vec::new();
    let mut k: usize = 0;
    while k < m
        invariant
            k <= m,
            m <= p@.len(),
            m == (if n < p@.len() { n as int } else { p@.len() as int }),
            p@.len() == found@.len(),
            is_ts_order(keys@, true, p@),
            forall|j: int| 0 <= j < p@.len() ==> #[trigger] p@[j] < found@.len(),
            out@.len() == k,
            forall|j: int| 0 <= j < k ==> #[trigger] out@[j] == found@[p@[j] as int],
        decreases m - k,
    {
        out.push(found[p[k]].copy());
        k = k + 1;
    }
    out
}

/// The alerts that pass the query's filters and are for a service in
/// environment `env`, in the order raised.
pub open spec fn alerts_matching_in(
    alerts: Seq<AlertEvent>,
    q: AlertsQuery,
    services: Seq<Service>,
    env: Seq<char>,
) -> Seq<AlertEvent>
    decreases alerts.len(),
{
    if alerts.len() == 0 {
        seq![]
    } else {
        let rest = alerts_matching_in(alerts.drop_last(), q, services, env);
        if alert_matches(alerts.last(), q) && service_in_environment(services, alerts.last().service@, env) {
            rest.push(alerts.last())
        } else {
            rest
        }
    }
}

impl Store {
    /// The log lines passing the query's filters whose service is registered
    /// in environment `environment`, newest first (ties in retention order),
    /// at most `limit` of them (100 when not given).
    pub fn query_logs_in_environment(&self, query: &LogsQuery, environment: &str) -> (r: Vec<LogEvent>)
        ensures
            ({
                let found = logs_matching_in(self.logs@, *query, self.services@, environment@);
                time_ordered(
                    found,
                    found.map_values(|l: LogEvent| l.timestamp),
                    true,
                    r@,
                    match query.limit {
                        Some(n) => n as nat,
                        None => 100,
                    },
                )
            }),
    {
        broadcast use vstd::std_specs::vecdeque::group_vec_dequeue_axioms;

        let mut found: Vec<LogEvent> = Vec::new();
        let mut keys: Vec<Timestamp> = Vec::new();
        let mut i: usize = 0;
        while i < self.logs.len()
            invariant
                i <= self.logs@.len(),
                found@ == logs_matching_in(self.logs@.take(i as int), *query, self.services@, environment@),
                keys@ == found@.map_values(|l: LogEvent| l.timestamp),
            decreases self.logs@.len() - i,
        {
            assert(self.logs@.take(i + 1).drop_last() =~= self.logs@.take(i as int));
            let l = &self.logs[i];
            if log_filter(l, query) && in_environment(&self.services, l.service.as_str(), environment) {
                keys.push(l.timestamp);
                found.push(l.copy());
                assert(keys@ =~= found@.map_values(|l: LogEvent| l.timestamp));
            }
            i = i + 1;
        }
        assert(self.logs@.take(i as int) =~= self.logs@);
        let limit: usize = match query.limit {
            Some(n) => n,
            None => 100,
        };
        newest_logs_first(&found, &keys, limit)
    }

    /// The alerts passing the query's filters whose service is registered in
    /// environment `environment`, most recently raised first (ties in the
    /// order raised).
    pub fn query_alerts_in_environment(&self, query: &AlertsQuery, environment: &str) -> (r: Vec<AlertEvent>)
        ensures
            ({
                let found = alerts_matching_in(self.alerts@, *query, self.services@, environment@);
                time_ordered(
                    found,
                    found.map_values(|a: AlertEvent| a.triggered_at),
                    true,
                    r@,
                    found.len(),
                )
            }),
    {
        let mut found: Vec<AlertEvent> = Vec::new();
        let mut keys: Vec<Timestamp> = Vec::new();
        let mut i: usize = 0;
        while i < self.alerts.len()
            invariant
                i <= self.alerts@.len(),
                found@ == alerts_matching_in(self.alerts@.take(i as int), *query, self.services@, environment@),
                keys@ == found@.map_values(|a: AlertEvent| a.triggered_at),
            decreases self.alerts@.len() - i,
        {
            assert(self.alerts@.take(i + 1).drop_last() =~= self.alerts@.take(i as int));
            let a = &self.alerts[i];
            if alert_filter(a, query) && in_environment(&self.services, a.service.as_str(), environment) {
                keys.push(a.triggered_at);
                found.push(a.copy());
                assert(keys@ =~= found@.map_values(|a: AlertEvent| a.triggered_at));
            }
            i = i + 1;
        }
        assert(self.alerts@.take(i as int) =~= self.alerts@);
        let p = ts_order(&keys, true);
        let mut out: Vec<AlertEvent> = Vec::new();
        let mut k: usize = 0;
        while k < p.len()
            invariant
                k <= p@.len(),
                p@.len() == found@.len(),
                is_ts_order(keys@, true, p@),
                forall|j: int| 0 <= j < p@.len() ==> #[trigger] p@[j] < found@.len(),
                out@.len() == k,
                forall|j: int| 0 <= j < k ==> #[trigger] out@[j] == found@[p@[j] as int],
            decreases p@.len() - k,
        {
            out.push(found[p[k]].copy());
            k = k + 1;
        }
        out
    }
}

impl Store {
    /// The log lines passing the query's filters, newest first (ties in
    /// retention order), at most `limit` of them (100 when not given).
    pub fn query_logs(&self, query: &LogsQuery) -> (r: Vec<LogEvent>)
        ensures
            ({
                let found = logs_matching(self.logs@, *query);
                time_ordered(
                    found,
                    found.map_values(|l: LogEvent| l.timestamp),
                    true,
                    r@,
                    match query.limit {
                        Some(n) => n as nat,
                        None => 100,
                    },
                )
            }),
    {
        broadcast use vstd::std_specs::vecdeque::group_vec_dequeue_axioms;

        let mut found: Vec<LogEvent> = Vec::new();
        let mut keys: Vec<Timestamp> = Vec::new();
        let mut i: usize = 0;
        while i < self.logs.len()
            invariant
                i <= self.logs@.len(),
                found@ == logs_matching(self.logs@.take(i as int), *query),
                keys@ == found@.map_values(|l: LogEvent| l.timestamp),
            decreases self.logs@.len() - i,
        {
            assert(self.logs@.take(i + 1).drop_last() =~= self.logs@.take(i as int));
            let l = &self.logs[i];
            if log_filter(l, query) {
                keys.push(l.timestamp);
                found.push(l.copy());
                assert(keys@ =~= found@.map_values(|l: LogEvent| l.timestamp));
            }
            i = i + 1;
        }
        assert(self.logs@.take(i as int) =~= self.logs@);
        let p = ts_order(&keys, true);
        let limit: usize = match query.limit {
            Some(n) => n,
            None => 100,
        };
        let n = if limit < p.len() {
            limit
        } else {
            p.len()
        };
        let mut out: Vec<LogEvent> = Vec::new();
        let mut k: usize = 0;
        while k < n
            invariant
                k <= n,
                n <= p@.len(),
                p@.len() == found@.len(),
                forall|j: int| 0 <= j < p@.len() ==> #[trigger] p@[j] < found@.len(),
                out@.len() == k,
                forall|j: int| 0 <= j < k ==> #[trigger] out@[j] == found@[p@[j] as int],
            decreases n - k,
        {
            out.push(found[p[k]].copy());
            k = k + 1;
        }
        out
    }

    /// The alerts passing the query's filters, most recently raised first
    /// (ties in the order raised).
    pub fn query_alerts(&self, query: &AlertsQuery) -> (r: Vec<AlertEvent>)
        ensures
            ({
                let found = alerts_matching(self.alerts@, *query);
                time_ordered(
                    found,
                    found.map_values(|a: AlertEvent| a.triggered_at),
                    true,
                    r@,
                    found.len(),
                )
            }),
    {
        let mut found: Vec<AlertEvent> = Vec::new();
        let mut keys: Vec<Timestamp> = Vec::new();
        let mut i: usize = 0;
        while i < self.alerts.len()
            invariant
                i <= self.alerts@.len(),
                found@ == alerts_matching(self.alerts@.take(i as int), *query),
                keys@ == found@.map_values(|a: AlertEvent| a.triggered_at),
            decreases self.alerts@.len() - i,
        {
            assert(self.alerts@.take(i + 1).drop_last() =~= self.alerts@.take(i as int));
            let a = &self.alerts[i];
            if alert_filter(a, query) {
                keys.push(a.triggered_at);
                found.push(a.copy());
                assert(keys@ =~= found@.map_values(|a: AlertEvent| a.triggered_at));
            }
            i = i + 1;
        }
        assert(self.alerts@.take(i as int) =~= self.alerts@);
        let p = ts_order(&keys, true);
        let mut out: Vec<AlertEvent> = Vec::new();
        let mut k: usize = 0;
        while k < p.len()
            invariant
                k <= p@.len(),
                p@.len() == found@.len(),
                forall|j: int| 0 <= j < p@.len() ==> #[trigger] p@[j] < found@.len(),
                out@.len() == k,
                forall|j: int| 0 <= j < k ==> #[trigger] out@[j] == found@[p@[j] as int],
            decreases p@.len() - k,
        {
            out.push(found[p[k]].copy());
            k = k + 1;
        }
        out
    }

    /// The overview at `now` (see `overview_of`).
    pub fn overview_at(&self, now: Timestamp) -> (r: OverviewCounts)
        requires
            now.wf(),
            minus_secs(now, 60) is Some,
        ensures
            overview_of(self, now, r),
    {
        broadcast use vstd::std_specs::vecdeque::group_vec_dequeue_axioms;

        let start = match checked_minus_secs(now, 60) {
            Some(s) => s,
            None => now,
        };
        let mut active: usize = 0;
        let mut i: usize = 0;
        while i < self.alerts.len()
            invariant
                i <= self.alerts@.len(),
                active == count_active(self.alerts@.take(i as int)),
            decreases self.alerts@.len() - i,
        {
            assert(self.alerts@.take(i + 1).drop_last() =~= self.alerts@.take(i as int));
            proof {
                lemma_count_active_bound(self.alerts@.take(i as int));
            }
            if is_active(&self.alerts[i].status) {
                active = active + 1;
            }
            i = i + 1;
        }
        assert(self.alerts@.take(i as int) =~= self.alerts@);
        let mut errors: usize = 0;
        let mut i: usize = 0;
        while i < self.logs.len()
            invariant
                i <= self.logs@.len(),
                errors == count_errors_since(self.logs@.take(i as int), start),
            decreases self.logs@.len() - i,
        {
            assert(self.logs@.take(i + 1).drop_last() =~= self.logs@.take(i as int));
            proof {
                lemma_count_errors_bound(self.logs@.take(i as int), start);
            }
            let l = &self.logs[i];
            if l.level == LogLevel::Error && is_at_or_before(start, l.timestamp) {
                errors = errors + 1;
            }
            i = i + 1;
        }
        assert(self.logs@.take(i as int) =~= self.logs@);
        OverviewCounts {
            total_services: self.services.len(),
            healthy_services: count_services_with(&self.services, ServiceStatus::Healthy),
            degraded_services: count_services_with(&self.services, ServiceStatus::Degraded),
            offline_services: count_services_with(&self.services, ServiceStatus::Offline),
            active_alerts: active,
            request_counts: crate::queries::collect_recent(&self.metrics, None, "request_count", start),
            latencies: crate::queries::collect_recent(&self.metrics, None, "request_latency_ms", start),
            recent_errors: errors,
        }
    }

    /// The overview at a clock reading.
    pub fn overview(&self) -> (r: OverviewCounts)
        ensures
            exists|now: Timestamp| now.wf() && #[trigger] overview_of(self, now, r),
    {
        let now = utc_now();
        self.overview_at(now)
    }
}

} // verus!
