//! Read models: service list and details, log and alert search, and the
//! overview counts, with the telemetry samples their figures derive from.
use std::collections::VecDeque;
use vstd::prelude::*;

use crate::alerts::{is_active, spec_is_active};
use crate::error::{is_not_found, not_found, not_found_text, AppError};
use crate::models::{AlertEvent, LogEvent, MetricEvent, Service};
use crate::sort::{is_text_order, text_order};
use crate::store::Store;
use crate::text::{chars_of, str_eq};
use crate::time::{checked_minus_secs, is_at_or_before, minus_secs, ts_le, utc_now, Timestamp};

verus! {

// ---------------------------------------------------------------------------
// Samples behind the request rate, latency and error figures
// ---------------------------------------------------------------------------

/// The values, in order, of the samples of `metric` taken at or after
/// `start`, from `service` when one is given and from every service
/// otherwise.
pub open spec fn recent_values(
    ms: Seq<MetricEvent>,
    service: Option<Seq<char>>,
    metric: Seq<char>,
    start: Timestamp,
) -> Seq<u64>
    decreases ms.len(),
{
    if ms.len() == 0 {
        seq![]
    } else {
        let rest = recent_values(ms.drop_last(), service, metric, start);
        let m = ms.last();
        if (service matches Some(s) ==> m.service@ == s) && m.metric@ == metric && ts_le(
            start,
            m.timestamp,
        ) {
            rest.push(m.value_bits)
        } else {
            rest
        }
    }
}

pub(crate) fn collect_recent(ms: &VecDeque<MetricEvent>, service: Option<&str>, metric: &str, start: Timestamp) -> (r:
    Vec<u64>)
    ensures
        r@ == recent_values(
            ms@,
            match service {
                Some(s) => Some(s@),
                None => None,
            },
            metric@,
            start,
        ),
{
    broadcast use vstd::std_specs::vecdeque::group_vec_dequeue_axioms;

    let ghost svc = match service {
        Some(s) => Some(s@),
        None => None,
    };
    let mut out: Vec<u64> = Vec::new();
    let mut i: usize = 0;
    while i < ms.len()
        invariant
            i <= ms@.len(),
            svc == match service {
                Some(s) => Some(s@),
                None => None,
            },
            out@ == recent_values(ms@.take(i as int), svc, metric@, start),
        decreases ms@.len() - i,
    {
        assert(ms@.take(i + 1).drop_last() =~= ms@.take(i as int));
        let m = &ms[i];
        let service_ok = match service {
            Some(s) => str_eq(m.service.as_str(), s),
            None => true,
        };
        if service_ok && str_eq(m.metric.as_str(), metric) && is_at_or_before(start, m.timestamp) {
            out.push(m.value_bits);
        }
        i = i + 1;
    }
    assert(ms@.take(i as int) =~= ms@);
    out
}

/// The samples a service's figures derive from over the last minute: the
/// request counts (summed into the request rate), the latencies (averaged)
/// and the error counts (summed, as a share of the requests).
pub struct ServiceSamples {
    pub request_counts: Vec<u64>,
    pub latencies: Vec<u64>,
    pub error_counts: Vec<u64>,
}

/// `r` holds the samples of service `name` over the minute before `now`.
pub open spec fn samples_of(r: ServiceSamples, ms: Seq<MetricEvent>, name: Seq<char>, now: Timestamp) -> bool {
    let start = minus_secs(now, 60)->0;
    &&& r.request_counts@ == recent_values(ms, Some(name), "request_count"@, start)
    &&& r.latencies@ == recent_values(ms, Some(name), "request_latency_ms"@, start)
    &&& r.error_counts@ == recent_values(ms, Some(name), "error_count"@, start)
}

impl Store {
    /// The samples behind the figures of service `name` at `now`.
    pub fn service_samples_at(&self, name: &str, now: Timestamp) -> (r: ServiceSamples)
        requires
            now.wf(),
            minus_secs(now, 60) is Some,
        ensures
            samples_of(r, self.metrics@, name@, now),
    {
        let start = match checked_minus_secs(now, 60) {
            Some(s) => s,
            None => now,
        };
        ServiceSamples {
            request_counts: collect_recent(&self.metrics, Some(name), "request_count", start),
            latencies: collect_recent(&self.metrics, Some(name), "request_latency_ms", start),
            error_counts: collect_recent(&self.metrics, Some(name), "error_count", start),
        }
    }

    /// The samples behind the figures of service `name`, over the minute
    /// before a clock reading.
    pub fn service_samples(&self, name: &str) -> (r: ServiceSamples)
        ensures
            samples_recent(r, self.metrics@, name@),
    {
        let now = utc_now();
        self.service_samples_at(name, now)
    }
}

// ---------------------------------------------------------------------------
// Service list and details
// ---------------------------------------------------------------------------

/// A service with the samples behind its figures.
pub struct ServiceEntry {
    pub service: Service,
    pub samples: ServiceSamples,
}

/// The services of `services` in environment `env`, in registry order.
pub open spec fn services_in(services: Seq<Service>, env: Seq<char>) -> Seq<Service>
    decreases services.len(),
{
    if services.len() == 0 {
        seq![]
    } else {
        let rest = services_in(services.drop_last(), env);
        if services.last().environment@ == env {
            rest.push(services.last())
        } else {
            rest
        }
    }
}

/// `out` lists the registered services, each once, sorted by name.
pub open spec fn services_by_name(services: Seq<Service>, out: Seq<ServiceEntry>) -> bool {
    exists|p: Seq<usize>|
        is_text_order(services.map_values(|s: Service| s.name@), p) && out.len() == p.len() && forall|k: int|
            0 <= k < p.len() ==> (#[trigger] out[k]).service == services[p[k] as int]
}

/// `r` holds the samples of service `name` over the minute before some clock
/// reading.
pub open spec fn samples_recent(r: ServiceSamples, ms: Seq<MetricEvent>, name: Seq<char>) -> bool {
    exists|now: Timestamp| now.wf() && samples_of(r, ms, name, now)
}

/// The newest `n` samples of service `name`, newest first.
pub open spec fn newest_metrics(ms: Seq<MetricEvent>, name: Seq<char>, n: nat) -> Seq<MetricEvent>
    decreases ms.len(),
{
    if ms.len() == 0 || n == 0 {
        seq![]
    } else if ms.last().service@ == name {
        seq![ms.last()] + newest_metrics(ms.drop_last(), name, (n - 1) as nat)
    } else {
        newest_metrics(ms.drop_last(), name, n)
    }
}

/// The newest `n` log lines of service `name`, newest first.
pub open spec fn newest_logs(ls: Seq<LogEvent>, name: Seq<char>, n: nat) -> Seq<LogEvent>
    decreases ls.len(),
{
    if ls.len() == 0 || n == 0 {
        seq![]
    } else if ls.last().service@ == name {
        seq![ls.last()] + newest_logs(ls.drop_last(), name, (n - 1) as nat)
    } else {
        newest_logs(ls.drop_last(), name, n)
    }
}

/// The active alerts of service `name`, in the order raised.
pub open spec fn active_alerts_of(alerts: Seq<AlertEvent>, name: Seq<char>) -> Seq<AlertEvent>
    decreases alerts.len(),
{
    if alerts.len() == 0 {
        seq![]
    } else {
        let rest = active_alerts_of(alerts.drop_last(), name);
        let a = alerts.last();
        if a.service@ == name && spec_is_active(a.status) {
            rest.push(a)
        } else {
            rest
        }
    }
}

/// Some service has identifier `id`.
pub open spec fn has_service_id(services: Seq<Service>, id: u128) -> bool {
    exists|i: int| 0 <= i < services.len() && #[trigger] services[i].id == id
}

/// The most recently registered service with identifier `id` (the one an
/// identifier lookup finds; meaningful when there is one).
pub open spec fn last_service_with_id(services: Seq<Service>, id: u128) -> int {
    choose|i: int|
        0 <= i < services.len() && #[trigger] services[i].id == id && forall|j: int|
            i < j < services.len() ==> #[trigger] services[j].id != id
}

/// The detail view of a service.
pub struct ServiceDetails {
    pub service: Service,
    pub active_alerts: Vec<AlertEvent>,
    pub recent_logs: Vec<LogEvent>,
    pub latest_metrics: Vec<MetricEvent>,
    pub samples: ServiceSamples,
}

/// The detail view of the service with identifier `id` at `now`: not found
/// when no service has it; otherwise the service, its active alerts, its
/// 25 newest log lines and samples (newest first) and its figures' samples.
pub open spec fn details_of(s: &Store, id: u128, now: Timestamp, r: Result<ServiceDetails, AppError>) -> bool {
    &&& !has_service_id(s.services@, id) ==> is_not_found(r, not_found_text("service"@, id))
    &&& has_service_id(s.services@, id) ==> (r matches Ok(d) && {
        let svc = s.services@[last_service_with_id(s.services@, id)];
        &&& d.service == svc
        &&& d.active_alerts@ == active_alerts_of(s.alerts@, svc.name@)
        &&& d.recent_logs@ == newest_logs(s.logs@, svc.name@, 25)
        &&& d.latest_metrics@ == newest_metrics(s.metrics@, svc.name@, 25)
        &&& samples_of(d.samples, s.metrics@, svc.name@, now)
    })
}

proof fn lemma_last_service_with_id(services: Seq<Service>, id: u128, i: int)
    requires
        0 <= i < services.len(),
        services[i].id == id,
        forall|j: int| i < j < services.len() ==> #[trigger] services[j].id != id,
    ensures
        has_service_id(services, id),
        last_service_with_id(services, id) == i,
{
    assert(has_service_id(services, id));
    let k = last_service_with_id(services, id);
    if k < i {
        assert(services[i].id != id);
    } else if k > i {
        assert(services[k].id != id);
    }
}

impl Store {
    /// The position of the most recently registered service with identifier
    /// `id`, if any.
    pub fn find_service_by_id(&self, id: u128) -> (r: Option<usize>)
        ensures
            r matches Some(j) ==> j < self.services@.len() && has_service_id(self.services@, id)
                && last_service_with_id(self.services@, id) == j,
            r is None ==> !has_service_id(self.services@, id),
    {
        let mut k: usize = self.services.len();
        while k > 0
            invariant
                k <= self.services@.len(),
                forall|j: int| k <= j < self.services@.len() ==> #[trigger] self.services@[j].id != id,
            decreases k,
        {
            if self.services[k - 1].id == id {
                proof {
                    lemma_last_service_with_id(self.services@, id, k - 1);
                }
                return Some(k - 1);
            }
            k = k - 1;
        }
        None
    }

    /// The registered services sorted by name, each with the samples behind
    /// its figures over the minute before a clock reading of its own.
    pub fn list_services(&self) -> (r: Vec<ServiceEntry>)
        ensures
            services_by_name(self.services@, r@),
            forall|k: int|
                0 <= k < r@.len() ==> samples_recent(
                    #[trigger] r@[k].samples,
                    self.metrics@,
                    r@[k].service.name@,
                ),
    {
        self.entries_by_name(&self.services)
    }

    /// The registered services in environment `environment`, sorted by name,
    /// each with the samples behind its figures over the minute before a
    /// clock reading of its own.
    pub fn list_services_in_environment(&self, environment: &str) -> (r: Vec<ServiceEntry>)
        ensures
            services_by_name(services_in(self.services@, environment@), r@),
            forall|k: int|
                0 <= k < r@.len() ==> samples_recent(
                    #[trigger] r@[k].samples,
                    self.metrics@,
                    r@[k].service.name@,
                ),
    {
        let mut chosen: Vec<Service> = Vec::new();
        let mut i: usize = 0;
        while i < self.services.len()
            invariant
                i <= self.services@.len(),
                chosen@ == services_in(self.services@.take(i as int), environment@),
            decreases self.services@.len() - i,
        {
            assert(self.services@.take(i + 1).drop_last() =~= self.services@.take(i as int));
            if str_eq(self.services[i].environment.as_str(), environment) {
                chosen.push(self.services[i].copy());
            }
            i = i + 1;
        }
        assert(self.services@.take(i as int) =~= self.services@);
        self.entries_by_name(&chosen)
    }

    /// `services` sorted by name, each with its recent samples.
    fn entries_by_name(&self, services: &Vec<Service>) -> (r: Vec<ServiceEntry>)
        ensures
            services_by_name(services@, r@),
            forall|k: int|
                0 <= k < r@.len() ==> samples_recent(
                    #[trigger] r@[k].samples,
                    self.metrics@,
                    r@[k].service.name@,
                ),
    {
        let mut names: Vec<Vec<char>> = Vec::new();
        let mut i: usize = 0;
        while i < services.len()
            invariant
                i <= services@.len(),
                names@.len() == i,
                forall|k: int| 0 <= k < i ==> #[trigger] names@[k]@ == services@[k].name@,
            decreases services@.len() - i,
        {
            names.push(chars_of(services[i].name.as_str()));
            i = i + 1;
        }
        let p = text_order(&names);
        let ghost keys = services@.map_values(|s: Service| s.name@);
        assert(names@.map_values(|k: Vec<char>| k@) =~= keys);
        let mut out: Vec<ServiceEntry> = Vec::new();
        let mut k: usize = 0;
        while k < p.len()
            invariant
                k <= p@.len(),
                is_text_order(keys, p@),
                keys.len() == services@.len(),
                out@.len() == k,
                forall|j: int| 0 <= j < k ==> (#[trigger] out@[j]).service == services@[p@[j] as int],
                forall|j: int|
                    0 <= j < k ==> samples_recent(
                        #[trigger] out@[j].samples,
                        self.metrics@,
                        out@[j].service.name@,
                    ),
            decreases p@.len() - k,
        {
            let svc = services[p[k]].copy();
            let samples = self.service_samples(svc.name.as_str());
            out.push(ServiceEntry { service: svc, samples });
            k = k + 1;
        }
        out
    }

    /// The detail view of service `service_id` at `now` (see `details_of`).
    pub fn service_details_at(&self, service_id: u128, now: Timestamp) -> (r: Result<ServiceDetails, AppError>)
        requires
            self.wf(),
            now.wf(),
            minus_secs(now, 60) is Some,
        ensures
            details_of(self, service_id, now, r),
    {
        broadcast use vstd::std_specs::vecdeque::group_vec_dequeue_axioms;

        let j = match self.find_service_by_id(service_id) {
            Some(j) => j,
            None => return Err(not_found("service", service_id)),
        };
        let svc = self.services[j].copy();
        let name = svc.name.as_str();
        // newest samples
        let mut latest_metrics: Vec<MetricEvent> = Vec::new();
        let mut k: usize = self.metrics.len();
        assert(self.metrics@.take(k as int) =~= self.metrics@);
        assert(latest_metrics@ + newest_metrics(self.metrics@, name@, 25) =~= newest_metrics(
            self.metrics@,
            name@,
            25,
        ));
        while k > 0 && latest_metrics.len() < 25
            invariant
                k <= self.metrics@.len(),
                latest_metrics@.len() <= 25,
                latest_metrics@ + newest_metrics(
                    self.metrics@.take(k as int),
                    name@,
                    (25 - latest_metrics@.len()) as nat,
                ) == newest_metrics(self.metrics@, name@, 25),
            decreases k,
        {
            assert(self.metrics@.take(k as int).drop_last() =~= self.metrics@.take(k - 1));
            assert(self.metrics@.take(k as int).last() == self.metrics@[k - 1]);
            let m = &self.metrics[k - 1];
            let ghost before = latest_metrics@;
            if str_eq(m.service.as_str(), name) {
                latest_metrics.push(m.copy());
                assert(latest_metrics@ =~= before + seq![self.metrics@[k - 1]]);
            }
            k = k - 1;
        }
        assert(newest_metrics(self.metrics@.take(k as int), name@, (25 - latest_metrics@.len()) as nat)
            =~= seq![]);
        // newest log lines
        let mut recent_logs: Vec<LogEvent> = Vec::new();
        let mut k: usize = self.logs.len();
        assert(self.logs@.take(k as int) =~= self.logs@);
        assert(recent_logs@ + newest_logs(self.logs@, name@, 25) =~= newest_logs(self.logs@, name@, 25));
        while k > 0 && recent_logs.len() < 25
            invariant
                k <= self.logs@.len(),
                recent_logs@.len() <= 25,
                recent_logs@ + newest_logs(
                    self.logs@.take(k as int),
                    name@,
                    (25 - recent_logs@.len()) as nat,
                ) == newest_logs(self.logs@, name@, 25),
            decreases k,
        {
            assert(self.logs@.take(k as int).drop_last() =~= self.logs@.take(k - 1));
            assert(self.logs@.take(k as int).last() == self.logs@[k - 1]);
            let l = &self.logs[k - 1];
            let ghost before = recent_logs@;
            if str_eq(l.service.as_str(), name) {
                recent_logs.push(l.copy());
                assert(recent_logs@ =~= before + seq![self.logs@[k - 1]]);
            }
            k = k - 1;
        }
        assert(newest_logs(self.logs@.take(k as int), name@, (25 - recent_logs@.len()) as nat)
            =~= seq![]);
        // active alerts
        let mut active_alerts: Vec<AlertEvent> = Vec::new();
        let mut k: usize = 0;
        while k < self.alerts.len()
            invariant
                k <= self.alerts@.len(),
                active_alerts@ == active_alerts_of(self.alerts@.take(k as int), name@),
            decreases self.alerts@.len() - k,
        {
            assert(self.alerts@.take(k + 1).drop_last() =~= self.alerts@.take(k as int));
            let a = &self.alerts[k];
            if str_eq(a.service.as_str(), name) && is_active(&a.status) {
                active_alerts.push(a.copy());
            }
            k = k + 1;
        }
        assert(self.alerts@.take(k as int) =~= self.alerts@);
        assert(self.metrics@.take(self.metrics@.len() as int) =~= self.metrics@);
        let samples = self.service_samples_at(name, now);
        Ok(ServiceDetails { service: svc, active_alerts, recent_logs, latest_metrics, samples })
    }

    /// The detail view of service `service_id`, its figures judged at a
    /// clock reading.
    pub fn service_details(&self, service_id: u128) -> (r: Result<ServiceDetails, AppError>)
        requires
            self.wf(),
        ensures
            exists|now: Timestamp| now.wf() && #[trigger] details_of(self, service_id, now, r),
    {
        let now = utc_now();
        self.service_details_at(service_id, now)
    }
}

} // verus!
