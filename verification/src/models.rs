//! The data the store holds and exchanges: services, telemetry events, alert
//! rules, alert events and the requests that create or query them.
//!
//! Numeric telemetry values and rule thresholds are IEEE-754 double
//! precision numbers; the store never computes with them and keeps them as
//! their 64-bit encodings (`*_bits` fields).
use vstd::prelude::*;

use crate::text::{chars_of, lemma_text_lt_total, lemma_text_lt_transitive, str_eq, text_lt, vec_text_lt};
use crate::time::Timestamp;

verus! {

#[derive(Clone, Copy, Debug, PartialEq, Eq, Hash, Structural)]
pub enum ServiceStatus {
    Healthy,
    Degraded,
    Offline,
}

#[derive(Clone, Copy, Debug, PartialEq, Eq, Hash, Structural)]
pub enum LogLevel {
    Debug,
    Info,
    Warn,
    Error,
}

#[derive(Clone, Copy, Debug, PartialEq, Eq, Hash, Structural)]
pub enum AlertSourceType {
    Metric,
    Log,
    Heartbeat,
}

#[derive(Clone, Copy, Debug, PartialEq, Eq, Hash, Structural)]
pub enum AlertOperator {
    GreaterThan,
    LessThan,
    GreaterThanOrEqual,
    LessThanOrEqual,
    Equal,
}

#[derive(Clone, Copy, Debug, PartialEq, Eq, Hash, Structural)]
pub enum AlertSeverity {
    Low,
    Medium,
    High,
    Critical,
}

#[derive(Clone, Copy, Debug, PartialEq, Eq, Hash, Structural)]
pub enum AlertStatus {
    Pending,
    Firing,
    Resolved,
}

/// The exponent field of a double's encoding is not all ones (the value is
/// neither infinite nor NaN).
pub open spec fn is_finite_bits(bits: u64) -> bool {
    (bits >> 52u64) & 0x7ffu64 != 0x7ffu64
}

/// Whether the double encoded by `bits` is finite.
pub fn finite_bits(bits: u64) -> (r: bool)
    ensures
        r == is_finite_bits(bits),
{
    (bits >> 52u64) & 0x7ffu64 != 0x7ffu64
}

/// A free-form key/value annotation of a telemetry event.
#[derive(Clone, Debug)]
pub struct Tag {
    pub key: String,
    pub value: String,
}

impl Tag {
    pub fn copy(&self) -> (r: Tag)
        ensures
            r == *self,
    {
        Tag { key: self.key.clone(), value: self.value.clone() }
    }
}

/// The tags of a telemetry event, as a list in key order (see `wf`).
#[derive(Debug)]
pub enum Tags {
    Nil,
    Cons(Tag, Box<Tags>),
}

impl Tags {
    /// Every key is strictly after `lo` in text order.
    pub open spec fn keys_above(self, lo: Seq<char>) -> bool
        decreases self,
    {
        match self {
            Tags::Nil => true,
            Tags::Cons(t, rest) => text_lt(lo, t.key@) && rest.keys_above(lo),
        }
    }

    /// The tags are in strictly increasing key order, so no key occurs
    /// twice (as in a map ordered by key).
    pub open spec fn wf(self) -> bool
        decreases self,
    {
        match self {
            Tags::Nil => true,
            Tags::Cons(t, rest) => rest.wf() && rest.keys_above(t.key@),
        }
    }

    /// The keys, in list order.
    pub open spec fn keys(self) -> Seq<Seq<char>>
        decreases self,
    {
        match self {
            Tags::Nil => seq![],
            Tags::Cons(t, rest) => seq![t.key@] + rest.keys(),
        }
    }

    proof fn lemma_keys_above_lower(self, a: Seq<char>, b: Seq<char>)
        requires
            self.keys_above(a),
            text_lt(b, a),
        ensures
            self.keys_above(b),
        decreases self,
    {
        match self {
            Tags::Nil => {},
            Tags::Cons(t, rest) => {
                lemma_text_lt_transitive(b, a, t.key@);
                rest.lemma_keys_above_lower(a, b);
            },
        }
    }

    proof fn lemma_keys_above_all(self, lo: Seq<char>)
        requires
            self.keys_above(lo),
        ensures
            forall|i: int| 0 <= i < self.keys().len() ==> text_lt(lo, #[trigger] self.keys()[i]),
        decreases self,
    {
        match self {
            Tags::Nil => {},
            Tags::Cons(t, rest) => {
                rest.lemma_keys_above_all(lo);
                assert forall|i: int| 0 <= i < self.keys().len() implies text_lt(lo, #[trigger] self.keys()[i]) by {
                    if i > 0 {
                        assert(self.keys()[i] == rest.keys()[i - 1]);
                    }
                }
            },
        }
    }

    /// Well-formed tags list their keys in strictly increasing order, so
    /// every key occurs once.
    pub proof fn lemma_keys_sorted_unique(self)
        requires
            self.wf(),
        ensures
            forall|i: int, j: int|
                0 <= i < j < self.keys().len() ==> text_lt(#[trigger] self.keys()[i], #[trigger] self.keys()[j]),
            forall|i: int, j: int|
                0 <= i < j < self.keys().len() ==> #[trigger] self.keys()[i] != #[trigger] self.keys()[j],
        decreases self,
    {
        match self {
            Tags::Nil => {},
            Tags::Cons(t, rest) => {
                rest.lemma_keys_sorted_unique();
                rest.lemma_keys_above_all(t.key@);
                assert forall|i: int, j: int| 0 <= i < j < self.keys().len() implies text_lt(
                    #[trigger] self.keys()[i],
                    #[trigger] self.keys()[j],
                ) by {
                    assert(self.keys()[j] == rest.keys()[j - 1]);
                    if i > 0 {
                        assert(self.keys()[i] == rest.keys()[i - 1]);
                    }
                }
                assert forall|i: int, j: int| 0 <= i < j < self.keys().len() implies #[trigger] self.keys()[i]
                    != #[trigger] self.keys()[j] by {
                    lemma_text_lt_total(self.keys()[i], self.keys()[j]);
                }
            },
        }
    }

    /// No tags.
    pub fn new() -> (r: Tags)
        ensures
            r.wf(),
            r == Tags::Nil,
    {
        Tags::Nil
    }

    fn single(key: String, value: String) -> (r: Tags)
        ensures
            r.wf(),
            forall|k: Seq<char>|
                #[trigger] r.lookup(k) == (if k == key@ {
                    Some(value)
                } else {
                    None::<String>
                }),
            forall|lo: Seq<char>| text_lt(lo, key@) ==> #[trigger] r.keys_above(lo),
    {
        let r = Tags::Cons(Tag { key, value }, Box::new(Tags::Nil));
        proof {
            assert(Tags::Nil.wf());
            assert(Tags::Nil.keys_above(key@));
            assert forall|k: Seq<char>| #[trigger] r.lookup(k) == (if k == key@ {
                Some(value)
            } else {
                None::<String>
            }) by {
                assert(Tags::Nil.lookup(k) == None::<String>);
            }
            assert forall|lo: Seq<char>| text_lt(lo, key@) implies #[trigger] r.keys_above(lo) by {
                assert(Tags::Nil.keys_above(lo));
            }
        }
        r
    }

    /// Sets tag `key` to `value`, replacing an earlier value of that key and
    /// keeping the key order.
    pub fn insert(self, key: String, value: String) -> (r: Tags)
        requires
            self.wf(),
        ensures
            r.wf(),
            forall|k: Seq<char>|
                #[trigger] r.lookup(k) == (if k == key@ {
                    Some(value)
                } else {
                    self.lookup(k)
                }),
            forall|lo: Seq<char>| self.keys_above(lo) && text_lt(lo, key@) ==> #[trigger] r.keys_above(lo),
        decreases self,
    {
        match self {
            Tags::Nil => {
                let ghost k0 = key@;
                let r = Tags::single(key, value);
                proof {
                    assert(self is Nil);
                    assert(r.lookup(k0) == Some(value));
                    assert forall|k: Seq<char>| k != k0 implies #[trigger] r.lookup(k) == self.lookup(k) by {
                        assert(r.lookup(k) == None::<String>);
                        assert(self.lookup(k) == None::<String>);
                    }
                }
                r
            },
            Tags::Cons(t, rest) => {
                let ghost old_self = Tags::Cons(t, rest);
                let ghost k0 = key@;
                let ghost v0 = value;
                let ghost tk = t.key@;
                let ghost rest0 = *rest;
                if str_eq(key.as_str(), t.key.as_str()) {
                    let r = Tags::Cons(Tag { key, value }, rest);
                    proof {
                        assert forall|k: Seq<char>| #[trigger] r.lookup(k) == (if k == k0 {
                            Some(v0)
                        } else {
                            old_self.lookup(k)
                        }) by {}
                        assert forall|lo: Seq<char>| old_self.keys_above(lo) && text_lt(lo, k0) implies #[trigger] r.keys_above(lo) by {}
                    }
                    r
                } else {
                    let kc = chars_of(key.as_str());
                    let tc = chars_of(t.key.as_str());
                    if vec_text_lt(&kc, &tc) {
                        proof {
                            rest0.lemma_keys_above_lower(tk, k0);
                        }
                        let r = Tags::Cons(Tag { key, value }, Box::new(Tags::Cons(t, rest)));
                        proof {
                            assert(old_self.keys_above(k0));
                            assert forall|k: Seq<char>| #[trigger] r.lookup(k) == (if k == k0 {
                                Some(v0)
                            } else {
                                old_self.lookup(k)
                            }) by {}
                            assert forall|lo: Seq<char>| old_self.keys_above(lo) && text_lt(lo, k0) implies #[trigger] r.keys_above(lo) by {}
                        }
                        r
                    } else {
                        proof {
                            lemma_text_lt_total(k0, tk);
                        }
                        let r2 = (*rest).insert(key, value);
                        let r = Tags::Cons(t, Box::new(r2));
                        proof {
                            assert(r2.keys_above(tk));
                            assert forall|k: Seq<char>| #[trigger] r.lookup(k) == (if k == k0 {
                                Some(v0)
                            } else {
                                old_self.lookup(k)
                            }) by {
                                assert(r2.lookup(k) == (if k == k0 { Some(v0) } else { rest0.lookup(k) }));
                            }
                            assert forall|lo: Seq<char>| old_self.keys_above(lo) && text_lt(lo, k0) implies #[trigger] r.keys_above(lo) by {
                                assert(r2.keys_above(lo));
                            }
                        }
                        r
                    }
                }
            },
        }
    }

    pub open spec fn len(self) -> nat
        decreases self,
    {
        match self {
            Tags::Nil => 0,
            Tags::Cons(_, rest) => 1 + rest.len(),
        }
    }

    /// The value of the first tag with key `key`, if any.
    pub open spec fn lookup(self, key: Seq<char>) -> Option<String>
        decreases self,
    {
        match self {
            Tags::Nil => None,
            Tags::Cons(t, rest) => if t.key@ == key {
                Some(t.value)
            } else {
                rest.lookup(key)
            },
        }
    }

    pub fn copy(&self) -> (r: Tags)
        ensures
            r == *self,
        decreases self,
    {
        match self {
            Tags::Nil => Tags::Nil,
            Tags::Cons(t, rest) => Tags::Cons(t.copy(), Box::new(rest.copy())),
        }
    }

    /// The value of the first tag with key `key`, if any.
    pub fn get(&self, key: &str) -> (r: Option<String>)
        ensures
            r == self.lookup(key@),
        decreases self,
    {
        match self {
            Tags::Nil => None,
            Tags::Cons(t, rest) => {
                let k = t.key.as_str();
                if crate::text::str_eq(k, key) {
                    Some(t.value.clone())
                } else {
                    rest.get(key)
                }
            },
        }
    }
}

pub fn copy_string_opt(s: &Option<String>) -> (r: Option<String>)
    ensures
        r == *s,
{
    match s {
        Some(x) => Some(x.clone()),
        None => None,
    }
}

/// A monitored service, registered on first contact.
#[derive(Clone, Debug)]
pub struct Service {
    pub id: u128,
    pub name: String,
    pub environment: String,
    pub status: ServiceStatus,
    pub last_seen_at: Timestamp,
    pub created_at: Timestamp,
}

impl Service {
    pub fn copy(&self) -> (r: Service)
        ensures
            r == *self,
    {
        Service {
            id: self.id,
            name: self.name.clone(),
            environment: self.environment.clone(),
            status: self.status,
            last_seen_at: self.last_seen_at,
            created_at: self.created_at,
        }
    }
}

/// A recorded metric sample.
#[derive(Debug)]
pub struct MetricEvent {
    pub id: u128,
    pub service: String,
    pub metric: String,
    pub value_bits: u64,
    pub timestamp: Timestamp,
    pub tags: Tags,
}

impl MetricEvent {
    pub fn copy(&self) -> (r: MetricEvent)
        ensures
            r == *self,
    {
        MetricEvent {
            id: self.id,
            service: self.service.clone(),
            metric: self.metric.clone(),
            value_bits: self.value_bits,
            timestamp: self.timestamp,
            tags: self.tags.copy(),
        }
    }
}

/// A recorded log line.
#[derive(Debug)]
pub struct LogEvent {
    pub id: u128,
    pub service: String,
    pub level: LogLevel,
    pub message: String,
    pub timestamp: Timestamp,
    pub metadata: Tags,
}

impl LogEvent {
    pub fn copy(&self) -> (r: LogEvent)
        ensures
            r == *self,
    {
        LogEvent {
            id: self.id,
            service: self.service.clone(),
            level: self.level,
            message: self.message.clone(),
            timestamp: self.timestamp,
            metadata: self.metadata.copy(),
        }
    }
}

/// An alert rule: a condition on one source of telemetry, for one service
/// or for every service (`"*"`).
#[derive(Clone, Debug)]
pub struct AlertRule {
    pub id: u128,
    pub name: String,
    pub service: String,
    pub source_type: AlertSourceType,
    pub metric: Option<String>,
    pub level: Option<LogLevel>,
    pub operator: AlertOperator,
    pub threshold_bits: u64,
    pub window_seconds: u64,
    pub severity: AlertSeverity,
    pub enabled: bool,
}

impl AlertRule {
    pub fn copy(&self) -> (r: AlertRule)
        ensures
            r == *self,
    {
        AlertRule {
            id: self.id,
            name: self.name.clone(),
            service: self.service.clone(),
            source_type: self.source_type,
            metric: copy_string_opt(&self.metric),
            level: self.level,
            operator: self.operator,
            threshold_bits: self.threshold_bits,
            window_seconds: self.window_seconds,
            severity: self.severity,
            enabled: self.enabled,
        }
    }
}

/// One occurrence of an alert: raised for a rule and a service, it moves
/// from pending to firing to resolved.
#[derive(Clone, Debug)]
pub struct AlertEvent {
    pub id: u128,
    pub rule_id: u128,
    pub service: String,
    pub status: AlertStatus,
    pub severity: AlertSeverity,
    pub message: String,
    pub triggered_at: Timestamp,
    pub resolved_at: Option<Timestamp>,
    pub observed_bits: Option<u64>,
}

impl AlertEvent {
    pub fn copy(&self) -> (r: AlertEvent)
        ensures
            r == *self,
    {
        AlertEvent {
            id: self.id,
            rule_id: self.rule_id,
            service: self.service.clone(),
            status: self.status,
            severity: self.severity,
            message: self.message.clone(),
            triggered_at: self.triggered_at,
            resolved_at: self.resolved_at,
            observed_bits: self.observed_bits,
        }
    }
}

#[derive(Debug)]
pub struct MetricIngest {
    pub service: String,
    pub metric: String,
    pub value_bits: u64,
    pub timestamp: Timestamp,
    pub tags: Tags,
}

#[derive(Debug)]
pub struct LogIngest {
    pub service: String,
    pub level: LogLevel,
    pub message: String,
    pub timestamp: Timestamp,
    pub metadata: Tags,
}

#[derive(Clone, Debug)]
pub struct HeartbeatIngest {
    pub service: String,
    pub timestamp: Timestamp,
}

/// A request body that holds either one item or a list of them.
#[derive(Clone, Debug)]
pub enum OneOrMany<T> {
    One(T),
    Many(Vec<T>),
}

impl<T> OneOrMany<T> {
    /// The items as a list.
    pub open spec fn items(self) -> Seq<T> {
        match self {
            OneOrMany::One(item) => seq![item],
            OneOrMany::Many(items) => items@,
        }
    }

    pub fn into_vec(self) -> (r: Vec<T>)
        ensures
            r@ == self.items(),
    {
        match self {
            OneOrMany::One(item) => {
                let mut v: Vec<T> = Vec::new();
                v.push(item);
                v
            },
            OneOrMany::Many(items) => items,
        }
    }
}

#[derive(Clone, Debug)]
pub struct CreateAlertRuleRequest {
    pub name: String,
    pub service: String,
    pub source_type: AlertSourceType,
    pub metric: Option<String>,
    pub level: Option<LogLevel>,
    pub operator: AlertOperator,
    pub threshold_bits: u64,
    pub window_seconds: u64,
    pub severity: AlertSeverity,
    pub enabled: Option<bool>,
}

#[derive(Clone, Debug)]
pub struct UpdateAlertRuleRequest {
    pub name: Option<String>,
    pub service: Option<String>,
    pub source_type: Option<AlertSourceType>,
    pub metric: Option<String>,
    pub level: Option<LogLevel>,
    pub operator: Option<AlertOperator>,
    pub threshold_bits: Option<u64>,
    pub window_seconds: Option<u64>,
    pub severity: Option<AlertSeverity>,
    pub enabled: Option<bool>,
}

#[derive(Clone, Debug)]
pub struct MetricQuery {
    pub metric: Option<String>,
    pub from: Option<Timestamp>,
    pub to: Option<Timestamp>,
    pub resolution: Option<u64>,
}

#[derive(Clone, Debug)]
pub struct LogsQuery {
    pub service: Option<String>,
    pub level: Option<LogLevel>,
    pub q: Option<String>,
    pub from: Option<Timestamp>,
    pub to: Option<Timestamp>,
    pub limit: Option<usize>,
}

#[derive(Clone, Debug)]
pub struct AlertsQuery {
    pub status: Option<AlertStatus>,
    pub severity: Option<AlertSeverity>,
    pub service: Option<String>,
    pub from: Option<Timestamp>,
    pub to: Option<Timestamp>,
}

/// The settings of a store: how many events it keeps, how long a silent
/// service stays healthy or degraded, and the environment given to services
/// whose telemetry names none.
#[derive(Clone, Debug)]
pub struct StoreConfig {
    pub metric_retention: usize,
    pub log_retention: usize,
    pub degraded_after_secs: u64,
    pub offline_after_secs: u64,
    pub default_environment: String,
}

#[derive(Clone, Copy, Debug)]
pub struct IngestResponse {
    pub accepted: usize,
}

/// One point of a metric series: a raw sample (`value_bits` is the sample)
/// or a bucket start.
#[derive(Clone, Copy, Debug)]
pub struct MetricPoint {
    pub timestamp: Timestamp,
    pub value_bits: u64,
}

/// A change that subscribers are told of.
#[derive(Debug)]
pub enum RealtimeEvent {
    MetricUpdate(MetricEvent),
    LogUpdate(LogEvent),
    AlertFired(AlertEvent),
    AlertResolved(AlertEvent),
    ServiceStatusChanged(Service),
}

} // verus!
