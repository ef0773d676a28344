//! Metric time series of one service: the samples of a metric in a time
//! range, in time order, raw or grouped into fixed-width buckets.
use vstd::prelude::*;

use crate::error::{bad_request, is_bad_request, is_not_found, not_found, not_found_text, AppError};
use crate::models::{MetricEvent, MetricPoint, MetricQuery};
use crate::queries::{has_service_id, last_service_with_id};
use crate::sort::{is_ts_order, ts_order};
use crate::store::Store;
use crate::text::str_eq;
use crate::time::{
    as_i64, checked_minus_secs, is_at_or_before, is_before, minus_secs, ts_le, ts_lt, u64_as_i64,
    utc_now, Timestamp,
};

verus! {

/// The samples of `metric` from service `name` in `[from, to]`, in
/// retention order.
pub open spec fn series_samples(
    ms: Seq<MetricEvent>,
    name: Seq<char>,
    metric: Seq<char>,
    from: Timestamp,
    to: Timestamp,
) -> Seq<MetricEvent>
    decreases ms.len(),
{
    if ms.len() == 0 {
        seq![]
    } else {
        let rest = series_samples(ms.drop_last(), name, metric, from, to);
        let m = ms.last();
        if m.service@ == name && m.metric@ == metric && ts_le(from, m.timestamp) && ts_le(
            m.timestamp,
            to,
        ) {
            rest.push(m)
        } else {
            rest
        }
    }
}

/// The start, in seconds since the epoch, of the bucket of width
/// `resolution` (taken as a signed count) holding second `secs`: `secs`
/// divided by the width, rounded toward zero, times the width.
pub open spec fn bucket_start(secs: i64, resolution: u64) -> int {
    let w = as_i64(resolution);
    let m = if w >= 0 {
        w
    } else {
        -w
    };
    let a = secs as int;
    if a >= 0 {
        (a / m) * m
    } else {
        -(((-a) / m) * m)
    }
}

/// The values, in order, of the samples of `s` in the bucket starting at
/// `key`.
pub open spec fn bucket_values(s: Seq<MetricEvent>, resolution: u64, key: int) -> Seq<u64>
    decreases s.len(),
{
    if s.len() == 0 {
        seq![]
    } else {
        let rest = bucket_values(s.drop_last(), resolution, key);
        if bucket_start(s.last().timestamp.secs, resolution) == key {
            rest.push(s.last().value_bits)
        } else {
            rest
        }
    }
}

/// A group of samples of one bucket.
pub struct Bucket {
    pub start_secs: i64,
    pub values: Vec<u64>,
}

/// `out` holds one group per bucket that a sample of `s` falls in, by
/// ascending start, each with the values of its samples in order.
pub open spec fn buckets_of(s: Seq<MetricEvent>, resolution: u64, out: Seq<Bucket>) -> bool {
    &&& forall|a: int, b: int|
        0 <= a < b < out.len() ==> (#[trigger] out[a]).start_secs < (#[trigger] out[b]).start_secs
    &&& forall|k: int|
        0 <= k < out.len() ==> (#[trigger] out[k]).values@ == bucket_values(
            s,
            resolution,
            out[k].start_secs as int,
        ) && out[k].values@.len() > 0
    &&& forall|j: int|
        0 <= j < s.len() ==> exists|k: int|
            0 <= k < out.len() && (#[trigger] out[k]).start_secs == bucket_start(
                #[trigger] s[j].timestamp.secs,
                resolution,
            )
}

/// A series: raw points, or bucket groups when a resolution is set.
pub enum SeriesData {
    Raw(Vec<MetricPoint>),
    Buckets(Vec<Bucket>),
}

pub struct MetricSeries {
    pub service_id: u128,
    pub service_name: String,
    pub metric: String,
    pub data: SeriesData,
}

/// The instants of the samples, in order.
pub open spec fn sample_times(found: Seq<MetricEvent>) -> Seq<Timestamp> {
    found.map_values(|m: MetricEvent| m.timestamp)
}

/// `data` is the series of the samples `found` (in retention order): they
/// are stably sorted by time, then given raw when `resolution` is zero and
/// grouped into buckets otherwise.
pub open spec fn series_of(found: Seq<MetricEvent>, resolution: u64, data: SeriesData) -> bool {
    exists|p: Seq<usize>|
        #[trigger] is_ts_order(sample_times(found), false, p) && {
            let sorted = Seq::new(p.len(), |k: int| found[p[k] as int]);
            if resolution == 0 {
                data matches SeriesData::Raw(points) && points@ == sorted.map_values(
                    |m: MetricEvent| MetricPoint { timestamp: m.timestamp, value_bits: m.value_bits },
                )
            } else {
                data matches SeriesData::Buckets(groups) && buckets_of(sorted, resolution, groups@)
            }
        }
}

/// The answer to a series query, with `clock_from` and `clock_to` the clock
/// readings used for a missing bound: not found for an unknown service;
/// a bad request without a metric, or when the range starts after it ends
/// (the start defaults to 15 minutes before `clock_from`, the end to
/// `clock_to`); otherwise the series of the matching samples.
pub open spec fn series_answer(
    s: &Store,
    service_id: u128,
    query: MetricQuery,
    clock_from: Timestamp,
    clock_to: Timestamp,
    r: Result<MetricSeries, AppError>,
) -> bool {
    let from = match query.from {
        Some(f) => f,
        None => minus_secs(clock_from, 900)->0,
    };
    let to = match query.to {
        Some(t) => t,
        None => clock_to,
    };
    if !has_service_id(s.services@, service_id) {
        is_not_found(r, not_found_text("service"@, service_id))
    } else if query.metric is None {
        is_bad_request(r, "metric query parameter is required"@)
    } else if ts_lt(to, from) {
        is_bad_request(r, "metric 'from' must be before 'to'"@)
    } else {
        let name = s.services@[last_service_with_id(s.services@, service_id)].name;
        let metric = query.metric->0;
        r matches Ok(series) && series.service_id == service_id && series.service_name == name
            && series.metric == metric && series_of(
            series_samples(s.metrics@, name@, metric@, from, to),
            match query.resolution {
                Some(v) => v,
                None => 0,
            },
            series.data,
        )
    }
}

/// Computes `bucket_start(secs, resolution)` for a non-zero resolution.
pub fn compute_bucket_start(secs: i64, resolution: u64) -> (r: i64)
    requires
        resolution != 0,
    ensures
        r == bucket_start(secs, resolution),
{
    let w = u64_as_i64(resolution) as i128;
    let m: i128 = if w >= 0 {
        w
    } else {
        -w
    };
    assert(m > 0);
    let a = secs as i128;
    if a >= 0 {
        let q = a / m;
        assert(q * m <= a && q * m >= 0) by (nonlinear_arith)
            requires
                a >= 0,
                m > 0,
                q == a / m,
        ;
        (q * m) as i64
    } else {
        let na = -a;
        let q = na / m;
        assert(q * m <= na && q * m >= 0) by (nonlinear_arith)
            requires
                na >= 0,
                m > 0,
                q == na / m,
        ;
        (-(q * m)) as i64
    }
}

proof fn lemma_bucket_values_nonempty(s: Seq<MetricEvent>, resolution: u64, key: int)
    requires
        bucket_values(s, resolution, key).len() > 0,
    ensures
        exists|j: int| 0 <= j < s.len() && bucket_start(#[trigger] s[j].timestamp.secs, resolution) == key,
    decreases s.len(),
{
    if s.len() > 0 && bucket_start(s.last().timestamp.secs, resolution) != key {
        lemma_bucket_values_nonempty(s.drop_last(), resolution, key);
        let j = choose|j: int|
            0 <= j < s.drop_last().len() && bucket_start(
                #[trigger] s.drop_last()[j].timestamp.secs,
                resolution,
            ) == key;
        assert(s[j] == s.drop_last()[j]);
    } else if s.len() > 0 {
        assert(bucket_start(s[s.len() - 1].timestamp.secs, resolution) == key);
    }
}

/// Groups samples into buckets of width `resolution`.
pub fn bucketize(s: &Vec<MetricEvent>, resolution: u64) -> (r: Vec<Bucket>)
    requires
        resolution != 0,
    ensures
        buckets_of(s@, resolution, r@),
{
    let mut groups: Vec<Bucket> = Vec::new();
    let mut i: usize = 0;
    while i < s.len()
        invariant
            i <= s@.len(),
            resolution != 0,
            buckets_of(s@.take(i as int), resolution, groups@),
        decreases s@.len() - i,
    {
        let ghost pre = s@.take(i as int);
        let ghost post = s@.take(i + 1);
        assert(post.drop_last() =~= pre);
        assert(post.last() == s@[i as int]);
        let key = compute_bucket_start(s[i].timestamp.secs, resolution);
        let v = s[i].value_bits;
        let mut pos: usize = 0;
        while pos < groups.len() && groups[pos].start_secs < key
            invariant
                pos <= groups@.len(),
                forall|k: int| 0 <= k < pos ==> (#[trigger] groups@[k]).start_secs < key,
            decreases groups@.len() - pos,
        {
            pos = pos + 1;
        }
        let ghost old_groups = groups@;
        assert forall|k: int| 0 <= k < old_groups.len() && old_groups[k].start_secs != key implies bucket_values(
            post,
            resolution,
            (#[trigger] old_groups[k]).start_secs as int,
        ) == bucket_values(pre, resolution, old_groups[k].start_secs as int) by {}
        if pos < groups.len() && groups[pos].start_secs == key {
            let mut b = groups.remove(pos);
            b.values.push(v);
            groups.insert(pos, b);
            assert forall|k: int| 0 <= k < groups@.len() implies (#[trigger] groups@[k]).values@
                == bucket_values(post, resolution, groups@[k].start_secs as int) && groups@[k].values@.len()
                > 0 by {
                if k != pos {
                    assert(groups@[k] == old_groups[k]);
                    assert(old_groups[k].start_secs != key) by {
                        if k < pos {
                        } else {
                            assert(old_groups[pos as int].start_secs < old_groups[k].start_secs);
                        }
                    }
                }
            }
            assert forall|j: int| 0 <= j < post.len() implies exists|k: int|
                0 <= k < groups@.len() && (#[trigger] groups@[k]).start_secs == bucket_start(
                    #[trigger] post[j].timestamp.secs,
                    resolution,
                ) by {
                if j < pre.len() {
                    assert(post[j] == pre[j]);
                    let k = choose|k: int|
                        0 <= k < old_groups.len() && (#[trigger] old_groups[k]).start_secs == bucket_start(
                            pre[j].timestamp.secs,
                            resolution,
                        );
                    assert(groups@[k].start_secs == old_groups[k].start_secs);
                } else {
                    assert(groups@[pos as int].start_secs == key);
                }
            }
        } else {
            proof {
                if bucket_values(pre, resolution, key as int).len() > 0 {
                    lemma_bucket_values_nonempty(pre, resolution, key as int);
                    let j = choose|j: int|
                        0 <= j < pre.len() && bucket_start(#[trigger] pre[j].timestamp.secs, resolution)
                            == key;
                    let k = choose|k: int|
                        0 <= k < old_groups.len() && (#[trigger] old_groups[k]).start_secs == bucket_start(
                            pre[j].timestamp.secs,
                            resolution,
                        );
                    if k < pos {
                    } else if k > pos {
                        assert(old_groups[pos as int].start_secs < old_groups[k].start_secs);
                    }
                }
                assert(bucket_values(pre, resolution, key as int) =~= seq![]);
            }
            let mut values: Vec<u64> = Vec::new();
            values.push(v);
            groups.insert(pos, Bucket { start_secs: key, values });
            assert forall|a: int, b: int|
                0 <= a < b < groups@.len() implies (#[trigger] groups@[a]).start_secs
                < (#[trigger] groups@[b]).start_secs by {
                if a < pos && b == pos {
                } else if a == pos && b > pos {
                    assert(groups@[b] == old_groups[b - 1]);
                    assert(old_groups[pos as int].start_secs >= key);
                    if b - 1 > pos {
                        assert(old_groups[pos as int].start_secs < old_groups[b - 1].start_secs);
                    }
                } else if a < pos && b > pos {
                    assert(groups@[b] == old_groups[b - 1]);
                } else if a > pos {
                    assert(groups@[a] == old_groups[a - 1]);
                    assert(groups@[b] == old_groups[b - 1]);
                }
            }
            assert forall|k: int| 0 <= k < groups@.len() implies (#[trigger] groups@[k]).values@
                == bucket_values(post, resolution, groups@[k].start_secs as int) && groups@[k].values@.len()
                > 0 by {
                if k < pos {
                    assert(groups@[k] == old_groups[k]);
                } else if k > pos {
                    assert(groups@[k] == old_groups[k - 1]);
                    if k - 1 > pos {
                        assert(old_groups[pos as int].start_secs < old_groups[k - 1].start_secs);
                    }
                } else {
                    assert(bucket_values(post, resolution, key as int) =~= seq![v]);
                }
            }
            assert forall|j: int| 0 <= j < post.len() implies exists|k: int|
                0 <= k < groups@.len() && (#[trigger] groups@[k]).start_secs == bucket_start(
                    #[trigger] post[j].timestamp.secs,
                    resolution,
                ) by {
                if j < pre.len() {
                    assert(post[j] == pre[j]);
                    let k = choose|k: int|
                        0 <= k < old_groups.len() && (#[trigger] old_groups[k]).start_secs == bucket_start(
                            pre[j].timestamp.secs,
                            resolution,
                        );
                    if k < pos {
                        assert(groups@[k] == old_groups[k]);
                    } else {
                        assert(groups@[k + 1] == old_groups[k]);
                    }
                } else {
                    assert(groups@[pos as int].start_secs == key);
                }
            }
        }
        i = i + 1;
    }
    assert(s@.take(i as int) =~= s@);
    groups
}

impl Store {
    /// Answers a series query (see `series_answer`), with `clock_from` and
    /// `clock_to` the clock readings for missing bounds.
    pub fn query_metrics_at(
        &self,
        service_id: u128,
        query: &MetricQuery,
        clock_from: Timestamp,
        clock_to: Timestamp,
    ) -> (r: Result<MetricSeries, AppError>)
        requires
            clock_from.wf(),
            minus_secs(clock_from, 900) is Some,
        ensures
            series_answer(self, service_id, *query, clock_from, clock_to, r),
    {
        broadcast use vstd::std_specs::vecdeque::group_vec_dequeue_axioms;

        let j = match self.find_service_by_id(service_id) {
            Some(j) => j,
            None => return Err(not_found("service", service_id)),
        };
        let name = self.services[j].name.clone();
        let metric = match &query.metric {
            Some(m) => m.clone(),
            None => return Err(bad_request("metric query parameter is required")),
        };
        let from = match query.from {
            Some(f) => f,
            None => match checked_minus_secs(clock_from, 900) {
                Some(f) => f,
                None => clock_from,
            },
        };
        let to = match query.to {
            Some(t) => t,
            None => clock_to,
        };
        if is_before(to, from) {
            return Err(bad_request("metric 'from' must be before 'to'"));
        }
        let mut found: Vec<MetricEvent> = Vec::new();
        let mut keys: Vec<Timestamp> = Vec::new();
        let mut i: usize = 0;
        while i < self.metrics.len()
            invariant
                i <= self.metrics@.len(),
                found@ == series_samples(self.metrics@.take(i as int), name@, metric@, from, to),
                keys@ == found@.map_values(|m: MetricEvent| m.timestamp),
            decreases self.metrics@.len() - i,
        {
            assert(self.metrics@.take(i + 1).drop_last() =~= self.metrics@.take(i as int));
            let m = &self.metrics[i];
            if str_eq(m.service.as_str(), name.as_str()) && str_eq(m.metric.as_str(), metric.as_str())
                && is_at_or_before(from, m.timestamp) && is_at_or_before(m.timestamp, to) {
                keys.push(m.timestamp);
                found.push(m.copy());
                assert(keys@ =~= found@.map_values(|m: MetricEvent| m.timestamp));
            }
            i = i + 1;
        }
        assert(self.metrics@.take(i as int) =~= self.metrics@);
        let p = ts_order(&keys, false);
        let mut sorted: Vec<MetricEvent> = Vec::new();
        let mut k: usize = 0;
        while k < p.len()
            invariant
                k <= p@.len(),
                p@.len() == found@.len(),
                forall|j: int| 0 <= j < p@.len() ==> #[trigger] p@[j] < found@.len(),
                sorted@ == Seq::new(k as nat, |j: int| found@[p@[j] as int]),
            decreases p@.len() - k,
        {
            sorted.push(found[p[k]].copy());
            k = k + 1;
            assert(sorted@ =~= Seq::new(k as nat, |j: int| found@[p@[j] as int]));
        }
        let resolution = match query.resolution {
            Some(v) => v,
            None => 0,
        };
        let data = if resolution == 0 {
            let mut points: Vec<MetricPoint> = Vec::new();
            let mut k: usize = 0;
            while k < sorted.len()
                invariant
                    k <= sorted@.len(),
                    points@ == sorted@.take(k as int).map_values(
                        |m: MetricEvent| MetricPoint { timestamp: m.timestamp, value_bits: m.value_bits },
                    ),
                decreases sorted@.len() - k,
            {
                points.push(MetricPoint { timestamp: sorted[k].timestamp, value_bits: sorted[k].value_bits });
                k = k + 1;
                assert(points@ =~= sorted@.take(k as int).map_values(
                    |m: MetricEvent| MetricPoint { timestamp: m.timestamp, value_bits: m.value_bits },
                ));
            }
            assert(sorted@.take(k as int) =~= sorted@);
            SeriesData::Raw(points)
        } else {
            SeriesData::Buckets(bucketize(&sorted, resolution))
        };
        assert(is_ts_order(sample_times(found@), false, p@));
        Ok(MetricSeries { service_id, service_name: name, metric, data })
    }

    /// Answers a series query, reading the clock for missing bounds.
    pub fn query_metrics(&self, service_id: u128, query: &MetricQuery) -> (r: Result<MetricSeries, AppError>)
        ensures
            exists|clock_from: Timestamp, clock_to: Timestamp|
                clock_from.wf() && clock_to.wf() && #[trigger] series_answer(
                    self,
                    service_id,
                    *query,
                    clock_from,
                    clock_to,
                    r,
                ),
    {
        let clock_from = utc_now();
        let clock_to = utc_now();
        self.query_metrics_at(service_id, query, clock_from, clock_to)
    }
}

} // verus!
