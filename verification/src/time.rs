//! Instants on the UTC time line and the second-based durations that the
//! store computes with. An instant is held as whole seconds since the Unix
//! epoch and a sub-second nanosecond part, within the range that a
//! `chrono::DateTime<Utc>` can represent.
use vstd::prelude::*;

verus! {

/// Seconds since the epoch of the earliest representable instant
/// (January 1 of year -262143, 00:00:00 UTC).
pub const MIN_UNIX_SECS: i64 = -8_334_601_315_200;

/// Seconds since the epoch of the latest representable instant
/// (December 31 of year 262142, 23:59:59 UTC).
pub const MAX_UNIX_SECS: i64 = 8_210_266_876_799;

/// Largest number of whole seconds a signed duration can hold
/// (`i64::MAX` milliseconds, rounded down to seconds).
pub const MAX_DELTA_SECS: i64 = 9_223_372_036_854_775;

/// An instant: `secs` whole seconds after the Unix epoch plus `nanos`
/// nanoseconds.
#[derive(Clone, Copy, Debug, PartialEq, Eq, Structural)]
pub struct Timestamp {
    pub secs: i64,
    pub nanos: u32,
}

impl Timestamp {
    /// The instant lies in the representable range and its sub-second part
    /// is below one second.
    pub open spec fn wf(self) -> bool {
        &&& MIN_UNIX_SECS <= self.secs <= MAX_UNIX_SECS
        &&& self.nanos < 1_000_000_000
    }

    /// The instant as a number of nanoseconds since the epoch.
    pub open spec fn total_nanos(self) -> int {
        self.secs * 1_000_000_000 + self.nanos
    }
}

/// Instants are ordered by their seconds, then by their nanoseconds.
pub open spec fn ts_lt(a: Timestamp, b: Timestamp) -> bool {
    a.secs < b.secs || (a.secs == b.secs && a.nanos < b.nanos)
}

pub open spec fn ts_le(a: Timestamp, b: Timestamp) -> bool {
    ts_lt(a, b) || a == b
}

/// `a` is strictly earlier than `b`.
pub fn is_before(a: Timestamp, b: Timestamp) -> (r: bool)
    ensures
        r == ts_lt(a, b),
{
    a.secs < b.secs || (a.secs == b.secs && a.nanos < b.nanos)
}

/// `a` is earlier than or the same as `b`.
pub fn is_at_or_before(a: Timestamp, b: Timestamp) -> (r: bool)
    ensures
        r == ts_le(a, b),
{
    a.secs < b.secs || (a.secs == b.secs && a.nanos <= b.nanos)
}

/// The later of two instants (the first one when they are equal).
pub open spec fn ts_max(a: Timestamp, b: Timestamp) -> Timestamp {
    if ts_lt(a, b) {
        b
    } else {
        a
    }
}

/// A `u64` reinterpreted as a two's complement `i64` (what `as i64` gives).
pub open spec fn as_i64(w: u64) -> int {
    if w <= i64::MAX {
        w as int
    } else {
        w - 0x1_0000_0000_0000_0000
    }
}

/// Computes `w as i64`.
pub fn u64_as_i64(w: u64) -> (r: i64)
    ensures
        r == as_i64(w),
{
    if w <= 9_223_372_036_854_775_807u64 {
        w as i64
    } else {
        let x: i64 = (w - 9_223_372_036_854_775_808u64) as i64;
        x - 9_223_372_036_854_775_807i64 - 1
    }
}

/// A signed duration of `s` whole seconds can be represented.
pub open spec fn delta_secs_ok(s: int) -> bool {
    -MAX_DELTA_SECS <= s <= MAX_DELTA_SECS
}

/// `t` moved `s` seconds into the past, when both the duration and the
/// resulting instant can be represented.
pub open spec fn minus_secs(t: Timestamp, s: int) -> Option<Timestamp> {
    if delta_secs_ok(s) && MIN_UNIX_SECS <= t.secs - s <= MAX_UNIX_SECS {
        Some(Timestamp { secs: (t.secs - s) as i64, nanos: t.nanos })
    } else {
        None
    }
}

/// Moves `t` back by `s` seconds; `None` when the duration or the result
/// falls outside the representable range.
pub fn checked_minus_secs(t: Timestamp, s: i64) -> (r: Option<Timestamp>)
    requires
        t.wf(),
    ensures
        r == minus_secs(t, s as int),
{
    if s < -MAX_DELTA_SECS || s > MAX_DELTA_SECS {
        return None;
    }
    let secs: i128 = t.secs as i128 - s as i128;
    if secs < MIN_UNIX_SECS as i128 || secs > MAX_UNIX_SECS as i128 {
        None
    } else {
        Some(Timestamp { secs: secs as i64, nanos: t.nanos })
    }
}

/// The start of a look-back window of `window_seconds` ending at `now`: the
/// window length is taken as a signed 64-bit count of seconds.
pub open spec fn window_start(now: Timestamp, window_seconds: u64) -> Option<Timestamp> {
    minus_secs(now, as_i64(window_seconds))
}

/// Computes `window_start(now, window_seconds)`.
pub fn compute_window_start(now: Timestamp, window_seconds: u64) -> (r: Option<Timestamp>)
    requires
        now.wf(),
    ensures
        r == window_start(now, window_seconds),
{
    checked_minus_secs(now, u64_as_i64(window_seconds))
}

/// Nanoseconds elapsed from `earlier` to `later` (negative when `later` is
/// before `earlier`).
pub open spec fn elapsed_nanos(later: Timestamp, earlier: Timestamp) -> int {
    later.total_nanos() - earlier.total_nanos()
}

/// Computes `elapsed_nanos(later, earlier)`.
pub fn compute_elapsed_nanos(later: Timestamp, earlier: Timestamp) -> (r: i128)
    ensures
        r == elapsed_nanos(later, earlier),
{
    (later.secs as i128 - earlier.secs as i128) * 1_000_000_000i128 + (later.nanos as i128
        - earlier.nanos as i128)
}

/// Whole seconds elapsed from `earlier` to `later`, rounded toward zero, and
/// never below zero.
pub open spec fn whole_secs_since(later: Timestamp, earlier: Timestamp) -> int {
    let e = elapsed_nanos(later, earlier);
    if e <= 0 {
        0
    } else {
        e / 1_000_000_000
    }
}

/// Computes `whole_secs_since(later, earlier)`.
pub fn compute_whole_secs_since(later: Timestamp, earlier: Timestamp) -> (r: i64)
    requires
        later.wf(),
        earlier.wf(),
    ensures
        r == whole_secs_since(later, earlier),
{
    let e = compute_elapsed_nanos(later, earlier);
    if e <= 0 {
        0
    } else {
        (e / 1_000_000_000i128) as i64
    }
}

/// Reads the system clock as a UTC instant.
///
/// Calls `chrono::Utc::now`. Claimed: the reading is a representable instant
/// with a sub-second part below one second, not before the Unix epoch (the
/// call panics on a clock set before 1970). Nothing is claimed of which
/// instant it is.
#[verifier::external_body]
pub fn utc_now() -> (t: Timestamp)
    ensures
        t.wf(),
        t.secs >= 0,
{
    let now = chrono::Utc::now();
    Timestamp { secs: now.timestamp(), nanos: now.timestamp_subsec_nanos() }
}

} // verus!
