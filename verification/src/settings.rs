//! Numeric settings: reading an unsigned decimal value, with a fallback
//! when it is absent or unusable, and the default of each setting.
use vstd::prelude::*;

use crate::text::chars_of;

verus! {

/// Port the server listens on by default.
pub const DEFAULT_PORT: u16 = 8080;

/// Metric samples kept by default.
pub const DEFAULT_METRIC_RETENTION: u64 = 20_000;

/// Log lines kept by default.
pub const DEFAULT_LOG_RETENTION: u64 = 10_000;

/// Seconds of silence after which a service is degraded, by default.
pub const DEFAULT_DEGRADED_AFTER_SECS: u64 = 15;

/// Seconds of silence after which a service is offline, by default.
pub const DEFAULT_OFFLINE_AFTER_SECS: u64 = 30;

/// Seconds between housekeeping rounds, by default.
pub const DEFAULT_HOUSEKEEPING_SECS: u64 = 5;

/// An ASCII decimal digit, `0` to `9`.
pub open spec fn is_digit(c: char) -> bool {
    48 <= (c as u32) <= 57
}

/// Every character of `s` is a decimal digit.
pub open spec fn all_digits(s: Seq<char>) -> bool {
    forall|i: int| 0 <= i < s.len() ==> is_digit(#[trigger] s[i])
}

/// The number that the decimal digits `s` write (0 for no digits).
pub open spec fn digits_value(s: Seq<char>) -> nat
    decreases s.len(),
{
    if s.len() == 0 {
        0
    } else {
        digits_value(s.drop_last()) * 10 + ((s.last() as u32) - 48) as nat
    }
}

/// The number an unsigned integer setting writes: an optional `+` and then
/// one or more decimal digits, nothing else; `None` for any other text.
pub open spec fn unsigned_value(s: Seq<char>) -> Option<nat> {
    let digits = if s.len() > 0 && s[0] == '+' {
        s.skip(1)
    } else {
        s
    };
    if digits.len() > 0 && all_digits(digits) {
        Some(digits_value(digits))
    } else {
        None
    }
}

/// The value of a setting given as `value` (absent when `None`) for a type
/// whose largest value is `max`: the number it writes when that fits, else
/// `fallback`.
pub open spec fn setting_value(value: Option<Seq<char>>, max: u64, fallback: u64) -> u64 {
    match value {
        Some(v) => match unsigned_value(v) {
            Some(n) => if n <= max {
                n as u64
            } else {
                fallback
            },
            None => fallback,
        },
        None => fallback,
    }
}

proof fn lemma_digits_prefix(s: Seq<char>, k: int)
    requires
        all_digits(s),
        0 <= k <= s.len(),
    ensures
        digits_value(s.take(k)) <= digits_value(s),
    decreases s.len(),
{
    if k == s.len() {
        assert(s.take(k) =~= s);
    } else {
        let t = s.drop_last();
        assert(all_digits(t)) by {
            assert forall|i: int| 0 <= i < t.len() implies is_digit(#[trigger] t[i]) by {
                assert(t[i] == s[i]);
            }
        }
        lemma_digits_prefix(t, k);
        assert(t.take(k) =~= s.take(k));
    }
}

/// The number that `text` writes as an unsigned integer, if it writes one
/// no larger than `max`.
pub fn parse_unsigned(text: &str, max: u64) -> (r: Option<u64>)
    ensures
        r == (match unsigned_value(text@) {
            Some(n) => if n <= max {
                Some(n as u64)
            } else {
                None::<u64>
            },
            None => None,
        }),
{
    let cs = chars_of(text);
    let start: usize = if cs.len() > 0 && (cs[0] as u32) == 43 {
        1
    } else {
        0
    };
    proof {
        if cs.len() > 0 {
            vstd::utf8::char_u32_cast(cs@[0], cs@[0] as u32);
            vstd::utf8::char_u32_cast('+', '+' as u32);
        }
    }
    let ghost digits = if text@.len() > 0 && text@[0] == '+' {
        text@.skip(1)
    } else {
        text@
    };
    assert(digits =~= cs@.skip(start as int));
    if start == cs.len() {
        return None;
    }
    let mut acc: u64 = 0;
    let mut i: usize = start;
    while i < cs.len()
        invariant
            start <= i <= cs.len(),
            cs@ == text@,
            digits == cs@.skip(start as int),
            digits == (if text@.len() > 0 && text@[0] == '+' {
                text@.skip(1)
            } else {
                text@
            }),
            digits.len() > 0,
            acc <= max,
            all_digits(digits.take(i - start)),
            acc == digits_value(digits.take(i - start)),
        decreases cs.len() - i,
    {
        let n = cs[i] as u32;
        let ghost k: int = i - start;
        assert(digits[k] == cs@[i as int]);
        if n < 48 || n > 57 {
            proof {
                assert(!is_digit(digits[k]));
                assert(!all_digits(digits));
            }
            return None;
        }
        let d = (n - 48) as u64;
        assert(digits.take(k + 1).drop_last() =~= digits.take(k));
        assert(digits.take(k + 1).last() == digits[k]);
        assert(all_digits(digits.take(k + 1))) by {
            assert forall|j: int| 0 <= j < k + 1 implies is_digit(#[trigger] digits.take(k + 1)[j]) by {
                if j < k {
                    assert(digits.take(k + 1)[j] == digits.take(k)[j]);
                }
            }
        }
        if d > max || acc > (max - d) / 10 {
            // the digits so far already write more than `max`; the rest
            // either is not all digits or only makes the number larger
            proof {
                assert(digits_value(digits.take(k + 1)) > max);
                if all_digits(digits) {
                    lemma_digits_prefix(digits, k + 1);
                }
            }
            return None;
        }
        acc = acc * 10 + d;
        i = i + 1;
    }
    assert(digits.take(digits.len() as int) =~= digits);
    Some(acc)
}

/// The setting given as `value` (absent when `None`) for a type whose
/// largest value is `max`, or `fallback` when it is absent, is not an
/// unsigned decimal number, or is larger than `max`.
pub fn setting_or(value: Option<&str>, max: u64, fallback: u64) -> (r: u64)
    ensures
        r == setting_value(
            match value {
                Some(v) => Some(v@),
                None => None,
            },
            max,
            fallback,
        ),
{
    match value {
        Some(v) => match parse_unsigned(v, max) {
            Some(n) => n,
            None => fallback,
        },
        None => fallback,
    }
}

} // verus!
