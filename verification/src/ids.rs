//! Identifiers of services, events, rules and alerts: 128-bit UUID values.
use vstd::prelude::*;

verus! {

/// Draws a fresh random identifier.
///
/// Calls `uuid::Uuid::new_v4` and hands back its 128-bit value. Nothing is
/// claimed of the value: it is random, and in particular distinctness from
/// earlier identifiers is not stated.
#[verifier::external_body]
pub fn new_id() -> (id: u128) {
    uuid::Uuid::new_v4().as_u128()
}

/// The lower-case hexadecimal digit for `n` (`0 <= n < 16`).
pub open spec fn hex_digit(n: int) -> char {
    if n < 10 {
        ((48 + n) as u32) as char
    } else {
        ((87 + n) as u32) as char
    }
}

/// Position, among the 32 hexadecimal digits of an identifier, of the
/// character at position `i` of its hyphenated text (hyphens stand at 8, 13,
/// 18 and 23).
pub open spec fn digit_index(i: int) -> int {
    if i < 8 {
        i
    } else if i < 13 {
        i - 1
    } else if i < 18 {
        i - 2
    } else if i < 23 {
        i - 3
    } else {
        i - 4
    }
}

/// The hyphenated lower-case text of an identifier: its 32 hexadecimal
/// digits, most significant first, split 8-4-4-4-12 by hyphens.
pub open spec fn uuid_text(id: u128) -> Seq<char> {
    Seq::new(
        36,
        |i: int|
            if i == 8 || i == 13 || i == 18 || i == 23 {
                '-'
            } else {
                hex_digit(((id as int) / vstd::arithmetic::power::pow(16, (31 - digit_index(i)) as nat)) % 16)
            },
    )
}

/// Renders an identifier as text.
///
/// Calls `uuid::Uuid::from_u128` and its `Display` form. Claimed: the text is
/// the hyphenated lower-case form that the `uuid` documentation gives.
#[verifier::external_body]
pub fn id_text(id: u128) -> (s: String)
    ensures
        s@ == uuid_text(id),
{
    uuid::Uuid::from_u128(id).to_string()
}

} // verus!
