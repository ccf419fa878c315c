//! Decimal numbers as a request writes them: an optional `+`, then digits.

use vstd::prelude::*;

verus! {

/// Whether `c` is one of the digits `0` to `9`.
pub open spec fn is_digit(c: char) -> bool {
    48 <= c as u32 <= 57
}

/// The value of a digit.
pub open spec fn digit_value(c: char) -> nat {
    (c as u32 - 48) as nat
}

/// The number that a run of decimal digits spells. The empty string and a
/// string with any other character in it spell none.
pub open spec fn digits_value(s: Seq<char>) -> Option<nat>
    decreases s.len(),
{
    if s.len() == 0 || !is_digit(s.last()) {
        None
    } else if s.len() == 1 {
        Some(digit_value(s.last()))
    } else {
        match digits_value(s.drop_last()) {
            Some(v) => Some(10 * v + digit_value(s.last())),
            None => None,
        }
    }
}

/// The number that `s` spells, if it is at most `max`: digits, with at most
/// one `+` before them. Neither blanks nor separators nor a `-` are accepted.
pub open spec fn unsigned_value(s: Seq<char>, max: nat) -> Option<nat> {
    let digits = if s.len() > 0 && s[0] == '+' {
        s.drop_first()
    } else {
        s
    };
    match digits_value(digits) {
        Some(v) => if v <= max {
            Some(v)
        } else {
            None
        },
        None => None,
    }
}

/// `str::parse::<u128>` of std, its error dropped: the number that `s`
/// spells in base 10, if it spells one that fits 128 bits.
#[verifier::external_body]
pub(crate) fn parse_u128(s: &str) -> (r: Option<u128>)
    ensures
        match unsigned_value(s@, u128::MAX as nat) {
            Some(v) => r == Some(v as u128),
            None => r is None,
        },
{
    s.parse::<u128>().ok()
}

/// `str::parse::<u64>` of std, its error dropped: the number that `s` spells
/// in base 10, if it spells one that fits 64 bits.
#[verifier::external_body]
pub(crate) fn parse_u64(s: &str) -> (r: Option<u64>)
    ensures
        match unsigned_value(s@, u64::MAX as nat) {
            Some(v) => r == Some(v as u64),
            None => r is None,
        },
{
    s.parse::<u64>().ok()
}

} // verus!
