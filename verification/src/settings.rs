//! The settings of the relay program, which come as texts.

use crate::text::{
    decimal, is_digit, law_numbers_are_read_from_digits, law_parse_after_decimal,
    lemma_decimal_digits, parse_u64_up_to, parse_unsigned, u64_text,
};
use vstd::prelude::*;

verus! {

/// The number that a setting writes, where it writes one up to `max`, and a default otherwise.
pub open spec fn number_setting(value: Option<Seq<char>>, default: u64, max: u64) -> nat {
    match value {
        Some(text) => match parse_unsigned(text, max as nat) {
            Some(n) => n,
            None => default as nat,
        },
        None => default as nat,
    }
}

/// The number that a setting writes, where it writes one up to `max`, and a default otherwise.
pub fn env_parse(value: Option<&str>, default: u64, max: u64) -> (r: u64)
    ensures
        r == number_setting(
            match value {
                Some(text) => Some(text@),
                None => None,
            },
            default,
            max,
        ),
{
    match value {
        Some(text) => match parse_u64_up_to(text, max) {
            Some(n) => n,
            None => default,
        },
        None => default,
    }
}

/// A setting, or a default.
pub fn env_or(value: Option<String>, default: &str) -> (r: String)
    ensures
        r@ == match value {
            Some(text) => text@,
            None => default@,
        },
{
    match value {
        Some(text) => text,
        None => default.to_owned(),
    }
}

/// A setting that is not empty.
pub fn non_empty(value: Option<String>) -> (r: Option<String>)
    ensures
        r == match value {
            Some(text) => if text@.len() > 0 {
                value
            } else {
                None
            },
            None => None,
        },
{
    match value {
        Some(text) => {
            if text.as_str().is_empty() {
                None
            } else {
                Some(text)
            }
        },
        None => None,
    }
}

/// A limit that is in force unless it is zero.
pub fn positive(limit: u64) -> (r: Option<u64>)
    ensures
        r == if limit > 0 {
            Some(limit)
        } else {
            None
        },
{
    if limit > 0 {
        Some(limit)
    } else {
        None
    }
}

/// The number of messages per second that a connection may send: zero stands for as many as can
/// be.
pub fn effective_rate(limit: u32) -> (r: u32)
    ensures
        r == if limit > 0 {
            limit
        } else {
            u32::MAX
        },
        r > 0,
{
    if limit > 0 {
        limit
    } else {
        u32::MAX
    }
}

/// How the limit of messages per second is shown.
pub fn rate_text(limit: u32) -> (r: String)
    ensures
        r@ == if limit > 0 {
            decimal(limit as nat)
        } else {
            "unlimited"@
        },
{
    if limit > 0 {
        u64_text(limit as u64)
    } else {
        "unlimited".to_owned()
    }
}

/// A setting that writes a number in decimal is that number, up to the largest that is allowed; a
/// setting that is not there, or is no number, is the default.
pub proof fn law_settings_are_read(text: Seq<char>, n: nat, default: u64, max: u64)
    ensures
        n <= max ==> number_setting(Some(decimal(n)), default, max) == n,
        n > max ==> number_setting(Some(decimal(n)), default, max) == default,
        number_setting(None, default, max) == default,
        text.len() == 0 || (exists|i: int|
            0 < i < text.len() && !('0' <= #[trigger] text[i] && text[i] <= '9')) ==> number_setting(
            Some(text),
            default,
            max,
        ) == default,
{
    if n <= max {
        law_parse_after_decimal(n, max as nat);
    } else {
        lemma_decimal_digits(n);
        assert(is_digit(decimal(n)[0]));
    }
    law_numbers_are_read_from_digits(text, max as nat);
}

/// A limit of zero is none, and any other limit is in force as it is.
pub proof fn law_zero_is_no_limit(limit: u64, rate: u32, r: Option<u64>, effective: u32)
    requires
        call_ensures(positive, (limit,), r),
        call_ensures(effective_rate, (rate,), effective),
    ensures
        r is None <==> limit == 0,
        r matches Some(n) ==> n == limit,
        rate > 0 ==> effective == rate,
        rate == 0 ==> effective == u32::MAX,
{
}

} // verus!
