//! Instants a caller supplies explicitly, as shells accept them.
//!
//! A shell may read the host clock; the library never does. An instant handed in must be
//! an RFC 3339 UTC instant written with a trailing `Z`, so there is never any doubt about
//! which zone it was read in.

use crate::instant::{parse_timestamp_or_error, timestamp_parse, UtcInstant};
use vstd::prelude::*;

verus! {

/// What a command line makes of an `--at` value: `now` is refused until clock-discipline
/// bounds are available; otherwise the value must parse as an RFC 3339 instant, and then
/// end in `Z`.
pub open spec fn explicit_utc_outcome(value: Seq<char>) -> Result<int, Seq<char>> {
    if value == "now"@ {
        Err("`--at now` is disabled until host clock-discipline bounds are available"@)
    } else {
        match timestamp_parse(value) {
            Err(detail) => Err("invalid RFC 3339 UTC instant: "@ + detail),
            Ok(n) => if value.len() > 0 && value.last() == 'Z' {
                Ok(n)
            } else {
                Err("--at must be an RFC 3339 UTC instant ending in Z"@)
            },
        }
    }
}

/// Reads a command line's `--at` value as an explicit UTC instant, or the usage message
/// that refuses it.
pub fn parse_explicit_utc(value: &str) -> (r: Result<UtcInstant, String>)
    ensures
        match r {
            Ok(at) => explicit_utc_outcome(value@) == Ok::<int, Seq<char>>(at.nanos()),
            Err(message) => explicit_utc_outcome(value@) == Err::<int, Seq<char>>(message@),
        },
{
    proof {
        reveal_strlit("now");
        reveal_strlit("invalid RFC 3339 UTC instant: ");
    }
    if crate::text::text_eq(value, "now") {
        return Err(String::from_str(
            "`--at now` is disabled until host clock-discipline bounds are available",
        ));
    }
    let nanos = match parse_timestamp_or_error(value) {
        Ok(nanos) => nanos,
        Err(detail) => {
            let mut message = String::from_str("invalid RFC 3339 UTC instant: ");
            message.append(detail.as_str());
            return Err(message);
        },
    };
    if !ends_with_z(value) {
        return Err(String::from_str("--at must be an RFC 3339 UTC instant ending in Z"));
    }
    Ok(UtcInstant::from_nanos_since_unix_epoch(nanos))
}

/// What a service makes of an `at` query value: it must end in `Z`, and then parse as an
/// RFC 3339 instant.
pub open spec fn supplied_instant_outcome(value: Seq<char>) -> Result<int, Seq<char>> {
    if !(value.len() > 0 && value.last() == 'Z') {
        Err("at must be a UTC RFC 3339 instant ending in Z"@)
    } else {
        match timestamp_parse(value) {
            Err(_) => Err("at must be a valid UTC RFC 3339 instant"@),
            Ok(n) => Ok(n),
        }
    }
}

/// Reads a service's `at` query value as an explicit UTC instant, or the message that
/// refuses it.
pub fn supplied_instant(value: &str) -> (r: Result<UtcInstant, String>)
    ensures
        match r {
            Ok(at) => supplied_instant_outcome(value@) == Ok::<int, Seq<char>>(at.nanos()),
            Err(message) => supplied_instant_outcome(value@) == Err::<int, Seq<char>>(message@),
        },
{
    if !ends_with_z(value) {
        return Err(String::from_str("at must be a UTC RFC 3339 instant ending in Z"));
    }
    match parse_timestamp_or_error(value) {
        Ok(nanos) => Ok(UtcInstant::from_nanos_since_unix_epoch(nanos)),
        Err(_) => Err(String::from_str("at must be a valid UTC RFC 3339 instant")),
    }
}

/// Whether a text ends in `Z`.
fn ends_with_z(value: &str) -> (r: bool)
    ensures
        r == (value@.len() > 0 && value@.last() == 'Z'),
{
    let n = value.unicode_len();
    n > 0 && value.get_char(n - 1) == 'Z'
}

} // verus!
