//! The bundled IANA time-zone database, reached through `jiff`.
//!
//! Each item here is trusted: Verus believes its contract without reading its body. Every
//! zone is looked up in `TimeZoneDatabase::bundled()`, the copy of the database compiled
//! into the build, never in the host's zone files or `TZDIR`; so the results are functions
//! of their arguments alone, the same on every machine.

use crate::civil::{time_of_day_text, utc_civil, valid_date, valid_time, weekday_from_civil};
use crate::instant::{JIFF_MAX_NANOS, JIFF_MIN_NANOS};
use jiff::civil::{Date, DateTime, Time};
use jiff::tz::{AmbiguousOffset, TimeZone, TimeZoneDatabase};
use jiff::Timestamp;
use vstd::prelude::*;

verus! {

/// Whether the bundled database knows a zone by this name, ignoring ASCII case.
pub uninterp spec fn tz_known(zone: Seq<char>) -> bool;

/// The wall-clock reading (year, month, day, hour, minute, second, nanosecond) that a zone
/// of the bundled database shows at an instant given in Unix-epoch nanoseconds inside
/// `jiff`'s range.
pub uninterp spec fn tz_civil(zone: Seq<char>, nanos: int) -> (int, int, int, int, int, int, int);

/// How a zone of the bundled database resolves a wall-clock reading: `(0, t, t)` for the
/// one instant `t`, `(1, a, b)` for a reading that occurs twice (`a` under the earlier
/// offset, `b` under the later one), `(2, a, b)` for a reading the clocks skip (`a` under
/// the offset before the gap, `b` under the offset after it). Instants are Unix-epoch
/// nanoseconds, `None` where an offset places the reading outside `jiff`'s range.
pub uninterp spec fn tz_local_resolution(
    zone: Seq<char>,
    y: int,
    m: int,
    d: int,
    h: int,
    mi: int,
    s: int,
    ns: int,
) -> (int, Option<int>, Option<int>);

/// An optional instant as an optional integer.
pub open spec fn nanos_opt(n: Option<i128>) -> Option<int> {
    match n {
        Some(x) => Some(x as int),
        None => None,
    }
}

/// Calls `TimeZoneDatabase::bundled().get`: whether the name is a zone in the bundled
/// database.
#[verifier::external_body]
pub(crate) fn zone_is_known(zone: &str) -> (r: bool)
    ensures
        r == tz_known(zone@),
{
    TimeZoneDatabase::bundled().get(zone).is_ok()
}

/// Looks the zone up with `TimeZoneDatabase::bundled().get` and calls
/// `TimeZone::to_datetime` on it for the instant built with `Timestamp::from_nanosecond`,
/// which succeeds inside `jiff`'s range. Claims `None` exactly when the bundled database
/// does not know the zone, and otherwise the reading `tz_civil` of the arguments, which,
/// as every `jiff` `DateTime` is, is a valid date and time of day.
#[verifier::external_body]
pub(crate) fn civil_reading_at(zone: &str, nanos: i128) -> (r: Option<(i16, i8, i8, i8, i8, i8, i32)>)
    requires
        JIFF_MIN_NANOS <= nanos <= JIFF_MAX_NANOS,
    ensures
        r is None <==> !tz_known(zone@),
        r matches Some(c) ==> (c.0 as int, c.1 as int, c.2 as int, c.3 as int, c.4 as int, c.5 as int, c.6 as int)
            == tz_civil(zone@, nanos as int) && valid_date(c.0 as int, c.1 as int, c.2 as int)
            && valid_time(c.3 as int, c.4 as int, c.5 as int, c.6 as int),
{
    let tz = match TimeZoneDatabase::bundled().get(zone) {
        Ok(tz) => tz,
        Err(_) => return None,
    };
    let timestamp = Timestamp::from_nanosecond(nanos).unwrap_or(Timestamp::UNIX_EPOCH);
    let dt = tz.to_datetime(timestamp);
    Some((dt.year(), dt.month(), dt.day(), dt.hour(), dt.minute(), dt.second(), dt.subsec_nanosecond()))
}

/// Calls `TimeZone::to_datetime` on `TimeZone::UTC`, whose offset is always zero, for the
/// instant built with `Timestamp::from_nanosecond`, which succeeds inside `jiff`'s range.
/// Claims the reading is `utc_civil` of the instant: its proleptic Gregorian date and time
/// of day, valid as every `jiff` `DateTime` is.
#[verifier::external_body]
pub(crate) fn utc_reading_at(nanos: i128) -> (r: (i16, i8, i8, i8, i8, i8, i32))
    requires
        JIFF_MIN_NANOS <= nanos <= JIFF_MAX_NANOS,
    ensures
        (r.0 as int, r.1 as int, r.2 as int, r.3 as int, r.4 as int, r.5 as int, r.6 as int)
            == utc_civil(nanos as int),
        valid_date(r.0 as int, r.1 as int, r.2 as int),
        valid_time(r.3 as int, r.4 as int, r.5 as int, r.6 as int),
{
    let timestamp = Timestamp::from_nanosecond(nanos).unwrap_or(Timestamp::UNIX_EPOCH);
    let dt = TimeZone::UTC.to_datetime(timestamp);
    (dt.year(), dt.month(), dt.day(), dt.hour(), dt.minute(), dt.second(), dt.subsec_nanosecond())
}

/// Looks the zone up with `TimeZoneDatabase::bundled().get`, calls
/// `TimeZone::to_ambiguous_timestamp(..).offset()` for the reading, and turns each offset
/// into an instant with `jiff::tz::Offset::to_timestamp`. Claims `None` exactly when the
/// bundled database does not know the zone, and otherwise `tz_local_resolution` of the
/// arguments with a kind of 0, 1 or 2, each instant `None` where its conversion fails;
/// which instants the zone's rules give is not stated.
#[verifier::external_body]
pub(crate) fn local_resolution(zone: &str, y: i16, m: i8, d: i8, h: i8, mi: i8, s: i8, ns: i32) -> (r: Option<(
    u8,
    Option<i128>,
    Option<i128>,
)>)
    requires
        valid_date(y as int, m as int, d as int),
        valid_time(h as int, mi as int, s as int, ns as int),
    ensures
        r is None <==> !tz_known(zone@),
        r matches Some(x) ==> (x.0 as int, nanos_opt(x.1), nanos_opt(x.2)) == tz_local_resolution(
            zone@,
            y as int,
            m as int,
            d as int,
            h as int,
            mi as int,
            s as int,
            ns as int,
        ) && x.0 <= 2,
{
    let Ok(tz) = TimeZoneDatabase::bundled().get(zone) else { return None };
    let dt = DateTime::new(y, m, d, h, mi, s, ns).unwrap_or_default();
    let (kind, a, b) = match tz.to_ambiguous_timestamp(dt).offset() {
        AmbiguousOffset::Unambiguous { offset } => (0, offset, offset),
        AmbiguousOffset::Fold { before, after } => (1, before, after),
        AmbiguousOffset::Gap { before, after } => (2, before, after),
    };
    let first = match a.to_timestamp(dt) { Ok(t) => Some(t.as_nanosecond()), Err(_) => None };
    let second = match b.to_timestamp(dt) { Ok(t) => Some(t.as_nanosecond()), Err(_) => None };
    Some((kind, first, second))
}

/// Calls `Date::weekday` and `Weekday::to_monday_one_offset`: the day of the
/// week of the proleptic Gregorian date, Monday = 1 through Sunday = 7.
#[verifier::external_body]
pub(crate) fn weekday_number(y: i16, m: i8, d: i8) -> (r: i8)
    requires
        valid_date(y as int, m as int, d as int),
    ensures
        r == weekday_from_civil(y as int, m as int, d as int),
{
    match Date::new(y, m, d) {
        Ok(date) => date.weekday().to_monday_one_offset(),
        Err(_) => 1,
    }
}

/// The civil datetime `jiff` parses from a text, as (year, month, day, hour, minute,
/// second, nanosecond), or `None` when it parses none.
pub uninterp spec fn jiff_datetime_parse(text: Seq<char>) -> Option<(int, int, int, int, int, int, int)>;

/// Calls `str::parse::<jiff::civil::DateTime>`. Claims the result is
/// `jiff_datetime_parse` of the text and, as every `jiff` `DateTime` is, a valid date and
/// time of day.
#[verifier::external_body]
pub(crate) fn parse_datetime(text: &str) -> (r: Option<(i16, i8, i8, i8, i8, i8, i32)>)
    ensures
        r matches Some(p) ==> jiff_datetime_parse(text@) == Some(
            (p.0 as int, p.1 as int, p.2 as int, p.3 as int, p.4 as int, p.5 as int, p.6 as int),
        ) && valid_date(p.0 as int, p.1 as int, p.2 as int) && valid_time(
            p.3 as int,
            p.4 as int,
            p.5 as int,
            p.6 as int,
        ),
        r is None <==> jiff_datetime_parse(text@) is None,
{
    match text.parse::<DateTime>() {
        Ok(dt) => Some((dt.year(), dt.month(), dt.day(), dt.hour(), dt.minute(), dt.second(), dt.subsec_nanosecond())),
        Err(_) => None,
    }
}

/// The calendar date `jiff` parses from a text, as (year, month, day), or `None` when it
/// parses none.
pub uninterp spec fn jiff_date_parse(text: Seq<char>) -> Option<(int, int, int)>;

/// Calls `str::parse::<jiff::civil::Date>`. Claims the result is `jiff_date_parse` of the
/// text and, as every `jiff` `Date` is, a valid date.
#[verifier::external_body]
pub(crate) fn parse_date(text: &str) -> (r: Option<(i16, i8, i8)>)
    ensures
        r matches Some(p) ==> jiff_date_parse(text@) == Some((p.0 as int, p.1 as int, p.2 as int))
            && valid_date(p.0 as int, p.1 as int, p.2 as int),
        r is None <==> jiff_date_parse(text@) is None,
{
    match text.parse::<Date>() {
        Ok(date) => Some((date.year(), date.month(), date.day())),
        Err(_) => None,
    }
}

/// The time of day `jiff` parses from a text, as (hour, minute, second, nanosecond), or
/// `None` when it parses none.
pub uninterp spec fn jiff_time_parse(text: Seq<char>) -> Option<(int, int, int, int)>;

/// Calls `str::parse::<jiff::civil::Time>`. Claims the result is `jiff_time_parse` of the
/// text and, as every `jiff` `Time` is, a valid time of day.
#[verifier::external_body]
pub(crate) fn parse_time(text: &str) -> (r: Option<(i8, i8, i8, i32)>)
    ensures
        r matches Some(p) ==> jiff_time_parse(text@) == Some(
            (p.0 as int, p.1 as int, p.2 as int, p.3 as int),
        ) && valid_time(p.0 as int, p.1 as int, p.2 as int, p.3 as int),
        r is None <==> jiff_time_parse(text@) is None,
{
    match text.parse::<Time>() {
        Ok(time) => Some((time.hour(), time.minute(), time.second(), time.subsec_nanosecond())),
        Err(_) => None,
    }
}

/// Calls `jiff::civil::Time::new` and formats the time with its `Display` impl, which
/// writes `time_of_day_text`. The arguments are a valid time, so `Time::new` succeeds.
#[verifier::external_body]
pub(crate) fn time_text(h: i8, m: i8, s: i8, ns: i32) -> (r: String)
    requires
        valid_time(h as int, m as int, s as int, ns as int),
    ensures
        r@ == time_of_day_text(h as int, m as int, s as int, ns as int),
{
    match Time::new(h, m, s, ns) {
        Ok(time) => time.to_string(),
        Err(_) => String::new(),
    }
}

} // verus!
