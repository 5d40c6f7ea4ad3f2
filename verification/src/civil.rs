//! Civil (wall-clock) dates and times, and their relation to instants in a named zone.
//!
//! Calendar arithmetic that is a few lines of definition (leap years, the next day) is
//! written and proved here. What a zone's rules say (offsets, daylight saving, the day of
//! the week) comes from the bundled IANA database through `jiff`.

use crate::ids::IanaZoneId;
use crate::instant::{instant_text, max_int, min_int, UtcInstant, JIFF_MAX_NANOS, JIFF_MIN_NANOS};
use crate::resolve::{resolution_of, resolve_reading};
use crate::text::{decimal_of, push_zero_padded, zero_padded};
use crate::zone::{
    civil_reading_at, jiff_datetime_parse, parse_datetime, tz_civil,
    tz_known, weekday_number, zone_is_known,
};
use vstd::prelude::*;

verus! {

/// Nanoseconds in one civil day.
pub const NANOS_PER_DAY: i64 = 86_400_000_000_000;

/// Whether `y` is a leap year in the proleptic Gregorian calendar.
pub open spec fn is_leap_year(y: int) -> bool {
    y % 4 == 0 && (y % 100 != 0 || y % 400 == 0)
}

/// The number of days in month `m` of year `y`.
pub open spec fn days_in_month(y: int, m: int) -> int {
    if m == 2 {
        if is_leap_year(y) {
            29
        } else {
            28
        }
    } else if m == 4 || m == 6 || m == 9 || m == 11 {
        30
    } else {
        31
    }
}

/// A valid calendar date in the range the bundled calendar supports (years -9999..=9999).
pub open spec fn valid_date(y: int, m: int, d: int) -> bool {
    -9999 <= y <= 9999 && 1 <= m <= 12 && 1 <= d <= days_in_month(y, m)
}

/// A position on the calendar that orders dates exactly as the calendar does.
pub open spec fn date_ordinal(y: int, m: int, d: int) -> int {
    y * 512 + m * 32 + d
}

/// A date as `jiff` writes one: `YYYY-MM-DD`, the year in four digits, led by `-00` when
/// it is negative.
pub open spec fn date_text(d: (int, int, int)) -> Seq<char> {
    let sign = if d.0 < 0 {
        "-00"@
    } else {
        Seq::<char>::empty()
    };
    let year = if d.0 < 0 {
        -d.0
    } else {
        d.0
    };
    sign + zero_padded(decimal_of(year as nat), 4) + "-"@ + zero_padded(decimal_of(d.1 as nat), 2)
        + "-"@ + zero_padded(decimal_of(d.2 as nat), 2)
}

/// The number of days from 1970-01-01 to a date of the proleptic Gregorian calendar.
pub open spec fn days_from_civil(y: int, m: int, d: int) -> int {
    let y2 = if m <= 2 {
        y - 1
    } else {
        y
    };
    let era = y2 / 400;
    let yoe = y2 - era * 400;
    let mp = if m > 2 {
        m - 3
    } else {
        m + 9
    };
    let doy = (153 * mp + 2) / 5 + d - 1;
    let doe = yoe * 365 + yoe / 4 - yoe / 100 + doy;
    era * 146097 + doe - 719468
}

/// The date of the proleptic Gregorian calendar that lies `z` days after 1970-01-01, as
/// (year, month, day).
pub open spec fn civil_from_days(z: int) -> (int, int, int) {
    let z2 = z + 719468;
    let era = z2 / 146097;
    let doe = z2 - era * 146097;
    let yoe = (doe - doe / 1460 + doe / 36524 - doe / 146096) / 365;
    let doy = doe - (365 * yoe + yoe / 4 - yoe / 100);
    let mp = (5 * doy + 2) / 153;
    let d = doy - (153 * mp + 2) / 5 + 1;
    let m = if mp < 10 {
        mp + 3
    } else {
        mp - 9
    };
    let y = yoe + era * 400;
    (if m <= 2 {
        y + 1
    } else {
        y
    }, m, d)
}

/// The wall-clock reading UTC shows at an instant given in Unix-epoch nanoseconds: the
/// proleptic Gregorian date of its day and its time of day, as (year, month, day, hour,
/// minute, second, nanosecond).
pub open spec fn utc_civil(nanos: int) -> (int, int, int, int, int, int, int) {
    let day = nanos / 86_400_000_000_000;
    let rem = nanos - day * 86_400_000_000_000;
    let d = civil_from_days(day);
    (
        d.0,
        d.1,
        d.2,
        rem / 3_600_000_000_000,
        rem / 60_000_000_000 % 60,
        rem / 1_000_000_000 % 60,
        rem % 1_000_000_000,
    )
}

/// The day of the week of a date, Monday = 1 through Sunday = 7: 1970-01-01 was a
/// Thursday.
pub open spec fn weekday_from_civil(y: int, m: int, d: int) -> int {
    (days_from_civil(y, m, d) + 3) % 7 + 1
}

/// A text without its trailing `0` characters.
pub open spec fn without_trailing_zeros(s: Seq<char>) -> Seq<char>
    decreases s.len(),
{
    if s.len() > 0 && s.last() == '0' {
        without_trailing_zeros(s.drop_last())
    } else {
        s
    }
}

/// A time of day as `jiff` writes one: `HH:MM:SS`, followed, when the nanosecond is not
/// zero, by `.` and its nine digits with the trailing zeros dropped.
#[verifier::opaque]
pub open spec fn time_of_day_text(h: int, m: int, s: int, ns: int) -> Seq<char> {
    zero_padded(decimal_of(h as nat), 2) + ":"@ + zero_padded(decimal_of(m as nat), 2) + ":"@
        + zero_padded(decimal_of(s as nat), 2) + if ns == 0 {
        Seq::<char>::empty()
    } else {
        "."@ + without_trailing_zeros(zero_padded(decimal_of(ns as nat), 9))
    }
}

/// A calendar date.
#[derive(Debug, Clone, Copy, PartialEq, Eq, PartialOrd, Ord, Hash)]
pub struct CivilDate {
    year: i16,
    month: i8,
    day: i8,
}

/// Why a calendar date or time of day could not be built.
#[derive(Debug, Clone, Copy, PartialEq, Eq)]
pub enum CivilValueError {
    /// The year, month and day do not name a date in the supported range.
    InvalidDate,
    /// The hour, minute, second and nanosecond do not name a time of day.
    InvalidTime,
}

impl View for CivilDate {
    type V = (int, int, int);

    closed spec fn view(&self) -> (int, int, int) {
        (self.year as int, self.month as int, self.day as int)
    }
}

impl CivilDate {
    #[verifier::type_invariant]
    closed spec fn inv(self) -> bool {
        valid_date(self.year as int, self.month as int, self.day as int)
    }

    /// Whether the date is valid (always true of a constructed date).
    pub open spec fn valid(self) -> bool {
        valid_date(self@.0, self@.1, self@.2)
    }

    /// The date's position on the calendar.
    pub open spec fn ordinal(self) -> int {
        date_ordinal(self@.0, self@.1, self@.2)
    }

    /// Builds a date from year, month (1-12) and day of month.
    pub fn new(year: i16, month: i8, day: i8) -> (r: Result<CivilDate, CivilValueError>)
        ensures
            valid_date(year as int, month as int, day as int) <==> r is Ok,
            r matches Ok(d) ==> d@ == (year as int, month as int, day as int),
            r matches Err(e) ==> e == CivilValueError::InvalidDate,
    {
        if -9999 <= year && year <= 9999 && 1 <= month && month <= 12 && 1 <= day && day
            <= month_length(year, month) {
            Ok(CivilDate { year, month, day })
        } else {
            Err(CivilValueError::InvalidDate)
        }
    }

    /// The year.
    pub fn year(self) -> (r: i16)
        ensures
            r == self@.0,
    {
        self.year
    }

    /// The month, 1-12.
    pub fn month(self) -> (r: i8)
        ensures
            r == self@.1,
    {
        self.month
    }

    /// The day of the month.
    pub fn day(self) -> (r: i8)
        ensures
            r == self@.2,
    {
        self.day
    }

    /// A constructed date is valid.
    pub fn check_valid(&self)
        ensures
            self.valid(),
    {
        proof {
            use_type_invariant(self);
        }
    }

    /// Whether `self` is strictly before `other` on the calendar.
    pub fn is_before(self, other: CivilDate) -> (r: bool)
        ensures
            r == (self.ordinal() < other.ordinal()),
    {
        proof {
            use_type_invariant(&self);
            use_type_invariant(&other);
        }
        if self.year != other.year {
            proof {
                if self.year < other.year {
                    assert(self.ordinal() < other.ordinal()) by (nonlinear_arith)
                        requires
                            self@.0 < other@.0,
                            1 <= self@.1 <= 12,
                            1 <= other@.1 <= 12,
                            1 <= self@.2 <= 31,
                            1 <= other@.2 <= 31,
                    ;
                } else {
                    assert(self.ordinal() > other.ordinal()) by (nonlinear_arith)
                        requires
                            self@.0 > other@.0,
                            1 <= self@.1 <= 12,
                            1 <= other@.1 <= 12,
                            1 <= self@.2 <= 31,
                            1 <= other@.2 <= 31,
                    ;
                }
            }
            self.year < other.year
        } else if self.month != other.month {
            self.month < other.month
        } else {
            self.day < other.day
        }
    }

    /// Whether `self` and `other` are the same date.
    pub fn same_as(self, other: CivilDate) -> (r: bool)
        ensures
            r == (self@ == other@),
            r == (self.ordinal() == other.ordinal()),
    {
        proof {
            use_type_invariant(&self);
            use_type_invariant(&other);
        }
        let r = self.year == other.year && self.month == other.month && self.day == other.day;
        proof {
            if !r && self.year != other.year {
                assert(self.ordinal() != other.ordinal()) by (nonlinear_arith)
                    requires
                        self@.0 != other@.0,
                        1 <= self@.1 <= 12,
                        1 <= other@.1 <= 12,
                        1 <= self@.2 <= 31,
                        1 <= other@.2 <= 31,
                ;
            }
        }
        r
    }

    /// The date as `jiff` writes one, `YYYY-MM-DD`.
    pub fn to_string(self) -> (r: String)
        ensures
            r@ == date_text(self@),
    {
        proof {
            use_type_invariant(&self);
            reveal_strlit("-00");
            reveal_strlit("-");
        }
        let mut out = String::new();
        if self.year < 0 {
            out.append("-00");
            push_zero_padded(&mut out, (-(self.year as i32)) as u128, 4);
        } else {
            push_zero_padded(&mut out, self.year as u128, 4);
        }
        out.append("-");
        push_zero_padded(&mut out, self.month as u128, 2);
        out.append("-");
        push_zero_padded(&mut out, self.day as u128, 2);
        assert(out@ =~= date_text(self@));
        out
    }

    /// The next calendar day, or `None` after the last supported date.
    pub fn tomorrow(self) -> (r: Option<CivilDate>)
        ensures
            r matches Some(n) ==> n@ == next_date(self@.0, self@.1, self@.2) && n.ordinal()
                > self.ordinal(),
            r is None <==> (self@ == (9999int, 12int, 31int)),
    {
        proof {
            use_type_invariant(&self);
        }
        if self.day < month_length(self.year, self.month) {
            Some(CivilDate { year: self.year, month: self.month, day: self.day + 1 })
        } else if self.month < 12 {
            Some(CivilDate { year: self.year, month: self.month + 1, day: 1 })
        } else if self.year < 9999 {
            proof {
                assert(date_ordinal(self.year + 1, 1, 1) > self.ordinal()) by (nonlinear_arith)
                    requires
                        self@.1 == 12,
                        self@.2 <= 31,
                ;
            }
            Some(CivilDate { year: self.year + 1, month: 1, day: 1 })
        } else {
            None
        }
    }
}

/// The day after `(y, m, d)`.
pub open spec fn next_date(y: int, m: int, d: int) -> (int, int, int) {
    if d < days_in_month(y, m) {
        (y, m, d + 1)
    } else if m < 12 {
        (y, m + 1, 1)
    } else {
        (y + 1, 1, 1)
    }
}

/// Executable month length.
pub fn month_length(year: i16, month: i8) -> (r: i8)
    ensures
        r == days_in_month(year as int, month as int),
{
    if month == 2 {
        if year % 4 == 0 && (year % 100 != 0 || year % 400 == 0) {
            29
        } else {
            28
        }
    } else if month == 4 || month == 6 || month == 9 || month == 11 {
        30
    } else {
        31
    }
}

/// A valid time of day.
pub open spec fn valid_time(h: int, m: int, s: int, ns: int) -> bool {
    0 <= h <= 23 && 0 <= m <= 59 && 0 <= s <= 59 && 0 <= ns <= 999_999_999
}

/// Nanoseconds since midnight of a time of day.
pub open spec fn nanos_of_day(h: int, m: int, s: int, ns: int) -> int {
    ((h * 60 + m) * 60 + s) * 1_000_000_000 + ns
}

/// A time of day, to the nanosecond.
#[derive(Debug, Clone, Copy, PartialEq, Eq, PartialOrd, Ord, Hash)]
pub struct CivilTime {
    hour: i8,
    minute: i8,
    second: i8,
    subsec_nanosecond: i32,
}

impl View for CivilTime {
    type V = (int, int, int, int);

    closed spec fn view(&self) -> (int, int, int, int) {
        (self.hour as int, self.minute as int, self.second as int, self.subsec_nanosecond as int)
    }
}

impl CivilTime {
    #[verifier::type_invariant]
    closed spec fn inv(self) -> bool {
        valid_time(
            self.hour as int,
            self.minute as int,
            self.second as int,
            self.subsec_nanosecond as int,
        )
    }

    /// Whether the time is valid (always true of a constructed time).
    pub open spec fn valid(self) -> bool {
        valid_time(self@.0, self@.1, self@.2, self@.3)
    }

    /// Nanoseconds since midnight.
    pub open spec fn since_midnight(self) -> int {
        nanos_of_day(self@.0, self@.1, self@.2, self@.3)
    }

    /// Builds a time of day.
    pub fn new(hour: i8, minute: i8, second: i8, subsec_nanosecond: i32) -> (r: Result<
        CivilTime,
        CivilValueError,
    >)
        ensures
            valid_time(hour as int, minute as int, second as int, subsec_nanosecond as int)
                <==> r is Ok,
            r matches Ok(t) ==> t@ == (
                hour as int,
                minute as int,
                second as int,
                subsec_nanosecond as int,
            ),
            r matches Err(e) ==> e == CivilValueError::InvalidTime,
    {
        if 0 <= hour && hour <= 23 && 0 <= minute && minute <= 59 && 0 <= second && second <= 59
            && 0 <= subsec_nanosecond && subsec_nanosecond <= 999_999_999 {
            Ok(CivilTime { hour, minute, second, subsec_nanosecond })
        } else {
            Err(CivilValueError::InvalidTime)
        }
    }

    /// Midnight, `00:00`.
    pub fn midnight() -> (r: CivilTime)
        ensures
            r@ == (0int, 0int, 0int, 0int),
            r.since_midnight() == 0,
    {
        CivilTime { hour: 0, minute: 0, second: 0, subsec_nanosecond: 0 }
    }

    /// The hour.
    pub fn hour(self) -> (r: i8)
        ensures
            r == self@.0,
    {
        self.hour
    }

    /// The minute.
    pub fn minute(self) -> (r: i8)
        ensures
            r == self@.1,
    {
        self.minute
    }

    /// The second.
    pub fn second(self) -> (r: i8)
        ensures
            r == self@.2,
    {
        self.second
    }

    /// The sub-second nanosecond.
    pub fn subsec_nanosecond(self) -> (r: i32)
        ensures
            r == self@.3,
    {
        self.subsec_nanosecond
    }

    /// A constructed time is valid.
    pub fn check_valid(&self)
        ensures
            self.valid(),
            0 <= self.since_midnight() < NANOS_PER_DAY,
    {
        proof {
            use_type_invariant(self);
            lemma_nanos_of_day_bounds(self@.0, self@.1, self@.2, self@.3);
        }
    }

    /// Nanoseconds since midnight.
    pub fn nanos_since_midnight(self) -> (r: i64)
        ensures
            r == self.since_midnight(),
            0 <= r < NANOS_PER_DAY,
    {
        proof {
            use_type_invariant(&self);
            lemma_nanos_of_day_bounds(self@.0, self@.1, self@.2, self@.3);
        }
        ((self.hour as i64 * 60 + self.minute as i64) * 60 + self.second as i64) * 1_000_000_000
            + self.subsec_nanosecond as i64
    }

    /// Whether `self` is strictly earlier in the day than `other`.
    pub fn is_before(self, other: CivilTime) -> (r: bool)
        ensures
            r == (self.since_midnight() < other.since_midnight()),
    {
        self.nanos_since_midnight() < other.nanos_since_midnight()
    }
}

/// The nanoseconds of a valid time of day lie within one day.
pub proof fn lemma_nanos_of_day_bounds(h: int, m: int, s: int, ns: int)
    requires
        valid_time(h, m, s, ns),
    ensures
        0 <= nanos_of_day(h, m, s, ns) < NANOS_PER_DAY,
{
    assert(0 <= nanos_of_day(h, m, s, ns) < 86_400_000_000_000) by (nonlinear_arith)
        requires
            valid_time(h, m, s, ns),
    ;
}

/// A day of the week.
#[derive(Debug, Clone, Copy, PartialEq, Eq, Structural, PartialOrd, Ord, Hash)]
pub enum Weekday {
    /// Monday.
    Monday,
    /// Tuesday.
    Tuesday,
    /// Wednesday.
    Wednesday,
    /// Thursday.
    Thursday,
    /// Friday.
    Friday,
    /// Saturday.
    Saturday,
    /// Sunday.
    Sunday,
}

/// The weekday numbered `n`, Monday = 1 through Sunday = 7.
pub open spec fn weekday_numbered(n: int) -> Weekday {
    if n == 1 {
        Weekday::Monday
    } else if n == 2 {
        Weekday::Tuesday
    } else if n == 3 {
        Weekday::Wednesday
    } else if n == 4 {
        Weekday::Thursday
    } else if n == 5 {
        Weekday::Friday
    } else if n == 6 {
        Weekday::Saturday
    } else {
        Weekday::Sunday
    }
}

/// The weekday of a date, as the bundled calendar reports it.
pub open spec fn weekday_of(d: CivilDate) -> Weekday {
    weekday_numbered(weekday_from_civil(d@.0, d@.1, d@.2))
}

impl CivilDate {
    /// The day of the week.
    pub fn weekday(self) -> (r: Weekday)
        ensures
            r == weekday_of(self),
    {
        proof {
            use_type_invariant(&self);
        }
        let n = weekday_number(self.year, self.month, self.day);
        if n == 1 {
            Weekday::Monday
        } else if n == 2 {
            Weekday::Tuesday
        } else if n == 3 {
            Weekday::Wednesday
        } else if n == 4 {
            Weekday::Thursday
        } else if n == 5 {
            Weekday::Friday
        } else if n == 6 {
            Weekday::Saturday
        } else {
            Weekday::Sunday
        }
    }
}

/// An instant in Unix-epoch nanoseconds saturated at `jiff`'s range.
pub open spec fn saturated_nanos(nanos: int) -> int {
    if nanos < JIFF_MIN_NANOS {
        JIFF_MIN_NANOS as int
    } else if nanos > JIFF_MAX_NANOS {
        JIFF_MAX_NANOS as int
    } else {
        nanos
    }
}

/// The calendar date a zone shows at an instant, the instant saturated at `jiff`'s range.
pub open spec fn local_date_at(zone: Seq<char>, nanos: int) -> (int, int, int) {
    let r = tz_civil(zone, saturated_nanos(nanos));
    (r.0, r.1, r.2)
}

/// The time of day a zone shows at an instant, the instant saturated at `jiff`'s range.
pub open spec fn local_time_at(zone: Seq<char>, nanos: int) -> (int, int, int, int) {
    let r = tz_civil(zone, saturated_nanos(nanos));
    (r.3, r.4, r.5, r.6)
}

/// The wall-clock reading the named zone shows at `at`, saturated at the first and last
/// instants of `jiff`'s range.
pub fn local_reading(zone: &str, at: UtcInstant) -> (r: (CivilDate, CivilTime))
    requires
        tz_known(zone@),
    ensures
        r.0@ == local_date_at(zone@, at.nanos()),
        r.1@ == local_time_at(zone@, at.nanos()),
{
    let n = at.as_nanos_since_unix_epoch();
    let nanos = if n < JIFF_MIN_NANOS {
        JIFF_MIN_NANOS
    } else if n > JIFF_MAX_NANOS {
        JIFF_MAX_NANOS
    } else {
        n
    };
    let (y, m, d, h, mi, s, ns) = match civil_reading_at(zone, nanos) {
        Some(reading) => reading,
        None => {
            proof {
                assert(false);
            }
            (1970, 1, 1, 0, 0, 0, 0)
        },
    };
    (CivilDate { year: y, month: m, day: d }, CivilTime {
        hour: h,
        minute: mi,
        second: s,
        subsec_nanosecond: ns,
    })
}

/// Every valid date between a date and its successor is one of the two: walking dates
/// with `tomorrow` skips none.
pub proof fn lemma_no_date_between(y: int, m: int, d: int, e: (int, int, int))
    requires
        valid_date(y, m, d),
        valid_date(e.0, e.1, e.2),
        date_ordinal(y, m, d) < date_ordinal(e.0, e.1, e.2),
    ensures
        date_ordinal(next_date(y, m, d).0, next_date(y, m, d).1, next_date(y, m, d).2)
            <= date_ordinal(e.0, e.1, e.2),
{
    if d < days_in_month(y, m) {
    } else if m < 12 {
        if e.0 == y && e.1 == m {
        } else if e.0 == y {
            assert(e.1 > m);
        } else {
            assert(e.0 > y) by {
                if e.0 < y {
                    assert(date_ordinal(e.0, e.1, e.2) < date_ordinal(y, m, d));
                }
            }
        }
    } else {
        assert(e.0 > y) by {
            if e.0 <= y {
                assert(date_ordinal(e.0, e.1, e.2) <= date_ordinal(y, m, d));
            }
        }
    }
}

/// Distinct valid dates have distinct ordinals, and ordinals order dates.
pub proof fn lemma_ordinal_injective(a: (int, int, int), b: (int, int, int))
    requires
        valid_date(a.0, a.1, a.2),
        valid_date(b.0, b.1, b.2),
        date_ordinal(a.0, a.1, a.2) == date_ordinal(b.0, b.1, b.2),
    ensures
        a == b,
{
    if a.0 < b.0 {
        assert(date_ordinal(a.0, a.1, a.2) < date_ordinal(b.0, b.1, b.2));
    } else if a.0 > b.0 {
        assert(date_ordinal(a.0, a.1, a.2) > date_ordinal(b.0, b.1, b.2));
    } else if a.1 < b.1 {
    } else if a.1 > b.1 {
    }
}

/// A wall-clock reading together with the zone it is a reading in. The zone is part of
/// the value: a civil datetime without its zone names no instant, and this type does not
/// exist in that state. The zone is always one the bundled database knows.
#[derive(Debug, PartialEq, Eq)]
pub struct CivilInstant {
    zone_id: IanaZoneId,
    date: CivilDate,
    time: CivilTime,
}

/// What a wall-clock reading resolves to. There is deliberately no pick-one shortcut: a
/// caller that wants one occurrence of an ambiguous reading says so itself.
#[derive(Debug, Clone, Copy, PartialEq, Eq)]
pub enum CivilResolution {
    /// Exactly one instant bears this reading.
    Unambiguous(UtcInstant),
    /// Two instants bear it, because the clocks went back.
    Ambiguous {
        /// The first occurrence.
        earlier: UtcInstant,
        /// The second.
        later: UtcInstant,
    },
    /// No instant bears it, because the clocks jumped over it.
    Nonexistent {
        /// What it would name under the pre-transition offset.
        as_if_before_shift: UtcInstant,
        /// What it would name under the post-transition offset.
        as_if_after_shift: UtcInstant,
    },
}

/// Why a civil reading could not be built.
#[derive(Debug, Clone, PartialEq, Eq)]
pub enum CivilError {
    /// The zone is not in the bundled IANA database.
    UnknownZone {
        /// The zone that was named.
        zone: IanaZoneId,
    },
    /// The text is not a civil datetime.
    Unparseable {
        /// The text that was given.
        value: String,
    },
}

/// The resolution a zone's `(kind, a, b)` answer describes: one instant, the two
/// occurrences in order, or the two readings of a skipped time.
pub open spec fn resolution_value(res: (int, int, int)) -> CivilResolution {
    if res.0 == 1 {
        CivilResolution::Ambiguous {
            earlier: UtcInstant { nanos_since_unix_epoch: min_int(res.1, res.2) as i128 },
            later: UtcInstant { nanos_since_unix_epoch: max_int(res.1, res.2) as i128 },
        }
    } else if res.0 == 2 {
        CivilResolution::Nonexistent {
            as_if_before_shift: UtcInstant { nanos_since_unix_epoch: res.1 as i128 },
            as_if_after_shift: UtcInstant { nanos_since_unix_epoch: res.2 as i128 },
        }
    } else {
        CivilResolution::Unambiguous(UtcInstant { nanos_since_unix_epoch: res.1 as i128 })
    }
}

impl CivilInstant {
    #[verifier::type_invariant]
    closed spec fn inv(self) -> bool {
        tz_known(self.zone_id@)
    }

    /// The zone.
    pub closed spec fn spec_zone(self) -> IanaZoneId {
        self.zone_id
    }

    /// The date of the reading.
    pub closed spec fn spec_date(self) -> CivilDate {
        self.date
    }

    /// The time of day of the reading.
    pub closed spec fn spec_time(self) -> CivilTime {
        self.time
    }

    /// Binds a civil reading to a zone; fails exactly when the bundled database does not
    /// know the zone.
    pub fn new(zone_id: IanaZoneId, date: CivilDate, time: CivilTime) -> (r: Result<CivilInstant, CivilError>)
        ensures
            r is Ok <==> tz_known(zone_id@),
            r matches Ok(c) ==> c.spec_zone() == zone_id && c.spec_date() == date && c.spec_time() == time,
            r matches Err(e) ==> e == (CivilError::UnknownZone { zone: zone_id }),
    {
        if !zone_is_known(zone_id.as_str()) {
            return Err(CivilError::UnknownZone { zone: zone_id });
        }
        Ok(CivilInstant { zone_id, date, time })
    }

    /// Parses a civil datetime such as `2026-07-15T09:30:00` in the named zone. A reading
    /// that does not exist in the zone still parses: existence is what `to_utc` answers.
    pub fn parse(zone_id: IanaZoneId, text: &str) -> (r: Result<CivilInstant, CivilError>)
        ensures
            jiff_datetime_parse(text@) is None ==> (r matches Err(CivilError::Unparseable { value })
                && value@ == text@),
            jiff_datetime_parse(text@) matches Some(p) ==> (r is Ok <==> tz_known(zone_id@)) && (r matches Ok(c) ==> c.spec_zone()
                == zone_id && c.spec_date()@ == (p.0, p.1, p.2) && c.spec_time()@ == (p.3, p.4, p.5, p.6))
                && (r matches Err(e) ==> e == (CivilError::UnknownZone { zone: zone_id })),
    {
        match parse_datetime(text) {
            None => Err(CivilError::Unparseable { value: String::from_str(text) }),
            Some((y, m, d, h, mi, s, ns)) => CivilInstant::new(
                zone_id,
                CivilDate { year: y, month: m, day: d },
                CivilTime { hour: h, minute: mi, second: s, subsec_nanosecond: ns },
            ),
        }
    }

    /// The zone this reading is in.
    pub fn zone(&self) -> (r: &IanaZoneId)
        ensures
            *r == self.spec_zone(),
    {
        &self.zone_id
    }

    /// The date of the reading.
    pub fn date(&self) -> (r: CivilDate)
        ensures
            r == self.spec_date(),
    {
        self.date
    }

    /// The time of day of the reading.
    pub fn time(&self) -> (r: CivilTime)
        ensures
            r == self.spec_time(),
    {
        self.time
    }

    /// Which instant this reading names, if any: the usual one, the two when the clocks go
    /// back, or none when they jump over it.
    pub fn to_utc(&self) -> (r: CivilResolution)
        ensures
            r == resolution_value(resolution_of(self.spec_zone()@, self.spec_date()@, self.spec_time()@)),
    {
        proof {
            use_type_invariant(self);
        }
        let (kind, a, b) = resolve_reading(self.zone_id.as_str(), self.date, self.time);
        if kind == 1 {
            let (earlier, later) = if b < a {
                (b, a)
            } else {
                (a, b)
            };
            CivilResolution::Ambiguous {
                earlier: UtcInstant::from_nanos_since_unix_epoch(earlier),
                later: UtcInstant::from_nanos_since_unix_epoch(later),
            }
        } else if kind == 2 {
            CivilResolution::Nonexistent {
                as_if_before_shift: UtcInstant::from_nanos_since_unix_epoch(a),
                as_if_after_shift: UtcInstant::from_nanos_since_unix_epoch(b),
            }
        } else {
            CivilResolution::Unambiguous(UtcInstant::from_nanos_since_unix_epoch(a))
        }
    }
}

impl Clone for CivilInstant {
    fn clone(&self) -> (r: CivilInstant)
        ensures
            r.spec_zone()@ == self.spec_zone()@,
            r.spec_date() == self.spec_date(),
            r.spec_time() == self.spec_time(),
    {
        proof {
            use_type_invariant(self);
        }
        CivilInstant { zone_id: self.zone_id.duplicate(), date: self.date, time: self.time }
    }
}

impl CivilResolution {
    /// The instant, when there is exactly one; `None` for both daylight-saving cases.
    pub fn unambiguous(self) -> (r: Option<UtcInstant>)
        ensures
            r == (match self {
                CivilResolution::Unambiguous(instant) => Some(instant),
                _ => None,
            }),
    {
        match self {
            CivilResolution::Unambiguous(instant) => Some(instant),
            _ => None,
        }
    }

    /// Whether the reading names exactly one instant.
    pub fn is_unambiguous(self) -> (r: bool)
        ensures
            r == (self is Unambiguous),
    {
        matches!(self, CivilResolution::Unambiguous(_))
    }

    /// The resolution in words.
    pub fn describe(self) -> (r: String)
        ensures
            r@ == resolution_text(self),
    {
        match self {
            CivilResolution::Unambiguous(instant) => instant.to_string(),
            CivilResolution::Ambiguous { earlier, later } => {
                let mut out = String::from_str("occurs twice: ");
                out.append(earlier.to_string().as_str());
                out.append(" and ");
                out.append(later.to_string().as_str());
                out.append("; which one is meant is the caller's to say");
                out
            },
            CivilResolution::Nonexistent { as_if_before_shift, as_if_after_shift } => {
                let mut out = String::from_str("does not exist: the clocks jumped from ");
                out.append(as_if_after_shift.to_string().as_str());
                out.append(" to ");
                out.append(as_if_before_shift.to_string().as_str());
                out
            },
        }
    }
}

/// A resolution in words.
pub open spec fn resolution_text(r: CivilResolution) -> Seq<char> {
    match r {
        CivilResolution::Unambiguous(instant) => instant_text(instant.nanos()),
        CivilResolution::Ambiguous { earlier, later } => "occurs twice: "@ + instant_text(earlier.nanos())
            + " and "@ + instant_text(later.nanos()) + "; which one is meant is the caller's to say"@,
        CivilResolution::Nonexistent { as_if_before_shift, as_if_after_shift } =>
            "does not exist: the clocks jumped from "@ + instant_text(as_if_after_shift.nanos()) + " to "@
                + instant_text(as_if_before_shift.nanos()),
    }
}

} // verus!
