//! Explicit UTC instants and half-open intervals of them.

use crate::civil::{civil_from_days, date_text, time_of_day_text};
use vstd::prelude::*;

verus! {

/// Nanoseconds in one second.
pub const NANOS_PER_SECOND: i128 = 1_000_000_000;

/// An absolute UTC instant represented as nanoseconds since the Unix epoch.
///
/// There is deliberately no `now()` constructor: the instant is always supplied.
#[derive(Clone, Copy, Debug, Eq, Hash, Ord, PartialEq)]
pub struct UtcInstant {
    /// Nanoseconds since the Unix epoch.
    pub nanos_since_unix_epoch: i128,
}

impl UtcInstant {
    /// The nanosecond count, as a mathematical integer.
    pub open spec fn nanos(self) -> int {
        self.nanos_since_unix_epoch as int
    }

    /// Constructs an instant from a caller-supplied Unix-epoch nanosecond count.
    pub fn from_nanos_since_unix_epoch(nanos: i128) -> (r: Self)
        ensures
            r.nanos() == nanos,
    {
        UtcInstant { nanos_since_unix_epoch: nanos }
    }

    /// Constructs an instant from whole seconds since the Unix epoch.
    pub fn from_seconds_since_unix_epoch(seconds: i64) -> (r: Self)
        ensures
            r.nanos() == seconds * NANOS_PER_SECOND,
    {
        assert(i64::MIN * 1_000_000_000 <= seconds * 1_000_000_000 <= i64::MAX * 1_000_000_000)
            by (nonlinear_arith);
        UtcInstant { nanos_since_unix_epoch: (seconds as i128) * NANOS_PER_SECOND }
    }

    /// Returns the represented Unix-epoch nanosecond count without loss.
    pub fn as_nanos_since_unix_epoch(self) -> (r: i128)
        ensures
            r == self.nanos(),
    {
        self.nanos_since_unix_epoch
    }

    /// Whether `self` is strictly before `other`.
    pub fn is_before(self, other: UtcInstant) -> (r: bool)
        ensures
            r == (self.nanos() < other.nanos()),
    {
        self.nanos_since_unix_epoch < other.nanos_since_unix_epoch
    }

    /// Whether `self` and `other` are the same instant.
    pub fn same_as(self, other: UtcInstant) -> (r: bool)
        ensures
            r == (self.nanos() == other.nanos()),
            r == (self == other),
    {
        self.nanos_since_unix_epoch == other.nanos_since_unix_epoch
    }

    /// `self` moved by `delta` nanoseconds, saturating at the representable range.
    pub fn saturating_add_nanos(self, delta: i128) -> (r: UtcInstant)
        ensures
            r.nanos() == clamp_i128(self.nanos() + delta),
    {
        let nanos = match self.nanos_since_unix_epoch.checked_add(delta) {
            Some(sum) => sum,
            None => if delta < 0 {
                i128::MIN
            } else {
                i128::MAX
            },
        };
        UtcInstant { nanos_since_unix_epoch: nanos }
    }

    /// Nanoseconds from `self` to `later`, saturating at the representable range.
    pub fn saturating_nanos_until(self, later: UtcInstant) -> (r: i128)
        ensures
            r == clamp_i128(later.nanos() - self.nanos()),
    {
        match later.nanos_since_unix_epoch.checked_sub(self.nanos_since_unix_epoch) {
            Some(difference) => difference,
            None => if self.nanos_since_unix_epoch > 0 {
                i128::MIN
            } else {
                i128::MAX
            },
        }
    }
}

/// An integer clamped into the `i128` range.
pub open spec fn clamp_i128(x: int) -> int {
    if x < i128::MIN {
        i128::MIN as int
    } else if x > i128::MAX {
        i128::MAX as int
    } else {
        x
    }
}

/// A non-empty half-open interval `[start, end)` of instants.
#[derive(Clone, Copy, Debug, Eq, Hash, PartialEq)]
pub struct Interval {
    /// First instant inside the interval.
    pub start: UtcInstant,
    /// First instant after the interval.
    pub end: UtcInstant,
}

/// Why an interval could not be built.
#[derive(Clone, Copy, Debug, Eq, PartialEq)]
pub enum IntervalError {
    /// `end` did not come strictly after `start`.
    NotIncreasing {
        /// The proposed start.
        start: UtcInstant,
        /// The proposed end.
        end: UtcInstant,
    },
}

impl Interval {
    /// A well-formed interval is non-empty.
    pub open spec fn wf(self) -> bool {
        self.start.nanos() < self.end.nanos()
    }

    /// Whether `at` lies in `[start, end)`.
    pub open spec fn spec_contains(self, at: UtcInstant) -> bool {
        self.start.nanos() <= at.nanos() < self.end.nanos()
    }

    /// Builds `[start, end)`.
    pub fn new(start: UtcInstant, end: UtcInstant) -> (r: Result<Interval, IntervalError>)
        ensures
            (start.nanos() < end.nanos()) <==> r is Ok,
            r matches Ok(i) ==> i.start == start && i.end == end && i.wf(),
            r matches Err(e) ==> e == (IntervalError::NotIncreasing { start, end }),
    {
        if start.is_before(end) {
            Ok(Interval { start, end })
        } else {
            Err(IntervalError::NotIncreasing { start, end })
        }
    }

    /// Whether `at` lies in `[start, end)`.
    pub fn contains(self, at: UtcInstant) -> (r: bool)
        ensures
            r == self.spec_contains(at),
    {
        !at.is_before(self.start) && at.is_before(self.end)
    }

    /// The overlap of two intervals, when it is non-empty.
    pub fn intersection(self, other: Interval) -> (r: Option<Interval>)
        ensures
            r is Some <==> (max_int(self.start.nanos(), other.start.nanos()) < min_int(
                self.end.nanos(),
                other.end.nanos(),
            )),
            r matches Some(i) ==> i.wf() && i.start.nanos() == max_int(
                self.start.nanos(),
                other.start.nanos(),
            ) && i.end.nanos() == min_int(self.end.nanos(), other.end.nanos()),
            r matches Some(i) ==> forall|t: UtcInstant|
                i.spec_contains(t) <==> (self.spec_contains(t) && other.spec_contains(t)),
    {
        let start = if self.start.is_before(other.start) {
            other.start
        } else {
            self.start
        };
        let end = if self.end.is_before(other.end) {
            self.end
        } else {
            other.end
        };
        if start.is_before(end) {
            Some(Interval { start, end })
        } else {
            None
        }
    }
}

/// The larger of two integers.
pub open spec fn max_int(a: int, b: int) -> int {
    if a < b {
        b
    } else {
        a
    }
}

/// The smaller of two integers.
pub open spec fn min_int(a: int, b: int) -> int {
    if a < b {
        a
    } else {
        b
    }
}

/// The earliest instant `jiff` represents, in Unix-epoch nanoseconds.
pub const JIFF_MIN_NANOS: i128 = -377_705_023_201_000_000_000;

/// The latest instant `jiff` represents, in Unix-epoch nanoseconds.
pub const JIFF_MAX_NANOS: i128 = 253_402_207_200_999_999_999;

/// The RFC 3339 text `jiff`'s `Timestamp` displays for an instant inside its range, such
/// as `2026-07-30T02:00:00Z`: the UTC date, `T`, the UTC time of day, and `Z`.
pub open spec fn rfc3339_text(nanos: int) -> Seq<char> {
    let day = nanos / 86_400_000_000_000;
    let rem = nanos - day * 86_400_000_000_000;
    date_text(civil_from_days(day)) + "T"@ + time_of_day_text(
        rem / 3_600_000_000_000,
        rem / 60_000_000_000 % 60,
        rem / 1_000_000_000 % 60,
        rem % 1_000_000_000,
    ) + "Z"@
}

/// Calls `jiff::Timestamp::from_nanosecond` and formats the timestamp with its `Display`
/// impl. `from_nanosecond` fails exactly outside `[JIFF_MIN_NANOS, JIFF_MAX_NANOS]`, the
/// range its source admits; then there is no text.
#[verifier::external_body]
fn timestamp_text(nanos: i128) -> (r: Option<String>)
    ensures
        r is Some <==> JIFF_MIN_NANOS <= nanos <= JIFF_MAX_NANOS,
        r matches Some(s) ==> s@ == rfc3339_text(nanos as int),
{
    match jiff::Timestamp::from_nanosecond(nanos) {
        Ok(timestamp) => Some(timestamp.to_string()),
        Err(_) => None,
    }
}

/// What `jiff`'s `Timestamp` parser makes of a text: the instant in Unix-epoch
/// nanoseconds, or the text of the error it reports.
pub uninterp spec fn timestamp_parse(text: Seq<char>) -> Result<int, Seq<char>>;

/// A count of nanoseconds, or none, as integers.
pub open spec fn nanos_option(r: Option<i128>) -> Option<int> {
    match r {
        Some(n) => Some(n as int),
        None => None,
    }
}

/// A count of nanoseconds, or an error text, by their views.
pub open spec fn nanos_result(r: Result<i128, String>) -> Result<int, Seq<char>> {
    match r {
        Ok(n) => Ok(n as int),
        Err(e) => Err(e@),
    }
}

/// The instant `jiff` parses an RFC 3339 text as, in Unix-epoch nanoseconds, or `None`
/// when it parses none.
pub open spec fn rfc3339_parse(text: Seq<char>) -> Option<int> {
    match timestamp_parse(text) {
        Ok(n) => Some(n),
        Err(_) => None,
    }
}

/// Calls `str::parse::<jiff::Timestamp>` and reads the timestamp back with
/// `as_nanosecond`. Claims the result is `rfc3339_parse` of the text and, as every
/// `Timestamp` is, inside `[JIFF_MIN_NANOS, JIFF_MAX_NANOS]`.
#[verifier::external_body]
pub(crate) fn parse_timestamp(text: &str) -> (r: Option<i128>)
    ensures
        rfc3339_parse(text@) == nanos_option(r),
        r matches Some(n) ==> JIFF_MIN_NANOS <= n <= JIFF_MAX_NANOS,
{
    match text.parse::<jiff::Timestamp>() {
        Ok(timestamp) => Some(timestamp.as_nanosecond()),
        Err(_) => None,
    }
}

/// Calls `str::parse::<jiff::Timestamp>`: the instant as `as_nanosecond` reads it back,
/// inside `[JIFF_MIN_NANOS, JIFF_MAX_NANOS]`, or the text of the parse error.
#[verifier::external_body]
pub(crate) fn parse_timestamp_or_error(text: &str) -> (r: Result<i128, String>)
    ensures
        timestamp_parse(text@) == nanos_result(r),
        r matches Ok(n) ==> JIFF_MIN_NANOS <= n <= JIFF_MAX_NANOS,
{
    match text.parse::<jiff::Timestamp>() {
        Ok(timestamp) => Ok(timestamp.as_nanosecond()),
        Err(error) => Err(error.to_string()),
    }
}

/// How an instant is written: its RFC 3339 text inside `jiff`'s range, and its raw
/// nanosecond count outside it.
pub open spec fn instant_text(n: int) -> Seq<char> {
    if JIFF_MIN_NANOS <= n <= JIFF_MAX_NANOS {
        rfc3339_text(n)
    } else {
        crate::text::signed_decimal_of(n) + " ns since the Unix epoch"@
    }
}

impl UtcInstant {
    /// The instant as text: RFC 3339 where the calendar reaches, the raw nanosecond count
    /// beyond it.
    pub fn to_string(&self) -> (r: String)
        ensures
            r@ == instant_text(self.nanos()),
    {
        match timestamp_text(self.nanos_since_unix_epoch) {
            Some(text) => text,
            None => {
                let mut out = String::new();
                crate::text::push_signed_decimal(&mut out, self.nanos_since_unix_epoch);
                out.append(" ns since the Unix epoch");
                proof {
                    assert(out@ =~= instant_text(self.nanos()));
                }
                out
            },
        }
    }
}

/// The message for an interval that does not end after it starts.
pub open spec fn interval_error_text(e: IntervalError) -> Seq<char> {
    match e {
        IntervalError::NotIncreasing { start, end } => "interval end "@ + instant_text(end.nanos())
            + " is not after its start "@ + instant_text(start.nanos()),
    }
}

impl IntervalError {
    /// The message a shell prints for this error.
    pub fn describe(&self) -> (r: String)
        ensures
            r@ == interval_error_text(*self),
    {
        match self {
            IntervalError::NotIncreasing { start, end } => {
                let mut out = String::from_str("interval end ");
                let end_text = end.to_string();
                out.append(end_text.as_str());
                out.append(" is not after its start ");
                let start_text = start.to_string();
                out.append(start_text.as_str());
                proof {
                    reveal_strlit("interval end ");
                    reveal_strlit(" is not after its start ");
                }
                out
            },
        }
    }
}

} // verus!
