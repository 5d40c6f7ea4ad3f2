//! The time scales an instant can arrive in. The vocabulary lives here, and the integer
//! step that ends a conversion; reading a scaled count of seconds through the leap-second
//! table is floating-point work the application shell does.

use crate::instant::UtcInstant;
use crate::text::text_eq;
use vstd::prelude::*;

verus! {

/// A time scale an incoming instant may be expressed in.
#[derive(Debug, Clone, Copy, PartialEq, Eq, Structural, Hash)]
pub enum Scale {
    /// Coordinated Universal Time, with leap seconds.
    Utc,
    /// International Atomic Time, no leap seconds.
    Tai,
    /// GPS time, a fixed offset behind TAI.
    Gps,
}

/// The stable lowercase label of a scale.
pub open spec fn scale_text(s: Scale) -> Seq<char> {
    match s {
        Scale::Utc => "utc"@,
        Scale::Tai => "tai"@,
        Scale::Gps => "gps"@,
    }
}

impl Scale {
    /// A stable lowercase label.
    pub fn as_str(self) -> (r: &'static str)
        ensures
            r@ == scale_text(self),
    {
        match self {
            Scale::Utc => "utc",
            Scale::Tai => "tai",
            Scale::Gps => "gps",
        }
    }

    /// Parses the label produced by [`Scale::as_str`].
    pub fn from_str_exact(value: &str) -> (r: Option<Scale>)
        ensures
            r matches Some(s) ==> scale_text(s) == value@,
            r is None ==> value@ != "utc"@ && value@ != "tai"@ && value@ != "gps"@,
    {
        if text_eq(value, "utc") {
            Some(Scale::Utc)
        } else if text_eq(value, "tai") {
            Some(Scale::Tai)
        } else if text_eq(value, "gps") {
            Some(Scale::Gps)
        } else {
            None
        }
    }
}

/// Every scale's label parses back to that scale, and no two scales share a label.
pub proof fn scale_labels_round_trip(s: Scale, t: Scale)
    ensures
        scale_text(s) == scale_text(t) ==> s == t,
{
    reveal_strlit("utc");
    reveal_strlit("tai");
    reveal_strlit("gps");
    if s != t {
        assert(scale_text(s)[0] != scale_text(t)[0] || scale_text(s)[1] != scale_text(t)[1]);
    }
}

/// Seconds from the J1900 epoch the leap-second table counts from to the Unix epoch.
pub const J1900_TO_UNIX_SECONDS: i128 = 2_208_988_800;

/// The Unix-epoch nanoseconds of an instant counted in UTC nanoseconds since J1900, when
/// they fit in an `i128`.
pub open spec fn unix_nanos_from_j1900(nanos_since_j1900: int) -> Option<int> {
    let n = nanos_since_j1900 - 2_208_988_800 * 1_000_000_000;
    if i128::MIN <= n <= i128::MAX {
        Some(n)
    } else {
        None
    }
}

/// The instant a count of UTC nanoseconds since J1900 names, or `None` when it falls
/// outside the representable range: a refusal to answer rather than a clamped instant.
pub fn utc_from_j1900_nanos(nanos_since_j1900: i128) -> (r: Option<UtcInstant>)
    ensures
        match unix_nanos_from_j1900(nanos_since_j1900 as int) {
            Some(n) => r matches Some(at) && at.nanos() == n,
            None => r is None,
        },
{
    match nanos_since_j1900.checked_sub(J1900_TO_UNIX_SECONDS * 1_000_000_000) {
        Some(nanos) => Some(UtcInstant::from_nanos_since_unix_epoch(nanos)),
        None => None,
    }
}

} // verus!
