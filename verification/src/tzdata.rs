//! The IANA time-zone database release this build answers from, read from the compiled
//! database itself rather than transcribed into a constant that could drift.

use vstd::prelude::*;

verus! {

/// Reads `jiff_tzdb::VERSION`, the release marker of the database bundled into the build.
/// In the `jiff-tzdb` release this crate is built with, its source sets it to
/// `Some("2026e")`; that is what the contract states.
#[verifier::external_body]
fn bundled_release() -> (r: Option<&'static str>)
    ensures
        r is Some,
        r->0@ == "2026e"@,
{
    jiff_tzdb::VERSION
}

/// The IANA tzdb release compiled into this build, e.g. `"2026e"`. `None` would mean the
/// bundled database carries no version marker.
pub fn iana_tzdb_version() -> (r: Option<&'static str>)
    ensures
        r is Some,
        r->0@ == "2026e"@,
{
    bundled_release()
}

/// Whether a release marker vouches for tzdata provenance: it is present and not empty.
pub open spec fn marker_verifies(marker: Option<&str>) -> bool {
    match marker {
        Some(v) => v@.len() > 0,
        None => false,
    }
}

/// Whether a release marker vouches for tzdata provenance: an absent or empty marker is
/// unverified provenance, never a fabricated version.
pub fn release_is_verified(marker: Option<&str>) -> (r: bool)
    ensures
        r == marker_verifies(marker),
{
    match marker {
        Some(v) => v.unicode_len() > 0,
        None => false,
    }
}

/// Whether tzdata provenance can be published with an answer: the bundled release marker
/// is present and not empty, as it is in this build.
pub fn is_verified() -> (r: bool)
    ensures
        r == marker_verifies(Some("2026e")),
        r,
{
    proof {
        reveal_strlit("2026e");
    }
    let marker = iana_tzdb_version();
    proof {
        assert(marker_verifies(marker) == marker_verifies(Some("2026e")));
    }
    release_is_verified(marker)
}

} // verus!
