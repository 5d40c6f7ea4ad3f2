//! What the status service reports: every venue of a ruleset answered at one shared
//! instant, each with the name, place and zone a reader recognises it by, and the
//! provenance of the whole answer.

use crate::catalog::VenueProfile;
use crate::coverage::CoverageRange;
use crate::ids::{DatasetRevisionId, IanaZoneId, VenueId};
use crate::instant::UtcInstant;
use crate::query::PhaseOutcome;
use crate::resolve::{id_views, outcome_for, resolve_phase};
use crate::ruleset::{distinct_venues, revision_ids_of, Ruleset, VenueRuleset};
use crate::text::{copy_optional_text, optional_text};
use crate::tzdata::iana_tzdb_version;
use vstd::prelude::*;

verus! {

/// The label a venue is shown under: its profile's display name, else its identifier.
pub open spec fn label_of(v: VenueRuleset) -> Seq<char> {
    match v.profile.display_name {
        Some(name) => name@,
        None => v.venue@,
    }
}

/// One venue's line in a status report.
#[derive(Debug)]
pub struct VenueStatus {
    /// The venue.
    pub venue: VenueId,
    /// What to call it.
    pub label: String,
    /// Where it is, when its profile says.
    pub location: Option<String>,
    /// The zone its schedules are written in.
    pub home_zone: IanaZoneId,
    /// Its phase, or an explicit unknown, at the report's instant.
    pub outcome: PhaseOutcome,
}

/// Whether a line reports venue `v` at `at` under ruleset `rs`.
pub open spec fn reports_venue(s: VenueStatus, v: VenueRuleset, at: UtcInstant, rs: Ruleset) -> bool {
    &&& s.venue@ == v.venue@
    &&& s.label@ == label_of(v)
    &&& optional_text(s.location) == optional_text(v.profile.location)
    &&& s.home_zone@ == v.home_zone@
    &&& outcome_for(s.outcome, at, v.venue@, rs)
}

/// Every venue of a ruleset answered at one instant.
#[derive(Debug)]
pub struct StatusReport {
    /// The instant every line answers for.
    pub at: UtcInstant,
    /// Whether the instant was supplied by the caller rather than read from a clock.
    pub supplied: bool,
    /// The IANA tzdb release the answers were computed with.
    pub tzdb_version: Option<String>,
    /// The ruleset's revisions, in order.
    pub dataset_revisions: Vec<DatasetRevisionId>,
    /// One line per venue, in the ruleset's order.
    pub venues: Vec<VenueStatus>,
}

/// Answers every venue of the ruleset at `at`, one line per venue in the ruleset's
/// order, each carrying what `resolve_phase` answers for it.
pub fn status_report(at: UtcInstant, supplied: bool, ruleset: &Ruleset) -> (r: StatusReport)
    ensures
        r.at == at,
        r.supplied == supplied,
        r.tzdb_version matches Some(v) && v@ == "2026e"@,
        id_views(r.dataset_revisions@) == revision_ids_of(ruleset.revision_list()),
        r.venues@.len() == ruleset.venue_list().len(),
        forall|i: int|
            0 <= i < r.venues@.len() ==> reports_venue(
                #[trigger] r.venues@[i],
                ruleset.venue_list()[i],
                at,
                *ruleset,
            ),
{
    ruleset.check_invariant();
    let ids = ruleset.venues();
    let mut lines: Vec<VenueStatus> = Vec::new();
    let mut i: usize = 0;
    while i < ids.len()
        invariant
            ids@.len() == ruleset.venue_list().len(),
            forall|k: int| 0 <= k < ids@.len() ==> (#[trigger] ids@[k])@ == ruleset.venue_list()[k].venue@,
            distinct_venues(ruleset.venue_list()),
            i <= ids@.len(),
            lines@.len() == i,
            forall|k: int|
                0 <= k < i ==> reports_venue(#[trigger] lines@[k], ruleset.venue_list()[k], at, *ruleset),
        decreases ids@.len() - i,
    {
        let id = &ids[i];
        let entry = match ruleset.venue(id) {
            Some(v) => v,
            None => {
                proof {
                    assert(ruleset.venue_list()[i as int].venue@ == id@);
                }
                return StatusReport {
                    at,
                    supplied,
                    tzdb_version: None,
                    dataset_revisions: Vec::new(),
                    venues: lines,
                };
            },
        };
        proof {
            let k = choose|k: int|
                0 <= k < ruleset.venue_list().len() && ruleset.venue_list()[k] == *entry
                    && entry.venue@ == id@;
            if k != i {
                assert(ruleset.venue_list()[k].venue@ == ruleset.venue_list()[i as int].venue@);
            }
            assert(ruleset.venue_list()[i as int] == *entry);
        }
        let label = String::from_str(entry.profile.label(entry.venue.as_str()));
        let line = VenueStatus {
            venue: entry.venue.duplicate(),
            label,
            location: copy_optional_text(&entry.profile.location),
            home_zone: entry.home_zone.duplicate(),
            outcome: resolve_phase(at, id, ruleset),
        };
        lines.push(line);
        i = i + 1;
    }
    let tzdb_version = match iana_tzdb_version() {
        Some(v) => Some(String::from_str(v)),
        None => None,
    };
    let dataset_revisions = ruleset.revision_ids();
    proof {
        assert(id_views(dataset_revisions@) =~= revision_ids_of(ruleset.revision_list()));
    }
    StatusReport { at, supplied, tzdb_version, dataset_revisions, venues: lines }
}

/// One venue as the service lists it.
#[derive(Debug)]
pub struct VenueListing {
    /// The venue.
    pub venue: VenueId,
    /// How it is presented.
    pub profile: VenueProfile,
    /// The zone its schedules are written in.
    pub home_zone: IanaZoneId,
    /// The range its data answers for.
    pub coverage: CoverageRange,
}

/// Every venue of the ruleset, in its order, with its profile, zone and coverage.
pub fn venue_listing(ruleset: &Ruleset) -> (r: Vec<VenueListing>)
    ensures
        r@.len() == ruleset.venue_list().len(),
        forall|i: int|
            0 <= i < r@.len() ==> {
                let v = ruleset.venue_list()[i];
                &&& (#[trigger] r@[i]).venue@ == v.venue@
                &&& r@[i].profile == v.profile
                &&& r@[i].home_zone@ == v.home_zone@
                &&& r@[i].coverage == v.coverage
            },
{
    ruleset.check_invariant();
    let ids = ruleset.venues();
    let mut out: Vec<VenueListing> = Vec::new();
    let mut i: usize = 0;
    while i < ids.len()
        invariant
            ids@.len() == ruleset.venue_list().len(),
            forall|k: int| 0 <= k < ids@.len() ==> (#[trigger] ids@[k])@ == ruleset.venue_list()[k].venue@,
            distinct_venues(ruleset.venue_list()),
            i <= ids@.len(),
            out@.len() == i,
            forall|k: int|
                0 <= k < i ==> {
                    let v = ruleset.venue_list()[k];
                    &&& (#[trigger] out@[k]).venue@ == v.venue@
                    &&& out@[k].profile == v.profile
                    &&& out@[k].home_zone@ == v.home_zone@
                    &&& out@[k].coverage == v.coverage
                },
        decreases ids@.len() - i,
    {
        let id = &ids[i];
        let entry = match ruleset.venue(id) {
            Some(v) => v,
            None => {
                proof {
                    assert(ruleset.venue_list()[i as int].venue@ == id@);
                }
                return out;
            },
        };
        proof {
            let k = choose|k: int|
                0 <= k < ruleset.venue_list().len() && ruleset.venue_list()[k] == *entry
                    && entry.venue@ == id@;
            if k != i {
                assert(ruleset.venue_list()[k].venue@ == ruleset.venue_list()[i as int].venue@);
            }
            assert(ruleset.venue_list()[i as int] == *entry);
        }
        out.push(
            VenueListing {
                venue: entry.venue.duplicate(),
                profile: entry.profile.duplicate(),
                home_zone: entry.home_zone.duplicate(),
                coverage: entry.coverage,
            },
        );
        i = i + 1;
    }
    out
}

} // verus!
