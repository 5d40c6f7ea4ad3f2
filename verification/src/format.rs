//! The dataset file format, as plain records.
//!
//! These mirror the JSON a dataset revision is written in, field for field. They are
//! separate from the decision types on purpose: a format change must not be able to
//! reach into the decision path. Reading JSON into them is the shell's job; turning them
//! into a validated ruleset is [`crate::load`]'s.

use vstd::prelude::*;

verus! {

/// A whole dataset file.
#[derive(Debug, Clone)]
pub struct DatasetFile {
    /// The revisions this file carries.
    pub revisions: Vec<RevisionRecord>,
    /// The venues it describes.
    pub venues: Vec<VenueRecord>,
    /// The session bands it defines.
    pub bands: Vec<BandRecord>,
}

/// One immutable revision.
#[derive(Debug, Clone)]
pub struct RevisionRecord {
    /// The revision identifier.
    pub id: String,
    /// The revision this one replaces.
    pub supersedes: Option<String>,
    /// The IANA tzdb release the data was prepared against.
    pub iana_tzdb_version: Option<String>,
    /// When the revision was assembled, RFC 3339.
    pub assembled_at: String,
}

/// One venue.
#[derive(Debug, Clone)]
pub struct VenueRecord {
    /// The venue identifier.
    pub venue: String,
    /// The venue's IANA home zone.
    pub home_zone: String,
    /// The venue's name as it prefers to be called. Display only.
    pub display_name: Option<String>,
    /// The city or region the venue is identified by. Display only.
    pub location: Option<String>,
    /// Which family the venue belongs to: `equities`, `spot_and_fx`, or `futures`.
    pub family: Option<String>,
    /// What the data is willing to answer for.
    pub coverage: CoverageRecord,
    /// Venue-level evidence.
    pub evidence: Vec<EvidenceRecord>,
    /// The schedule rules.
    pub rules: Vec<RuleRecord>,
    /// Scheduled occurrences that are not phases.
    pub events: Vec<EventRecord>,
}

/// A coverage declaration, RFC 3339 at both ends.
#[derive(Debug, Clone)]
pub struct CoverageRecord {
    /// First instant inside coverage.
    pub start: String,
    /// First instant after coverage.
    pub end: String,
}

/// Provenance for a rule.
#[derive(Debug, Clone)]
pub struct EvidenceRecord {
    /// The source document.
    pub source_url: String,
    /// When it was retrieved, RFC 3339.
    pub fetched_at: String,
    /// The date the rule takes effect.
    pub effective_from: String,
    /// When the publisher last changed the document.
    pub publisher_last_changed: Option<String>,
    /// The terms the source was obtained under, recorded at registration.
    pub terms: Option<String>,
    /// Digest of the retrieved bytes, `sha256:<hex>`, where the document was fetched
    /// rather than transcribed.
    pub digest: Option<String>,
}

/// One schedule rule.
#[derive(Debug, Clone)]
pub struct RuleRecord {
    /// What kind of statement the rule makes.
    pub kind: RuleKindRecord,
    /// The venue-local day, as ordered change points starting at `00:00`.
    pub schedule: Vec<ChangePointRecord>,
    /// The dates the rule is in force.
    pub applies: DateRangeRecord,
    /// How precisely the source publishes these boundaries.
    pub boundary_uncertainty: UncertaintyRecord,
    /// Where the rule came from.
    pub evidence: EvidenceRecord,
    /// Why the rule is our reading rather than the venue's wording.
    pub derived_reasoning: Option<String>,
    /// The revision this rule belongs to.
    pub revision: String,
}

/// A rule kind, tagged by `type` in the file.
#[derive(Debug, Clone)]
pub enum RuleKindRecord {
    /// The ordinary weekly pattern.
    WeeklyPattern {
        /// Weekday names, e.g. `["mon", "tue"]`.
        weekdays: Vec<String>,
    },
    /// A holiday.
    Holiday {
        /// The holiday, as the venue names it.
        name: String,
    },
    /// A shortened session.
    ShortenedSession {
        /// The session, as the venue names it.
        name: String,
    },
    /// An announced schedule change.
    AnnouncedChange {
        /// What the venue announced.
        note: String,
    },
}

/// One change point in a day schedule.
#[derive(Debug, Clone)]
pub struct ChangePointRecord {
    /// Venue-local time of day, `HH:MM` or `HH:MM:SS`.
    pub at: String,
    /// The phase that begins here, from the shared vocabulary.
    pub phase: String,
}

/// An inclusive range of venue-local dates.
#[derive(Debug, Clone)]
pub struct DateRangeRecord {
    /// First date, `YYYY-MM-DD`.
    pub start: String,
    /// Last date, inclusive.
    pub end: String,
}

/// How precisely something is known, tagged by `type` in the file.
#[derive(Debug, Clone)]
pub enum UncertaintyRecord {
    /// Exact to the representation.
    Exact,
    /// The source publishes to a granularity.
    PublishedGranularity {
        /// Width of the publication grid, in seconds.
        seconds: i64,
    },
    /// The venue published its own bound.
    PublishedBound {
        /// The bound, in seconds.
        seconds: i64,
        /// What the venue said.
        published_as: String,
    },
    /// The boundary is the scheduled start of a process.
    ProcessStart {
        /// The process, in the venue's own terms.
        process: String,
    },
}

/// One event rule.
#[derive(Debug, Clone)]
pub struct EventRecord {
    /// The event kind, from the shared vocabulary.
    pub kind: String,
    /// Venue-local times of day it occurs at.
    pub times: Vec<String>,
    /// The dates the rule is in force.
    pub applies: DateRangeRecord,
    /// How precisely the occurrence instant is known.
    pub uncertainty: UncertaintyRecord,
    /// Where the rule came from.
    pub evidence: EvidenceRecord,
    /// The revision this rule belongs to.
    pub revision: String,
}

/// One session band: venues grouped under one name, with the reasoning for the grouping.
#[derive(Debug, Clone)]
pub struct BandRecord {
    /// The band identifier.
    pub id: String,
    /// The band's display name.
    pub display_name: String,
    /// The member venue identifiers.
    pub members: Vec<String>,
    /// Why these venues were grouped.
    pub derived_reasoning: String,
}

} // verus!
