//! Turning fetched documents into an immutable dataset revision.
//!
//! What the operator has after fetching is bytes and provenance; what the engine needs is
//! a validated ruleset. This is the step between: evidence is filled in from the
//! retrieval record rather than typed, every rule cites the revision it was assembled
//! into, and a revision the loader would reject is refused before it is written.

use crate::fetch::FetchedDocument;
use crate::format::{
    BandRecord, CoverageRecord, EventRecord, EvidenceRecord, RevisionRecord, RuleRecord,
    VenueRecord,
};
use crate::instant::{instant_text, UtcInstant};
use crate::load::{accepted, dataset_from_parts, load_error_text, refused_with, LoadError};
use crate::text::{copy_optional_text, optional_text};
use crate::tzdata::iana_tzdb_version;
use vstd::prelude::*;

verus! {

/// A dataset revision under construction: one revision record and the venues added so
/// far. Correcting a written revision means assembling a new one that supersedes it.
#[derive(Debug, Clone)]
pub struct RevisionAssembly {
    revision: RevisionRecord,
    venues: Vec<VenueRecord>,
}

/// Why a revision could not be assembled.
#[derive(Debug, Clone, PartialEq, Eq)]
pub enum AssemblyError {
    /// The revision would not load.
    Invalid(String),
    /// The revision could not be written.
    Unwritable {
        /// The path that was tried.
        path: String,
        /// What the operating system said.
        detail: String,
    },
}

/// The message for an assembly error.
pub open spec fn assembly_error_text(e: AssemblyError) -> Seq<char> {
    match e {
        AssemblyError::Invalid(detail) => "refusing to write a revision the loader would reject: "@
            + detail@,
        AssemblyError::Unwritable { path, detail } => "cannot write "@ + path@ + ": "@ + detail@,
    }
}

impl AssemblyError {
    /// The message a shell prints for this error.
    pub fn describe(&self) -> (r: String)
        ensures
            r@ == assembly_error_text(*self),
    {
        proof {
            reveal_strlit("refusing to write a revision the loader would reject: ");
            reveal_strlit("cannot write ");
            reveal_strlit(": ");
        }
        match self {
            AssemblyError::Invalid(detail) => {
                let mut out = String::from_str(
                    "refusing to write a revision the loader would reject: ",
                );
                out.append(detail.as_str());
                out
            },
            AssemblyError::Unwritable { path, detail } => {
                let mut out = String::from_str("cannot write ");
                out.append(path.as_str());
                out.append(": ");
                out.append(detail.as_str());
                out
            },
        }
    }
}

/// An instant as a dataset file writes it: RFC 3339 where the calendar reaches.
fn instant_record(at: UtcInstant) -> (r: String)
    ensures
        r@ == instant_text(at.nanos()),
{
    at.to_string()
}

/// Rules with their revision set to `id`, each otherwise unchanged.
pub open spec fn rules_citing(rules: Seq<RuleRecord>, id: String) -> Seq<RuleRecord> {
    rules.map_values(|rule: RuleRecord| RuleRecord { revision: id, ..rule })
}

/// Event rules with their revision set to `id`, each otherwise unchanged.
pub open spec fn events_citing(events: Seq<EventRecord>, id: String) -> Seq<EventRecord> {
    events.map_values(|event: EventRecord| EventRecord { revision: id, ..event })
}

impl RevisionAssembly {
    /// The revision record.
    pub closed spec fn spec_revision(self) -> RevisionRecord {
        self.revision
    }

    /// The venues added so far, in order.
    pub closed spec fn spec_venues(self) -> Seq<VenueRecord> {
        self.venues@
    }

    /// Starts a revision assembled at `assembled_at`, recording the tzdb release of this
    /// build, because zone rules are as much a part of an answer as a venue's schedule.
    pub fn new(id: String, assembled_at: UtcInstant) -> (r: RevisionAssembly)
        ensures
            r.spec_revision().id == id,
            r.spec_revision().supersedes is None,
            optional_text(r.spec_revision().iana_tzdb_version) == Some("2026e"@),
            r.spec_revision().assembled_at@ == instant_text(assembled_at.nanos()),
            r.spec_venues().len() == 0,
    {
        let tzdb = match iana_tzdb_version() {
            Some(release) => Some(String::from_str(release)),
            None => None,
        };
        RevisionAssembly {
            revision: RevisionRecord {
                id,
                supersedes: None,
                iana_tzdb_version: tzdb,
                assembled_at: instant_record(assembled_at),
            },
            venues: Vec::new(),
        }
    }

    /// Records which revision this one replaces.
    pub fn superseding(self, previous: String) -> (r: RevisionAssembly)
        ensures
            r.spec_revision() == (RevisionRecord {
                supersedes: Some(previous),
                ..self.spec_revision()
            }),
            r.spec_venues() == self.spec_venues(),
    {
        let RevisionAssembly { revision, venues } = self;
        RevisionAssembly { revision: RevisionRecord { supersedes: Some(previous), ..revision }, venues }
    }

    /// The revision identifier.
    pub fn id(&self) -> (r: &str)
        ensures
            r@ == self.spec_revision().id@,
    {
        self.revision.id.as_str()
    }

    /// Adds a venue's rules to the revision.
    pub fn with_venue(self, venue: VenueRecord) -> (r: RevisionAssembly)
        ensures
            r.spec_revision() == self.spec_revision(),
            r.spec_venues() == self.spec_venues().push(venue),
    {
        let RevisionAssembly { revision, mut venues } = self;
        venues.push(venue);
        RevisionAssembly { revision, venues }
    }

    /// Builds a venue record whose rules and event rules all cite this revision, so the
    /// identifier is written once rather than repeated by every caller.
    pub fn venue(
        &self,
        venue: String,
        home_zone: String,
        coverage: (UtcInstant, UtcInstant),
        evidence: Vec<EvidenceRecord>,
        rules: Vec<RuleRecord>,
        events: Vec<EventRecord>,
    ) -> (r: VenueRecord)
        ensures
            r.venue == venue,
            r.home_zone == home_zone,
            r.display_name is None,
            r.location is None,
            r.family is None,
            r.coverage.start@ == instant_text(coverage.0.nanos()),
            r.coverage.end@ == instant_text(coverage.1.nanos()),
            r.evidence == evidence,
            r.rules@ == rules_citing(rules@, self.spec_revision().id),
            r.events@ == events_citing(events@, self.spec_revision().id),
    {
        let id = &self.revision.id;
        let mut cited_rules: Vec<RuleRecord> = Vec::new();
        let mut rest = rules;
        let ghost all_rules = rest@;
        while rest.len() > 0
            invariant
                cited_rules@.len() + rest@.len() == all_rules.len(),
                rest@ == all_rules.subrange(cited_rules@.len() as int, all_rules.len() as int),
                cited_rules@ == rules_citing(all_rules.subrange(0, cited_rules@.len() as int), *id),
            decreases rest@.len(),
        {
            let ghost k = cited_rules@.len() as int;
            let rule = rest.remove(0);
            cited_rules.push(RuleRecord { revision: id.clone(), ..rule });
            assert(rules_citing(all_rules.subrange(0, k + 1), *id) =~= rules_citing(
                all_rules.subrange(0, k),
                *id,
            ).push(RuleRecord { revision: *id, ..all_rules[k] }));
            assert(rest@ =~= all_rules.subrange(k + 1, all_rules.len() as int));
        }
        assert(all_rules.subrange(0, all_rules.len() as int) =~= all_rules);
        let mut cited_events: Vec<EventRecord> = Vec::new();
        let mut remaining = events;
        let ghost all_events = remaining@;
        while remaining.len() > 0
            invariant
                cited_events@.len() + remaining@.len() == all_events.len(),
                remaining@ == all_events.subrange(cited_events@.len() as int, all_events.len() as int),
                cited_events@ == events_citing(all_events.subrange(0, cited_events@.len() as int), *id),
            decreases remaining@.len(),
        {
            let ghost k = cited_events@.len() as int;
            let event = remaining.remove(0);
            cited_events.push(EventRecord { revision: id.clone(), ..event });
            assert(events_citing(all_events.subrange(0, k + 1), *id) =~= events_citing(
                all_events.subrange(0, k),
                *id,
            ).push(EventRecord { revision: *id, ..all_events[k] }));
            assert(remaining@ =~= all_events.subrange(k + 1, all_events.len() as int));
        }
        assert(all_events.subrange(0, all_events.len() as int) =~= all_events);
        VenueRecord {
            venue,
            home_zone,
            display_name: None,
            location: None,
            family: None,
            coverage: CoverageRecord {
                start: instant_record(coverage.0),
                end: instant_record(coverage.1),
            },
            evidence,
            rules: cited_rules,
            events: cited_events,
        }
    }

    /// The revision record, as it would be written.
    pub fn revision(&self) -> (r: &RevisionRecord)
        ensures
            *r == self.spec_revision(),
    {
        &self.revision
    }

    /// The venues added so far, as they would be written.
    pub fn venues(&self) -> (r: &[VenueRecord])
        ensures
            r@ == self.spec_venues(),
    {
        self.venues.as_slice()
    }

    /// Checks that the loader would accept this revision, by running the loader itself
    /// rather than a second set of rules that could drift from it.
    pub fn validate(&self) -> (r: Result<(), LoadError>)
        ensures
            match r {
                Ok(()) => accepted(seq![self.spec_revision()], self.spec_venues(), Seq::empty()),
                Err(e) => refused_with(seq![self.spec_revision()], self.spec_venues(), Seq::empty(), e@),
            },
    {
        let mut revisions: Vec<RevisionRecord> = Vec::new();
        revisions.push(copy_revision_record(&self.revision));
        let bands: Vec<BandRecord> = Vec::new();
        proof {
            assert(revisions@ =~= seq![self.spec_revision()]);
            assert(bands@ =~= Seq::<BandRecord>::empty());
        }
        match dataset_from_parts(&revisions, &self.venues, &bands) {
            Ok(_) => Ok(()),
            Err(e) => Err(e),
        }
    }

    /// Checks the revision before it is written: a revision the loader would refuse is
    /// never written, and the refusal reads as the loader's own message.
    pub fn check_writable(&self) -> (r: Result<(), AssemblyError>)
        ensures
            match r {
                Ok(()) => accepted(seq![self.spec_revision()], self.spec_venues(), Seq::empty()),
                Err(e) => e matches AssemblyError::Invalid(message) && exists|le: LoadError|
                    refused_with(seq![self.spec_revision()], self.spec_venues(), Seq::empty(), le@)
                        && message@ == load_error_text(le),
            },
    {
        match self.validate() {
            Ok(()) => Ok(()),
            Err(e) => {
                let message = e.describe();
                proof {
                    assert(refused_with(seq![self.spec_revision()], self.spec_venues(), Seq::empty(), e@)
                        && message@ == load_error_text(e));
                }
                Err(AssemblyError::Invalid(message))
            },
        }
    }
}

/// A copy of a revision record.
fn copy_revision_record(record: &RevisionRecord) -> (r: RevisionRecord)
    ensures
        r == *record,
{
    RevisionRecord {
        id: record.id.clone(),
        supersedes: copy_optional_text(&record.supersedes),
        iana_tzdb_version: copy_optional_text(&record.iana_tzdb_version),
        assembled_at: record.assembled_at.clone(),
    }
}

/// Builds an evidence record from a retrieval, so provenance is transcribed by the
/// machine that did the fetching: the source, when it was fetched, the terms it was
/// registered under, and the digest of exactly the bytes that came back.
pub fn evidence_from(document: &FetchedDocument, effective_from: String) -> (r: EvidenceRecord)
    ensures
        r.source_url@ == document.spec_source().spec_url(),
        r.fetched_at@ == instant_text(document.spec_fetched_at().nanos()),
        r.effective_from == effective_from,
        r.publisher_last_changed is None,
        optional_text(r.terms) == Some(document.spec_source().spec_terms()),
        optional_text(r.digest) == Some(crate::fetch::digest_text(document.spec_bytes())),
{
    EvidenceRecord {
        source_url: String::from_str(document.source().url()),
        fetched_at: instant_record(document.fetched_at()),
        effective_from,
        publisher_last_changed: None,
        terms: Some(String::from_str(document.source().terms())),
        digest: Some(String::from_str(document.digest())),
    }
}

} // verus!
