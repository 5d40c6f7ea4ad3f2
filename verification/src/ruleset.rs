//! Rule data, materialized in memory and validated once, so the query path stays total.

use crate::catalog::VenueProfile;
use crate::civil::{
    date_text,
    date_ordinal, lemma_no_date_between, lemma_ordinal_injective, local_date_at, local_reading,
    CivilDate,
};
use crate::coverage::CoverageRange;
use crate::event::EventRule;
use crate::evidence::EvidenceRef;
use crate::ids::{DatasetRevisionId, IanaZoneId, VenueId};
use crate::instant::{clamp_i128, UtcInstant};
use crate::rule::{kind_label, rule_applies_on, Rule};
use crate::text::{text_compare, text_lt, text_lt_irreflexive, text_lt_transitive};
use crate::zone::{tz_known, zone_is_known};
use vstd::prelude::*;
use vstd::seq_lib::{to_multiset_build, to_multiset_contains, to_multiset_insert};

verus! {

/// An immutable, identified version of a body of rule data.
#[derive(Debug, Clone, PartialEq, Eq)]
pub struct DatasetRevision {
    /// The revision identifier.
    pub id: DatasetRevisionId,
    /// The revision this one replaces, where it replaces one.
    pub supersedes: Option<DatasetRevisionId>,
    /// The IANA tzdb release the data was prepared against, where recorded.
    pub iana_tzdb_version: Option<String>,
    /// When the revision was assembled.
    pub assembled_at: UtcInstant,
}

/// One venue's rules, zone, and coverage declaration.
#[derive(Debug, Clone, PartialEq, Eq)]
pub struct VenueRuleset {
    /// The venue these rules describe.
    pub venue: VenueId,
    /// How the venue is presented. Display only.
    pub profile: VenueProfile,
    /// The venue's home zone, e.g. `"Asia/Shanghai"`.
    pub home_zone: IanaZoneId,
    /// What this data is willing to answer for.
    pub coverage: CoverageRange,
    /// The rules themselves.
    pub rules: Vec<Rule>,
    /// Rules for scheduled occurrences that are not phases. May be empty.
    pub events: Vec<EventRule>,
    /// Venue-level evidence.
    pub evidence: Vec<EvidenceRef>,
}

/// Why a ruleset could not be built.
#[derive(Debug, Clone, PartialEq, Eq)]
pub enum RulesetError {
    /// The same venue was supplied twice.
    DuplicateVenue {
        /// The repeated venue.
        venue: VenueId,
    },
    /// The venue's home zone is not in the bundled tzdb.
    UnknownZone {
        /// The venue.
        venue: VenueId,
        /// The zone that could not be resolved.
        zone: IanaZoneId,
    },
    /// A rule cites a revision that was not supplied.
    UnknownRevision {
        /// The venue.
        venue: VenueId,
        /// The revision the rule cited.
        revision: DatasetRevisionId,
    },
    /// A rule applies to dates outside its venue's declared coverage.
    RuleOutsideCoverage {
        /// The venue.
        venue: VenueId,
        /// The rule, by label.
        rule: String,
    },
    /// A date inside coverage has no rule, so coverage promises more than the rules give.
    UncoveredDate {
        /// The venue.
        venue: VenueId,
        /// The date with no applicable rule.
        date: CivilDate,
    },
    /// Coverage extends past the representable calendar.
    CoverageOutOfCalendarRange {
        /// The venue.
        venue: VenueId,
    },
}

/// The message for a ruleset error.
pub open spec fn ruleset_error_text(e: RulesetError) -> Seq<char> {
    match e {
        RulesetError::DuplicateVenue { venue } => "venue "@ + venue@ + " was supplied twice"@,
        RulesetError::UnknownZone { venue, zone } => "venue "@ + venue@ + " declares unknown zone "@
            + zone@,
        RulesetError::UnknownRevision { venue, revision } => "venue "@ + venue@
            + " cites unknown revision "@ + revision@,
        RulesetError::RuleOutsideCoverage { venue, rule } => "venue "@ + venue@ + " has a rule ("@
            + rule@ + ") applying outside its declared coverage"@,
        RulesetError::UncoveredDate { venue, date } => "venue "@ + venue@
            + " declares coverage over "@ + date_text(date@) + " but has no rule for it"@,
        RulesetError::CoverageOutOfCalendarRange { venue } => "venue "@ + venue@
            + " declares coverage past the representable calendar"@,
    }
}

impl RulesetError {
    /// The message a shell prints for this error.
    pub fn describe(&self) -> (r: String)
        ensures
            r@ == ruleset_error_text(*self),
    {
        proof {
            reveal_strlit("venue ");
            reveal_strlit(" was supplied twice");
            reveal_strlit(" declares unknown zone ");
            reveal_strlit(" cites unknown revision ");
            reveal_strlit(" has a rule (");
            reveal_strlit(") applying outside its declared coverage");
            reveal_strlit(" declares coverage over ");
            reveal_strlit(" but has no rule for it");
            reveal_strlit(" declares coverage past the representable calendar");
        }
        let mut out = String::from_str("venue ");
        match self {
            RulesetError::DuplicateVenue { venue } => {
                out.append(venue.as_str());
                out.append(" was supplied twice");
            },
            RulesetError::UnknownZone { venue, zone } => {
                out.append(venue.as_str());
                out.append(" declares unknown zone ");
                out.append(zone.as_str());
            },
            RulesetError::UnknownRevision { venue, revision } => {
                out.append(venue.as_str());
                out.append(" cites unknown revision ");
                out.append(revision.as_str());
            },
            RulesetError::RuleOutsideCoverage { venue, rule } => {
                out.append(venue.as_str());
                out.append(" has a rule (");
                out.append(rule.as_str());
                out.append(") applying outside its declared coverage");
            },
            RulesetError::UncoveredDate { venue, date } => {
                out.append(venue.as_str());
                out.append(" declares coverage over ");
                let date_text = date.to_string();
                out.append(date_text.as_str());
                out.append(" but has no rule for it");
            },
            RulesetError::CoverageOutOfCalendarRange { venue } => {
                out.append(venue.as_str());
                out.append(" declares coverage past the representable calendar");
            },
        }
        out
    }
}

/// A date's position on the calendar, for a `(year, month, day)` triple.
pub open spec fn ord3(t: (int, int, int)) -> int {
    date_ordinal(t.0, t.1, t.2)
}

/// The first venue-local date inside a venue's coverage.
pub open spec fn first_covered(v: VenueRuleset) -> (int, int, int) {
    local_date_at(v.home_zone@, v.coverage.spec_interval().start.nanos())
}

/// The last venue-local date inside a venue's coverage (the date of its last nanosecond).
pub open spec fn last_covered(v: VenueRuleset) -> (int, int, int) {
    local_date_at(v.home_zone@, clamp_i128(v.coverage.spec_interval().end.nanos() - 1))
}

/// Some rule applies on the date.
pub open spec fn date_answered(rules: Seq<Rule>, d: CivilDate) -> bool {
    exists|i: int| 0 <= i < rules.len() && rule_applies_on(#[trigger] rules[i], d)
}

/// A date the coverage check visits: from the first covered date through the last (the
/// first date alone when the last reads earlier).
pub open spec fn in_covered_dates(v: VenueRuleset, d: CivilDate) -> bool {
    &&& d.valid()
    &&& ord3(first_covered(v)) <= d.ordinal()
    &&& (d.ordinal() <= ord3(last_covered(v)) || d.ordinal() == ord3(first_covered(v)))
}

/// Every date inside coverage has a rule: coverage never promises more than the rules
/// can answer.
pub open spec fn coverage_answerable(v: VenueRuleset) -> bool {
    forall|d: CivilDate| in_covered_dates(v, d) ==> #[trigger] date_answered(v.rules@, d)
}

/// A rule's dates lie inside its venue's coverage.
pub open spec fn rule_within_coverage(v: VenueRuleset, r: Rule) -> bool {
    r.applies.start.ordinal() >= ord3(first_covered(v)) && r.applies.end.ordinal() <= ord3(
        last_covered(v),
    )
}

/// The identifiers of a list of revisions.
pub open spec fn revision_ids_of(revs: Seq<DatasetRevision>) -> Seq<Seq<char>> {
    revs.map_values(|r: DatasetRevision| r.id@)
}

/// Every rule and event rule of the venue cites a supplied revision.
pub open spec fn cites_known_revisions(v: VenueRuleset, ids: Seq<Seq<char>>) -> bool {
    &&& forall|i: int| 0 <= i < v.rules@.len() ==> ids.contains((#[trigger] v.rules@[i]).revision@)
    &&& forall|j: int|
        0 <= j < v.events@.len() ==> ids.contains((#[trigger] v.events@[j]).revision@)
}

/// Everything the ruleset checks of one venue, apart from it not being supplied twice.
pub open spec fn venue_valid(v: VenueRuleset, ids: Seq<Seq<char>>) -> bool {
    &&& tz_known(v.home_zone@)
    &&& cites_known_revisions(v, ids)
    &&& forall|i: int| 0 <= i < v.rules@.len() ==> rule_within_coverage(v, #[trigger] v.rules@[i])
    &&& coverage_answerable(v)
}

/// No two venues share an identifier.
pub open spec fn distinct_venues(vs: Seq<VenueRuleset>) -> bool {
    forall|i: int, j: int| 0 <= i < j < vs.len() ==> (#[trigger] vs[i]).venue@ != (
    #[trigger] vs[j]).venue@
}

/// Venues listed in strictly increasing identifier order.
pub open spec fn sorted_venues(vs: Seq<VenueRuleset>) -> bool {
    forall|i: int, j: int| 0 <= i < j < vs.len() ==> text_lt((#[trigger] vs[i]).venue@, (
    #[trigger] vs[j]).venue@)
}

/// What `from_parts` accepts: venues with distinct identifiers, each valid against the
/// supplied revisions.
pub open spec fn parts_valid(revisions: Seq<DatasetRevision>, venues: Seq<VenueRuleset>) -> bool {
    distinct_venues(venues) && forall|i: int|
        0 <= i < venues.len() ==> venue_valid(#[trigger] venues[i], revision_ids_of(revisions))
}

/// `out` holds exactly the venues of `input`, each as often: it is a reordering.
pub open spec fn same_venues(out: Seq<VenueRuleset>, input: Seq<VenueRuleset>) -> bool {
    out.to_multiset() == input.to_multiset()
}

/// A validated body of rule data: venues in identifier order, none twice, each valid.
#[derive(Debug)]
pub struct Ruleset {
    revisions: Vec<DatasetRevision>,
    venues: Vec<VenueRuleset>,
}

impl Ruleset {
    #[verifier::type_invariant]
    closed spec fn inv(self) -> bool {
        &&& sorted_venues(self.venues@)
        &&& forall|i: int|
            0 <= i < self.venues@.len() ==> venue_valid(
                #[trigger] self.venues@[i],
                revision_ids_of(self.revisions@),
            )
    }

    /// The venues, in identifier order.
    pub closed spec fn venue_list(self) -> Seq<VenueRuleset> {
        self.venues@
    }

    /// The revisions, as supplied.
    pub closed spec fn revision_list(self) -> Seq<DatasetRevision> {
        self.revisions@
    }

    /// Validates and takes ownership of rule data.
    ///
    /// Succeeds exactly when no venue is supplied twice and every venue's zone is known,
    /// its rules and events cite supplied revisions, its rules lie inside its coverage,
    /// and every date inside its coverage has a rule. Each error names a real violation.
    pub fn from_parts(revisions: Vec<DatasetRevision>, venues: Vec<VenueRuleset>) -> (r: Result<
        Ruleset,
        RulesetError,
    >)
        ensures
            r is Ok <==> parts_valid(revisions@, venues@),
            r matches Ok(rs) ==> rs.revision_list() == revisions@ && sorted_venues(rs.venue_list())
                && same_venues(rs.venue_list(), venues@) && forall|i: int|
                0 <= i < rs.venue_list().len() ==> venue_valid(
                    #[trigger] rs.venue_list()[i],
                    revision_ids_of(revisions@),
                ),
            r matches Err(e) ==> error_is_witnessed(e, revisions@, venues@),
            r matches Err(e) ==> ruleset_reports(e, revisions@, venues@),
    {
        let ghost input = venues@;
        let ghost ids = revision_ids_of(revisions@);
        let mut rest = venues;
        let mut accepted: Vec<VenueRuleset> = Vec::new();
        let ghost mut taken: int = 0;
        proof {
            assert(accepted@ =~= input.subrange(0, 0));
        }
        while rest.len() > 0
            invariant
                0 <= taken <= input.len(),
                input == venues@,
                rest@ == input.subrange(taken, input.len() as int),
                ids == revision_ids_of(revisions@),
                sorted_venues(accepted@),
                same_venues(accepted@, input.subrange(0, taken)),
                distinct_venues(input.subrange(0, taken)),
                forall|i: int| 0 <= i < accepted@.len() ==> venue_valid(#[trigger] accepted@[i], ids),
                forall|i: int| 0 <= i < taken ==> venue_valid(#[trigger] input[i], ids),
            decreases rest@.len(),
        {
            let venue_ruleset = rest.remove(0);
            let ghost now = input[taken];
            assert(venue_ruleset == now);
            let position = match insertion_point(&accepted, &venue_ruleset.venue) {
                Ok(p) => p,
                Err(k) => {
                    let duplicate = venue_ruleset.venue.duplicate();
                    proof {
                        let found = accepted@[k as int];
                        let prefix = input.subrange(0, taken);
                        assert(accepted@.contains(found));
                        to_multiset_contains(accepted@, found);
                        to_multiset_contains(prefix, found);
                        let w = choose|i: int| 0 <= i < prefix.len() && prefix[i] == found;
                        assert(prefix[w] == input[w]);
                        assert(input[w].venue@ == input[taken].venue@);
                        assert(!distinct_venues(input));
                        assert(error_is_witnessed(
                            RulesetError::DuplicateVenue { venue: duplicate },
                            revisions@,
                            input,
                        ));
                        assert(input[w].venue@ == input[taken].venue@ && 0 <= w < taken);
                        assert(first_failure_at(
                            RulesetError::DuplicateVenue { venue: duplicate },
                            revisions@,
                            input,
                            taken,
                        ));
                        assert(ruleset_reports(RulesetError::DuplicateVenue { venue: duplicate }, revisions@, input));
                    }
                    return Err(RulesetError::DuplicateVenue { venue: duplicate });
                },
            };
            match check_venue(&venue_ruleset, &revisions) {
                Ok(()) => {},
                Err(e) => {
                    proof {
                        assert(input[taken] == venue_ruleset);
                        let prefix = input.subrange(0, taken);
                        assert forall|i: int| 0 <= i < taken implies (#[trigger] input[i]).venue@
                            != input[taken].venue@ by {
                            assert(prefix[i] == input[i]);
                            assert(prefix.contains(prefix[i]));
                            to_multiset_contains(prefix, prefix[i]);
                            to_multiset_contains(accepted@, prefix[i]);
                            let k = choose|k: int| 0 <= k < accepted@.len() && accepted@[k] == prefix[i];
                            if k < position {
                                assert(text_lt(accepted@[k].venue@, venue_ruleset.venue@));
                            } else {
                                assert(text_lt(venue_ruleset.venue@, accepted@[k].venue@));
                            }
                            text_lt_irreflexive(venue_ruleset.venue@);
                        }
                        assert(first_failure_at(e, revisions@, input, taken));
                        assert(ruleset_reports(e, revisions@, input));
                    }
                    return Err(e);
                },
            }
            let ghost before = accepted@;
            accepted.insert(position, venue_ruleset);
            proof {
                lemma_insert_keeps_order(before, now, position as int);
                let prefix = input.subrange(0, taken);
                let next_prefix = input.subrange(0, taken + 1);
                assert(next_prefix =~= prefix.push(now));
                assert forall|i: int, j: int|
                    0 <= i < j < next_prefix.len() implies (#[trigger] next_prefix[i]).venue@ != (
                    #[trigger] next_prefix[j]).venue@ by {
                    if j == taken {
                        assert(prefix.contains(prefix[i]));
                        to_multiset_contains(prefix, prefix[i]);
                        to_multiset_contains(before, prefix[i]);
                        let k = choose|k: int| 0 <= k < before.len() && before[k] == prefix[i];
                        assert(before[k].venue@ != now.venue@);
                    }
                }
                lemma_insert_same_venues(before, prefix, now, position as int);
                taken = taken + 1;
            }
        }
        proof {
            assert(input.subrange(0, taken) =~= input);
            assert forall|i: int| 0 <= i < input.len() implies venue_valid(
                #[trigger] input[i],
                ids,
            ) by {
                assert(input.contains(input[i]));
                to_multiset_contains(input, input[i]);
                to_multiset_contains(accepted@, input[i]);
                let k = choose|k: int| 0 <= k < accepted@.len() && accepted@[k] == input[i];
            }
        }
        Ok(Ruleset { revisions, venues: accepted })
    }

    /// The venues this ruleset knows about, in identifier order.
    pub fn venues(&self) -> (r: Vec<VenueId>)
        ensures
            r@.len() == self.venue_list().len(),
            forall|k: int| 0 <= k < r@.len() ==> (#[trigger] r@[k])@ == self.venue_list()[k].venue@,
    {
        let mut out: Vec<VenueId> = Vec::new();
        let mut i: usize = 0;
        while i < self.venues.len()
            invariant
                i <= self.venues@.len(),
                out@.len() == i,
                forall|k: int| 0 <= k < i ==> (#[trigger] out@[k])@ == self.venues@[k].venue@,
            decreases self.venues@.len() - i,
        {
            out.push(self.venues[i].venue.duplicate());
            i = i + 1;
        }
        out
    }

    /// One venue's rules, or `None` when the ruleset has no entry for it.
    pub fn venue(&self, venue: &VenueId) -> (r: Option<&VenueRuleset>)
        ensures
            r is None <==> forall|k: int|
                0 <= k < self.venue_list().len() ==> (#[trigger] self.venue_list()[k]).venue@
                    != venue@,
            r matches Some(v) ==> exists|k: int|
                0 <= k < self.venue_list().len() && self.venue_list()[k] == *v && v.venue@
                    == venue@,
            r matches Some(v) ==> venue_valid(*v, revision_ids_of(self.revision_list())),
    {
        proof {
            use_type_invariant(self);
        }
        let mut i: usize = 0;
        while i < self.venues.len()
            invariant
                i <= self.venues@.len(),
                forall|k: int| 0 <= k < i ==> (#[trigger] self.venues@[k]).venue@ != venue@,
            decreases self.venues@.len() - i,
        {
            if self.venues[i].venue.same_as(venue) {
                proof {
                    use_type_invariant(self);
                }
                return Some(&self.venues[i]);
            }
            i = i + 1;
        }
        None
    }

    /// One venue's presentation profile, or `None` when the ruleset has no entry for it.
    pub fn profile(&self, venue: &VenueId) -> (r: Option<&VenueProfile>)
        ensures
            r is None <==> forall|k: int|
                0 <= k < self.venue_list().len() ==> (#[trigger] self.venue_list()[k]).venue@
                    != venue@,
            r matches Some(p) ==> exists|k: int|
                0 <= k < self.venue_list().len() && self.venue_list()[k].profile == *p
                    && self.venue_list()[k].venue@ == venue@,
    {
        match self.venue(venue) {
            Some(v) => Some(&v.profile),
            None => None,
        }
    }

    /// One venue's home zone, or `None` when the ruleset has no entry for it.
    pub fn zone(&self, venue: &VenueId) -> (r: Option<&IanaZoneId>)
        ensures
            r is None <==> forall|k: int|
                0 <= k < self.venue_list().len() ==> (#[trigger] self.venue_list()[k]).venue@
                    != venue@,
            r matches Some(z) ==> exists|k: int|
                0 <= k < self.venue_list().len() && self.venue_list()[k].home_zone == *z
                    && self.venue_list()[k].venue@ == venue@,
    {
        match self.venue(venue) {
            Some(v) => Some(&v.home_zone),
            None => None,
        }
    }

    /// Every revision in this ruleset.
    pub fn revisions(&self) -> (r: &[DatasetRevision])
        ensures
            r@ == self.revision_list(),
    {
        self.revisions.as_slice()
    }

    /// The revision identifiers, in order.
    pub fn revision_ids(&self) -> (r: Vec<DatasetRevisionId>)
        ensures
            r@.len() == self.revision_list().len(),
            forall|k: int| 0 <= k < r@.len() ==> (#[trigger] r@[k])@ == self.revision_list()[k].id@,
    {
        let mut out: Vec<DatasetRevisionId> = Vec::new();
        let mut i: usize = 0;
        while i < self.revisions.len()
            invariant
                i <= self.revisions@.len(),
                out@.len() == i,
                forall|k: int| 0 <= k < i ==> (#[trigger] out@[k])@ == self.revisions@[k].id@,
            decreases self.revisions@.len() - i,
        {
            out.push(self.revisions[i].id.duplicate());
            i = i + 1;
        }
        out
    }

    /// The ruleset's venues are in identifier order, none twice, each valid.
    pub fn check_invariant(&self)
        ensures
            sorted_venues(self.venue_list()),
            distinct_venues(self.venue_list()),
            forall|i: int|
                0 <= i < self.venue_list().len() ==> venue_valid(
                    #[trigger] self.venue_list()[i],
                    revision_ids_of(self.revision_list()),
                ),
    {
        proof {
            use_type_invariant(self);
            assert forall|i: int, j: int|
                0 <= i < j < self.venues@.len() implies (#[trigger] self.venues@[i]).venue@ != (
                #[trigger] self.venues@[j]).venue@ by {
                text_lt_irreflexive(self.venues@[i].venue@);
            }
        }
    }
}

/// An error `from_parts` returns names a real violation in the supplied data.
pub open spec fn error_is_witnessed(
    e: RulesetError,
    revisions: Seq<DatasetRevision>,
    venues: Seq<VenueRuleset>,
) -> bool {
    match e {
        RulesetError::DuplicateVenue { venue } => exists|i: int, j: int|
            0 <= i < j < venues.len() && (#[trigger] venues[i]).venue@ == venue@ && (
            #[trigger] venues[j]).venue@ == venue@,
        RulesetError::CoverageOutOfCalendarRange { .. } => false,
        _ => exists|i: int|
            0 <= i < venues.len() && venue_error_witnessed(
                e,
                #[trigger] venues[i],
                revision_ids_of(revisions),
            ),
    }
}

/// An error about one venue names a real violation of that venue.
pub open spec fn venue_error_witnessed(e: RulesetError, v: VenueRuleset, ids: Seq<Seq<char>>) -> bool {
    match e {
        RulesetError::UnknownZone { venue, zone } => venue@ == v.venue@ && zone@ == v.home_zone@
            && !tz_known(zone@),
        RulesetError::UnknownRevision { venue, revision } => venue@ == v.venue@ && !ids.contains(
            revision@,
        ) && ((exists|i: int| 0 <= i < v.rules@.len() && (#[trigger] v.rules@[i]).revision@ == revision@)
            || (exists|j: int|
            0 <= j < v.events@.len() && (#[trigger] v.events@[j]).revision@ == revision@)),
        RulesetError::RuleOutsideCoverage { venue, rule } => venue@ == v.venue@ && exists|i: int|
            0 <= i < v.rules@.len() && !rule_within_coverage(v, #[trigger] v.rules@[i]) && rule@
                == kind_label(v.rules@[i].kind),
        RulesetError::UncoveredDate { venue, date } => venue@ == v.venue@ && in_covered_dates(
            v,
            date,
        ) && !date_answered(v.rules@, date),
        _ => false,
    }
}

/// The first problem of one venue, in the order the ruleset checks them: its zone; then
/// the revision of each rule, then of each event, in order; then each rule's dates
/// against coverage, in order; then the covered dates, earliest first.
pub open spec fn venue_first_problem(e: RulesetError, v: VenueRuleset, ids: Seq<Seq<char>>) -> bool {
    match e {
        RulesetError::UnknownZone { venue, zone } => venue@ == v.venue@ && zone@ == v.home_zone@
            && !tz_known(zone@),
        RulesetError::UnknownRevision { venue, revision } => {
            &&& venue@ == v.venue@
            &&& tz_known(v.home_zone@)
            &&& ((exists|i: int|
                0 <= i < v.rules@.len() && !ids.contains((#[trigger] v.rules@[i]).revision@)
                    && revision@ == v.rules@[i].revision@ && forall|k: int|
                    0 <= k < i ==> ids.contains((#[trigger] v.rules@[k]).revision@)) || ((forall|k: int|
                0 <= k < v.rules@.len() ==> ids.contains((#[trigger] v.rules@[k]).revision@))
                && exists|j: int|
                0 <= j < v.events@.len() && !ids.contains((#[trigger] v.events@[j]).revision@)
                    && revision@ == v.events@[j].revision@ && forall|k: int|
                    0 <= k < j ==> ids.contains((#[trigger] v.events@[k]).revision@)))
        },
        RulesetError::RuleOutsideCoverage { venue, rule } => {
            &&& venue@ == v.venue@
            &&& tz_known(v.home_zone@)
            &&& cites_known_revisions(v, ids)
            &&& exists|i: int|
                0 <= i < v.rules@.len() && !rule_within_coverage(v, #[trigger] v.rules@[i]) && rule@
                    == kind_label(v.rules@[i].kind) && forall|k: int|
                    0 <= k < i ==> rule_within_coverage(v, #[trigger] v.rules@[k])
        },
        RulesetError::UncoveredDate { venue, date } => {
            &&& venue@ == v.venue@
            &&& tz_known(v.home_zone@)
            &&& cites_known_revisions(v, ids)
            &&& forall|i: int| 0 <= i < v.rules@.len() ==> rule_within_coverage(v, #[trigger] v.rules@[i])
            &&& in_covered_dates(v, date)
            &&& !date_answered(v.rules@, date)
            &&& forall|d: CivilDate|
                in_covered_dates(v, d) && d.ordinal() < date.ordinal() ==> #[trigger] date_answered(v.rules@, d)
        },
        _ => false,
    }
}

/// `e` is what `from_parts` reports when venue `k` is the first that fails: every venue
/// before it is valid and none is supplied twice; venue `k` repeats an earlier venue and
/// `e` names it, or `e` is its first problem.
pub open spec fn first_failure_at(
    e: RulesetError,
    revisions: Seq<DatasetRevision>,
    venues: Seq<VenueRuleset>,
    k: int,
) -> bool {
    &&& 0 <= k < venues.len()
    &&& distinct_venues(venues.subrange(0, k))
    &&& forall|i: int| 0 <= i < k ==> venue_valid(#[trigger] venues[i], revision_ids_of(revisions))
    &&& if exists|i: int| 0 <= i < k && (#[trigger] venues[i]).venue@ == venues[k].venue@ {
        e matches RulesetError::DuplicateVenue { venue } && venue@ == venues[k].venue@
    } else {
        venue_first_problem(e, venues[k], revision_ids_of(revisions))
    }
}

/// `e` is the error `from_parts` reports for these parts: the first problem of the first
/// venue that fails.
pub open spec fn ruleset_reports(e: RulesetError, revisions: Seq<DatasetRevision>, venues: Seq<VenueRuleset>) -> bool {
    exists|k: int| first_failure_at(e, revisions, venues, k)
}

/// Where `id` belongs in a sorted list of venues: `Ok(p)` with every earlier venue
/// sorting before it and every later one after it, or `Err(k)` when venue `k` has the
/// same identifier.
fn insertion_point(sorted: &Vec<VenueRuleset>, id: &VenueId) -> (r: Result<usize, usize>)
    requires
        sorted_venues(sorted@),
    ensures
        r matches Ok(p) ==> p <= sorted@.len() && (forall|k: int|
            0 <= k < p ==> text_lt((#[trigger] sorted@[k]).venue@, id@)) && (forall|k: int|
            p <= k < sorted@.len() ==> text_lt(id@, (#[trigger] sorted@[k]).venue@)),
        r matches Err(k) ==> k < sorted@.len() && sorted@[k as int].venue@ == id@,
{
    let mut i: usize = 0;
    while i < sorted.len()
        invariant
            i <= sorted@.len(),
            sorted_venues(sorted@),
            forall|k: int| 0 <= k < i ==> text_lt((#[trigger] sorted@[k]).venue@, id@),
        decreases sorted@.len() - i,
    {
        let c = text_compare(sorted[i].venue.as_str(), id.as_str());
        if c == 0 {
            return Err(i);
        }
        if c > 0 {
            proof {
                assert forall|k: int| i <= k < sorted@.len() implies text_lt(
                    id@,
                    (#[trigger] sorted@[k]).venue@,
                ) by {
                    if k > i {
                        text_lt_transitive(id@, sorted@[i as int].venue@, sorted@[k].venue@);
                    }
                }
            }
            return Ok(i);
        }
        i = i + 1;
    }
    Ok(i)
}

/// Inserting a new venue into the output and appending it to the input keeps the two
/// holding the same venues.
proof fn lemma_insert_same_venues(
    before: Seq<VenueRuleset>,
    prefix: Seq<VenueRuleset>,
    now: VenueRuleset,
    p: int,
)
    requires
        same_venues(before, prefix),
        0 <= p <= before.len(),
    ensures
        same_venues(before.insert(p, now), prefix.push(now)),
{
    to_multiset_insert(before, p, now);
    to_multiset_build(prefix, now);
}

/// Inserting an element at its sorted position keeps a strictly sorted list sorted.
proof fn lemma_insert_keeps_order(before: Seq<VenueRuleset>, v: VenueRuleset, p: int)
    requires
        sorted_venues(before),
        0 <= p <= before.len(),
        forall|k: int| 0 <= k < p ==> text_lt((#[trigger] before[k]).venue@, v.venue@),
        forall|k: int| p <= k < before.len() ==> text_lt(v.venue@, (#[trigger] before[k]).venue@),
    ensures
        sorted_venues(before.insert(p, v)),
{
    let after = before.insert(p, v);
    assert forall|i: int, j: int| 0 <= i < j < after.len() implies text_lt(
        (#[trigger] after[i]).venue@,
        (#[trigger] after[j]).venue@,
    ) by {
        if i < p && j == p {
        } else if i < p && j > p {
            assert(after[j] == before[j - 1]);
        } else if i == p {
            assert(after[j] == before[j - 1]);
        } else if j < p {
        } else {
            assert(after[i] == before[i - 1]);
            assert(after[j] == before[j - 1]);
        }
    }
}

/// Whether the revision identifier is among the supplied revisions.
fn revision_known(revisions: &Vec<DatasetRevision>, id: &DatasetRevisionId) -> (r: bool)
    ensures
        r == revision_ids_of(revisions@).contains(id@),
{
    let ghost ids = revision_ids_of(revisions@);
    let mut i: usize = 0;
    while i < revisions.len()
        invariant
            i <= revisions@.len(),
            ids == revision_ids_of(revisions@),
            ids.len() == revisions@.len(),
            forall|k: int| 0 <= k < i ==> ids[k] != id@,
        decreases revisions@.len() - i,
    {
        if revisions[i].id.same_as(id) {
            assert(ids[i as int] == id@);
            return true;
        }
        i = i + 1;
    }
    false
}

/// Whether some rule applies on the date.
fn some_rule_applies(rules: &Vec<Rule>, date: CivilDate) -> (r: bool)
    ensures
        r == date_answered(rules@, date),
{
    let mut i: usize = 0;
    while i < rules.len()
        invariant
            i <= rules@.len(),
            forall|k: int| 0 <= k < i ==> !rule_applies_on(#[trigger] rules@[k], date),
        decreases rules@.len() - i,
    {
        if rules[i].applies_on(date) {
            return true;
        }
        i = i + 1;
    }
    false
}

/// Checks one venue against everything but duplication.
fn check_venue(v: &VenueRuleset, revisions: &Vec<DatasetRevision>) -> (r: Result<(), RulesetError>)
    ensures
        r is Ok <==> venue_valid(*v, revision_ids_of(revisions@)),
        r matches Err(e) ==> venue_error_witnessed(e, *v, revision_ids_of(revisions@)),
        r matches Err(e) ==> venue_first_problem(e, *v, revision_ids_of(revisions@)),
{
    let ghost ids = revision_ids_of(revisions@);
    if !zone_is_known(v.home_zone.as_str()) {
        return Err(
            RulesetError::UnknownZone { venue: v.venue.duplicate(), zone: v.home_zone.duplicate() },
        );
    }
    let mut i: usize = 0;
    while i < v.rules.len()
        invariant
            i <= v.rules@.len(),
            forall|k: int| 0 <= k < i ==> ids.contains((#[trigger] v.rules@[k]).revision@),
            tz_known(v.home_zone@),
            ids == revision_ids_of(revisions@),
        decreases v.rules@.len() - i,
    {
        if !revision_known(revisions, &v.rules[i].revision) {
            return Err(
                RulesetError::UnknownRevision {
                    venue: v.venue.duplicate(),
                    revision: v.rules[i].revision.duplicate(),
                },
            );
        }
        i = i + 1;
    }
    let mut j: usize = 0;
    while j < v.events.len()
        invariant
            j <= v.events@.len(),
            forall|k: int| 0 <= k < j ==> ids.contains((#[trigger] v.events@[k]).revision@),
            forall|k: int| 0 <= k < v.rules@.len() ==> ids.contains((#[trigger] v.rules@[k]).revision@),
            tz_known(v.home_zone@),
            ids == revision_ids_of(revisions@),
        decreases v.events@.len() - j,
    {
        if !revision_known(revisions, &v.events[j].revision) {
            return Err(
                RulesetError::UnknownRevision {
                    venue: v.venue.duplicate(),
                    revision: v.events[j].revision.duplicate(),
                },
            );
        }
        j = j + 1;
    }
    let zone = v.home_zone.as_str();
    let (first, _) = local_reading(zone, v.coverage.start());
    let (last, _) = local_reading(zone, v.coverage.end().saturating_add_nanos(-1));
    first.check_valid();
    last.check_valid();
    let mut i: usize = 0;
    while i < v.rules.len()
        invariant
            i <= v.rules@.len(),
            first@ == first_covered(*v),
            last@ == last_covered(*v),
            forall|k: int| 0 <= k < i ==> rule_within_coverage(*v, #[trigger] v.rules@[k]),
            tz_known(v.home_zone@),
            ids == revision_ids_of(revisions@),
            cites_known_revisions(*v, ids),
        decreases v.rules@.len() - i,
    {
        let rule = &v.rules[i];
        if rule.applies.start.is_before(first) || last.is_before(rule.applies.end) {
            return Err(
                RulesetError::RuleOutsideCoverage {
                    venue: v.venue.duplicate(),
                    rule: String::from_str(rule.kind.label()),
                },
            );
        }
        i = i + 1;
    }
    let mut date = first;
    loop
        invariant
            first@ == first_covered(*v),
            last@ == last_covered(*v),
            first.valid(),
            last.valid(),
            date.valid(),
            first.ordinal() <= date.ordinal(),
            date.ordinal() == first.ordinal() || date.ordinal() <= last.ordinal(),
            forall|d: CivilDate|
                d.valid() && first.ordinal() <= d.ordinal() < date.ordinal() ==> #[trigger]
                date_answered(v.rules@, d),
            tz_known(v.home_zone@),
            ids == revision_ids_of(revisions@),
            cites_known_revisions(*v, ids),
            forall|k: int| 0 <= k < v.rules@.len() ==> rule_within_coverage(*v, #[trigger] v.rules@[k]),
        ensures
            coverage_answerable(*v),
        decreases last.ordinal() - date.ordinal(),
    {
        if !some_rule_applies(&v.rules, date) {
            proof {
                assert(in_covered_dates(*v, date));
            }
            return Err(RulesetError::UncoveredDate { venue: v.venue.duplicate(), date });
        }
        if !date.is_before(last) {
            proof {
                assert forall|d: CivilDate| in_covered_dates(*v, d) implies #[trigger] date_answered(
                    v.rules@,
                    d,
                ) by {
                    if d.ordinal() == date.ordinal() {
                        lemma_ordinal_injective(d@, date@);
                        lemma_same_date_same_answer(v.rules@, d, date);
                    }
                }
            }
            break;
        }
        let next = match date.tomorrow() {
            Some(n) => n,
            None => {
                proof {
                    assert(date.ordinal() < last.ordinal());
                    assert(false);
                }
                return Err(RulesetError::CoverageOutOfCalendarRange { venue: v.venue.duplicate() });
            },
        };
        next.check_valid();
        proof {
            lemma_no_date_between(date@.0, date@.1, date@.2, last@);
            assert forall|d: CivilDate|
                d.valid() && first.ordinal() <= d.ordinal() < next.ordinal() implies #[trigger]
                date_answered(v.rules@, d) by {
                if d.ordinal() >= date.ordinal() {
                    if d.ordinal() > date.ordinal() {
                        lemma_no_date_between(date@.0, date@.1, date@.2, d@);
                    }
                    lemma_ordinal_injective(d@, date@);
                    lemma_same_date_same_answer(v.rules@, d, date);
                }
            }
        }
        date = next;
    }
    Ok(())
}

/// Whether rules answer a date depends only on the date's calendar value.
proof fn lemma_same_date_same_answer(rules: Seq<Rule>, a: CivilDate, b: CivilDate)
    requires
        a@ == b@,
        date_answered(rules, b),
    ensures
        date_answered(rules, a),
{
    let i = choose|i: int| 0 <= i < rules.len() && rule_applies_on(#[trigger] rules[i], b);
    assert(rule_applies_on(rules[i], a));
}

} // verus!
