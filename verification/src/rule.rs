//! Rules: what a venue's schedule says, and for which dates it says it.
//!
//! Boundaries are stored as civil times of day in the venue's home zone and converted at
//! query time, so a daylight-saving shift moves them correctly.

use crate::civil::{date_text, weekday_of, CivilDate, CivilTime, Weekday};
use crate::evidence::{DerivationNote, EvidenceRef};
use crate::ids::DatasetRevisionId;
use crate::phase::Phase;
use crate::uncertainty::Uncertainty;
use vstd::prelude::*;

verus! {

/// Why a rule or a schedule could not be built.
#[derive(Debug, Clone, PartialEq, Eq)]
pub enum RuleError {
    /// A day schedule did not start at midnight.
    ScheduleDoesNotStartAtMidnight,
    /// A day schedule's change points were not strictly increasing.
    ScheduleNotOrdered,
    /// A date range ended before it started.
    DateRangeReversed {
        /// The proposed start.
        start: CivilDate,
        /// The proposed end.
        end: CivilDate,
    },
}

/// The message for a rule error.
pub open spec fn rule_error_text(e: RuleError) -> Seq<char> {
    match e {
        RuleError::ScheduleDoesNotStartAtMidnight => "a day schedule must start at 00:00, or it leaves a gap"@,
        RuleError::ScheduleNotOrdered => "day schedule change points must strictly increase"@,
        RuleError::DateRangeReversed { start, end } => "date range ends at "@ + date_text(end@)
            + ", before it starts at "@ + date_text(start@),
    }
}

impl RuleError {
    /// The message a shell prints for this error.
    pub fn describe(&self) -> (r: String)
        ensures
            r@ == rule_error_text(*self),
    {
        match self {
            RuleError::ScheduleDoesNotStartAtMidnight => String::from_str(
                "a day schedule must start at 00:00, or it leaves a gap",
            ),
            RuleError::ScheduleNotOrdered => String::from_str(
                "day schedule change points must strictly increase",
            ),
            RuleError::DateRangeReversed { start, end } => {
                let mut out = String::from_str("date range ends at ");
                let end_text = end.to_string();
                out.append(end_text.as_str());
                out.append(", before it starts at ");
                let start_text = start.to_string();
                out.append(start_text.as_str());
                proof {
                    reveal_strlit("date range ends at ");
                    reveal_strlit(", before it starts at ");
                }
                out
            },
        }
    }
}

/// An inclusive range of venue-local calendar dates.
#[derive(Debug, Clone, Copy, PartialEq, Eq)]
pub struct DateRange {
    /// First date in the range.
    pub start: CivilDate,
    /// Last date in the range, inclusive.
    pub end: CivilDate,
}

impl DateRange {
    /// Whether `date` falls in the range.
    pub open spec fn spec_contains(self, date: CivilDate) -> bool {
        self.start.ordinal() <= date.ordinal() <= self.end.ordinal()
    }

    /// Builds a date range; `end` may not precede `start`.
    pub fn new(start: CivilDate, end: CivilDate) -> (r: Result<DateRange, RuleError>)
        ensures
            (end.ordinal() < start.ordinal()) <==> r is Err,
            r matches Ok(range) ==> range.start == start && range.end == end,
            r matches Err(e) ==> e == (RuleError::DateRangeReversed { start, end }),
    {
        if end.is_before(start) {
            return Err(RuleError::DateRangeReversed { start, end });
        }
        Ok(DateRange { start, end })
    }

    /// Whether `date` falls in the range.
    pub fn contains(self, date: CivilDate) -> (r: bool)
        ensures
            r == self.spec_contains(date),
    {
        !date.is_before(self.start) && !self.end.is_before(date)
    }
}

/// Change points that tile a day: the first is midnight and each is strictly later than
/// the one before.
pub open spec fn tiles_day(points: Seq<(CivilTime, Phase)>) -> bool {
    &&& points.len() > 0
    &&& points[0].0.since_midnight() == 0
    &&& forall|i: int, j: int|
        0 <= i < j < points.len() ==> (#[trigger] points[i]).0.since_midnight() < (
        #[trigger] points[j]).0.since_midnight()
}

/// A venue-local day, described as the phases it is divided into. The change points tile
/// the day: the first is midnight, each phase runs until the next change point, and the
/// last runs to the next midnight.
#[derive(Debug, PartialEq, Eq)]
pub struct CivilDaySchedule {
    change_points: Vec<(CivilTime, Phase)>,
}

impl CivilDaySchedule {
    #[verifier::type_invariant]
    closed spec fn inv(self) -> bool {
        tiles_day(self.change_points@)
    }

    /// The change points, in order.
    pub closed spec fn points(self) -> Seq<(CivilTime, Phase)> {
        self.change_points@
    }

    /// Builds a day schedule from its change points. The first must be `00:00` and they
    /// must strictly increase; an empty list is reported as not starting at midnight.
    pub fn new(change_points: Vec<(CivilTime, Phase)>) -> (r: Result<CivilDaySchedule, RuleError>)
        ensures
            (change_points@.len() == 0 || change_points@[0].0.since_midnight() != 0) ==> r
                == Err::<CivilDaySchedule, _>(RuleError::ScheduleDoesNotStartAtMidnight),
            (change_points@.len() > 0 && change_points@[0].0.since_midnight() == 0) ==> (
            tiles_day(change_points@) <==> r is Ok),
            (change_points@.len() > 0 && change_points@[0].0.since_midnight() == 0
                && !tiles_day(change_points@)) ==> r == Err::<CivilDaySchedule, _>(
                RuleError::ScheduleNotOrdered,
            ),
            r matches Ok(s) ==> s.points() == change_points@,
    {
        if change_points.len() == 0 {
            return Err(RuleError::ScheduleDoesNotStartAtMidnight);
        }
        if change_points[0].0.nanos_since_midnight() != 0 {
            return Err(RuleError::ScheduleDoesNotStartAtMidnight);
        }
        let n = change_points.len();
        let mut i: usize = 1;
        while i < n
            invariant
                n == change_points@.len(),
                1 <= i <= n,
                change_points@[0].0.since_midnight() == 0,
                forall|a: int, b: int|
                    0 <= a < b < i ==> (#[trigger] change_points@[a]).0.since_midnight() < (
                    #[trigger] change_points@[b]).0.since_midnight(),
            decreases n - i,
        {
            let later = change_points[i].0.nanos_since_midnight();
            let earlier = change_points[i - 1].0.nanos_since_midnight();
            if later <= earlier {
                proof {
                    let a = (i - 1) as int;
                    let b = i as int;
                    assert(!(change_points@[a].0.since_midnight()
                        < change_points@[b].0.since_midnight()));
                    assert(!tiles_day(change_points@));
                }
                return Err(RuleError::ScheduleNotOrdered);
            }
            proof {
                assert forall|a: int, b: int|
                    0 <= a < b < i + 1 implies (#[trigger] change_points@[a]).0.since_midnight() < (
                    #[trigger] change_points@[b]).0.since_midnight() by {
                    if b == i as int && a < i - 1 {
                        assert(change_points@[a].0.since_midnight()
                            < change_points@[i - 1].0.since_midnight());
                    }
                }
            }
            i = i + 1;
        }
        assert(tiles_day(change_points@));
        Ok(CivilDaySchedule { change_points })
    }

    /// A day that is one phase from midnight to midnight.
    pub fn all_day(phase: Phase) -> (r: Result<CivilDaySchedule, RuleError>)
        ensures
            r matches Ok(s) && s.points().len() == 1 && s.points()[0].1 == phase
                && s.points()[0].0.since_midnight() == 0,
    {
        let mut points = Vec::new();
        points.push((CivilTime::midnight(), phase));
        CivilDaySchedule::new(points)
    }

    /// The change points, in order, starting at midnight.
    pub fn change_points(&self) -> (r: &[(CivilTime, Phase)])
        ensures
            r@ == self.points(),
            tiles_day(r@),
    {
        proof {
            use_type_invariant(self);
        }
        self.change_points.as_slice()
    }

    /// A copy of this schedule.
    pub fn duplicate(&self) -> (r: CivilDaySchedule)
        ensures
            r.points() == self.points(),
    {
        proof {
            use_type_invariant(self);
        }
        let mut points: Vec<(CivilTime, Phase)> = Vec::new();
        let mut i: usize = 0;
        while i < self.change_points.len()
            invariant
                i <= self.change_points@.len(),
                points@ == self.change_points@.subrange(0, i as int),
            decreases self.change_points@.len() - i,
        {
            points.push(self.change_points[i]);
            i = i + 1;
            assert(points@ =~= self.change_points@.subrange(0, i as int));
        }
        assert(points@ =~= self.change_points@);
        proof {
            use_type_invariant(self);
        }
        CivilDaySchedule { change_points: points }
    }
}

impl Clone for CivilDaySchedule {
    fn clone(&self) -> (r: CivilDaySchedule)
        ensures
            r.points() == self.points(),
    {
        self.duplicate()
    }
}

/// What kind of statement a rule makes.
#[derive(Debug, Clone, PartialEq, Eq)]
pub enum RuleKind {
    /// The ordinary weekly pattern, applying on the listed weekdays.
    WeeklyPattern {
        /// Weekdays this pattern applies on.
        weekdays: Vec<Weekday>,
    },
    /// A day the venue does not trade its normal schedule.
    Holiday {
        /// The holiday, as the venue names it.
        name: String,
    },
    /// A day the venue trades a shortened schedule.
    ShortenedSession {
        /// The session, as the venue names it.
        name: String,
    },
    /// A schedule change the venue announced, effective from a date.
    AnnouncedChange {
        /// What the venue announced.
        note: String,
    },
}

/// Precedence of a rule kind: holidays and shortened sessions win over announced
/// changes, which win over the weekly pattern.
pub open spec fn precedence_of(k: RuleKind) -> int {
    match k {
        RuleKind::Holiday { .. } => 30,
        RuleKind::ShortenedSession { .. } => 30,
        RuleKind::AnnouncedChange { .. } => 20,
        RuleKind::WeeklyPattern { .. } => 10,
    }
}

/// Whether a rule of this kind can apply on a weekday.
pub open spec fn kind_applies_on_weekday(k: RuleKind, w: Weekday) -> bool {
    match k {
        RuleKind::WeeklyPattern { weekdays } => weekdays@.contains(w),
        _ => true,
    }
}

/// The category name of a rule kind.
pub open spec fn kind_text(k: RuleKind) -> Seq<char> {
    match k {
        RuleKind::WeeklyPattern { .. } => "weekly_pattern"@,
        RuleKind::Holiday { .. } => "holiday"@,
        RuleKind::ShortenedSession { .. } => "shortened_session"@,
        RuleKind::AnnouncedChange { .. } => "announced_change"@,
    }
}

/// The short label a rule kind renders as.
pub open spec fn kind_label(k: RuleKind) -> Seq<char> {
    match k {
        RuleKind::WeeklyPattern { .. } => "weekly pattern"@,
        RuleKind::Holiday { name } => name@,
        RuleKind::ShortenedSession { name } => name@,
        RuleKind::AnnouncedChange { note } => note@,
    }
}

impl RuleKind {
    /// Higher wins when more than one rule applies to a date.
    pub fn precedence(&self) -> (r: u8)
        ensures
            r == precedence_of(*self),
    {
        match self {
            RuleKind::Holiday { .. } | RuleKind::ShortenedSession { .. } => 30,
            RuleKind::AnnouncedChange { .. } => 20,
            RuleKind::WeeklyPattern { .. } => 10,
        }
    }

    /// Whether this rule can apply on `weekday`.
    pub fn applies_on_weekday(&self, weekday: Weekday) -> (r: bool)
        ensures
            r == kind_applies_on_weekday(*self, weekday),
    {
        match self {
            RuleKind::WeeklyPattern { weekdays } => lists_weekday(weekdays, weekday),
            _ => true,
        }
    }

    /// A short label for rendering.
    pub fn label(&self) -> (r: &str)
        ensures
            r@ == kind_label(*self),
    {
        match self {
            RuleKind::WeeklyPattern { .. } => "weekly pattern",
            RuleKind::Holiday { name } => name.as_str(),
            RuleKind::ShortenedSession { name } => name.as_str(),
            RuleKind::AnnouncedChange { note } => note.as_str(),
        }
    }

    /// The category name, e.g. `weekly_pattern` or `holiday`.
    pub fn kind_str(&self) -> (r: &'static str)
        ensures
            r@ == kind_text(*self),
    {
        match self {
            RuleKind::WeeklyPattern { .. } => "weekly_pattern",
            RuleKind::Holiday { .. } => "holiday",
            RuleKind::ShortenedSession { .. } => "shortened_session",
            RuleKind::AnnouncedChange { .. } => "announced_change",
        }
    }
}

/// Whether `weekday` appears in `weekdays`.
fn lists_weekday(weekdays: &Vec<Weekday>, weekday: Weekday) -> (r: bool)
    ensures
        r == weekdays@.contains(weekday),
{
    let mut i: usize = 0;
    while i < weekdays.len()
        invariant
            i <= weekdays@.len(),
            forall|j: int| 0 <= j < i ==> weekdays@[j] != weekday,
        decreases weekdays@.len() - i,
    {
        if weekdays[i] == weekday {
            assert(weekdays@[i as int] == weekday);
            return true;
        }
        i = i + 1;
    }
    false
}

/// One statement about a venue's schedule, with the evidence for it.
#[derive(Debug, Clone, PartialEq, Eq)]
pub struct Rule {
    /// What kind of statement this is.
    pub kind: RuleKind,
    /// The venue-local day this rule describes.
    pub schedule: CivilDaySchedule,
    /// The dates the rule is in force.
    pub applies: DateRange,
    /// How precisely the source publishes these boundaries.
    pub boundary_uncertainty: Uncertainty,
    /// Where the rule came from.
    pub evidence: EvidenceRef,
    /// Present when the rule is our reading rather than the venue's wording.
    pub derived: Option<DerivationNote>,
    /// The dataset revision this rule belongs to.
    pub revision: DatasetRevisionId,
}

/// Whether a rule applies on a date: the date is in its range and, for a weekly
/// pattern, falls on one of its weekdays.
pub open spec fn rule_applies_on(r: Rule, date: CivilDate) -> bool {
    r.applies.spec_contains(date) && kind_applies_on_weekday(r.kind, weekday_of(date))
}

impl Rule {
    /// Whether this rule applies on `date`.
    pub fn applies_on(&self, date: CivilDate) -> (r: bool)
        ensures
            r == rule_applies_on(*self, date),
    {
        self.applies.contains(date) && self.kind.applies_on_weekday(date.weekday())
    }

    /// Whether the rule is derived rather than published as such.
    pub fn is_derived(&self) -> (r: bool)
        ensures
            r == self.derived is Some,
    {
        self.derived.is_some()
    }
}

} // verus!
