//! The shapes an answer comes back in.

use crate::coverage::CoverageGap;
use crate::event::EventOccurrence;
use crate::evidence::EvidenceRef;
use crate::ids::{DatasetRevisionId, VenueId};
use crate::instant::{Interval, UtcInstant};
use crate::phase::Phase;
use crate::uncertainty::Uncertainty;
use vstd::prelude::*;

verus! {

/// A phase boundary and how precisely it is known.
#[derive(Debug, Clone, PartialEq, Eq)]
pub struct PhaseBoundary {
    /// The instant the boundary falls on.
    pub instant: UtcInstant,
    /// How precisely that instant is known.
    pub uncertainty: Uncertainty,
}

/// A phase answer for one venue at one instant.
#[derive(Debug, Clone, PartialEq, Eq)]
pub struct PhaseAnswer {
    /// The venue.
    pub venue: VenueId,
    /// The phase, from the shared vocabulary.
    pub phase: Phase,
    /// The category of the calendar rule that governs this venue-local date.
    pub calendar_rule_kind: String,
    /// The venue's own label for the governing calendar rule.
    pub calendar_label: String,
    /// When the phase started.
    pub boundary_start: PhaseBoundary,
    /// When it ends.
    pub boundary_end: PhaseBoundary,
    /// Events scheduled inside this phase. May be empty; events do not tile.
    pub events: Vec<EventOccurrence>,
    /// The evidence for the rules that produced this answer.
    pub evidence: Vec<EvidenceRef>,
    /// Whether the governing rule is our reading rather than the venue's wording.
    pub derived_reasoning: Option<String>,
    /// The answer-level uncertainty: never narrower than either boundary's.
    pub uncertainty: Uncertainty,
    /// The revisions that produced the answer.
    pub dataset_revisions: Vec<DatasetRevisionId>,
}

/// Either a phase or an explicit unknown. `Unknown` is not an error and not
/// `Phase::Closed`.
#[derive(Debug, Clone, PartialEq, Eq)]
pub enum PhaseOutcome {
    /// The venue's phase at the queried instant.
    Known(Box<PhaseAnswer>),
    /// The instant falls outside declared coverage.
    Unknown(Box<CoverageGap>),
}

impl PhaseOutcome {
    /// The phase, when the outcome is known.
    pub fn phase(&self) -> (r: Option<Phase>)
        ensures
            r == (match *self {
                PhaseOutcome::Known(answer) => Some(answer.phase),
                PhaseOutcome::Unknown(_) => None,
            }),
    {
        match self {
            PhaseOutcome::Known(answer) => Some(answer.phase),
            PhaseOutcome::Unknown(_) => None,
        }
    }

    /// Whether this outcome is an explicit unknown.
    pub fn is_unknown(&self) -> (r: bool)
        ensures
            r == (*self is Unknown),
    {
        matches!(self, PhaseOutcome::Unknown(_))
    }
}

/// One venue's outcome inside a multi-venue answer.
#[derive(Debug, Clone, PartialEq, Eq)]
pub struct VenueOutcome {
    /// The venue.
    pub venue: VenueId,
    /// Its outcome at the shared instant.
    pub outcome: PhaseOutcome,
}

/// One stretch of a timeline: a phase, or a stretch outside coverage.
#[derive(Debug, Clone, PartialEq, Eq)]
pub enum TimelineSegment {
    /// A phase, occupying `interval`.
    Phase {
        /// The stretch this phase occupies, clipped to the queried interval.
        interval: Interval,
        /// The answer for that stretch.
        answer: Box<PhaseAnswer>,
    },
    /// A stretch outside declared coverage.
    Unknown {
        /// The stretch that is not known, clipped to the queried interval.
        interval: Interval,
        /// Which coverage declaration this stretch falls outside.
        gap: Box<CoverageGap>,
    },
}

/// The stretch a segment occupies.
pub open spec fn segment_interval(s: TimelineSegment) -> Interval {
    match s {
        TimelineSegment::Phase { interval, .. } => interval,
        TimelineSegment::Unknown { interval, .. } => interval,
    }
}

/// The phase of a segment, `None` for a stretch outside coverage.
pub open spec fn segment_phase(s: TimelineSegment) -> Option<Phase> {
    match s {
        TimelineSegment::Phase { answer, .. } => Some(answer.phase),
        TimelineSegment::Unknown { .. } => None,
    }
}

impl TimelineSegment {
    /// The stretch this segment occupies.
    pub fn interval(&self) -> (r: Interval)
        ensures
            r == segment_interval(*self),
    {
        match self {
            TimelineSegment::Phase { interval, .. } => *interval,
            TimelineSegment::Unknown { interval, .. } => *interval,
        }
    }

    /// The phase, when this segment is a phase.
    pub fn phase(&self) -> (r: Option<Phase>)
        ensures
            r == segment_phase(*self),
    {
        match self {
            TimelineSegment::Phase { answer, .. } => Some(answer.phase),
            TimelineSegment::Unknown { .. } => None,
        }
    }

    /// Whether this stretch is outside coverage.
    pub fn is_unknown(&self) -> (r: bool)
        ensures
            r == (*self is Unknown),
    {
        matches!(self, TimelineSegment::Unknown { .. })
    }
}

/// Consecutive intervals chain from `start` to `end` with no gap and no overlap: each
/// starts where the previous one ended and none runs backwards.
pub open spec fn chains(start: UtcInstant, end: UtcInstant, ivs: Seq<Interval>) -> bool {
    if ivs.len() == 0 {
        start == end
    } else {
        &&& ivs[0].start == start
        &&& ivs[ivs.len() - 1].end == end
        &&& forall|i: int| 0 <= i < ivs.len() - 1 ==> (#[trigger] ivs[i]).end == ivs[i + 1].start
        &&& forall|i: int|
            0 <= i < ivs.len() ==> (#[trigger] ivs[i]).start.nanos() <= ivs[i].end.nanos()
    }
}

/// In a chain, an earlier interval ends no later than a later one starts, and every
/// interval lies inside the chain's span.
pub proof fn lemma_chain_order(start: UtcInstant, end: UtcInstant, ivs: Seq<Interval>, i: int, j: int)
    requires
        chains(start, end, ivs),
        0 <= i < j < ivs.len(),
    ensures
        ivs[i].end.nanos() <= ivs[j].start.nanos(),
    decreases j - i,
{
    if j > i + 1 {
        lemma_chain_order(start, end, ivs, i, j - 1);
        assert(ivs[j - 1].end == ivs[j].start);
    } else {
        assert(ivs[i].end == ivs[i + 1].start);
    }
}

/// Every interval of a chain lies inside the chain's span.
pub proof fn lemma_chain_bounds(start: UtcInstant, end: UtcInstant, ivs: Seq<Interval>, i: int)
    requires
        chains(start, end, ivs),
        0 <= i < ivs.len(),
    ensures
        start.nanos() <= ivs[i].start.nanos(),
        ivs[i].end.nanos() <= end.nanos(),
{
    if i > 0 {
        lemma_chain_order(start, end, ivs, 0, i);
    }
    if i < ivs.len() - 1 {
        lemma_chain_order(start, end, ivs, i, ivs.len() - 1);
    }
}

/// At most one interval of a chain holds any instant.
pub proof fn lemma_chain_one_owner(
    start: UtcInstant,
    end: UtcInstant,
    ivs: Seq<Interval>,
    i: int,
    j: int,
    t: int,
)
    requires
        chains(start, end, ivs),
        0 <= i < ivs.len(),
        0 <= j < ivs.len(),
        ivs[i].start.nanos() <= t < ivs[i].end.nanos(),
        ivs[j].start.nanos() <= t < ivs[j].end.nanos(),
    ensures
        i == j,
{
    if i < j {
        lemma_chain_order(start, end, ivs, i, j);
    } else if j < i {
        lemma_chain_order(start, end, ivs, j, i);
    }
}

/// The intervals of a list of timeline segments.
pub open spec fn segment_intervals(segs: Seq<TimelineSegment>) -> Seq<Interval> {
    segs.map_values(|s: TimelineSegment| segment_interval(s))
}

/// One venue's phases across a queried interval.
#[derive(Debug, Clone, PartialEq, Eq)]
pub struct Timeline {
    /// The venue.
    pub venue: VenueId,
    /// The interval that was asked about.
    pub interval: Interval,
    /// The segments covering it, in order.
    pub segments: Vec<TimelineSegment>,
}

impl Timeline {
    /// Whether the segments tile the queried interval: they chain from its start to its
    /// end with no gap and no overlap.
    pub open spec fn spec_tiles_interval(self) -> bool {
        chains(self.interval.start, self.interval.end, segment_intervals(self.segments@))
    }

    /// Whether the segments tile the queried interval exactly: no gaps, no overlaps, every
    /// instant of it owned by exactly one segment.
    pub fn tiles_interval(&self) -> (r: bool)
        ensures
            r == self.spec_tiles_interval(),
    {
        let ghost ivs = segment_intervals(self.segments@);
        let mut cursor = self.interval.start;
        let n = self.segments.len();
        let mut i: usize = 0;
        while i < n
            invariant
                n == self.segments@.len(),
                ivs == segment_intervals(self.segments@),
                i <= n,
                i == 0 ==> cursor == self.interval.start,
                i > 0 ==> cursor == ivs[i - 1].end,
                i > 0 ==> ivs[0].start == self.interval.start,
                forall|k: int| 0 <= k < i - 1 ==> (#[trigger] ivs[k]).end == ivs[k + 1].start,
                forall|k: int| 0 <= k < i ==> (#[trigger] ivs[k]).start.nanos() <= ivs[k].end.nanos(),
            decreases n - i,
        {
            let segment_interval = self.segments[i].interval();
            if !segment_interval.start.same_as(cursor) {
                proof {
                    if i > 0 {
                        assert(ivs[i - 1].end != ivs[i as int].start);
                    }
                }
                return false;
            }
            if segment_interval.end.is_before(segment_interval.start) {
                proof {
                    assert(!(ivs[i as int].start.nanos() <= ivs[i as int].end.nanos()));
                }
                return false;
            }
            cursor = segment_interval.end;
            i = i + 1;
        }
        cursor.same_as(self.interval.end)
    }
}

} // verus!
