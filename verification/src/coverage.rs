//! What a dataset is willing to answer for. Outside it, the answer is an explicit
//! unknown naming the boundary, never an extrapolated schedule.

use crate::ids::{DatasetRevisionId, VenueId};
use crate::instant::{instant_text, Interval, UtcInstant};
use vstd::prelude::*;

verus! {

/// The time range a venue's data is valid for, `[start, end)`.
#[derive(Debug, Clone, Copy, PartialEq, Eq)]
pub struct CoverageRange {
    interval: Interval,
}

impl CoverageRange {
    /// The declared interval.
    pub closed spec fn spec_interval(self) -> Interval {
        self.interval
    }

    /// Declares coverage over `interval`.
    pub fn new(interval: Interval) -> (r: CoverageRange)
        ensures
            r.spec_interval() == interval,
    {
        CoverageRange { interval }
    }

    /// The declared interval, under `[start, end)` ownership.
    pub fn interval(&self) -> (r: Interval)
        ensures
            r == self.spec_interval(),
    {
        self.interval
    }

    /// First instant inside coverage.
    pub fn start(&self) -> (r: UtcInstant)
        ensures
            r == self.spec_interval().start,
    {
        self.interval.start
    }

    /// First instant after coverage.
    pub fn end(&self) -> (r: UtcInstant)
        ensures
            r == self.spec_interval().end,
    {
        self.interval.end
    }

    /// Whether `at` is inside declared coverage.
    pub fn contains(&self, at: UtcInstant) -> (r: bool)
        ensures
            r == self.spec_interval().spec_contains(at),
    {
        self.interval.contains(at)
    }
}

/// The answer when a query falls outside declared coverage: a value of its own, never an
/// error and never a closed market.
#[derive(Debug, Clone, PartialEq, Eq)]
pub struct CoverageGap {
    /// The venue that was asked about.
    pub venue: VenueId,
    /// The instant that was asked about.
    pub queried_at: UtcInstant,
    /// The declaration that was violated, `None` when the venue has no coverage at all.
    pub coverage: Option<CoverageRange>,
    /// The revisions consulted while establishing that this is a gap.
    pub dataset_revisions: Vec<DatasetRevisionId>,
}

/// Which side of coverage a gap fell on, in words.
pub open spec fn gap_text(gap: CoverageGap) -> Seq<char> {
    match gap.coverage {
        None => "no coverage is declared for "@ + gap.venue@,
        Some(range) => if gap.queried_at.nanos() < range.spec_interval().start.nanos() {
            "before "@ + gap.venue@ + " coverage begins at "@ + instant_text(
                range.spec_interval().start.nanos(),
            )
        } else {
            "after "@ + gap.venue@ + " coverage ends at "@ + instant_text(
                range.spec_interval().end.nanos(),
            )
        },
    }
}

impl CoverageGap {
    /// Which side of coverage the query fell on, in words a shell can render.
    pub fn describe(&self) -> (r: String)
        ensures
            r@ == gap_text(*self),
    {
        match &self.coverage {
            None => {
                let mut out = String::from_str("no coverage is declared for ");
                out.append(self.venue.as_str());
                out
            },
            Some(range) => {
                if self.queried_at.is_before(range.start()) {
                    let mut out = String::from_str("before ");
                    out.append(self.venue.as_str());
                    out.append(" coverage begins at ");
                    out.append(range.start().to_string().as_str());
                    out
                } else {
                    let mut out = String::from_str("after ");
                    out.append(self.venue.as_str());
                    out.append(" coverage ends at ");
                    out.append(range.end().to_string().as_str());
                    out
                }
            },
        }
    }
}

} // verus!
