//! Scheduled occurrences that are not states, such as a funding settlement. Events sit on
//! top of the phase in force and never replace, split, or extend it.

use crate::civil::CivilTime;
use crate::evidence::EvidenceRef;
use crate::ids::DatasetRevisionId;
use crate::instant::UtcInstant;
use crate::rule::DateRange;
use crate::text::text_eq;
use crate::uncertainty::Uncertainty;
use vstd::prelude::*;

verus! {

/// The kind of a scheduled occurrence.
#[derive(Debug, Clone, Copy, PartialEq, Eq, Structural, PartialOrd, Ord, Hash)]
pub enum EventKind {
    /// A perpetual-futures funding settlement.
    FundingSettlement,
}

impl EventKind {
    /// A stable, lowercase identifier.
    pub fn as_str(self) -> (r: &'static str)
        ensures
            r@ == "funding_settlement"@,
    {
        match self {
            EventKind::FundingSettlement => "funding_settlement",
        }
    }

    /// Parses the identifier produced by [`EventKind::as_str`].
    pub fn from_str_exact(value: &str) -> (r: Option<EventKind>)
        ensures
            r == (if value@ == "funding_settlement"@ {
                Some(EventKind::FundingSettlement)
            } else {
                None
            }),
    {
        if text_eq(value, "funding_settlement") {
            Some(EventKind::FundingSettlement)
        } else {
            None
        }
    }
}

/// A rule that produces occurrences at venue-local times of day.
#[derive(Debug, Clone, PartialEq, Eq)]
pub struct EventRule {
    /// What kind of occurrence this rule produces.
    pub kind: EventKind,
    /// The venue-local times of day it occurs at.
    pub times: Vec<CivilTime>,
    /// The dates the rule is in force.
    pub applies: DateRange,
    /// How precisely the occurrence instant is known; a venue-published deviation is
    /// carried here unchanged.
    pub uncertainty: Uncertainty,
    /// Where the rule came from.
    pub evidence: EvidenceRef,
    /// The dataset revision this rule belongs to.
    pub revision: DatasetRevisionId,
}

/// One occurrence of a scheduled event.
#[derive(Debug, Clone, PartialEq, Eq)]
pub struct EventOccurrence {
    /// What kind of occurrence this is.
    pub kind: EventKind,
    /// When it is scheduled.
    pub instant: UtcInstant,
    /// How precisely that instant is known.
    pub uncertainty: Uncertainty,
    /// The evidence for the rule that produced it.
    pub evidence: Vec<EvidenceRef>,
}

} // verus!
