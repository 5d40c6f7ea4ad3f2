//! The shared phase vocabulary: one closed set of states describes every venue.

use crate::text::text_eq;
use vstd::prelude::*;

verus! {

/// A state a venue is in for a contiguous stretch of time.
#[derive(Debug, Clone, Copy, PartialEq, Eq, Structural, PartialOrd, Ord, Hash)]
pub enum Phase {
    /// Not trading and not in any pre- or post-trading state.
    Closed,
    /// Order entry is open ahead of the opening auction.
    PreOpen,
    /// The opening auction itself.
    OpeningAuction,
    /// Ordinary continuous matching.
    ContinuousTrading,
    /// A scheduled break inside the trading day; neither open nor closed.
    MidDayBreak,
    /// The closing auction itself.
    ClosingAuction,
    /// After the close, while post-close facilities remain available.
    PostClose,
    /// Trading stopped inside a stretch the schedule says should be trading.
    NonTradingInterruption,
}

/// The stable identifier of each phase.
pub open spec fn phase_text(p: Phase) -> Seq<char> {
    match p {
        Phase::Closed => "closed"@,
        Phase::PreOpen => "pre_open"@,
        Phase::OpeningAuction => "opening_auction"@,
        Phase::ContinuousTrading => "continuous_trading"@,
        Phase::MidDayBreak => "mid_day_break"@,
        Phase::ClosingAuction => "closing_auction"@,
        Phase::PostClose => "post_close"@,
        Phase::NonTradingInterruption => "non_trading_interruption"@,
    }
}

/// The phase a text names, if it names one.
pub open spec fn phase_of_text(t: Seq<char>) -> Option<Phase> {
    if t == "closed"@ {
        Some(Phase::Closed)
    } else if t == "pre_open"@ {
        Some(Phase::PreOpen)
    } else if t == "opening_auction"@ {
        Some(Phase::OpeningAuction)
    } else if t == "continuous_trading"@ {
        Some(Phase::ContinuousTrading)
    } else if t == "mid_day_break"@ {
        Some(Phase::MidDayBreak)
    } else if t == "closing_auction"@ {
        Some(Phase::ClosingAuction)
    } else if t == "post_close"@ {
        Some(Phase::PostClose)
    } else if t == "non_trading_interruption"@ {
        Some(Phase::NonTradingInterruption)
    } else {
        None
    }
}

/// Whether orders match against each other during a phase.
pub open spec fn phase_is_trading(p: Phase) -> bool {
    p == Phase::OpeningAuction || p == Phase::ContinuousTrading || p == Phase::ClosingAuction
}

impl Phase {
    /// A stable, lowercase identifier, for datasets and machine consumers.
    pub fn as_str(self) -> (r: &'static str)
        ensures
            r@ == phase_text(self),
    {
        match self {
            Phase::Closed => "closed",
            Phase::PreOpen => "pre_open",
            Phase::OpeningAuction => "opening_auction",
            Phase::ContinuousTrading => "continuous_trading",
            Phase::MidDayBreak => "mid_day_break",
            Phase::ClosingAuction => "closing_auction",
            Phase::PostClose => "post_close",
            Phase::NonTradingInterruption => "non_trading_interruption",
        }
    }

    /// Parses the identifier produced by [`Phase::as_str`]; `None` outside the vocabulary.
    pub fn from_str_exact(value: &str) -> (r: Option<Phase>)
        ensures
            r == phase_of_text(value@),
    {
        if text_eq(value, "closed") {
            Some(Phase::Closed)
        } else if text_eq(value, "pre_open") {
            Some(Phase::PreOpen)
        } else if text_eq(value, "opening_auction") {
            Some(Phase::OpeningAuction)
        } else if text_eq(value, "continuous_trading") {
            Some(Phase::ContinuousTrading)
        } else if text_eq(value, "mid_day_break") {
            Some(Phase::MidDayBreak)
        } else if text_eq(value, "closing_auction") {
            Some(Phase::ClosingAuction)
        } else if text_eq(value, "post_close") {
            Some(Phase::PostClose)
        } else if text_eq(value, "non_trading_interruption") {
            Some(Phase::NonTradingInterruption)
        } else {
            None
        }
    }

    /// Whether orders match against each other during this phase.
    pub fn is_trading(self) -> (r: bool)
        ensures
            r == phase_is_trading(self),
    {
        matches!(self, Phase::OpeningAuction | Phase::ContinuousTrading | Phase::ClosingAuction)
    }

    /// Every phase in the vocabulary, each exactly once, in the order the vocabulary
    /// declares them.
    pub fn all() -> (r: [Phase; 8])
        ensures
            r@ == seq![
                Phase::Closed,
                Phase::PreOpen,
                Phase::OpeningAuction,
                Phase::ContinuousTrading,
                Phase::MidDayBreak,
                Phase::ClosingAuction,
                Phase::PostClose,
                Phase::NonTradingInterruption,
            ],
            forall|p: Phase| #[trigger] r@.contains(p),
            forall|i: int, j: int| 0 <= i < j < 8 ==> r@[i] != r@[j],
    {
        let r = [
            Phase::Closed,
            Phase::PreOpen,
            Phase::OpeningAuction,
            Phase::ContinuousTrading,
            Phase::MidDayBreak,
            Phase::ClosingAuction,
            Phase::PostClose,
            Phase::NonTradingInterruption,
        ];
        assert forall|p: Phase| #[trigger] r@.contains(p) by {
            match p {
                Phase::Closed => assert(r@[0] == p),
                Phase::PreOpen => assert(r@[1] == p),
                Phase::OpeningAuction => assert(r@[2] == p),
                Phase::ContinuousTrading => assert(r@[3] == p),
                Phase::MidDayBreak => assert(r@[4] == p),
                Phase::ClosingAuction => assert(r@[5] == p),
                Phase::PostClose => assert(r@[6] == p),
                Phase::NonTradingInterruption => assert(r@[7] == p),
            }
        }
        r
    }
}

/// The phase vocabulary round-trips: every phase's identifier parses back to that phase,
/// and no two phases share an identifier.
pub proof fn phase_text_round_trips(p: Phase)
    ensures
        phase_of_text(phase_text(p)) == Some(p),
{
    reveal_strlit("closed");
    reveal_strlit("pre_open");
    reveal_strlit("opening_auction");
    reveal_strlit("continuous_trading");
    reveal_strlit("mid_day_break");
    reveal_strlit("closing_auction");
    reveal_strlit("post_close");
    reveal_strlit("non_trading_interruption");
    assert("closed"@.len() == 6);
    assert("pre_open"@.len() == 8);
    assert("opening_auction"@.len() == 15);
    assert("continuous_trading"@.len() == 18);
    assert("mid_day_break"@.len() == 13);
    assert("closing_auction"@.len() == 15);
    assert("post_close"@.len() == 10);
    assert("non_trading_interruption"@.len() == 24);
    match p {
        Phase::ClosingAuction => {
            assert("closing_auction"@[0] != "opening_auction"@[0]);
        },
        _ => {},
    }
}

} // verus!
