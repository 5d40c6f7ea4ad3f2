//! How precisely an answer is known.
//!
//! Every boundary and every answer carries an [`Uncertainty`] saying what the evidence
//! supports; combining answers only ever widens it.

use crate::instant::{instant_text, UtcInstant, NANOS_PER_SECOND};
use crate::text::{push_decimal, push_signed_decimal, signed_decimal_of};
use vstd::prelude::*;

verus! {

/// The precision an answer or a boundary is known to.
#[derive(Debug, Clone, PartialEq, Eq)]
pub enum Uncertainty {
    /// Exact to the nanosecond, because the value is defined rather than measured.
    Exact,
    /// The source publishes to a granularity, e.g. whole minutes.
    PublishedGranularity {
        /// Width of the publication grid, in nanoseconds.
        nanos: i128,
    },
    /// The venue published its own deviation bound, carried unchanged.
    PublishedBound {
        /// The venue-published bound, in nanoseconds.
        nanos: i128,
        /// What the venue said.
        published_as: String,
    },
    /// The boundary is the scheduled start of a process, not an instant; no width is
    /// published, so none is claimed.
    ProcessStart {
        /// What the process is, in the venue's own terms.
        process: String,
    },
    /// The local wall-clock time this boundary is written in occurs twice.
    AmbiguousLocalTime {
        /// The earlier of the two instants that bear this local time.
        earlier: UtcInstant,
        /// The later of the two.
        later: UtcInstant,
    },
    /// The local wall-clock time this boundary is written in does not exist.
    NonexistentLocalTime {
        /// The instant this local time would name under the pre-transition offset.
        as_if_before_shift: UtcInstant,
        /// The instant it would name under the post-transition offset.
        as_if_after_shift: UtcInstant,
    },
}

/// The width in nanoseconds, or `None` when the width is unpublished (wider than any
/// number).
pub open spec fn bound_of(u: Uncertainty) -> Option<int> {
    match u {
        Uncertainty::Exact => Some(0),
        Uncertainty::PublishedGranularity { nanos } => Some(nanos as int),
        Uncertainty::PublishedBound { nanos, .. } => Some(nanos as int),
        _ => None,
    }
}

/// `a` is at least as wide as `b`: an unbounded width beats every number.
pub open spec fn at_least_as_wide(a: Uncertainty, b: Uncertainty) -> bool {
    match (bound_of(a), bound_of(b)) {
        (Some(x), Some(y)) => x >= y,
        (None, _) => true,
        (Some(_), None) => false,
    }
}

/// The wider of two uncertainties; on a tie the first is kept.
pub open spec fn widest_of(a: Uncertainty, b: Uncertainty) -> Uncertainty {
    match (bound_of(a), bound_of(b)) {
        (Some(x), Some(y)) => if x >= y {
            a
        } else {
            b
        },
        (Some(_), None) => b,
        (None, _) => a,
    }
}

impl Uncertainty {
    /// A published granularity of whole seconds.
    pub fn seconds(count: i128) -> (r: Uncertainty)
        requires
            i128::MIN <= count * NANOS_PER_SECOND <= i128::MAX,
        ensures
            r == (Uncertainty::PublishedGranularity { nanos: (count * NANOS_PER_SECOND) as i128 }),
    {
        Uncertainty::PublishedGranularity { nanos: count * NANOS_PER_SECOND }
    }

    /// A published granularity of whole minutes.
    pub fn minutes(count: i128) -> (r: Uncertainty)
        requires
            i128::MIN <= count * 60 * NANOS_PER_SECOND <= i128::MAX,
        ensures
            r == (Uncertainty::PublishedGranularity {
                nanos: (count * 60 * NANOS_PER_SECOND) as i128,
            }),
    {
        assert(i128::MIN <= count * 60 <= i128::MAX) by (nonlinear_arith)
            requires
                i128::MIN <= count * 60 * 1_000_000_000 <= i128::MAX,
        ;
        Uncertainty::seconds(count * 60)
    }

    /// The width of this uncertainty in nanoseconds, when it has one. `None` is not "no
    /// uncertainty": it is wider than any number.
    pub fn bound_nanos(&self) -> (r: Option<i128>)
        ensures
            r matches Some(n) ==> bound_of(*self) == Some(n as int),
            r is None <==> bound_of(*self) is None,
    {
        match self {
            Uncertainty::Exact => Some(0),
            Uncertainty::PublishedGranularity { nanos } => Some(*nanos),
            Uncertainty::PublishedBound { nanos, .. } => Some(*nanos),
            _ => None,
        }
    }

    /// Whether this uncertainty claims exactness.
    pub fn is_exact(&self) -> (r: bool)
        ensures
            r == (*self is Exact),
    {
        matches!(self, Uncertainty::Exact)
    }

    /// The wider of two uncertainties: an unbounded case always wins over a numeric one.
    pub fn widest(self, other: Uncertainty) -> (r: Uncertainty)
        ensures
            r == widest_of(self, other),
    {
        match (self.bound_nanos(), other.bound_nanos()) {
            (Some(a), Some(b)) => if a >= b {
                self
            } else {
                other
            },
            (Some(_), None) => other,
            (None, _) => self,
        }
    }

    /// Whether `self` is at least as wide as `floor`.
    pub fn is_at_least_as_wide_as(&self, floor: &Uncertainty) -> (r: bool)
        ensures
            r == at_least_as_wide(*self, *floor),
    {
        match (self.bound_nanos(), floor.bound_nanos()) {
            (Some(a), Some(b)) => a >= b,
            (None, _) => true,
            (Some(_), None) => false,
        }
    }

    /// A copy of this uncertainty.
    pub fn duplicate(&self) -> (r: Uncertainty)
        ensures
            r == *self,
    {
        match self {
            Uncertainty::Exact => Uncertainty::Exact,
            Uncertainty::PublishedGranularity { nanos } => Uncertainty::PublishedGranularity {
                nanos: *nanos,
            },
            Uncertainty::PublishedBound { nanos, published_as } => Uncertainty::PublishedBound {
                nanos: *nanos,
                published_as: published_as.clone(),
            },
            Uncertainty::ProcessStart { process } => Uncertainty::ProcessStart {
                process: process.clone(),
            },
            Uncertainty::AmbiguousLocalTime { earlier, later } => Uncertainty::AmbiguousLocalTime {
                earlier: *earlier,
                later: *later,
            },
            Uncertainty::NonexistentLocalTime { as_if_before_shift, as_if_after_shift } =>
                Uncertainty::NonexistentLocalTime {
                as_if_before_shift: *as_if_before_shift,
                as_if_after_shift: *as_if_after_shift,
            },
        }
    }
}

/// A combined uncertainty is never narrower than either input: `widest` is at least as
/// wide as both of its arguments, and it is one of them.
pub proof fn widest_never_narrows(a: Uncertainty, b: Uncertainty)
    ensures
        at_least_as_wide(widest_of(a, b), a),
        at_least_as_wide(widest_of(a, b), b),
        widest_of(a, b) == a || widest_of(a, b) == b,
{
}

/// "At least as wide" is a total preorder: reflexive, transitive, and any two
/// uncertainties are comparable.
pub proof fn width_order_is_a_total_preorder(a: Uncertainty, b: Uncertainty, c: Uncertainty)
    ensures
        at_least_as_wide(a, a),
        at_least_as_wide(a, b) && at_least_as_wide(b, c) ==> at_least_as_wide(a, c),
        at_least_as_wide(a, b) || at_least_as_wide(b, a),
{
}

/// Widening is monotone: if `a` is at least as wide as `floor`, so is `a` widened with
/// anything.
pub proof fn widening_keeps_a_floor(a: Uncertainty, b: Uncertainty, floor: Uncertainty)
    requires
        at_least_as_wide(a, floor) || at_least_as_wide(b, floor),
    ensures
        at_least_as_wide(widest_of(a, b), floor),
{
}

/// The sign of a number: -1, 0 or 1.
pub open spec fn sign_of(n: int) -> int {
    if n < 0 {
        -1
    } else if n > 0 {
        1
    } else {
        0
    }
}

/// The size of a number.
pub open spec fn magnitude(n: int) -> int {
    if n < 0 {
        -n
    } else {
        n
    }
}

/// A width of time in words: `0s`; bare nanoseconds under a second; whole minutes when
/// the whole seconds divide into them; whole seconds otherwise. Seconds and minutes are
/// counted toward zero.
pub open spec fn humanized(nanos: int) -> Seq<char> {
    let seconds = magnitude(nanos) / 1_000_000_000;
    if nanos == 0 {
        "0s"@
    } else if seconds == 0 {
        signed_decimal_of(nanos) + "ns"@
    } else if seconds % 60 == 0 {
        signed_decimal_of(sign_of(nanos) * (seconds / 60)) + "min"@
    } else {
        signed_decimal_of(sign_of(nanos) * seconds) + "s"@
    }
}

/// Writes a width of time in words.
fn push_humanized(out: &mut String, nanos: i128)
    ensures
        final(out)@ == old(out)@ + humanized(nanos as int),
{
    proof {
        reveal_strlit("0s");
        reveal_strlit("ns");
        reveal_strlit("min");
        reveal_strlit("s");
        reveal_strlit("-");
    }
    if nanos == 0 {
        out.append("0s");
        return;
    }
    let size: u128 = if nanos < 0 {
        ((-(nanos + 1)) as u128) + 1
    } else {
        nanos as u128
    };
    assert(size == magnitude(nanos as int));
    let seconds = size / 1_000_000_000;
    if seconds == 0 {
        push_signed_decimal(out, nanos);
        out.append("ns");
        return;
    }
    let count = if seconds % 60 == 0 {
        seconds / 60
    } else {
        seconds
    };
    let ghost before = out@;
    if nanos < 0 {
        out.append("-");
    }
    push_decimal(out, count);
    if seconds % 60 == 0 {
        out.append("min");
    } else {
        out.append("s");
    }
    proof {
        if nanos < 0 {
            assert(signed_decimal_of(sign_of(nanos as int) * count) =~= seq!['-'] + crate::text::decimal_of(count as nat));
        } else {
            assert(signed_decimal_of(sign_of(nanos as int) * count) == crate::text::decimal_of(count as nat));
        }
        assert(out@ =~= before + humanized(nanos as int));
    }
}

/// How an uncertainty is written.
pub open spec fn uncertainty_text(u: Uncertainty) -> Seq<char> {
    match u {
        Uncertainty::Exact => "exact"@,
        Uncertainty::PublishedGranularity { nanos } => "published to "@ + humanized(nanos as int),
        Uncertainty::PublishedBound { nanos, published_as } => "venue-published bound "@ + humanized(
            nanos as int,
        ) + " ("@ + published_as@ + ")"@,
        Uncertainty::ProcessStart { process } => "scheduled start of "@ + process@
            + "; spread not published"@,
        Uncertainty::AmbiguousLocalTime { earlier, later } => "local time occurs twice ("@
            + instant_text(earlier.nanos()) + " and "@ + instant_text(later.nanos()) + ")"@,
        Uncertainty::NonexistentLocalTime { as_if_before_shift, as_if_after_shift } =>
            "local time does not exist (candidates "@ + instant_text(as_if_before_shift.nanos())
            + " and "@ + instant_text(as_if_after_shift.nanos()) + ")"@,
    }
}

impl Uncertainty {
    /// The uncertainty in words, as a shell prints it.
    pub fn describe(&self) -> (r: String)
        ensures
            r@ == uncertainty_text(*self),
    {
        proof {
            reveal_strlit("published to ");
            reveal_strlit("venue-published bound ");
            reveal_strlit(" (");
            reveal_strlit(")");
            reveal_strlit("scheduled start of ");
            reveal_strlit("; spread not published");
            reveal_strlit("local time occurs twice (");
            reveal_strlit(" and ");
            reveal_strlit("local time does not exist (candidates ");
        }
        match self {
            Uncertainty::Exact => String::from_str("exact"),
            Uncertainty::PublishedGranularity { nanos } => {
                let mut out = String::from_str("published to ");
                push_humanized(&mut out, *nanos);
                out
            },
            Uncertainty::PublishedBound { nanos, published_as } => {
                let mut out = String::from_str("venue-published bound ");
                push_humanized(&mut out, *nanos);
                out.append(" (");
                out.append(published_as.as_str());
                out.append(")");
                out
            },
            Uncertainty::ProcessStart { process } => {
                let mut out = String::from_str("scheduled start of ");
                out.append(process.as_str());
                out.append("; spread not published");
                out
            },
            Uncertainty::AmbiguousLocalTime { earlier, later } => {
                let mut out = String::from_str("local time occurs twice (");
                let a = earlier.to_string();
                out.append(a.as_str());
                out.append(" and ");
                let b = later.to_string();
                out.append(b.as_str());
                out.append(")");
                out
            },
            Uncertainty::NonexistentLocalTime { as_if_before_shift, as_if_after_shift } => {
                let mut out = String::from_str("local time does not exist (candidates ");
                let a = as_if_before_shift.to_string();
                out.append(a.as_str());
                out.append(" and ");
                let b = as_if_after_shift.to_string();
                out.append(b.as_str());
                out.append(")");
                out
            },
        }
    }
}

} // verus!
