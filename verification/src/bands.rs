//! Regional session bands and the overlap windows between them.
//!
//! A "London session" is not a fact any venue publishes: it is a grouping of venues that a
//! person considers to be trading together. A band is derived from its members'
//! timelines and carries the reasoning for the grouping, never evidence of its own.
//!
//! Two rules carry the honesty this module exists to protect: an unknown member is never
//! dropped from the vote (wherever any member is unknown, the band is unknown), and
//! uncertainty only ever widens as it is combined.

use crate::evidence::{evidence_message, DerivationNote, EvidenceError};
use crate::ids::{BandId, VenueId};
use crate::instant::{instant_text, Interval, UtcInstant};
use crate::phase::phase_is_trading;
use crate::query::{
    chains, lemma_chain_bounds, lemma_chain_one_owner, segment_interval, segment_intervals,
    segment_phase, Timeline, TimelineSegment,
};
use crate::text::{is_white_space, text_compare, text_lt, text_lt_irreflexive, text_lt_transitive};
use crate::uncertainty::{at_least_as_wide, widest_of, Uncertainty};
use vstd::prelude::*;

verus! {

/// No two entries of a list of venues name the same venue.
pub open spec fn distinct_ids(ids: Seq<VenueId>) -> bool {
    forall|i: int, j: int| 0 <= i < j < ids.len() ==> (#[trigger] ids[i])@ != (#[trigger] ids[j])@
}

/// Whether an entry of `ids` names the venue `v`.
pub open spec fn lists(ids: Seq<VenueId>, v: Seq<char>) -> bool {
    exists|j: int| 0 <= j < ids.len() && (#[trigger] ids[j])@ == v
}

/// The index of the first entry that repeats an earlier one, among the first `n`
/// entries; -1 when there is none.
pub open spec fn first_repeat_upto(ids: Seq<VenueId>, n: nat) -> int
    decreases n,
{
    if n == 0 {
        -1
    } else {
        let before = first_repeat_upto(ids, (n - 1) as nat);
        if before >= 0 {
            before
        } else if lists(ids.subrange(0, n - 1), ids[n - 1]@) {
            n - 1
        } else {
            -1
        }
    }
}

/// The venue set and reasoning a session band is derived from: at least one member, none
/// listed twice.
#[derive(Debug, PartialEq, Eq)]
pub struct BandDefinition {
    id: BandId,
    display_name: String,
    members: Vec<VenueId>,
    derivation: DerivationNote,
}

/// Why a band or an overlap could not be derived.
#[derive(Debug, Clone, PartialEq, Eq)]
pub enum BandError {
    /// A band definition was given no member venues.
    NoMembers,
    /// The same venue was listed as a member more than once.
    DuplicateMember(VenueId),
    /// A member venue has no timeline among those supplied to [`derive_band`].
    MissingMemberTimeline(VenueId),
    /// A member's timeline does not tile its own declared interval.
    TimelineNotTiled(VenueId),
    /// Member timelines were derived over different intervals.
    MemberIntervalMismatch {
        /// The first member checked.
        first_venue: VenueId,
        /// The interval `first_venue`'s timeline covers.
        first_interval: Interval,
        /// The member whose timeline disagreed.
        other_venue: VenueId,
        /// The interval `other_venue`'s timeline covers.
        other_interval: Interval,
    },
    /// [`derive_overlap`] was given the same band twice.
    SameBand(BandId),
    /// The two bands passed to [`derive_overlap`] were derived over different intervals.
    BandIntervalMismatch {
        /// The first band.
        first: BandId,
        /// The second band.
        second: BandId,
    },
    /// The overlap's own derivation note could not be built.
    Evidence(EvidenceError),
}

/// The message for a band error.
pub open spec fn band_error_text(e: BandError) -> Seq<char> {
    match e {
        BandError::NoMembers => "a session band needs at least one member venue"@,
        BandError::DuplicateMember(v) => "venue "@ + v@ + " is listed as a member more than once"@,
        BandError::MissingMemberTimeline(v) => "member venue "@ + v@
            + " has no timeline among those supplied"@,
        BandError::TimelineNotTiled(v) => "member venue "@ + v@
            + "'s timeline does not tile its own interval"@,
        BandError::MemberIntervalMismatch { first_venue, first_interval, other_venue, other_interval } =>
            "member "@ + first_venue@ + " covers "@ + instant_text(first_interval.start.nanos())
            + ".."@ + instant_text(first_interval.end.nanos()) + " but member "@ + other_venue@
            + " covers "@ + instant_text(other_interval.start.nanos()) + ".."@ + instant_text(
            other_interval.end.nanos(),
        ),
        BandError::SameBand(id) => "band "@ + id@ + " cannot be overlapped with itself"@,
        BandError::BandIntervalMismatch { first, second } => "band "@ + first@ + " and band "@
            + second@ + " were derived over different intervals"@,
        BandError::Evidence(err) => "overlap derivation note: "@ + evidence_message(err),
    }
}

impl BandError {
    /// The message a shell prints for this error.
    pub fn describe(&self) -> (r: String)
        ensures
            r@ == band_error_text(*self),
    {
        proof {
            reveal_strlit("a session band needs at least one member venue");
            reveal_strlit("venue ");
            reveal_strlit(" is listed as a member more than once");
            reveal_strlit("member venue ");
            reveal_strlit(" has no timeline among those supplied");
            reveal_strlit("'s timeline does not tile its own interval");
            reveal_strlit("member ");
            reveal_strlit(" covers ");
            reveal_strlit("..");
            reveal_strlit(" but member ");
            reveal_strlit("band ");
            reveal_strlit(" cannot be overlapped with itself");
            reveal_strlit(" and band ");
            reveal_strlit(" were derived over different intervals");
            reveal_strlit("overlap derivation note: ");
        }
        match self {
            BandError::NoMembers => String::from_str("a session band needs at least one member venue"),
            BandError::DuplicateMember(v) => {
                let mut out = String::from_str("venue ");
                out.append(v.as_str());
                out.append(" is listed as a member more than once");
                out
            },
            BandError::MissingMemberTimeline(v) => {
                let mut out = String::from_str("member venue ");
                out.append(v.as_str());
                out.append(" has no timeline among those supplied");
                out
            },
            BandError::TimelineNotTiled(v) => {
                let mut out = String::from_str("member venue ");
                out.append(v.as_str());
                out.append("'s timeline does not tile its own interval");
                out
            },
            BandError::MemberIntervalMismatch { first_venue, first_interval, other_venue, other_interval } => {
                let mut out = String::from_str("member ");
                out.append(first_venue.as_str());
                out.append(" covers ");
                let a = first_interval.start.to_string();
                out.append(a.as_str());
                out.append("..");
                let b = first_interval.end.to_string();
                out.append(b.as_str());
                out.append(" but member ");
                out.append(other_venue.as_str());
                out.append(" covers ");
                let c = other_interval.start.to_string();
                out.append(c.as_str());
                out.append("..");
                let d = other_interval.end.to_string();
                out.append(d.as_str());
                out
            },
            BandError::SameBand(id) => {
                let mut out = String::from_str("band ");
                out.append(id.as_str());
                out.append(" cannot be overlapped with itself");
                out
            },
            BandError::BandIntervalMismatch { first, second } => {
                let mut out = String::from_str("band ");
                out.append(first.as_str());
                out.append(" and band ");
                out.append(second.as_str());
                out.append(" were derived over different intervals");
                out
            },
            BandError::Evidence(err) => {
                let mut out = String::from_str("overlap derivation note: ");
                out.append(err.message());
                out
            },
        }
    }
}

impl BandDefinition {
    #[verifier::type_invariant]
    closed spec fn inv(self) -> bool {
        self.members@.len() > 0 && distinct_ids(self.members@)
    }

    /// The band's identifier.
    pub closed spec fn spec_id(self) -> BandId {
        self.id
    }

    /// The band's display name.
    pub closed spec fn spec_display_name(self) -> Seq<char> {
        self.display_name@
    }

    /// The member venues.
    pub closed spec fn spec_members(self) -> Seq<VenueId> {
        self.members@
    }

    /// Why the members were grouped.
    pub closed spec fn spec_derivation(self) -> DerivationNote {
        self.derivation
    }

    /// Builds a band definition.
    ///
    /// Fails with `NoMembers` when `members` is empty, and with `DuplicateMember`, naming
    /// the first entry that repeats an earlier one, when a venue is listed twice.
    pub fn new(id: BandId, display_name: String, members: Vec<VenueId>, derivation: DerivationNote) -> (r: Result<BandDefinition, BandError>)
        ensures
            members@.len() == 0 ==> r == Err::<BandDefinition, BandError>(BandError::NoMembers),
            members@.len() > 0 ==> (r is Ok <==> first_repeat_upto(members@, members@.len()) < 0),
            r matches Err(BandError::DuplicateMember(m)) ==> members@.len() > 0 && m@
                == members@[first_repeat_upto(members@, members@.len())]@,
            r matches Err(e) ==> e is NoMembers || e is DuplicateMember,
            r matches Err(BandError::NoMembers) ==> members@.len() == 0,
            r matches Ok(d) ==> d.spec_id() == id && d.spec_display_name() == display_name@
                && d.spec_members() == members@ && d.spec_derivation() == derivation,
    {
        if members.len() == 0 {
            return Err(BandError::NoMembers);
        }
        let mut j: usize = 0;
        while j < members.len()
            invariant
                j <= members@.len(),
                first_repeat_upto(members@, j as nat) < 0,
                distinct_ids(members@.subrange(0, j as int)),
            decreases members@.len() - j,
        {
            let mut i: usize = 0;
            while i < j
                invariant
                    i <= j < members@.len(),
                    first_repeat_upto(members@, j as nat) < 0,
                    forall|k: int| 0 <= k < i ==> members@[k]@ != members@[j as int]@,
                decreases j - i,
            {
                if members[i].same_as(&members[j]) {
                    proof {
                        assert(members@.subrange(0, j as int)[i as int]@ == members@[j as int]@);
                        assert(lists(members@.subrange(0, j as int), members@[j as int]@));
                        assert(first_repeat_upto(members@, (j + 1) as nat) == j);
                        lemma_first_repeat_stays(members@, (j + 1) as nat, members@.len());
                    }
                    return Err(BandError::DuplicateMember(members[j].duplicate()));
                }
                i = i + 1;
            }
            proof {
                assert(!lists(members@.subrange(0, j as int), members@[j as int]@));
                assert forall|a: int, b: int|
                    0 <= a < b < j + 1 implies (#[trigger] members@.subrange(0, j + 1)[a])@ != (
                    #[trigger] members@.subrange(0, j + 1)[b])@ by {
                    if b < j {
                        assert(members@.subrange(0, j as int)[a] == members@[a]);
                        assert(members@.subrange(0, j as int)[b] == members@[b]);
                    }
                }
            }
            j = j + 1;
        }
        proof {
            assert(members@.subrange(0, members@.len() as int) =~= members@);
        }
        Ok(BandDefinition { id, display_name, members, derivation })
    }

    /// The band's identifier.
    pub fn id(&self) -> (r: &BandId)
        ensures
            *r == self.spec_id(),
    {
        &self.id
    }

    /// The band's display name.
    pub fn display_name(&self) -> (r: &str)
        ensures
            r@ == self.spec_display_name(),
    {
        self.display_name.as_str()
    }

    /// The venues this band is derived from.
    pub fn members(&self) -> (r: &[VenueId])
        ensures
            r@ == self.spec_members(),
            r@.len() > 0,
            distinct_ids(r@),
    {
        proof {
            use_type_invariant(self);
        }
        self.members.as_slice()
    }

    /// Why these venues were grouped into one band.
    pub fn derivation(&self) -> (r: &DerivationNote)
        ensures
            *r == self.spec_derivation(),
    {
        &self.derivation
    }

    /// A copy of this definition.
    pub fn duplicate(&self) -> (r: BandDefinition)
        ensures
            r.spec_id()@ == self.spec_id()@,
            r.spec_display_name() == self.spec_display_name(),
            r.spec_derivation() == self.spec_derivation(),
            r.spec_members().len() == self.spec_members().len(),
            forall|k: int|
                0 <= k < r.spec_members().len() ==> (#[trigger] r.spec_members()[k])@
                    == self.spec_members()[k]@,
    {
        proof {
            use_type_invariant(self);
        }
        let mut members: Vec<VenueId> = Vec::new();
        let mut i: usize = 0;
        while i < self.members.len()
            invariant
                i <= self.members@.len(),
                members@.len() == i,
                forall|k: int| 0 <= k < i ==> (#[trigger] members@[k])@ == self.members@[k]@,
            decreases self.members@.len() - i,
        {
            members.push(self.members[i].duplicate());
            i = i + 1;
        }
        proof {
            assert forall|a: int, b: int|
                0 <= a < b < members@.len() implies (#[trigger] members@[a])@ != (
                #[trigger] members@[b])@ by {
                assert(self.members@[a]@ != self.members@[b]@);
            }
        }
        BandDefinition {
            id: self.id.duplicate(),
            display_name: self.display_name.clone(),
            members,
            derivation: self.derivation.duplicate(),
        }
    }
}

/// Once an entry repeats an earlier one, it stays the first repeat however many more
/// entries follow.
proof fn lemma_first_repeat_stays(ids: Seq<VenueId>, n: nat, m: nat)
    requires
        n <= m,
        first_repeat_upto(ids, n) >= 0,
    ensures
        first_repeat_upto(ids, m) == first_repeat_upto(ids, n),
    decreases m - n,
{
    if n < m {
        lemma_first_repeat_stays(ids, n, (m - 1) as nat);
    }
}

/// The wider of two optional uncertainties, where `None` means nothing is known and so
/// contributes nothing.
pub open spec fn widen_opt(a: Option<Uncertainty>, b: Option<Uncertainty>) -> Option<Uncertainty> {
    match (a, b) {
        (Some(x), Some(y)) => Some(widest_of(x, y)),
        (Some(x), None) => Some(x),
        (None, Some(y)) => Some(y),
        (None, None) => None,
    }
}

/// The wider of two optional uncertainties, treating `None` as "nothing known" rather
/// than as an unbounded width.
pub fn widen_optional(a: Option<Uncertainty>, b: Option<Uncertainty>) -> (r: Option<Uncertainty>)
    ensures
        r == widen_opt(a, b),
{
    match (a, b) {
        (Some(x), Some(y)) => Some(x.widest(y)),
        (Some(x), None) => Some(x),
        (None, Some(y)) => Some(y),
        (None, None) => None,
    }
}

/// Widening two optional uncertainties gives `None` only when both are `None`, and is
/// never narrower than either side that is known.
pub proof fn widening_an_option_never_narrows(a: Option<Uncertainty>, b: Option<Uncertainty>)
    ensures
        widen_opt(a, b) is None <==> (a is None && b is None),
        a matches Some(x) ==> at_least_as_wide(widen_opt(a, b)->0, x),
        b matches Some(y) ==> at_least_as_wide(widen_opt(a, b)->0, y),
{
}

/// The band's trading state over a stretch of time.
#[derive(Debug, Clone, Copy, PartialEq, Eq, Structural)]
pub enum BandState {
    /// At least one member is trading, and every member is inside declared coverage.
    Trading,
    /// Every member is inside declared coverage, and none is trading.
    NotTrading,
    /// At least one member is outside its declared coverage for this stretch.
    Unknown,
}

/// One atomic stretch of a session band: a state, plus who is trading and who is unknown.
#[derive(Debug, Clone, PartialEq, Eq)]
pub struct BandSegment {
    /// The stretch this segment occupies.
    pub interval: Interval,
    /// The band's state over that stretch.
    pub state: BandState,
    /// How precisely the state is known; `None` only when every member is unknown here,
    /// and then it means nothing is known, never "exact".
    pub uncertainty: Option<Uncertainty>,
    /// Members trading over this stretch, sorted by identifier.
    pub venues_trading: Vec<VenueId>,
    /// Members outside their declared coverage over this stretch, sorted by identifier.
    pub venues_unknown: Vec<VenueId>,
}

/// Identifiers in strictly increasing order.
pub open spec fn sorted_ids(ids: Seq<VenueId>) -> bool {
    forall|i: int, j: int| 0 <= i < j < ids.len() ==> text_lt((#[trigger] ids[i])@, (#[trigger] ids[j])@)
}

/// A list of identifiers, as text.
pub open spec fn ids_view(ids: Seq<VenueId>) -> Seq<Seq<char>> {
    ids.map_values(|v: VenueId| v@)
}

/// The state of a stretch from how many members trade and how many are unknown there.
pub open spec fn state_of(trading: nat, unknown: nat) -> BandState {
    if unknown > 0 {
        BandState::Unknown
    } else if trading > 0 {
        BandState::Trading
    } else {
        BandState::NotTrading
    }
}

/// Whether a timeline segment holds the instant `t`.
pub open spec fn holds(seg: TimelineSegment, t: int) -> bool {
    segment_interval(seg).start.nanos() <= t < segment_interval(seg).end.nanos()
}

/// Some segment of the timeline holding `t` is outside coverage.
pub open spec fn unknown_at(tl: Timeline, t: int) -> bool {
    exists|i: int|
        0 <= i < tl.segments@.len() && holds(#[trigger] tl.segments@[i], t) && tl.segments@[i] is Unknown
}

/// Some segment of the timeline holding `t` is a trading phase.
pub open spec fn trading_at(tl: Timeline, t: int) -> bool {
    exists|i: int|
        0 <= i < tl.segments@.len() && holds(#[trigger] tl.segments@[i], t) && (segment_phase(
            tl.segments@[i],
        ) matches Some(p) && phase_is_trading(p))
}

/// Among the first `n` timelines, the index of the first for venue `v`, or -1.
pub open spec fn timeline_upto(tls: Seq<Timeline>, v: Seq<char>, n: nat) -> int
    decreases n,
{
    if n == 0 {
        -1
    } else {
        let before = timeline_upto(tls, v, (n - 1) as nat);
        if before >= 0 {
            before
        } else if tls[n - 1].venue@ == v {
            n - 1
        } else {
            -1
        }
    }
}

/// The index of the first timeline for venue `v`, or -1 when none is for it.
pub open spec fn timeline_of(tls: Seq<Timeline>, v: Seq<char>) -> int {
    timeline_upto(tls, v, tls.len())
}

/// The timeline a member's state is read from.
pub open spec fn member_timeline(tls: Seq<Timeline>, members: Seq<VenueId>, k: int) -> Timeline {
    tls[timeline_of(tls, members[k]@)]
}

/// Every segment of the member's timeline that holds `t` and is a phase has an answer no
/// wider than `u`.
pub open spec fn no_wider_than(u: Uncertainty, tl: Timeline, t: int) -> bool {
    forall|i: int|
        0 <= i < tl.segments@.len() && holds(#[trigger] tl.segments@[i], t)
            && tl.segments@[i] is Phase ==> at_least_as_wide(u, tl.segments@[i]->answer.uncertainty)
}

/// Some phase segment of the member's timeline that holds `t` answers with uncertainty
/// `u`.
pub open spec fn answered_with(u: Uncertainty, tl: Timeline, t: int) -> bool {
    exists|i: int|
        0 <= i < tl.segments@.len() && holds(#[trigger] tl.segments@[i], t) && tl.segments@[i] is Phase
            && tl.segments@[i]->answer.uncertainty == u
}

/// What a band segment reports of its members over its whole stretch: who is unknown and
/// who is trading at every instant of it, the state that follows, and an uncertainty that
/// is `None` exactly when every member is unknown and otherwise the widest of the known
/// members' answers over the stretch: at least as wide as every one of them, and the
/// answer of one of them at some instant of the stretch.
pub open spec fn band_segment_reports(seg: BandSegment, members: Seq<VenueId>, tls: Seq<Timeline>) -> bool {
    &&& seg.interval.wf()
    &&& sorted_ids(seg.venues_trading@)
    &&& sorted_ids(seg.venues_unknown@)
    &&& forall|j: int| 0 <= j < seg.venues_trading@.len() ==> lists(members, (#[trigger] seg.venues_trading@[j])@)
    &&& forall|j: int| 0 <= j < seg.venues_unknown@.len() ==> lists(members, (#[trigger] seg.venues_unknown@[j])@)
    &&& forall|w: Seq<char>| !(#[trigger] lists(seg.venues_trading@, w) && lists(seg.venues_unknown@, w))
    &&& forall|t: int, k: int|
        #![trigger unknown_at(member_timeline(tls, members, k), t)]
        #![trigger trading_at(member_timeline(tls, members, k), t)]
        seg.interval.start.nanos() <= t < seg.interval.end.nanos() && 0 <= k < members.len() ==> (
        lists(seg.venues_unknown@, members[k]@) <==> unknown_at(member_timeline(tls, members, k), t))
            && (lists(seg.venues_trading@, members[k]@) <==> trading_at(
            member_timeline(tls, members, k),
            t,
        ))
    &&& seg.state == state_of(seg.venues_trading@.len(), seg.venues_unknown@.len())
    &&& (seg.uncertainty is None <==> forall|k: int|
        0 <= k < members.len() ==> lists(seg.venues_unknown@, (#[trigger] members[k])@))
    &&& seg.uncertainty matches Some(u) ==> forall|t: int, k: int|
        seg.interval.start.nanos() <= t < seg.interval.end.nanos() && 0 <= k < members.len()
            ==> #[trigger] no_wider_than(u, member_timeline(tls, members, k), t)
    &&& seg.uncertainty matches Some(u) ==> exists|t: int, k: int|
        seg.interval.start.nanos() <= t < seg.interval.end.nanos() && 0 <= k < members.len()
            && #[trigger] answered_with(u, member_timeline(tls, members, k), t)
}

/// The intervals of a list of band segments.
pub open spec fn band_intervals(segs: Seq<BandSegment>) -> Seq<Interval> {
    segs.map_values(|s: BandSegment| s.interval)
}

/// Two band segments agree on state and on who is trading and who is unknown.
pub open spec fn same_class(a: BandSegment, b: BandSegment) -> bool {
    a.state == b.state && ids_view(a.venues_trading@) == ids_view(b.venues_trading@) && ids_view(
        a.venues_unknown@,
    ) == ids_view(b.venues_unknown@)
}

/// A session band, derived from its constituent venues' timelines. Its segments tile its
/// interval, each non-empty.
#[derive(Debug, PartialEq, Eq)]
pub struct SessionBand {
    definition: BandDefinition,
    interval: Interval,
    segments: Vec<BandSegment>,
}

impl SessionBand {
    #[verifier::type_invariant]
    closed spec fn inv(self) -> bool {
        &&& chains(self.interval.start, self.interval.end, band_intervals(self.segments@))
        &&& forall|i: int| 0 <= i < self.segments@.len() ==> (#[trigger] self.segments@[i]).interval.wf()
    }

    /// The definition the band was derived from.
    pub closed spec fn spec_definition(self) -> BandDefinition {
        self.definition
    }

    /// The interval the band was derived over.
    pub closed spec fn spec_interval(self) -> Interval {
        self.interval
    }

    /// The segments tiling that interval.
    pub closed spec fn spec_segments(self) -> Seq<BandSegment> {
        self.segments@
    }

    /// The definition this band was derived from.
    pub fn definition(&self) -> (r: &BandDefinition)
        ensures
            *r == self.spec_definition(),
    {
        &self.definition
    }

    /// The interval the band was derived over.
    pub fn interval(&self) -> (r: Interval)
        ensures
            r == self.spec_interval(),
    {
        self.interval
    }

    /// The segments tiling that interval, in order.
    pub fn segments(&self) -> (r: &[BandSegment])
        ensures
            r@ == self.spec_segments(),
            chains(self.spec_interval().start, self.spec_interval().end, band_intervals(r@)),
            band_tiles(r@, self.spec_interval().start, self.spec_interval().end),
    {
        proof {
            use_type_invariant(self);
        }
        self.segments.as_slice()
    }

    /// Whether the segments tile the derived interval exactly; always true of a derived
    /// band.
    pub fn tiles_interval(&self) -> (r: bool)
        ensures
            r == chains(self.spec_interval().start, self.spec_interval().end, band_intervals(self.spec_segments())),
            r,
    {
        proof {
            use_type_invariant(self);
        }
        true
    }
}

/// Whether a timeline segment is outside coverage; when it is a phase, whether that phase
/// trades, and the answer's uncertainty.
fn segment_status(seg: &TimelineSegment) -> (r: (bool, bool, Option<Uncertainty>))
    ensures
        r.0 == (*seg is Unknown),
        r.1 == (segment_phase(*seg) matches Some(p) && phase_is_trading(p)),
        *seg is Phase ==> r.2 == Some(seg->answer.uncertainty),
        *seg is Unknown ==> r.2 is None,
{
    match seg {
        TimelineSegment::Unknown { .. } => (true, false, None),
        TimelineSegment::Phase { answer, .. } => (false, answer.phase.is_trading(), Some(answer.uncertainty.duplicate())),
    }
}

/// In a tiling timeline, the segment holding `t` decides whether the member is unknown or
/// trading at `t`, and it is the only segment that holds `t`.
proof fn lemma_owner_decides(tl: Timeline, p: int, t: int)
    requires
        tl.spec_tiles_interval(),
        0 <= p < tl.segments@.len(),
        holds(tl.segments@[p], t),
    ensures
        unknown_at(tl, t) <==> tl.segments@[p] is Unknown,
        trading_at(tl, t) <==> (segment_phase(tl.segments@[p]) matches Some(ph) && phase_is_trading(ph)),
        forall|i: int| 0 <= i < tl.segments@.len() && holds(#[trigger] tl.segments@[i], t) ==> i == p,
{
    let ivs = segment_intervals(tl.segments@);
    assert forall|i: int| 0 <= i < tl.segments@.len() && holds(#[trigger] tl.segments@[i], t) implies i == p by {
        assert(ivs[i] == segment_interval(tl.segments@[i]));
        assert(ivs[p] == segment_interval(tl.segments@[p]));
        lemma_chain_one_owner(tl.interval.start, tl.interval.end, ivs, i, p, t);
    }
}

/// Inserts a venue into a sorted list of venues it is not yet in.
fn insert_sorted(list: &mut Vec<VenueId>, v: &VenueId)
    requires
        sorted_ids(old(list)@),
        !lists(old(list)@, v@),
    ensures
        sorted_ids(final(list)@),
        forall|w: Seq<char>| lists(final(list)@, w) <==> (lists(old(list)@, w) || w == v@),
        final(list)@.len() == old(list)@.len() + 1,
{
    let ghost before = list@;
    let mut p: usize = 0;
    let mut found = false;
    while p < list.len() && !found
        invariant
            p <= list@.len(),
            list@ == before,
            sorted_ids(before),
            !lists(before, v@),
            forall|k: int| 0 <= k < p ==> text_lt((#[trigger] before[k])@, v@),
            found ==> p < before.len() && text_lt(v@, before[p as int]@),
        decreases list@.len() - p + (if found { 0int } else { 1int }),
    {
        let c = text_compare(list[p].as_str(), v.as_str());
        if c > 0 {
            found = true;
        } else {
            if c == 0 {
                proof {
                    assert(before[p as int]@ == v@);
                }
            }
            p = p + 1;
        }
    }
    proof {
        assert forall|k: int| p <= k < before.len() implies text_lt(v@, (#[trigger] before[k])@) by {
            if k > p {
                text_lt_transitive(v@, before[p as int]@, before[k]@);
            }
        }
    }
    list.insert(p, v.duplicate());
    proof {
        let after = list@;
        assert(after =~= before.insert(p as int, after[p as int]));
        assert forall|i: int, j: int| 0 <= i < j < after.len() implies text_lt((#[trigger] after[i])@, (#[trigger] after[j])@) by {
            if j < p {
            } else if i < p && j == p {
            } else if i < p && j > p {
                assert(after[j] == before[j - 1]);
                text_lt_transitive(after[i]@, v@, after[j]@);
            } else if i == p {
                assert(after[j] == before[j - 1]);
            } else {
                assert(after[i] == before[i - 1]);
                assert(after[j] == before[j - 1]);
            }
        }
        assert forall|w: Seq<char>| lists(after, w) <==> (lists(before, w) || w == v@) by {
            if lists(after, w) {
                let j = choose|j: int| 0 <= j < after.len() && (#[trigger] after[j])@ == w;
                if j < p {
                    assert(before[j]@ == w);
                } else if j > p {
                    assert(before[j - 1]@ == w);
                }
            }
            if lists(before, w) {
                let j = choose|j: int| 0 <= j < before.len() && (#[trigger] before[j])@ == w;
                if j < p {
                    assert(after[j]@ == w);
                } else {
                    assert(after[j + 1]@ == w);
                }
            }
            if w == v@ {
                assert(after[p as int]@ == w);
            }
        }
    }
}

/// Whether two lists of venues are the same, entry by entry.
fn same_ids(a: &Vec<VenueId>, b: &Vec<VenueId>) -> (r: bool)
    ensures
        r == (ids_view(a@) == ids_view(b@)),
{
    if a.len() != b.len() {
        proof {
            assert(ids_view(a@).len() != ids_view(b@).len());
        }
        return false;
    }
    let mut i: usize = 0;
    while i < a.len()
        invariant
            i <= a@.len(),
            a@.len() == b@.len(),
            forall|k: int| 0 <= k < i ==> (#[trigger] a@[k])@ == b@[k]@,
        decreases a@.len() - i,
    {
        if !a[i].same_as(&b[i]) {
            proof {
                assert(ids_view(a@)[i as int] != ids_view(b@)[i as int]);
            }
            return false;
        }
        i = i + 1;
    }
    proof {
        assert(ids_view(a@) =~= ids_view(b@));
    }
    true
}

/// Lists with the same identifiers name the same venues.
proof fn lemma_same_view_same_lists(a: Seq<VenueId>, b: Seq<VenueId>, v: Seq<char>)
    requires
        ids_view(a) == ids_view(b),
    ensures
        lists(a, v) <==> lists(b, v),
{
    assert(a.len() == ids_view(a).len());
    assert(b.len() == ids_view(b).len());
    if lists(a, v) {
        let j = choose|j: int| 0 <= j < a.len() && (#[trigger] a[j])@ == v;
        assert(ids_view(a)[j] == ids_view(b)[j]);
        assert(b[j]@ == v);
    }
    if lists(b, v) {
        let j = choose|j: int| 0 <= j < b.len() && (#[trigger] b[j])@ == v;
        assert(ids_view(a)[j] == ids_view(b)[j]);
        assert(a[j]@ == v);
    }
}

/// The facts a freshly classified slice carries, from the segment each member's pointer
/// rests on.
pub open spec fn slice_classified(
    seg: BandSegment,
    members: Seq<VenueId>,
    tls: Seq<Timeline>,
    ptr: Seq<usize>,
) -> bool {
    &&& sorted_ids(seg.venues_trading@)
    &&& sorted_ids(seg.venues_unknown@)
    &&& forall|j: int| 0 <= j < seg.venues_trading@.len() ==> lists(members, (#[trigger] seg.venues_trading@[j])@)
    &&& forall|j: int| 0 <= j < seg.venues_unknown@.len() ==> lists(members, (#[trigger] seg.venues_unknown@[j])@)
    &&& forall|k: int|
        0 <= k < members.len() ==> (lists(seg.venues_unknown@, (#[trigger] members[k])@)
            <==> member_timeline(tls, members, k).segments@[ptr[k] as int] is Unknown)
    &&& forall|k: int|
        0 <= k < members.len() ==> (lists(seg.venues_trading@, (#[trigger] members[k])@) <==> (
        segment_phase(member_timeline(tls, members, k).segments@[ptr[k] as int]) matches Some(p)
            && phase_is_trading(p)))
    &&& seg.state == state_of(seg.venues_trading@.len(), seg.venues_unknown@.len())
    &&& (seg.uncertainty is None <==> forall|k: int|
        0 <= k < members.len() ==> lists(seg.venues_unknown@, (#[trigger] members[k])@))
    &&& seg.uncertainty matches Some(u) ==> forall|k: int|
        0 <= k < members.len() && (#[trigger] member_timeline(tls, members, k)).segments@[ptr[k] as int] is Phase
            ==> at_least_as_wide(u, member_timeline(tls, members, k).segments@[ptr[k] as int]->answer.uncertainty)
    &&& seg.uncertainty matches Some(u) ==> exists|k: int|
        0 <= k < members.len() && (#[trigger] member_timeline(tls, members, k)).segments@[ptr[k] as int] is Phase
            && member_timeline(tls, members, k).segments@[ptr[k] as int]->answer.uncertainty == u
}

/// Each member's pointer rests on a segment of its tiling timeline that holds the whole
/// stretch `[lo, hi)`.
pub open spec fn pointers_hold(members: Seq<VenueId>, tls: Seq<Timeline>, ptr: Seq<usize>, lo: int, hi: int) -> bool {
    &&& ptr.len() == members.len()
    &&& forall|k: int|
        #![trigger member_timeline(tls, members, k)]
        0 <= k < members.len() ==> member_timeline(tls, members, k).spec_tiles_interval() && ptr[k]
            < member_timeline(tls, members, k).segments@.len() && segment_interval(
            member_timeline(tls, members, k).segments@[ptr[k] as int],
        ).start.nanos() <= lo && hi <= segment_interval(
            member_timeline(tls, members, k).segments@[ptr[k] as int],
        ).end.nanos()
}

/// A classified slice reports its members over the whole stretch its pointers hold.
proof fn lemma_slice_reports(
    seg: BandSegment,
    members: Seq<VenueId>,
    tls: Seq<Timeline>,
    ptr: Seq<usize>,
)
    requires
        seg.interval.wf(),
        slice_classified(seg, members, tls, ptr),
        pointers_hold(members, tls, ptr, seg.interval.start.nanos(), seg.interval.end.nanos()),
    ensures
        band_segment_reports(seg, members, tls),
{
    assert forall|w: Seq<char>| !(#[trigger] lists(seg.venues_trading@, w) && lists(seg.venues_unknown@, w)) by {
        if lists(seg.venues_trading@, w) && lists(seg.venues_unknown@, w) {
            let j = choose|j: int| 0 <= j < seg.venues_trading@.len() && (#[trigger] seg.venues_trading@[j])@ == w;
            assert(lists(members, seg.venues_trading@[j]@));
            let k = choose|k: int| 0 <= k < members.len() && (#[trigger] members[k])@ == w;
            assert(lists(seg.venues_unknown@, members[k]@));
            assert(lists(seg.venues_trading@, members[k]@));
        }
    }
    assert forall|t: int, k: int|
        seg.interval.start.nanos() <= t < seg.interval.end.nanos() && 0 <= k < members.len() implies (
        lists(seg.venues_unknown@, members[k]@) <==> unknown_at(member_timeline(tls, members, k), t))
            && (lists(seg.venues_trading@, members[k]@) <==> trading_at(
            member_timeline(tls, members, k),
            t,
        )) by {
        let tl = member_timeline(tls, members, k);
        lemma_owner_decides(tl, ptr[k] as int, t);
    }
    if seg.uncertainty is Some {
        let u = seg.uncertainty->0;
        assert forall|t: int, k: int|
            seg.interval.start.nanos() <= t < seg.interval.end.nanos() && 0 <= k < members.len()
                implies #[trigger] no_wider_than(u, member_timeline(tls, members, k), t) by {
            let tl = member_timeline(tls, members, k);
            lemma_owner_decides(tl, ptr[k] as int, t);
        }
        let k = choose|k: int|
            0 <= k < members.len() && (#[trigger] member_timeline(tls, members, k)).segments@[ptr[k] as int] is Phase
                && member_timeline(tls, members, k).segments@[ptr[k] as int]->answer.uncertainty == u;
        let t = seg.interval.start.nanos();
        let tl = member_timeline(tls, members, k);
        assert(holds(tl.segments@[ptr[k] as int], t));
        assert(answered_with(u, tl, t));
    }
}

/// Joining two adjacent segments of the same class keeps what each reports.
proof fn lemma_join_reports(a: BandSegment, b: BandSegment, m: BandSegment, members: Seq<VenueId>, tls: Seq<Timeline>)
    requires
        band_segment_reports(a, members, tls),
        band_segment_reports(b, members, tls),
        same_class(a, b),
        a.interval.end == b.interval.start,
        m.interval.start == a.interval.start,
        m.interval.end == b.interval.end,
        m.state == a.state,
        m.venues_trading == a.venues_trading,
        m.venues_unknown == a.venues_unknown,
        m.uncertainty == widen_opt(a.uncertainty, b.uncertainty),
    ensures
        band_segment_reports(m, members, tls),
{
    assert forall|v: Seq<char>| lists(a.venues_unknown@, v) <==> lists(b.venues_unknown@, v) by {
        lemma_same_view_same_lists(a.venues_unknown@, b.venues_unknown@, v);
    }
    assert forall|v: Seq<char>| lists(a.venues_trading@, v) <==> lists(b.venues_trading@, v) by {
        lemma_same_view_same_lists(a.venues_trading@, b.venues_trading@, v);
    }
    assert forall|t: int, k: int|
        m.interval.start.nanos() <= t < m.interval.end.nanos() && 0 <= k < members.len() implies (
        lists(m.venues_unknown@, members[k]@) <==> unknown_at(member_timeline(tls, members, k), t))
            && (lists(m.venues_trading@, members[k]@) <==> trading_at(
            member_timeline(tls, members, k),
            t,
        )) by {
        if t < a.interval.end.nanos() {
            assert(unknown_at(member_timeline(tls, members, k), t) == lists(a.venues_unknown@, members[k]@));
            assert(trading_at(member_timeline(tls, members, k), t) == lists(a.venues_trading@, members[k]@));
        } else {
            assert(unknown_at(member_timeline(tls, members, k), t) == lists(b.venues_unknown@, members[k]@));
            assert(trading_at(member_timeline(tls, members, k), t) == lists(b.venues_trading@, members[k]@));
        }
    }
    if m.uncertainty is Some {
        let u = m.uncertainty->0;
        widening_an_option_never_narrows(a.uncertainty, b.uncertainty);
        assert forall|t: int, k: int|
            m.interval.start.nanos() <= t < m.interval.end.nanos() && 0 <= k < members.len()
                implies #[trigger] no_wider_than(u, member_timeline(tls, members, k), t) by {
            let tl = member_timeline(tls, members, k);
            if t < a.interval.end.nanos() {
                if a.uncertainty is Some {
                    assert(no_wider_than(a.uncertainty->0, tl, t));
                } else {
                    assert(lists(a.venues_unknown@, members[k]@));
                    assert(unknown_at(tl, t));
                    assert forall|i: int| 0 <= i < tl.segments@.len() && holds(#[trigger] tl.segments@[i], t) && tl.segments@[i] is Phase implies at_least_as_wide(u, tl.segments@[i]->answer.uncertainty) by {
                        let w = choose|w: int| 0 <= w < tl.segments@.len() && holds(#[trigger] tl.segments@[w], t) && tl.segments@[w] is Unknown;
                        lemma_owner_decides(tl, w, t);
                    }
                }
            } else {
                if b.uncertainty is Some {
                    assert(no_wider_than(b.uncertainty->0, tl, t));
                } else {
                    assert(lists(b.venues_unknown@, members[k]@));
                    assert(unknown_at(tl, t));
                    assert forall|i: int| 0 <= i < tl.segments@.len() && holds(#[trigger] tl.segments@[i], t) && tl.segments@[i] is Phase implies at_least_as_wide(u, tl.segments@[i]->answer.uncertainty) by {
                        let w = choose|w: int| 0 <= w < tl.segments@.len() && holds(#[trigger] tl.segments@[w], t) && tl.segments@[w] is Unknown;
                        lemma_owner_decides(tl, w, t);
                    }
                }
            }
        }
    }
    assert(m.uncertainty is None <==> (a.uncertainty is None && b.uncertainty is None));
    if m.uncertainty is Some {
        let u = m.uncertainty->0;
        if a.uncertainty == m.uncertainty {
            let (t, k) = choose|t: int, k: int|
                a.interval.start.nanos() <= t < a.interval.end.nanos() && 0 <= k < members.len()
                    && #[trigger] answered_with(u, member_timeline(tls, members, k), t);
            assert(answered_with(u, member_timeline(tls, members, k), t));
        } else {
            assert(b.uncertainty == m.uncertainty);
            let (t, k) = choose|t: int, k: int|
                b.interval.start.nanos() <= t < b.interval.end.nanos() && 0 <= k < members.len()
                    && #[trigger] answered_with(u, member_timeline(tls, members, k), t);
            assert(answered_with(u, member_timeline(tls, members, k), t));
        }
    }
}

/// Neighbouring band segments differ in state or in who is trading or unknown.
pub open spec fn band_neighbours_differ(segs: Seq<BandSegment>) -> bool {
    forall|i: int| 0 <= i < segs.len() - 1 ==> !same_class(#[trigger] segs[i], segs[i + 1])
}

/// The band so far: its segments chain from `start` to `cursor`, are non-empty, report
/// their members, and differ from their neighbours.
pub open spec fn band_so_far(
    segs: Seq<BandSegment>,
    start: UtcInstant,
    cursor: UtcInstant,
    members: Seq<VenueId>,
    tls: Seq<Timeline>,
) -> bool {
    &&& chains(start, cursor, band_intervals(segs))
    &&& forall|i: int| 0 <= i < segs.len() ==> (#[trigger] segs[i]).interval.wf()
    &&& forall|i: int| 0 <= i < segs.len() ==> band_segment_reports(#[trigger] segs[i], members, tls)
    &&& band_neighbours_differ(segs)
}

/// Appends a band segment starting at the cursor, joining it onto the last one when the
/// two are of the same class.
fn push_band_segment(
    segs: &mut Vec<BandSegment>,
    seg: BandSegment,
    Ghost(start): Ghost<UtcInstant>,
    Ghost(members): Ghost<Seq<VenueId>>,
    Ghost(tls): Ghost<Seq<Timeline>>,
)
    requires
        band_so_far(old(segs)@, start, seg.interval.start, members, tls),
        seg.interval.wf(),
        band_segment_reports(seg, members, tls),
    ensures
        band_so_far(final(segs)@, start, seg.interval.end, members, tls),
{
    let ghost before = segs@;
    let n = segs.len();
    if n > 0 {
        let same = segs[n - 1].state == seg.state && same_ids(
            &segs[n - 1].venues_trading,
            &seg.venues_trading,
        ) && same_ids(&segs[n - 1].venues_unknown, &seg.venues_unknown);
        if same {
            let last = match segs.pop() {
                Some(l) => l,
                None => return,
            };
            proof {
                assert(segs@ =~= before.drop_last());
                assert(last == before[n - 1]);
                assert(band_intervals(before)[n - 1] == last.interval);
            }
            let joined = BandSegment {
                interval: Interval { start: last.interval.start, end: seg.interval.end },
                state: last.state,
                uncertainty: widen_optional(last.uncertainty, seg.uncertainty),
                venues_trading: last.venues_trading,
                venues_unknown: last.venues_unknown,
            };
            proof {
                lemma_join_reports(last, seg, joined, members, tls);
            }
            segs.push(joined);
            proof {
                let ivs = band_intervals(segs@);
                let old_ivs = band_intervals(before);
                assert(segs@ =~= before.drop_last().push(joined));
                assert(forall|i: int| 0 <= i < n - 1 ==> ivs[i] == old_ivs[i]);
                assert forall|i: int| 0 <= i < segs@.len() implies band_segment_reports(
                    #[trigger] segs@[i],
                    members,
                    tls,
                ) by {
                    if i < n - 1 {
                        assert(segs@[i] == before[i]);
                    }
                }
                assert forall|i: int| 0 <= i < segs@.len() implies (#[trigger] segs@[i]).interval.wf() by {
                    if i < n - 1 {
                        assert(segs@[i] == before[i]);
                    }
                }
                assert forall|i: int| 0 <= i < segs@.len() - 1 implies !same_class(
                    #[trigger] segs@[i],
                    segs@[i + 1],
                ) by {
                    assert(segs@[i] == before[i]);
                    if i + 1 < n - 1 {
                        assert(segs@[i + 1] == before[i + 1]);
                    } else {
                        assert(same_class(joined, before[n - 1]));
                    }
                }
            }
            return;
        }
    }
    segs.push(seg);
    proof {
        let ivs = band_intervals(segs@);
        let old_ivs = band_intervals(before);
        assert(segs@ =~= before.push(seg));
        assert(forall|i: int| 0 <= i < n ==> ivs[i] == old_ivs[i]);
        assert forall|i: int| 0 <= i < segs@.len() implies band_segment_reports(
            #[trigger] segs@[i],
            members,
            tls,
        ) by {
            if i < n {
                assert(segs@[i] == before[i]);
            }
        }
        assert forall|i: int| 0 <= i < segs@.len() implies (#[trigger] segs@[i]).interval.wf() by {
            if i < n {
                assert(segs@[i] == before[i]);
            }
        }
        assert forall|i: int| 0 <= i < segs@.len() - 1 implies !same_class(#[trigger] segs@[i], segs@[i + 1]) by {
            assert(segs@[i] == before[i]);
            if i + 1 < n {
                assert(segs@[i + 1] == before[i + 1]);
            }
        }
    }
}

/// The timeline picked for a venue is for that venue.
proof fn lemma_timeline_upto(tls: Seq<Timeline>, v: Seq<char>, n: nat)
    requires
        n <= tls.len(),
    ensures
        timeline_upto(tls, v, n) < n,
        timeline_upto(tls, v, n) >= 0 ==> tls[timeline_upto(tls, v, n)].venue@ == v,
        timeline_upto(tls, v, n) < 0 <==> forall|i: int| 0 <= i < n ==> (#[trigger] tls[i]).venue@ != v,
    decreases n,
{
    if n > 0 {
        lemma_timeline_upto(tls, v, (n - 1) as nat);
    }
}

/// `sel` picks, for each member, the first timeline for it.
pub open spec fn picks(members: Seq<VenueId>, tls: Seq<Timeline>, sel: Seq<usize>) -> bool {
    &&& sel.len() == members.len()
    &&& forall|k: int|
        0 <= k < members.len() ==> #[trigger] sel[k] == timeline_of(tls, members[k]@) && sel[k]
            < tls.len()
}

/// Classifies the stretch `[cursor, end)` from the segment each member's pointer rests on.
fn classify_slice(
    members: &[VenueId],
    tls: &[Timeline],
    sel: &Vec<usize>,
    ptr: &Vec<usize>,
    cursor: UtcInstant,
    end: UtcInstant,
) -> (r: BandSegment)
    requires
        cursor.nanos() < end.nanos(),
        distinct_ids(members@),
        pointers_hold(members@, tls@, ptr@, cursor.nanos(), end.nanos()),
        picks(members@, tls@, sel@),
    ensures
        r.interval == (Interval { start: cursor, end }),
        slice_classified(r, members@, tls@, ptr@),
{
    let ghost ms = members@;
    let ghost ts = tls@;
    let mut trading: Vec<VenueId> = Vec::new();
    let mut unknown: Vec<VenueId> = Vec::new();
    let mut uncertainty: Option<Uncertainty> = None;
    let n = members.len();
    let mut k: usize = 0;
    while k < n
        invariant
            n == ms.len(),
            ms == members@,
            ts == tls@,
            k <= n,
            distinct_ids(ms),
            pointers_hold(ms, ts, ptr@, cursor.nanos(), end.nanos()),
            picks(ms, ts, sel@),
            sorted_ids(trading@),
            sorted_ids(unknown@),
            forall|j: int| 0 <= j < trading@.len() ==> exists|q: int| 0 <= q < k && (#[trigger] trading@[j])@ == (#[trigger] ms[q])@,
            forall|j: int| 0 <= j < unknown@.len() ==> exists|q: int| 0 <= q < k && (#[trigger] unknown@[j])@ == (#[trigger] ms[q])@,
            forall|q: int|
                0 <= q < k ==> (lists(unknown@, (#[trigger] ms[q])@)
                    <==> member_timeline(ts, ms, q).segments@[ptr@[q] as int] is Unknown),
            forall|q: int|
                0 <= q < k ==> (lists(trading@, (#[trigger] ms[q])@) <==> (
                segment_phase(member_timeline(ts, ms, q).segments@[ptr@[q] as int]) matches Some(p)
                    && phase_is_trading(p))),
            uncertainty is None <==> forall|q: int|
                0 <= q < k ==> (#[trigger] member_timeline(ts, ms, q)).segments@[ptr@[q] as int] is Unknown,
            uncertainty matches Some(u) ==> forall|q: int|
                0 <= q < k && (#[trigger] member_timeline(ts, ms, q)).segments@[ptr@[q] as int] is Phase
                    ==> at_least_as_wide(u, member_timeline(ts, ms, q).segments@[ptr@[q] as int]->answer.uncertainty),
            uncertainty matches Some(u) ==> exists|q: int|
                0 <= q < k && (#[trigger] member_timeline(ts, ms, q)).segments@[ptr@[q] as int] is Phase
                    && member_timeline(ts, ms, q).segments@[ptr@[q] as int]->answer.uncertainty == u,
        decreases n - k,
    {
        let ghost tl = member_timeline(ts, ms, k as int);
        assert(sel@[k as int] == timeline_of(ts, ms[k as int]@));
        let seg = &tls[sel[k]].segments[ptr[k]];
        assert(*seg == tl.segments@[ptr@[k as int] as int]);
        let (is_unknown, is_trading, answer_uncertainty) = segment_status(seg);
        proof {
            assert forall|j: int| 0 <= j < unknown@.len() implies (#[trigger] unknown@[j])@ != ms[k as int]@ by {
                let q = choose|q: int| 0 <= q < k && (#[trigger] unknown@[j])@ == (#[trigger] ms[q])@;
                assert(ms[q]@ != ms[k as int]@);
            }
            assert forall|j: int| 0 <= j < trading@.len() implies (#[trigger] trading@[j])@ != ms[k as int]@ by {
                let q = choose|q: int| 0 <= q < k && (#[trigger] trading@[j])@ == (#[trigger] ms[q])@;
                assert(ms[q]@ != ms[k as int]@);
            }
        }
        let ghost old_unknown = unknown@;
        let ghost old_trading = trading@;
        let ghost old_uncertainty = uncertainty;
        if is_unknown {
            insert_sorted(&mut unknown, &members[k]);
        } else {
            uncertainty = widen_optional(uncertainty, answer_uncertainty);
            if is_trading {
                insert_sorted(&mut trading, &members[k]);
            }
        }
        proof {
            widening_an_option_never_narrows(old_uncertainty, answer_uncertainty);
            assert forall|j: int| 0 <= j < unknown@.len() implies exists|q: int| 0 <= q < k + 1 && (#[trigger] unknown@[j])@ == (#[trigger] ms[q])@ by {
                let w = unknown@[j]@;
                assert(lists(unknown@, w));
                if w == ms[k as int]@ {
                } else {
                    assert(lists(old_unknown, w));
                    let i = choose|i: int| 0 <= i < old_unknown.len() && (#[trigger] old_unknown[i])@ == w;
                    let q = choose|q: int| 0 <= q < k && (#[trigger] old_unknown[i])@ == (#[trigger] ms[q])@;
                    assert(ms[q]@ == w);
                }
            }
            assert forall|j: int| 0 <= j < trading@.len() implies exists|q: int| 0 <= q < k + 1 && (#[trigger] trading@[j])@ == (#[trigger] ms[q])@ by {
                let w = trading@[j]@;
                assert(lists(trading@, w));
                if w == ms[k as int]@ {
                } else {
                    assert(lists(old_trading, w));
                    let i = choose|i: int| 0 <= i < old_trading.len() && (#[trigger] old_trading[i])@ == w;
                    let q = choose|q: int| 0 <= q < k && (#[trigger] old_trading[i])@ == (#[trigger] ms[q])@;
                    assert(ms[q]@ == w);
                }
            }
            assert(!lists(old_unknown, ms[k as int]@));
            assert(!lists(old_trading, ms[k as int]@));
            assert forall|q: int| 0 <= q < k + 1 implies (lists(unknown@, (#[trigger] ms[q])@)
                <==> member_timeline(ts, ms, q).segments@[ptr@[q] as int] is Unknown) by {
                if q < k {
                    assert(ms[q]@ != ms[k as int]@);
                }
            }
            assert forall|q: int| 0 <= q < k + 1 implies (lists(trading@, (#[trigger] ms[q])@) <==> (
                segment_phase(member_timeline(ts, ms, q).segments@[ptr@[q] as int]) matches Some(p)
                    && phase_is_trading(p))) by {
                if q < k {
                    assert(ms[q]@ != ms[k as int]@);
                }
            }
        }
        k = k + 1;
    }
    proof {
        assert forall|j: int| 0 <= j < trading@.len() implies lists(ms, (#[trigger] trading@[j])@) by {
            let q = choose|q: int| 0 <= q < n && (#[trigger] trading@[j])@ == (#[trigger] ms[q])@;
        }
        assert forall|j: int| 0 <= j < unknown@.len() implies lists(ms, (#[trigger] unknown@[j])@) by {
            let q = choose|q: int| 0 <= q < n && (#[trigger] unknown@[j])@ == (#[trigger] ms[q])@;
        }
    }
    let state = if unknown.len() > 0 {
        BandState::Unknown
    } else if trading.len() > 0 {
        BandState::Trading
    } else {
        BandState::NotTrading
    };
    BandSegment {
        interval: Interval { start: cursor, end },
        state,
        uncertainty,
        venues_trading: trading,
        venues_unknown: unknown,
    }
}

/// What the sweep over a band's members needs: every member has a tiling timeline over
/// `interval`, picked as the first timeline for that member.
pub open spec fn members_ready(members: Seq<VenueId>, tls: Seq<Timeline>, sel: Seq<usize>, interval: Interval) -> bool {
    &&& members.len() > 0
    &&& distinct_ids(members)
    &&& picks(members, tls, sel)
    &&& forall|k: int|
        #![trigger member_timeline(tls, members, k)]
        0 <= k < members.len() ==> {
            &&& member_timeline(tls, members, k).spec_tiles_interval()
            &&& member_timeline(tls, members, k).interval == interval
        }
}

/// Cuts the interval wherever any member's segment changes and classifies each stretch.
fn sweep_members(members: &[VenueId], tls: &[Timeline], sel: &Vec<usize>, interval: Interval) -> (r: Vec<BandSegment>)
    requires
        members_ready(members@, tls@, sel@, interval),
    ensures
        band_so_far(r@, interval.start, interval.end, members@, tls@),
{
    let ghost ms = members@;
    let ghost ts = tls@;
    let n = members.len();
    let mut segs: Vec<BandSegment> = Vec::new();
    let mut ptr: Vec<usize> = Vec::new();
    let mut k: usize = 0;
    while k < n
        invariant
            k <= n,
            n == ms.len(),
            ptr@.len() == k,
            forall|q: int| 0 <= q < k ==> ptr@[q] == 0,
        decreases n - k,
    {
        ptr.push(0);
        k = k + 1;
    }
    proof {
        let tl0 = member_timeline(ts, ms, 0);
        let ivs = segment_intervals(tl0.segments@);
        if ivs.len() > 0 {
            lemma_chain_bounds(interval.start, interval.end, ivs, 0);
            assert(ivs[0].start.nanos() <= ivs[0].end.nanos());
        }
        assert(interval.start.nanos() <= interval.end.nanos());
        assert forall|q: int| 0 <= q < n implies {
            let tl = #[trigger] member_timeline(ts, ms, q);
            interval.start.nanos() < interval.end.nanos() ==> (ptr@[q] < tl.segments@.len()
                && segment_interval(tl.segments@[ptr@[q] as int]).start.nanos()
                <= interval.start.nanos())
        } by {
            let tl = member_timeline(ts, ms, q);
            if interval.start.nanos() < interval.end.nanos() {
                assert(segment_intervals(tl.segments@).len() > 0);
                assert(segment_intervals(tl.segments@)[0] == segment_interval(tl.segments@[0]));
            }
        }
    }
    let mut cursor = interval.start;
    while cursor.is_before(interval.end)
        invariant
            members_ready(ms, ts, sel@, interval),
            ms == members@,
            ts == tls@,
            n == ms.len(),
            interval.start.nanos() <= cursor.nanos() <= interval.end.nanos(),
            band_so_far(segs@, interval.start, cursor, ms, ts),
            ptr@.len() == n,
            forall|q: int| 0 <= q < n ==> {
                let tl = #[trigger] member_timeline(ts, ms, q);
                cursor.nanos() < interval.end.nanos() ==> (ptr@[q] < tl.segments@.len()
                    && segment_interval(tl.segments@[ptr@[q] as int]).start.nanos() <= cursor.nanos())
            },
        decreases interval.end.nanos() - cursor.nanos(),
    {
        let mut k: usize = 0;
        while k < n
            invariant
                members_ready(ms, ts, sel@, interval),
                ms == members@,
                ts == tls@,
                n == ms.len(),
                k <= n,
                cursor.nanos() < interval.end.nanos(),
                ptr@.len() == n,
                forall|q: int| 0 <= q < n ==> {
                    let tl = #[trigger] member_timeline(ts, ms, q);
                    &&& ptr@[q] < tl.segments@.len()
                    &&& segment_interval(tl.segments@[ptr@[q] as int]).start.nanos() <= cursor.nanos()
                    &&& q < k ==> cursor.nanos() < segment_interval(tl.segments@[ptr@[q] as int]).end.nanos()
                },
            decreases n - k,
        {
            let ghost tl = member_timeline(ts, ms, k as int);
            let timeline = &tls[sel[k]];
            assert(*timeline == tl);
            let mut p = ptr[k];
            let count = timeline.segments.len();
            while !cursor.is_before(timeline.segments[p].interval().end)
                invariant
                    count == tl.segments@.len(),
                    *timeline == tl,
                    tl.spec_tiles_interval(),
                    tl.interval == interval,
                    cursor.nanos() < interval.end.nanos(),
                    p < tl.segments@.len(),
                    segment_interval(tl.segments@[p as int]).start.nanos() <= cursor.nanos(),
                decreases tl.segments@.len() - p,
            {
                proof {
                    let ivs = segment_intervals(tl.segments@);
                    assert(ivs[p as int] == segment_interval(tl.segments@[p as int]));
                    if p + 1 == tl.segments@.len() {
                        assert(ivs[ivs.len() - 1].end == interval.end);
                        assert(false);
                    }
                    assert(ivs[p as int].end == ivs[p + 1].start);
                    assert(ivs[p + 1] == segment_interval(tl.segments@[p + 1]));
                }
                assert(p + 1 < tl.segments@.len());
                p = p + 1;
            }
            ptr.set(k, p);
            proof {
                assert forall|q: int| 0 <= q < n implies {
                    let tl = #[trigger] member_timeline(ts, ms, q);
                    &&& ptr@[q] < tl.segments@.len()
                    &&& segment_interval(tl.segments@[ptr@[q] as int]).start.nanos() <= cursor.nanos()
                    &&& q < k + 1 ==> cursor.nanos() < segment_interval(tl.segments@[ptr@[q] as int]).end.nanos()
                } by {
                }
            }
            k = k + 1;
        }
        let mut end = interval.end;
        let mut k: usize = 0;
        while k < n
            invariant
                members_ready(ms, ts, sel@, interval),
                ms == members@,
                ts == tls@,
                n == ms.len(),
                k <= n,
                cursor.nanos() < end.nanos() <= interval.end.nanos(),
                ptr@.len() == n,
                forall|q: int| 0 <= q < n ==> {
                    let tl = #[trigger] member_timeline(ts, ms, q);
                    &&& ptr@[q] < tl.segments@.len()
                    &&& segment_interval(tl.segments@[ptr@[q] as int]).start.nanos() <= cursor.nanos()
                    &&& cursor.nanos() < segment_interval(tl.segments@[ptr@[q] as int]).end.nanos()
                    &&& q < k ==> end.nanos() <= segment_interval(tl.segments@[ptr@[q] as int]).end.nanos()
                },
            decreases n - k,
        {
            let ghost tl = member_timeline(ts, ms, k as int);
            let segment_end = tls[sel[k]].segments[ptr[k]].interval().end;
            if segment_end.is_before(end) {
                end = segment_end;
            }
            k = k + 1;
        }
        proof {
            assert forall|q: int| 0 <= q < ms.len() implies {
                let tl = #[trigger] member_timeline(ts, ms, q);
                &&& tl.spec_tiles_interval()
                &&& ptr@[q] < tl.segments@.len()
                &&& segment_interval(tl.segments@[ptr@[q] as int]).start.nanos() <= cursor.nanos()
                &&& end.nanos() <= segment_interval(tl.segments@[ptr@[q] as int]).end.nanos()
            } by {
                assert(sel@[q] == timeline_of(ts, ms[q]@));
            }
            assert(pointers_hold(ms, ts, ptr@, cursor.nanos(), end.nanos()));
        }
        let slice = classify_slice(members, tls, sel, &ptr, cursor, end);
        proof {
            lemma_slice_reports(slice, ms, ts, ptr@);
        }
        push_band_segment(&mut segs, slice, Ghost(interval.start), Ghost(ms), Ghost(ts));
        cursor = end;
    }
    segs
}

/// Among indices below `n`, the first where `p` holds, or -1.
pub open spec fn first_where(n: nat, p: spec_fn(int) -> bool) -> int
    decreases n,
{
    if n == 0 {
        -1
    } else {
        let before = first_where((n - 1) as nat, p);
        if before >= 0 {
            before
        } else if p(n - 1) {
            n - 1
        } else {
            -1
        }
    }
}

proof fn lemma_first_where(n: nat, p: spec_fn(int) -> bool)
    ensures
        first_where(n, p) < n,
        first_where(n, p) < 0 <==> forall|i: int| 0 <= i < n ==> !#[trigger] p(i),
        first_where(n, p) >= 0 ==> p(first_where(n, p)) && forall|i: int|
            0 <= i < first_where(n, p) ==> !#[trigger] p(i),
    decreases n,
{
    if n > 0 {
        lemma_first_where((n - 1) as nat, p);
    }
}

/// The index of the first timeline for `venue`, or `None`.
fn find_timeline(tls: &[Timeline], venue: &VenueId) -> (r: Option<usize>)
    ensures
        r matches Some(i) ==> i == timeline_of(tls@, venue@) && i < tls@.len(),
        r is None <==> timeline_of(tls@, venue@) < 0,
{
    proof {
        lemma_timeline_upto(tls@, venue@, tls@.len());
    }
    let mut i: usize = 0;
    while i < tls.len()
        invariant
            i <= tls@.len(),
            timeline_upto(tls@, venue@, i as nat) < 0,
        decreases tls@.len() - i,
    {
        if tls[i].venue.same_as(venue) {
            proof {
                assert(timeline_upto(tls@, venue@, (i + 1) as nat) == i);
                lemma_timeline_stays(tls@, venue@, (i + 1) as nat, tls@.len());
            }
            return Some(i);
        }
        i = i + 1;
    }
    None
}

proof fn lemma_timeline_stays(tls: Seq<Timeline>, v: Seq<char>, n: nat, m: nat)
    requires
        n <= m,
        timeline_upto(tls, v, n) >= 0,
    ensures
        timeline_upto(tls, v, m) == timeline_upto(tls, v, n),
    decreases m - n,
{
    if n < m {
        lemma_timeline_stays(tls, v, n, (m - 1) as nat);
    }
}

/// Member `k` has no timeline.
pub open spec fn missing_at(tls: Seq<Timeline>, members: Seq<VenueId>) -> spec_fn(int) -> bool {
    |k: int| timeline_of(tls, members[k]@) < 0
}

/// Member `k`'s timeline does not tile its interval.
pub open spec fn untiled_at(tls: Seq<Timeline>, members: Seq<VenueId>) -> spec_fn(int) -> bool {
    |k: int| !member_timeline(tls, members, k).spec_tiles_interval()
}

/// Member `k`'s timeline covers another interval than the first member's.
pub open spec fn mismatched_at(tls: Seq<Timeline>, members: Seq<VenueId>) -> spec_fn(int) -> bool {
    |k: int| member_timeline(tls, members, k).interval != member_timeline(tls, members, 0).interval
}

/// The first member with no timeline, or -1.
pub open spec fn first_missing(tls: Seq<Timeline>, members: Seq<VenueId>) -> int {
    first_where(members.len(), missing_at(tls, members))
}

/// The first member whose timeline does not tile its interval, or -1.
pub open spec fn first_untiled(tls: Seq<Timeline>, members: Seq<VenueId>) -> int {
    first_where(members.len(), untiled_at(tls, members))
}

/// The first member whose timeline covers another interval than the first member's, or -1.
pub open spec fn first_mismatched(tls: Seq<Timeline>, members: Seq<VenueId>) -> int {
    first_where(members.len(), mismatched_at(tls, members))
}

/// Derives a session band from its members' timelines.
///
/// Fails, in this order of checks, when a member has no timeline (naming the first such
/// member), when a member's timeline does not tile its interval, and when the members'
/// timelines cover different intervals. Otherwise the band's segments tile the shared
/// interval, and each says at every instant of its stretch exactly which members are
/// unknown and which are trading: the band is unknown wherever any member is, trading
/// wherever none is unknown and one trades, and its uncertainty is the widest of the known
/// members' answers over its stretch. Timelines of venues outside the band are ignored.
pub fn derive_band(definition: &BandDefinition, timelines: &[Timeline]) -> (r: Result<SessionBand, BandError>)
    ensures
        ({
            let ms = definition.spec_members();
            let tls = timelines@;
            &&& first_missing(tls, ms) >= 0 ==> (r matches Err(BandError::MissingMemberTimeline(m))
                && m@ == ms[first_missing(tls, ms)]@)
            &&& first_missing(tls, ms) < 0 && first_untiled(tls, ms) >= 0 ==> (r matches Err(
                BandError::TimelineNotTiled(v),
            ) && v@ == ms[first_untiled(tls, ms)]@)
            &&& first_missing(tls, ms) < 0 && first_untiled(tls, ms) < 0 && first_mismatched(tls, ms)
                >= 0 ==> (r matches Err(
                BandError::MemberIntervalMismatch { first_venue, first_interval, other_venue, other_interval },
            ) && first_venue@ == ms[0]@ && first_interval == member_timeline(tls, ms, 0).interval
                && other_venue@ == ms[first_mismatched(tls, ms)]@ && other_interval == member_timeline(
                tls,
                ms,
                first_mismatched(tls, ms),
            ).interval)
            &&& (first_missing(tls, ms) < 0 && first_untiled(tls, ms) < 0 && first_mismatched(tls, ms)
                < 0) <==> r is Ok
            &&& r matches Ok(band) ==> {
                &&& band.spec_interval() == member_timeline(tls, ms, 0).interval
                &&& band.spec_definition().spec_id()@ == definition.spec_id()@
                &&& band.spec_definition().spec_display_name() == definition.spec_display_name()
                &&& band.spec_definition().spec_derivation() == definition.spec_derivation()
                &&& ids_view(band.spec_definition().spec_members()) == ids_view(ms)
                &&& band_so_far(
                    band.spec_segments(),
                    band.spec_interval().start,
                    band.spec_interval().end,
                    ms,
                    tls,
                )
            }
        }),
{
    let members = definition.members();
    let ghost ms = members@;
    let ghost tls = timelines@;
    let ghost missing = missing_at(tls, ms);
    let ghost untiled = untiled_at(tls, ms);
    let ghost mismatched = mismatched_at(tls, ms);
    let n = members.len();
    let mut sel: Vec<usize> = Vec::new();
    let mut k: usize = 0;
    while k < n
        invariant
            n == ms.len(),
            ms == members@,
            ms == definition.spec_members(),
            tls == timelines@,
            k <= n,
            sel@.len() == k,
            forall|q: int| 0 <= q < k ==> #[trigger] sel@[q] == timeline_of(tls, ms[q]@) && sel@[q] < tls.len(),
            forall|q: int| 0 <= q < k ==> !#[trigger] missing(q),
            missing == missing_at(tls, ms),
        decreases n - k,
    {
        match find_timeline(timelines, &members[k]) {
            Some(i) => sel.push(i),
            None => {
                proof {
                    lemma_first_where(ms.len(), missing);
                    assert(missing(k as int));
                    assert(first_where(ms.len(), missing) >= 0);
                    assert(first_where(ms.len(), missing) == k);
                    assert(first_missing(tls, ms) == k);
                }
                let absent = members[k].duplicate();
                assert(absent@ == ms[first_missing(tls, ms)]@);
                assert(ms == definition.spec_members());
                return Err(BandError::MissingMemberTimeline(absent));
            },
        }
        k = k + 1;
    }
    proof {
        assert(picks(ms, tls, sel@));
        lemma_first_where(ms.len(), missing);
    }
    let mut k: usize = 0;
    while k < n
        invariant
            n == ms.len(),
            ms == members@,
            ms == definition.spec_members(),
            tls == timelines@,
            k <= n,
            picks(ms, tls, sel@),
            first_missing(tls, ms) < 0,
            forall|q: int| 0 <= q < k ==> !#[trigger] untiled(q),
            untiled == untiled_at(tls, ms),
        decreases n - k,
    {
        let timeline = &timelines[sel[k]];
        assert(sel@[k as int] == timeline_of(tls, ms[k as int]@));
        if !timeline.tiles_interval() {
            proof {
                lemma_first_where(ms.len(), untiled);
                assert(untiled(k as int));
                lemma_timeline_upto(tls, ms[k as int]@, tls.len());
            }
            return Err(BandError::TimelineNotTiled(timeline.venue.duplicate()));
        }
        k = k + 1;
    }
    assert(sel@[0] == timeline_of(tls, ms[0]@));
    proof {
        lemma_first_where(ms.len(), untiled);
    }
    let first = &timelines[sel[0]];
    let interval = first.interval;
    let mut k: usize = 0;
    while k < n
        invariant
            n == ms.len(),
            ms == members@,
            ms == definition.spec_members(),
            tls == timelines@,
            k <= n,
            picks(ms, tls, sel@),
            *first == member_timeline(tls, ms, 0),
            interval == first.interval,
            first_missing(tls, ms) < 0,
            first_untiled(tls, ms) < 0,
            forall|q: int| 0 <= q < k ==> !#[trigger] mismatched(q),
            mismatched == mismatched_at(tls, ms),
        decreases n - k,
    {
        let timeline = &timelines[sel[k]];
        assert(sel@[k as int] == timeline_of(tls, ms[k as int]@));
        if !timeline.interval.start.same_as(interval.start) || !timeline.interval.end.same_as(interval.end) {
            proof {
                lemma_first_where(ms.len(), mismatched);
                assert(mismatched(k as int));
                lemma_timeline_upto(tls, ms[k as int]@, tls.len());
                lemma_timeline_upto(tls, ms[0]@, tls.len());
                assert(sel@[0] == timeline_of(tls, ms[0]@));
            }
            return Err(BandError::MemberIntervalMismatch {
                first_venue: first.venue.duplicate(),
                first_interval: interval,
                other_venue: timeline.venue.duplicate(),
                other_interval: timeline.interval,
            });
        }
        k = k + 1;
    }
    proof {
        lemma_first_where(ms.len(), untiled);
        lemma_first_where(ms.len(), mismatched);
        assert forall|q: int|
            #![trigger member_timeline(tls, ms, q)]
            0 <= q < n implies member_timeline(tls, ms, q).spec_tiles_interval()
                && member_timeline(tls, ms, q).interval == interval by {
            assert(!untiled(q));
            assert(!mismatched(q));
        }
        assert(ms.len() > 0);
        assert(distinct_ids(ms));
        assert(picks(ms, tls, sel@));
        assert(members_ready(ms, tls, sel@, interval));
    }
    let segments = sweep_members(members, timelines, &sel, interval);
    Ok(SessionBand { definition: definition.duplicate(), interval, segments })
}

/// Whether two bands are simultaneously trading over a stretch of time.
#[derive(Debug, Clone, Copy, PartialEq, Eq, Structural)]
pub enum OverlapState {
    /// Both bands are trading.
    Overlapping,
    /// Both bands are known for this stretch, and at least one is not trading.
    NotOverlapping,
    /// At least one band is unknown for this stretch; never read as not overlapping.
    Unknown,
}

/// One atomic stretch of a band overlap.
#[derive(Debug, PartialEq, Eq)]
pub struct OverlapSegment {
    /// The stretch this segment occupies.
    pub interval: Interval,
    /// Whether the two bands overlap over that stretch.
    pub state: OverlapState,
    /// How precisely the state is known, `None` when nothing is known.
    pub uncertainty: Option<Uncertainty>,
}

/// The overlap state of two band states: unknown if either is, overlapping if both trade.
pub open spec fn overlap_state_of(x: BandState, y: BandState) -> OverlapState {
    if x == BandState::Unknown || y == BandState::Unknown {
        OverlapState::Unknown
    } else if x == BandState::Trading && y == BandState::Trading {
        OverlapState::Overlapping
    } else {
        OverlapState::NotOverlapping
    }
}

/// Whether a band segment holds the instant `t`.
pub open spec fn band_holds(seg: BandSegment, t: int) -> bool {
    seg.interval.start.nanos() <= t < seg.interval.end.nanos()
}

/// At the instant `t` of the overlap segment's stretch, the band segments `a[i]` and `b[j]`
/// hold `t` and one of them carries the uncertainty `u`.
pub open spec fn overlap_attains(
    u: Uncertainty,
    seg: OverlapSegment,
    a: Seq<BandSegment>,
    b: Seq<BandSegment>,
    t: int,
    i: int,
    j: int,
) -> bool {
    &&& seg.interval.start.nanos() <= t < seg.interval.end.nanos()
    &&& 0 <= i < a.len()
    &&& 0 <= j < b.len()
    &&& band_holds(a[i], t)
    &&& band_holds(b[j], t)
    &&& (a[i].uncertainty == Some(u) || b[j].uncertainty == Some(u))
}

/// What an overlap segment reports over its whole stretch: at every instant, its state
/// follows from the states of the two band segments holding that instant; its uncertainty
/// is `None` exactly when both of theirs are `None` throughout the stretch, and otherwise
/// the widest of theirs over it: at least as wide as each, and one of them at some
/// instant of the stretch.
#[verifier::opaque]
pub open spec fn overlap_reports(seg: OverlapSegment, a: Seq<BandSegment>, b: Seq<BandSegment>) -> bool {
    &&& seg.interval.wf()
    &&& forall|t: int, i: int, j: int|
        #![trigger band_holds(a[i], t), band_holds(b[j], t)]
        seg.interval.start.nanos() <= t < seg.interval.end.nanos() && 0 <= i < a.len() && 0 <= j
            < b.len() && band_holds(a[i], t) && band_holds(b[j], t) ==> {
            &&& seg.state == overlap_state_of(a[i].state, b[j].state)
            &&& seg.uncertainty is None ==> a[i].uncertainty is None && b[j].uncertainty is None
            &&& seg.uncertainty matches Some(u) ==> (a[i].uncertainty matches Some(x) ==> at_least_as_wide(u, x))
                && (b[j].uncertainty matches Some(y) ==> at_least_as_wide(u, y))
        }
    &&& seg.uncertainty matches Some(u) ==> exists|t: int, i: int, j: int| #[trigger] overlap_attains(u, seg, a, b, t, i, j)
}

/// The intervals of a list of overlap segments.
pub open spec fn overlap_intervals(segs: Seq<OverlapSegment>) -> Seq<Interval> {
    segs.map_values(|s: OverlapSegment| s.interval)
}

/// The overlap so far: its segments chain from `start` to `cursor`, each reports the two
/// bands, and neighbours differ in state.
pub open spec fn overlap_so_far(
    segs: Seq<OverlapSegment>,
    start: UtcInstant,
    cursor: UtcInstant,
    a: Seq<BandSegment>,
    b: Seq<BandSegment>,
) -> bool {
    &&& chains(start, cursor, overlap_intervals(segs))
    &&& forall|i: int| 0 <= i < segs.len() ==> (#[trigger] segs[i]).interval.wf()
    &&& forall|i: int| 0 <= i < segs.len() ==> overlap_reports(#[trigger] segs[i], a, b)
    &&& forall|i: int, j: int|
        #![trigger segs[i], segs[j]]
        0 <= i && j == i + 1 && j < segs.len() ==> segs[i].state != segs[j].state
}

/// The computed overlap between two session bands; never a published fact.
#[derive(Debug, PartialEq, Eq)]
pub struct BandOverlap {
    bands: [BandId; 2],
    interval: Interval,
    segments: Vec<OverlapSegment>,
    derivation: DerivationNote,
}

impl OverlapSegment {
    /// A copy of this segment.
    pub fn duplicate(&self) -> (r: OverlapSegment)
        ensures
            r == *self,
    {
        OverlapSegment {
            interval: self.interval,
            state: self.state,
            uncertainty: match &self.uncertainty {
                Some(u) => Some(u.duplicate()),
                None => None,
            },
        }
    }
}

/// An overlap segment is a window when both bands trade through it.
pub open spec fn is_window(s: OverlapSegment) -> bool {
    s.state == OverlapState::Overlapping
}

impl BandOverlap {
    #[verifier::type_invariant]
    closed spec fn inv(self) -> bool {
        &&& chains(self.interval.start, self.interval.end, overlap_intervals(self.segments@))
        &&& forall|i: int| 0 <= i < self.segments@.len() ==> (#[trigger] self.segments@[i]).interval.wf()
    }

    /// The two bands the overlap was computed from.
    pub closed spec fn spec_bands(self) -> Seq<BandId> {
        self.bands@
    }

    /// The interval the overlap was computed over.
    pub closed spec fn spec_interval(self) -> Interval {
        self.interval
    }

    /// The segments tiling that interval.
    pub closed spec fn spec_segments(self) -> Seq<OverlapSegment> {
        self.segments@
    }

    /// Why the overlap is a computed value.
    pub closed spec fn spec_derivation(self) -> DerivationNote {
        self.derivation
    }

    /// The two bands this overlap was computed from.
    pub fn bands(&self) -> (r: &[BandId; 2])
        ensures
            r@ == self.spec_bands(),
    {
        &self.bands
    }

    /// The interval the overlap was computed over.
    pub fn interval(&self) -> (r: Interval)
        ensures
            r == self.spec_interval(),
    {
        self.interval
    }

    /// The segments tiling that interval, in order.
    pub fn segments(&self) -> (r: &[OverlapSegment])
        ensures
            r@ == self.spec_segments(),
            chains(self.spec_interval().start, self.spec_interval().end, overlap_intervals(r@)),
    {
        proof {
            use_type_invariant(self);
        }
        self.segments.as_slice()
    }

    /// Why this overlap is a computed value, never a published fact.
    pub fn derivation(&self) -> (r: &DerivationNote)
        ensures
            *r == self.spec_derivation(),
    {
        &self.derivation
    }

    /// The overlapping windows only, in order.
    pub fn windows(&self) -> (r: Vec<OverlapSegment>)
        ensures
            r@ == self.spec_segments().filter(|s: OverlapSegment| is_window(s)),
            forall|i: int| 0 <= i < r@.len() ==> (#[trigger] r@[i]).state == OverlapState::Overlapping,
    {
        let ghost segs = self.segments@;
        let ghost pred = |s: OverlapSegment| is_window(s);
        let mut out: Vec<OverlapSegment> = Vec::new();
        let mut i: usize = 0;
        while i < self.segments.len()
            invariant
                i <= segs.len(),
                segs == self.segments@,
                pred == (|s: OverlapSegment| is_window(s)),
                out@ == segs.subrange(0, i as int).filter(pred),
            decreases segs.len() - i,
        {
            proof {
                reveal(Seq::filter);
                assert(segs.subrange(0, i + 1).drop_last() =~= segs.subrange(0, i as int));
                assert(segs.subrange(0, i + 1).last() == segs[i as int]);
            }
            if self.segments[i].state == OverlapState::Overlapping {
                out.push(self.segments[i].duplicate());
            }
            i = i + 1;
        }
        proof {
            assert(segs.subrange(0, segs.len() as int) =~= segs);
            windows_are_the_overlapping_stretches(*self);
        }
        out
    }

    /// Whether the segments tile the derived interval exactly; always true of a computed
    /// overlap.
    pub fn tiles_interval(&self) -> (r: bool)
        ensures
            r == chains(self.spec_interval().start, self.spec_interval().end, overlap_intervals(self.spec_segments())),
            r,
    {
        proof {
            use_type_invariant(self);
        }
        true
    }
}

/// Moves a pointer along a band's segments to the one holding `cursor`.
fn advance_to(segs: &[BandSegment], start: UtcInstant, end: UtcInstant, p: usize, cursor: UtcInstant) -> (r: usize)
    requires
        chains(start, end, band_intervals(segs@)),
        cursor.nanos() < end.nanos(),
        p < segs@.len(),
        segs@[p as int].interval.start.nanos() <= cursor.nanos(),
    ensures
        p <= r < segs@.len(),
        band_holds(segs@[r as int], cursor.nanos()),
{
    let count = segs.len();
    let mut q = p;
    while !cursor.is_before(segs[q].interval.end)
        invariant
            count == segs@.len(),
            chains(start, end, band_intervals(segs@)),
            cursor.nanos() < end.nanos(),
            p <= q < segs@.len(),
            segs@[q as int].interval.start.nanos() <= cursor.nanos(),
        decreases segs@.len() - q,
    {
        proof {
            let ivs = band_intervals(segs@);
            assert(ivs[q as int] == segs@[q as int].interval);
            if q + 1 == segs@.len() {
                assert(ivs[ivs.len() - 1].end == end);
                assert(false);
            }
            assert(ivs[q as int].end == ivs[q + 1].start);
            assert(ivs[q + 1] == segs@[q + 1].interval);
        }
        assert(q + 1 < count);
        q = q + 1;
    }
    q
}

/// In a chain of non-empty band segments, the segment holding an instant is the only one.
proof fn lemma_band_owner(start: UtcInstant, end: UtcInstant, segs: Seq<BandSegment>, p: int, t: int)
    requires
        chains(start, end, band_intervals(segs)),
        0 <= p < segs.len(),
        band_holds(segs[p], t),
    ensures
        forall|i: int| 0 <= i < segs.len() && #[trigger] band_holds(segs[i], t) ==> i == p,
{
    let ivs = band_intervals(segs);
    assert forall|i: int| 0 <= i < segs.len() && #[trigger] band_holds(segs[i], t) implies i == p by {
        assert(ivs[i] == segs[i].interval);
        assert(ivs[p] == segs[p].interval);
        lemma_chain_one_owner(start, end, ivs, i, p, t);
    }
}

/// Joining two adjacent overlap segments of one state keeps what each reports.
proof fn lemma_join_overlap(
    first: OverlapSegment,
    next: OverlapSegment,
    joined: OverlapSegment,
    a: Seq<BandSegment>,
    b: Seq<BandSegment>,
)
    requires
        overlap_reports(first, a, b),
        overlap_reports(next, a, b),
        first.interval.end == next.interval.start,
        first.state == next.state,
        joined.interval.start == first.interval.start,
        joined.interval.end == next.interval.end,
        joined.state == first.state,
        joined.uncertainty == widen_opt(first.uncertainty, next.uncertainty),
    ensures
        overlap_reports(joined, a, b),
{
    reveal(overlap_reports);
    widening_an_option_never_narrows(first.uncertainty, next.uncertainty);
    assert forall|t: int, i: int, j: int|
        #![trigger band_holds(a[i], t), band_holds(b[j], t)]
        joined.interval.start.nanos() <= t < joined.interval.end.nanos() && 0 <= i < a.len() && 0
            <= j < b.len() && band_holds(a[i], t) && band_holds(b[j], t) implies {
            &&& joined.state == overlap_state_of(a[i].state, b[j].state)
            &&& joined.uncertainty is None ==> a[i].uncertainty is None && b[j].uncertainty is None
            &&& joined.uncertainty matches Some(u) ==> (a[i].uncertainty matches Some(x) ==> at_least_as_wide(u, x))
                && (b[j].uncertainty matches Some(y) ==> at_least_as_wide(u, y))
        } by {
        if t < first.interval.end.nanos() {
            assert(band_holds(a[i], t) && band_holds(b[j], t));
        } else {
            assert(band_holds(a[i], t) && band_holds(b[j], t));
        }
    }
    if joined.uncertainty is Some {
        let u = joined.uncertainty->0;
        if first.uncertainty == joined.uncertainty {
            let (t, i, j) = choose|t: int, i: int, j: int| #[trigger] overlap_attains(u, first, a, b, t, i, j);
            assert(overlap_attains(u, joined, a, b, t, i, j));
        } else {
            assert(next.uncertainty == joined.uncertainty);
            let (t, i, j) = choose|t: int, i: int, j: int| #[trigger] overlap_attains(u, next, a, b, t, i, j);
            assert(overlap_attains(u, joined, a, b, t, i, j));
        }
    }
}

/// A slice inside the band segments at `p` and `q` reports the two bands.
proof fn lemma_overlap_slice(
    seg: OverlapSegment,
    a: Seq<BandSegment>,
    b: Seq<BandSegment>,
    p: int,
    q: int,
    start: UtcInstant,
    end: UtcInstant,
)
    requires
        chains(start, end, band_intervals(a)),
        chains(start, end, band_intervals(b)),
        0 <= p < a.len(),
        0 <= q < b.len(),
        seg.interval.wf(),
        a[p].interval.start.nanos() <= seg.interval.start.nanos(),
        seg.interval.end.nanos() <= a[p].interval.end.nanos(),
        b[q].interval.start.nanos() <= seg.interval.start.nanos(),
        seg.interval.end.nanos() <= b[q].interval.end.nanos(),
        seg.state == overlap_state_of(a[p].state, b[q].state),
        seg.uncertainty == widen_opt(a[p].uncertainty, b[q].uncertainty),
    ensures
        overlap_reports(seg, a, b),
{
    reveal(overlap_reports);
    widening_an_option_never_narrows(a[p].uncertainty, b[q].uncertainty);
    assert forall|t: int, i: int, j: int|
        #![trigger band_holds(a[i], t), band_holds(b[j], t)]
        seg.interval.start.nanos() <= t < seg.interval.end.nanos() && 0 <= i < a.len() && 0 <= j
            < b.len() && band_holds(a[i], t) && band_holds(b[j], t) implies {
            &&& seg.state == overlap_state_of(a[i].state, b[j].state)
            &&& seg.uncertainty is None ==> a[i].uncertainty is None && b[j].uncertainty is None
            &&& seg.uncertainty matches Some(u) ==> (a[i].uncertainty matches Some(x) ==> at_least_as_wide(u, x))
                && (b[j].uncertainty matches Some(y) ==> at_least_as_wide(u, y))
        } by {
        lemma_band_owner(start, end, a, p, t);
        lemma_band_owner(start, end, b, q, t);
    }
    if seg.uncertainty is Some {
        let u = seg.uncertainty->0;
        assert(overlap_attains(u, seg, a, b, seg.interval.start.nanos(), p, q));
    }
}

/// An overlap's reasoning starts with a letter, so it is never blank.
proof fn lemma_reasoning_not_blank(a: Seq<char>, b: Seq<char>)
    ensures
        !crate::text::is_blank_text(overlap_reasoning(a, b)),
{
    reveal_strlit("computed as the overlap of session bands \"");
    let text = overlap_reasoning(a, b);
    assert(text[0] == 'c');
    assert(!is_white_space(text[0]));
}

/// Replacing the last overlap segment by one with the same start and state, reaching
/// further, keeps the overlap well formed.
proof fn lemma_overlap_replace_last(
    before: Seq<OverlapSegment>,
    joined: OverlapSegment,
    start: UtcInstant,
    cursor: UtcInstant,
    a: Seq<BandSegment>,
    b: Seq<BandSegment>,
)
    requires
        before.len() > 0,
        overlap_so_far(before, start, before.last().interval.end, a, b),
        joined.interval.start == before.last().interval.start,
        joined.interval.end == cursor,
        before.last().interval.end.nanos() <= cursor.nanos(),
        joined.state == before.last().state,
        overlap_reports(joined, a, b),
    ensures
        overlap_so_far(before.drop_last().push(joined), start, cursor, a, b),
{
    let n = before.len();
    let after = before.drop_last().push(joined);
    let ivs = overlap_intervals(after);
    let old_ivs = overlap_intervals(before);
    assert(forall|i: int| 0 <= i < n - 1 ==> ivs[i] == old_ivs[i]);
    assert(ivs[n - 1] == joined.interval);
    assert(old_ivs[n - 1] == before.last().interval);
    assert forall|i: int| 0 <= i < after.len() implies overlap_reports(#[trigger] after[i], a, b) by {
        if i < n - 1 {
            assert(after[i] == before[i]);
        }
    }
    assert forall|i: int| 0 <= i < after.len() implies (#[trigger] after[i]).interval.wf() by {
        if i < n - 1 {
            assert(after[i] == before[i]);
        } else {
            assert(before[n - 1].interval.wf());
        }
    }
    assert forall|i: int, j: int|
        #![trigger after[i], after[j]]
        0 <= i && j == i + 1 && j < after.len() implies after[i].state != after[j].state by {
        assert(after[i] == before[i]);
        if j < n - 1 {
            assert(after[j] == before[j]);
        }
    }
}

/// Appending an overlap segment that starts where the overlap ends, in another state
/// than the last one, keeps the overlap well formed.
proof fn lemma_overlap_append(
    before: Seq<OverlapSegment>,
    seg: OverlapSegment,
    start: UtcInstant,
    a: Seq<BandSegment>,
    b: Seq<BandSegment>,
)
    requires
        overlap_so_far(before, start, seg.interval.start, a, b),
        before.len() > 0 ==> before.last().state != seg.state,
        seg.interval.wf(),
        overlap_reports(seg, a, b),
    ensures
        overlap_so_far(before.push(seg), start, seg.interval.end, a, b),
{
    let n = before.len();
    let after = before.push(seg);
    let ivs = overlap_intervals(after);
    let old_ivs = overlap_intervals(before);
    assert(forall|i: int| 0 <= i < n ==> ivs[i] == old_ivs[i]);
    assert(ivs[n as int] == seg.interval);
    assert forall|i: int| 0 <= i < after.len() implies overlap_reports(#[trigger] after[i], a, b) by {
        if i < n {
            assert(after[i] == before[i]);
        }
    }
    assert forall|i: int| 0 <= i < after.len() implies (#[trigger] after[i]).interval.wf() by {
        if i < n {
            assert(after[i] == before[i]);
        }
    }
    assert forall|i: int, j: int|
        #![trigger after[i], after[j]]
        0 <= i && j == i + 1 && j < after.len() implies after[i].state != after[j].state by {
        assert(after[i] == before[i]);
        if j < n {
            assert(after[j] == before[j]);
        }
    }
}

/// Appends an overlap segment starting at the cursor, joining it onto the last one when
/// the two share a state.
fn push_overlap_segment(
    segs: &mut Vec<OverlapSegment>,
    seg: OverlapSegment,
    Ghost(start): Ghost<UtcInstant>,
    Ghost(a): Ghost<Seq<BandSegment>>,
    Ghost(b): Ghost<Seq<BandSegment>>,
)
    requires
        overlap_so_far(old(segs)@, start, seg.interval.start, a, b),
        seg.interval.wf(),
        overlap_reports(seg, a, b),
    ensures
        overlap_so_far(final(segs)@, start, seg.interval.end, a, b),
{
    let ghost before = segs@;
    let n = segs.len();
    if n > 0 && segs[n - 1].state == seg.state {
        let last = match segs.pop() {
            Some(l) => l,
            None => return,
        };
        proof {
            assert(segs@ =~= before.drop_last());
            assert(last == before.last());
            assert(overlap_intervals(before)[n - 1] == last.interval);
        }
        let joined = OverlapSegment {
            interval: Interval { start: last.interval.start, end: seg.interval.end },
            state: last.state,
            uncertainty: widen_optional(last.uncertainty, seg.uncertainty),
        };
        proof {
            lemma_join_overlap(last, seg, joined, a, b);
            lemma_overlap_replace_last(before, joined, start, seg.interval.end, a, b);
        }
        segs.push(joined);
        return;
    }
    proof {
        if n > 0 {
            assert(before.last() == before[n - 1]);
        }
        lemma_overlap_append(before, seg, start, a, b);
    }
    segs.push(seg);
}

/// The overlap state of two band states.
fn overlap_state(x: BandState, y: BandState) -> (r: OverlapState)
    ensures
        r == overlap_state_of(x, y),
{
    if x == BandState::Unknown || y == BandState::Unknown {
        OverlapState::Unknown
    } else if x == BandState::Trading && y == BandState::Trading {
        OverlapState::Overlapping
    } else {
        OverlapState::NotOverlapping
    }
}

/// Cuts the shared interval wherever either band's segment changes and classifies each
/// stretch.
fn sweep_overlap(a: &[BandSegment], b: &[BandSegment], interval: Interval) -> (r: Vec<OverlapSegment>)
    requires
        chains(interval.start, interval.end, band_intervals(a@)),
        chains(interval.start, interval.end, band_intervals(b@)),
    ensures
        overlap_so_far(r@, interval.start, interval.end, a@, b@),
{
    let mut segs: Vec<OverlapSegment> = Vec::new();
    let mut cursor = interval.start;
    let mut p: usize = 0;
    let mut q: usize = 0;
    proof {
        if a@.len() > 0 {
            assert(band_intervals(a@)[0] == a@[0].interval);
        }
        if b@.len() > 0 {
            assert(band_intervals(b@)[0] == b@[0].interval);
        }
        if a@.len() > 0 {
            lemma_chain_bounds(interval.start, interval.end, band_intervals(a@), 0);
        }
    }
    if !cursor.is_before(interval.end) {
        return segs;
    }
    while cursor.is_before(interval.end)
        invariant
            chains(interval.start, interval.end, band_intervals(a@)),
            chains(interval.start, interval.end, band_intervals(b@)),
            interval.start.nanos() <= cursor.nanos() <= interval.end.nanos(),
            overlap_so_far(segs@, interval.start, cursor, a@, b@),
            cursor.nanos() < interval.end.nanos() ==> p < a@.len() && a@[p as int].interval.start.nanos() <= cursor.nanos(),
            cursor.nanos() < interval.end.nanos() ==> q < b@.len() && b@[q as int].interval.start.nanos() <= cursor.nanos(),
        decreases interval.end.nanos() - cursor.nanos(),
    {
        p = advance_to(a, interval.start, interval.end, p, cursor);
        q = advance_to(b, interval.start, interval.end, q, cursor);
        let left = &a[p];
        let right = &b[q];
        let end = if left.interval.end.is_before(right.interval.end) {
            left.interval.end
        } else {
            right.interval.end
        };
        let uncertainty = widen_optional(
            match &left.uncertainty {
                Some(u) => Some(u.duplicate()),
                None => None,
            },
            match &right.uncertainty {
                Some(u) => Some(u.duplicate()),
                None => None,
            },
        );
        let seg = OverlapSegment {
            interval: Interval { start: cursor, end },
            state: overlap_state(left.state, right.state),
            uncertainty,
        };
        proof {
            lemma_overlap_slice(seg, a@, b@, p as int, q as int, interval.start, interval.end);
            let ivs_a = band_intervals(a@);
            assert(ivs_a[p as int] == a@[p as int].interval);
            lemma_chain_bounds(interval.start, interval.end, ivs_a, p as int);
        }
        push_overlap_segment(&mut segs, seg, Ghost(interval.start), Ghost(a@), Ghost(b@));
        proof {
            let ivs_a = band_intervals(a@);
            let ivs_b = band_intervals(b@);
            assert(ivs_a[p as int] == a@[p as int].interval);
            assert(ivs_b[q as int] == b@[q as int].interval);
            if end.nanos() < interval.end.nanos() {
                if end == left.interval.end {
                    if p + 1 == a@.len() {
                        assert(ivs_a[ivs_a.len() - 1].end == interval.end);
                    }
                    assert(ivs_a[p as int].end == ivs_a[p + 1].start);
                    assert(ivs_a[p + 1] == a@[p + 1].interval);
                } else {
                    if q + 1 == b@.len() {
                        assert(ivs_b[ivs_b.len() - 1].end == interval.end);
                    }
                    assert(ivs_b[q as int].end == ivs_b[q + 1].start);
                    assert(ivs_b[q + 1] == b@[q + 1].interval);
                }
            }
        }
        cursor = end;
    }
    segs
}

/// `o` is the overlap of `a` with `b` as `derive_overlap` computes it: it names the two
/// bands in that order, spans their shared interval, says how it was computed, and its
/// segments read the two bands at every instant.
pub open spec fn overlap_derived(o: BandOverlap, a: SessionBand, b: SessionBand) -> bool {
    &&& o.spec_bands().len() == 2
    &&& o.spec_bands()[0]@ == a.spec_definition().spec_id()@
    &&& o.spec_bands()[1]@ == b.spec_definition().spec_id()@
    &&& a.spec_interval() == b.spec_interval()
    &&& o.spec_interval() == a.spec_interval()
    &&& o.spec_derivation().spec_reasoning() == overlap_reasoning(
        a.spec_definition().spec_display_name(),
        b.spec_definition().spec_display_name(),
    )
    &&& overlap_so_far(
        o.spec_segments(),
        a.spec_interval().start,
        a.spec_interval().end,
        a.spec_segments(),
        b.spec_segments(),
    )
}

/// Computes the overlap between two session bands.
///
/// Fails with `SameBand` when both carry the same identifier, and with
/// `BandIntervalMismatch` when they were derived over different intervals. Otherwise the
/// segments tile the shared interval; at every instant an overlap segment is unknown when
/// either band is, overlapping when both trade, and not overlapping otherwise; its
/// uncertainty is `None` exactly when both bands carry `None` throughout it, and otherwise
/// the widest of the bands' uncertainties over it.
pub fn derive_overlap(a: &SessionBand, b: &SessionBand) -> (r: Result<BandOverlap, BandError>)
    ensures
        a.spec_definition().spec_id()@ == b.spec_definition().spec_id()@ ==> (r matches Err(
            BandError::SameBand(id),
        ) && id@ == a.spec_definition().spec_id()@),
        a.spec_definition().spec_id()@ != b.spec_definition().spec_id()@ && a.spec_interval()
            != b.spec_interval() ==> (r matches Err(BandError::BandIntervalMismatch { first, second })
            && first@ == a.spec_definition().spec_id()@ && second@ == b.spec_definition().spec_id()@),
        r is Ok <==> (a.spec_definition().spec_id()@ != b.spec_definition().spec_id()@ && a.spec_interval()
            == b.spec_interval()),
        r matches Ok(o) ==> overlap_derived(o, *a, *b),
{
    let first = a.definition().id();
    let second = b.definition().id();
    if first.same_as(second) {
        return Err(BandError::SameBand(first.duplicate()));
    }
    let interval = a.interval();
    let other = b.interval();
    if !interval.start.same_as(other.start) || !interval.end.same_as(other.end) {
        return Err(BandError::BandIntervalMismatch { first: first.duplicate(), second: second.duplicate() });
    }
    let left = a.segments();
    let right = b.segments();
    let segments = sweep_overlap(left, right, interval);
    let mut reasoning = String::from_str("computed as the overlap of session bands \"");
    reasoning.append(a.definition().display_name());
    reasoning.append("\" and \"");
    reasoning.append(b.definition().display_name());
    reasoning.append("\"; no venue publishes a combined window");
    let derivation = match DerivationNote::new(reasoning) {
        Ok(note) => note,
        Err(e) => {
            proof {
                lemma_reasoning_not_blank(
                    a.spec_definition().spec_display_name(),
                    b.spec_definition().spec_display_name(),
                );
            }
            return Err(BandError::Evidence(e));
        },
    };
    Ok(BandOverlap { bands: [first.duplicate(), second.duplicate()], interval, segments, derivation })
}

/// The reasoning an overlap of bands named `a` and `b` carries.
pub open spec fn overlap_reasoning(a: Seq<char>, b: Seq<char>) -> Seq<char> {
    "computed as the overlap of session bands \""@ + a + "\" and \""@ + b
        + "\"; no venue publishes a combined window"@
}

/// In a chain of non-empty intervals, every instant of its span lies in one of them.
proof fn lemma_chain_covers(start: UtcInstant, end: UtcInstant, ivs: Seq<Interval>, t: int) -> (i: int)
    requires
        chains(start, end, ivs),
        forall|k: int| 0 <= k < ivs.len() ==> (#[trigger] ivs[k]).wf(),
        start.nanos() <= t < end.nanos(),
    ensures
        0 <= i < ivs.len(),
        ivs[i].start.nanos() <= t < ivs[i].end.nanos(),
    decreases ivs.len(),
{
    let n = ivs.len();
    if n == 0 {
        assert(false);
        0
    } else if ivs[n - 1].start.nanos() <= t {
        n - 1
    } else {
        let rest = ivs.drop_last();
        if n == 1 {
            assert(false);
        }
        assert(chains(start, ivs[n - 1].start, rest));
        lemma_chain_covers(start, ivs[n - 1].start, rest, t)
    }
}

/// The overlap state of two band states does not depend on which band comes first.
proof fn lemma_overlap_state_symmetric(x: BandState, y: BandState)
    ensures
        overlap_state_of(x, y) == overlap_state_of(y, x),
{
}

/// Every band segment of a valid band is non-empty and they tile its interval.
pub open spec fn band_tiles(segs: Seq<BandSegment>, start: UtcInstant, end: UtcInstant) -> bool {
    &&& chains(start, end, band_intervals(segs))
    &&& forall|i: int| 0 <= i < segs.len() ==> (#[trigger] segs[i]).interval.wf()
}

/// The state an overlap segment reports at an instant of its stretch is the state of the
/// two bands at that instant.
proof fn lemma_overlap_state_at(
    seg: OverlapSegment,
    a: Seq<BandSegment>,
    b: Seq<BandSegment>,
    start: UtcInstant,
    end: UtcInstant,
    t: int,
) -> (ij: (int, int))
    requires
        overlap_reports(seg, a, b),
        band_tiles(a, start, end),
        band_tiles(b, start, end),
        seg.interval.start.nanos() <= t < seg.interval.end.nanos(),
        start.nanos() <= t < end.nanos(),
    ensures
        0 <= ij.0 < a.len(),
        0 <= ij.1 < b.len(),
        band_holds(a[ij.0], t),
        band_holds(b[ij.1], t),
        seg.state == overlap_state_of(a[ij.0].state, b[ij.1].state),
{
    reveal(overlap_reports);
    let ia = band_intervals(a);
    let ib = band_intervals(b);
    assert forall|k: int| 0 <= k < ia.len() implies (#[trigger] ia[k]).wf() by {
        assert(ia[k] == a[k].interval);
    }
    assert forall|k: int| 0 <= k < ib.len() implies (#[trigger] ib[k]).wf() by {
        assert(ib[k] == b[k].interval);
    }
    let i = lemma_chain_covers(start, end, ia, t);
    let j = lemma_chain_covers(start, end, ib, t);
    assert(ia[i] == a[i].interval);
    assert(ib[j] == b[j].interval);
    assert(band_holds(a[i], t) && band_holds(b[j], t));
    (i, j)
}

/// Where an overlap segment lies in its chain: non-empty, inside the span, followed by
/// the next segment at its end, or ending the span when it is the last.
proof fn lemma_overlap_shape(
    s: Seq<OverlapSegment>,
    start: UtcInstant,
    end: UtcInstant,
    a: Seq<BandSegment>,
    b: Seq<BandSegment>,
    k: int,
)
    requires
        overlap_so_far(s, start, end, a, b),
        0 <= k < s.len(),
    ensures
        s[k].interval.wf(),
        overlap_reports(s[k], a, b),
        start.nanos() <= s[k].interval.start.nanos(),
        s[k].interval.end.nanos() <= end.nanos(),
        k + 1 < s.len() ==> s[k + 1].interval.start == s[k].interval.end && s[k + 1].interval.wf()
            && overlap_reports(s[k + 1], a, b) && s[k].state != s[k + 1].state,
        k + 1 == s.len() ==> s[k].interval.end == end,
{
    let ivs = overlap_intervals(s);
    assert(ivs[k] == s[k].interval);
    lemma_chain_bounds(start, end, ivs, k);
    if k + 1 < s.len() {
        assert(ivs[k + 1] == s[k + 1].interval);
        assert(ivs[k].end == ivs[k + 1].start);
        assert(s[k].state != s[k + 1].state);
    } else {
        assert(ivs[ivs.len() - 1].end == end);
    }
}

/// Two overlap segments that start at one instant, one computed with the bands in either
/// order, end at one instant and report one state.
#[verifier::spinoff_prover]
proof fn lemma_overlap_step(
    s1: Seq<OverlapSegment>,
    s2: Seq<OverlapSegment>,
    start: UtcInstant,
    end: UtcInstant,
    a: Seq<BandSegment>,
    b: Seq<BandSegment>,
    k: int,
)
    requires
        overlap_so_far(s1, start, end, a, b),
        overlap_so_far(s2, start, end, b, a),
        band_tiles(a, start, end),
        band_tiles(b, start, end),
        0 <= k < s1.len(),
        0 <= k < s2.len(),
        s1[k].interval.start == s2[k].interval.start,
    ensures
        s1[k].interval.end == s2[k].interval.end,
        s1[k].state == s2[k].state,
{
    lemma_overlap_shape(s1, start, end, a, b, k);
    lemma_overlap_shape(s2, start, end, b, a, k);
    lemma_same_state_at(s1[k], s2[k], a, b, start, end, s1[k].interval.start.nanos());
    let e1 = s1[k].interval.end.nanos();
    let e2 = s2[k].interval.end.nanos();
    if e1 < e2 {
        lemma_same_state_at(s1[k + 1], s2[k], a, b, start, end, e1);
        assert(false);
    } else if e2 < e1 {
        lemma_same_state_at(s1[k], s2[k + 1], a, b, start, end, e2);
        assert(false);
    }
}

/// Two overlap segments, one of `a` with `b` and one of `b` with `a`, that both hold an
/// instant report the same state.
proof fn lemma_same_state_at(
    x: OverlapSegment,
    y: OverlapSegment,
    a: Seq<BandSegment>,
    b: Seq<BandSegment>,
    start: UtcInstant,
    end: UtcInstant,
    t: int,
)
    requires
        overlap_reports(x, a, b),
        overlap_reports(y, b, a),
        band_tiles(a, start, end),
        band_tiles(b, start, end),
        x.interval.start.nanos() <= t < x.interval.end.nanos(),
        y.interval.start.nanos() <= t < y.interval.end.nanos(),
        start.nanos() <= t < end.nanos(),
    ensures
        x.state == y.state,
{
    let (p, q) = lemma_overlap_state_at(x, a, b, start, end, t);
    let (q2, p2) = lemma_overlap_state_at(y, b, a, start, end, t);
    lemma_band_owner(start, end, a, p, t);
    lemma_band_owner(start, end, b, q, t);
    lemma_overlap_state_symmetric(a[p].state, b[q].state);
}

/// In an overlap, each segment starts where the one before it ends.
proof fn lemma_overlap_next_start(
    s: Seq<OverlapSegment>,
    start: UtcInstant,
    end: UtcInstant,
    a: Seq<BandSegment>,
    b: Seq<BandSegment>,
    k: int,
)
    requires
        overlap_so_far(s, start, end, a, b),
        0 <= k < s.len(),
    ensures
        k == 0 ==> s[k].interval.start == start,
        k > 0 ==> s[k].interval.start == s[k - 1].interval.end,
{
    let ivs = overlap_intervals(s);
    assert(ivs[k] == s[k].interval);
    if k > 0 {
        assert(ivs[k - 1] == s[k - 1].interval);
        assert(ivs[k - 1].end == ivs[k].start);
    }
}

/// The first `n` segments of the two overlaps agree on stretch and state.
#[verifier::spinoff_prover]
proof fn lemma_overlap_prefix(
    s1: Seq<OverlapSegment>,
    s2: Seq<OverlapSegment>,
    start: UtcInstant,
    end: UtcInstant,
    a: Seq<BandSegment>,
    b: Seq<BandSegment>,
    n: int,
)
    requires
        overlap_so_far(s1, start, end, a, b),
        overlap_so_far(s2, start, end, b, a),
        band_tiles(a, start, end),
        band_tiles(b, start, end),
        0 <= n <= s1.len(),
        n <= s2.len(),
    ensures
        forall|k: int| 0 <= k < n ==> (#[trigger] s1[k]).interval == s2[k].interval && s1[k].state == s2[k].state,
    decreases n,
{
    if n > 0 {
        lemma_overlap_prefix(s1, s2, start, end, a, b, n - 1);
        let k = n - 1;
        lemma_overlap_next_start(s1, start, end, a, b, k);
        lemma_overlap_next_start(s2, start, end, b, a, k);
        if k > 0 {
            assert(s1[k - 1].interval == s2[k - 1].interval);
        }
        assert(s1[k].interval.start == s2[k].interval.start);
        lemma_overlap_step(s1, s2, start, end, a, b, k);
    }
}

/// Overlapping two bands gives the same stretches and states in either order: the
/// overlap of `a` with `b` and the overlap of `b` with `a`, each as `derive_overlap`
/// describes it, cut the interval at the same instants and agree on every stretch.
pub proof fn overlap_is_symmetric(
    s1: Seq<OverlapSegment>,
    s2: Seq<OverlapSegment>,
    start: UtcInstant,
    end: UtcInstant,
    a: Seq<BandSegment>,
    b: Seq<BandSegment>,
)
    requires
        band_tiles(a, start, end),
        band_tiles(b, start, end),
        overlap_so_far(s1, start, end, a, b),
        overlap_so_far(s2, start, end, b, a),
    ensures
        s1.len() == s2.len(),
        forall|k: int| 0 <= k < s1.len() ==> (#[trigger] s1[k]).interval == s2[k].interval && s1[k].state == s2[k].state,
{
    let i1 = overlap_intervals(s1);
    let i2 = overlap_intervals(s2);
    let m = if s1.len() <= s2.len() { s1.len() as int } else { s2.len() as int };
    lemma_overlap_prefix(s1, s2, start, end, a, b, m);
    if s1.len() < s2.len() {
        let k = s1.len() as int;
        assert(i2[k] == s2[k].interval);
        assert(s2[k].interval.wf());
        lemma_chain_bounds(start, end, i2, k);
        if k == 0 {
            assert(start == end);
        } else {
            assert(i1[k - 1] == s1[k - 1].interval);
            assert(i2[k - 1] == s2[k - 1].interval);
            assert(i1[i1.len() - 1].end == end);
            assert(i2[k - 1].end == i2[k].start);
        }
        assert(false);
    } else if s2.len() < s1.len() {
        let k = s2.len() as int;
        assert(i1[k] == s1[k].interval);
        assert(s1[k].interval.wf());
        lemma_chain_bounds(start, end, i1, k);
        if k == 0 {
            assert(start == end);
        } else {
            assert(i1[k - 1] == s1[k - 1].interval);
            assert(i2[k - 1] == s2[k - 1].interval);
            assert(i2[i2.len() - 1].end == end);
            assert(i1[k - 1].end == i1[k].start);
        }
        assert(false);
    }
}

/// Overlapping `b` with `a` gives the overlap of `a` with `b` with the bands named the
/// other way round: the same segments, cut at the same instants, in the same states.
pub proof fn swapping_the_bands_gives_the_same_overlap(
    a: SessionBand,
    b: SessionBand,
    o1: BandOverlap,
    o2: BandOverlap,
)
    requires
        band_tiles(a.spec_segments(), a.spec_interval().start, a.spec_interval().end),
        band_tiles(b.spec_segments(), b.spec_interval().start, b.spec_interval().end),
        overlap_derived(o1, a, b),
        overlap_derived(o2, b, a),
    ensures
        o2.spec_bands()[0]@ == o1.spec_bands()[1]@,
        o2.spec_bands()[1]@ == o1.spec_bands()[0]@,
        o1.spec_interval() == o2.spec_interval(),
        o1.spec_segments().len() == o2.spec_segments().len(),
        forall|k: int|
            0 <= k < o1.spec_segments().len() ==> (#[trigger] o1.spec_segments()[k]).interval
                == o2.spec_segments()[k].interval && o1.spec_segments()[k].state == o2.spec_segments()[k].state,
{
    overlap_is_symmetric(
        o1.spec_segments(),
        o2.spec_segments(),
        a.spec_interval().start,
        a.spec_interval().end,
        a.spec_segments(),
        b.spec_segments(),
    );
}

/// At every instant of an overlap's interval, the overlap segment holding it reads the two
/// band segments holding it: unknown when either is unknown, overlapping only when both
/// trade, not overlapping otherwise, and with no uncertainty only when neither band has
/// one there.
pub proof fn an_overlap_reads_both_bands_at_every_instant(
    a: SessionBand,
    b: SessionBand,
    o: BandOverlap,
    x: int,
) -> (kij: (int, int, int))
    requires
        band_tiles(a.spec_segments(), a.spec_interval().start, a.spec_interval().end),
        band_tiles(b.spec_segments(), b.spec_interval().start, b.spec_interval().end),
        overlap_derived(o, a, b),
        a.spec_interval().start.nanos() <= x < a.spec_interval().end.nanos(),
    ensures
        ({
            let (k, i, j) = kij;
            let s = o.spec_segments()[k];
            let sa = a.spec_segments()[i];
            let sb = b.spec_segments()[j];
            &&& 0 <= k < o.spec_segments().len()
            &&& 0 <= i < a.spec_segments().len()
            &&& 0 <= j < b.spec_segments().len()
            &&& s.interval.start.nanos() <= x < s.interval.end.nanos()
            &&& band_holds(sa, x)
            &&& band_holds(sb, x)
            &&& s.state == overlap_state_of(sa.state, sb.state)
            &&& (s.state == OverlapState::Unknown <==> (sa.state == BandState::Unknown || sb.state == BandState::Unknown))
            &&& (s.state == OverlapState::Overlapping <==> (sa.state == BandState::Trading && sb.state == BandState::Trading))
            &&& (s.uncertainty is None ==> sa.uncertainty is None && sb.uncertainty is None)
        }),
{
    let start = a.spec_interval().start;
    let end = a.spec_interval().end;
    let segs = o.spec_segments();
    let ivs = overlap_intervals(segs);
    assert forall|q: int| 0 <= q < ivs.len() implies (#[trigger] ivs[q]).wf() by {
        assert(ivs[q] == segs[q].interval);
    }
    let k = lemma_chain_covers(start, end, ivs, x);
    assert(ivs[k] == segs[k].interval);
    assert(overlap_reports(segs[k], a.spec_segments(), b.spec_segments()));
    let (i, j) = lemma_overlap_state_at(segs[k], a.spec_segments(), b.spec_segments(), start, end, x);
    reveal(overlap_reports);
    (k, i, j)
}

/// The windows of an overlap are exactly its stretches where both bands trade, in order:
/// every window is an `Overlapping` segment of the overlap, and every `Overlapping` segment
/// is a window; an `Unknown` or `NotOverlapping` stretch never is one.
pub proof fn windows_are_the_overlapping_stretches(o: BandOverlap)
    ensures
        ({
            let w = o.spec_segments().filter(|s: OverlapSegment| is_window(s));
            &&& forall|i: int| 0 <= i < w.len() ==> (#[trigger] w[i]).state == OverlapState::Overlapping
            &&& forall|i: int| 0 <= i < w.len() ==> o.spec_segments().contains(#[trigger] w[i])
            &&& forall|i: int|
                0 <= i < o.spec_segments().len() && (#[trigger] o.spec_segments()[i]).state
                    == OverlapState::Overlapping ==> w.contains(o.spec_segments()[i])
            &&& w.len() <= o.spec_segments().len()
        }),
{
    let segs = o.spec_segments();
    let pred = |s: OverlapSegment| is_window(s);
    let w = segs.filter(pred);
    assert forall|i: int| 0 <= i < w.len() implies (#[trigger] w[i]).state == OverlapState::Overlapping by {
        segs.lemma_filter_pred(pred, i);
    }
    assert forall|i: int| 0 <= i < w.len() implies segs.contains(#[trigger] w[i]) by {
        assert(w.contains(w[i]));
        segs.lemma_filter_contains_rev(pred, w[i]);
    }
    assert forall|i: int|
        0 <= i < segs.len() && (#[trigger] segs[i]).state == OverlapState::Overlapping implies w.contains(segs[i]) by {
        segs.lemma_filter_contains(pred, i);
    }
    segs.lemma_filter_len(pred);
}

} // verus!
