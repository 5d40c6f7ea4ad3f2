//! Total phase resolution over an already validated ruleset.
//!
//! A rule's boundaries are civil times of day; they become instants here, at query time,
//! through the venue's zone. A wall-clock time the zone shows twice names its earlier
//! instant and says so in the boundary's uncertainty; one the zone skips names the instant
//! under the offset in force before the shift, and says that too. Nothing is invented
//! silently.

use crate::civil::{date_ordinal, local_date_at, local_reading, next_date, weekday_from_civil, CivilDate, CivilTime};
use crate::civil::weekday_numbered;
use crate::event::{EventOccurrence, EventRule};
use crate::coverage::{CoverageGap, CoverageRange};
use crate::evidence::EvidenceRef;
use crate::ids::{DatasetRevisionId, VenueId};
use crate::instant::{max_int, min_int, Interval, UtcInstant};
use crate::phase::Phase;
use crate::query::{
    chains, segment_interval, segment_intervals, segment_phase, PhaseAnswer, PhaseBoundary,
    PhaseOutcome, Timeline, TimelineSegment, VenueOutcome,
};
use crate::rule::{kind_applies_on_weekday, kind_label, kind_text, precedence_of, Rule, RuleKind};
use crate::ruleset::{distinct_venues, revision_ids_of, Ruleset, VenueRuleset};
use crate::text::text_eq;
use crate::uncertainty::{at_least_as_wide, widest_never_narrows, widest_of, Uncertainty};
use crate::zone::{local_resolution, tz_known, tz_local_resolution};
use vstd::prelude::*;

verus! {

/// An instant an offset gives, or the Unix epoch where the offset cannot place the reading
/// inside `jiff`'s range.
pub open spec fn or_epoch(n: Option<int>) -> int {
    match n {
        Some(x) => x,
        None => 0,
    }
}

/// How the zone resolves the wall-clock reading `time` on `date`: `(kind, a, b)` as
/// [`tz_local_resolution`] gives it, an instant no offset can place being the Unix epoch.
pub open spec fn resolution_of(zone: Seq<char>, date: (int, int, int), time: (int, int, int, int)) -> (
    int,
    int,
    int,
) {
    let r = tz_local_resolution(zone, date.0, date.1, date.2, time.0, time.1, time.2, time.3);
    (r.0, or_epoch(r.1), or_epoch(r.2))
}

/// The instant a boundary is placed on: the single instant, the earlier of two, or, for a
/// reading the clocks skip, the instant under the offset in force before the shift.
pub open spec fn placed_at(res: (int, int, int)) -> int {
    if res.0 == 1 {
        min_int(res.1, res.2)
    } else {
        res.1
    }
}

/// The instant with this nanosecond count.
pub open spec fn instant_at(n: int) -> UtcInstant {
    UtcInstant { nanos_since_unix_epoch: n as i128 }
}

/// A boundary's uncertainty: the published one, unless the wall-clock reading is
/// ambiguous or skipped, in which case that is what the boundary says.
pub open spec fn boundary_uncertainty_of(res: (int, int, int), published: Uncertainty) -> Uncertainty {
    if res.0 == 1 {
        Uncertainty::AmbiguousLocalTime {
            earlier: instant_at(min_int(res.1, res.2)),
            later: instant_at(max_int(res.1, res.2)),
        }
    } else if res.0 == 2 {
        Uncertainty::NonexistentLocalTime {
            as_if_before_shift: instant_at(res.1),
            as_if_after_shift: instant_at(res.2),
        }
    } else {
        published
    }
}

/// Whether a rule applies on the date `(y, m, d)`.
pub open spec fn applies_on_day(r: Rule, day: (int, int, int)) -> bool {
    &&& r.applies.start.ordinal() <= date_ordinal(day.0, day.1, day.2) <= r.applies.end.ordinal()
    &&& kind_applies_on_weekday(r.kind, weekday_numbered(weekday_from_civil(day.0, day.1, day.2)))
}

/// Among the first `n` rules, the index of the one that governs `day`: the first of those
/// with the highest precedence among the rules that apply, or -1 when none applies.
pub open spec fn governing_upto(rules: Seq<Rule>, day: (int, int, int), n: nat) -> int
    decreases n,
{
    if n == 0 {
        -1
    } else {
        let best = governing_upto(rules, day, (n - 1) as nat);
        let r = rules[n - 1];
        if applies_on_day(r, day) && (best < 0 || precedence_of(r.kind) > precedence_of(
            rules[best].kind,
        )) {
            n - 1
        } else {
            best
        }
    }
}

/// The index of the rule that governs `day`, or -1 when none applies.
pub open spec fn governing(rules: Seq<Rule>, day: (int, int, int)) -> int {
    governing_upto(rules, day, rules.len())
}

/// How the zone resolves change point `k` of a day schedule on `day`; point `pts.len()`
/// is the next day's midnight, where the last phase ends.
pub open spec fn point_resolution(
    zone: Seq<char>,
    day: (int, int, int),
    pts: Seq<(CivilTime, Phase)>,
    k: int,
) -> (int, int, int) {
    if k < pts.len() {
        resolution_of(zone, day, pts[k].0@)
    } else {
        resolution_of(zone, next_date(day.0, day.1, day.2), (0, 0, 0, 0))
    }
}

/// Where change point `k` of the day falls, never earlier than any point before it: the
/// latest placement among points `0..=k`.
pub open spec fn day_edge(zone: Seq<char>, day: (int, int, int), pts: Seq<(CivilTime, Phase)>, k: nat) -> int
    decreases k,
{
    if k == 0 {
        placed_at(point_resolution(zone, day, pts, 0))
    } else {
        max_int(
            day_edge(zone, day, pts, (k - 1) as nat),
            placed_at(point_resolution(zone, day, pts, k as int)),
        )
    }
}

/// The last change point among `0..=k` whose edge is not after `t` (point 0 when none).
pub open spec fn slot_upto(
    zone: Seq<char>,
    day: (int, int, int),
    pts: Seq<(CivilTime, Phase)>,
    t: int,
    k: nat,
) -> nat
    decreases k,
{
    if k == 0 {
        0
    } else if day_edge(zone, day, pts, k) <= t {
        k
    } else {
        slot_upto(zone, day, pts, t, (k - 1) as nat)
    }
}

/// Whether the day's edges place `t` inside the day: the day has a successor on the
/// calendar, and `t` lies from the day's first edge to before its last.
pub open spec fn day_places(zone: Seq<char>, day: (int, int, int), pts: Seq<(CivilTime, Phase)>, t: int) -> bool {
    &&& day != (9999int, 12int, 31int)
    &&& pts.len() > 0
    &&& day_edge(zone, day, pts, 0) <= t < day_edge(zone, day, pts, pts.len())
}

/// The boundary at change point `k` of the day, as an answer reports it.
pub open spec fn edge_boundary(
    zone: Seq<char>,
    day: (int, int, int),
    pts: Seq<(CivilTime, Phase)>,
    k: nat,
    published: Uncertainty,
) -> PhaseBoundary {
    PhaseBoundary {
        instant: instant_at(day_edge(zone, day, pts, k)),
        uncertainty: boundary_uncertainty_of(point_resolution(zone, day, pts, k as int), published),
    }
}

/// Edges never move backwards through the day.
pub proof fn lemma_day_edge_monotone(
    zone: Seq<char>,
    day: (int, int, int),
    pts: Seq<(CivilTime, Phase)>,
    j: nat,
    k: nat,
)
    requires
        j <= k,
    ensures
        day_edge(zone, day, pts, j) <= day_edge(zone, day, pts, k),
    decreases k - j,
{
    if j < k {
        lemma_day_edge_monotone(zone, day, pts, j, (k - 1) as nat);
    }
}

/// When the edges up to `k - 1` are not after `t` and edge `k` is, the slot of `t`
/// among any `m` points from `k - 1` on is `k - 1`.
proof fn lemma_slot_is_found(
    zone: Seq<char>,
    day: (int, int, int),
    pts: Seq<(CivilTime, Phase)>,
    t: int,
    k: nat,
    m: nat,
)
    requires
        k >= 1,
        k - 1 <= m,
        day_edge(zone, day, pts, (k - 1) as nat) <= t,
        day_edge(zone, day, pts, k) > t,
    ensures
        slot_upto(zone, day, pts, t, m) == k - 1,
    decreases m,
{
    if m > k - 1 {
        lemma_day_edge_monotone(zone, day, pts, k, m);
        lemma_slot_is_found(zone, day, pts, t, k, (m - 1) as nat);
    }
}

/// How the named zone resolves a wall-clock reading of `time` on `date`; an instant no
/// offset can place inside `jiff`'s range is the Unix epoch.
pub(crate) fn resolve_reading(zone: &str, date: CivilDate, time: CivilTime) -> (r: (u8, i128, i128))
    requires
        tz_known(zone@),
    ensures
        (r.0 as int, r.1 as int, r.2 as int) == resolution_of(zone@, date@, time@),
        r.0 <= 2,
{
    date.check_valid();
    time.check_valid();
    let found = local_resolution(
        zone,
        date.year(),
        date.month(),
        date.day(),
        time.hour(),
        time.minute(),
        time.second(),
        time.subsec_nanosecond(),
    );
    match found {
        Some((kind, a, b)) => {
            let first = match a {
                Some(x) => x,
                None => 0,
            };
            let second = match b {
                Some(x) => x,
                None => 0,
            };
            (kind, first, second)
        },
        None => {
            proof {
                assert(false);
            }
            (0, 0, 0)
        },
    }
}

/// The instant a resolved reading is placed on.
fn placement(res: (u8, i128, i128)) -> (r: i128)
    ensures
        r == placed_at((res.0 as int, res.1 as int, res.2 as int)),
{
    if res.0 == 1 && res.2 < res.1 {
        res.2
    } else {
        res.1
    }
}

/// The uncertainty of a boundary at a resolved reading, given the published one.
fn boundary_uncertainty(res: (u8, i128, i128), published: &Uncertainty) -> (r: Uncertainty)
    ensures
        r == boundary_uncertainty_of((res.0 as int, res.1 as int, res.2 as int), *published),
{
    if res.0 == 1 {
        let (earlier, later) = if res.2 < res.1 {
            (res.2, res.1)
        } else {
            (res.1, res.2)
        };
        Uncertainty::AmbiguousLocalTime {
            earlier: UtcInstant::from_nanos_since_unix_epoch(earlier),
            later: UtcInstant::from_nanos_since_unix_epoch(later),
        }
    } else if res.0 == 2 {
        Uncertainty::NonexistentLocalTime {
            as_if_before_shift: UtcInstant::from_nanos_since_unix_epoch(res.1),
            as_if_after_shift: UtcInstant::from_nanos_since_unix_epoch(res.2),
        }
    } else {
        published.duplicate()
    }
}

/// The index of the rule that governs `date`, or `None` when no rule applies.
fn governing_rule(rules: &Vec<Rule>, date: CivilDate) -> (r: Option<usize>)
    ensures
        r matches Some(i) ==> i == governing(rules@, date@) && i < rules@.len(),
        r is None <==> governing(rules@, date@) < 0,
{
    let mut best: Option<usize> = None;
    let mut best_precedence: u8 = 0;
    let mut i: usize = 0;
    while i < rules.len()
        invariant
            i <= rules@.len(),
            best matches Some(b) ==> b == governing_upto(rules@, date@, i as nat) && b < i
                && best_precedence == precedence_of(rules@[b as int].kind),
            best is None <==> governing_upto(rules@, date@, i as nat) < 0,
        decreases rules@.len() - i,
    {
        let rule = &rules[i];
        if rule.applies_on(date) {
            let p = rule.kind.precedence();
            let better = match best {
                None => true,
                Some(_) => p > best_precedence,
            };
            if better {
                best = Some(i);
                best_precedence = p;
            }
        }
        i = i + 1;
    }
    best
}

/// The governing rule applies on the day and no rule that applies outranks it; it is
/// absent only when no rule applies at all. Holidays and shortened sessions therefore win
/// over the weekly pattern on the days they name.
pub proof fn governing_rule_outranks_every_applying_rule(rules: Seq<Rule>, day: (int, int, int))
    ensures
        governing(rules, day) < 0 <==> forall|i: int|
            0 <= i < rules.len() ==> !applies_on_day(#[trigger] rules[i], day),
        governing(rules, day) >= 0 ==> governing(rules, day) < rules.len() && applies_on_day(
            rules[governing(rules, day)],
            day,
        ),
        governing(rules, day) >= 0 ==> forall|i: int|
            0 <= i < rules.len() && applies_on_day(#[trigger] rules[i], day) ==> precedence_of(
                rules[i].kind,
            ) <= precedence_of(rules[governing(rules, day)].kind),
{
    lemma_governing_upto(rules, day, rules.len());
}

proof fn lemma_governing_upto(rules: Seq<Rule>, day: (int, int, int), n: nat)
    requires
        n <= rules.len(),
    ensures
        governing_upto(rules, day, n) < 0 <==> forall|i: int|
            0 <= i < n ==> !applies_on_day(#[trigger] rules[i], day),
        governing_upto(rules, day, n) >= 0 ==> governing_upto(rules, day, n) < n && applies_on_day(
            rules[governing_upto(rules, day, n)],
            day,
        ),
        governing_upto(rules, day, n) >= 0 ==> forall|i: int|
            0 <= i < n && applies_on_day(#[trigger] rules[i], day) ==> precedence_of(rules[i].kind)
                <= precedence_of(rules[governing_upto(rules, day, n)].kind),
    decreases n,
{
    if n > 0 {
        lemma_governing_upto(rules, day, (n - 1) as nat);
    }
}

/// Where a day schedule puts the instant `at` on `date`: the change point whose stretch
/// holds it, with the boundaries of that stretch; `None` when the day's edges do not place
/// `at` inside the day.
fn day_slot(zone: &str, date: CivilDate, rule: &Rule, at: UtcInstant) -> (r: Option<
    (usize, PhaseBoundary, PhaseBoundary),
>)
    requires
        tz_known(zone@),
    ensures
        r is Some <==> day_places(zone@, date@, rule.schedule.points(), at.nanos()),
        r matches Some(found) ==> {
            let pts = rule.schedule.points();
            let s = slot_upto(zone@, date@, pts, at.nanos(), (pts.len() - 1) as nat);
            &&& found.0 == s
            &&& s < pts.len()
            &&& found.1.instant.nanos() <= at.nanos() < found.2.instant.nanos()
            &&& found.1 == edge_boundary(zone@, date@, pts, s, rule.boundary_uncertainty)
            &&& found.2 == edge_boundary(zone@, date@, pts, s + 1, rule.boundary_uncertainty)
        },
{
    let ghost pts = rule.schedule.points();
    let ghost t = at.nanos();
    let points = rule.schedule.change_points();
    let n = points.len();
    let next_day = match date.tomorrow() {
        Some(d) => d,
        None => return None,
    };
    let first = resolve_reading(zone, date, points[0].0);
    let mut edge = placement(first);
    if at.as_nanos_since_unix_epoch() < edge {
        return None;
    }
    let mut start = PhaseBoundary {
        instant: UtcInstant::from_nanos_since_unix_epoch(edge),
        uncertainty: boundary_uncertainty(first, &rule.boundary_uncertainty),
    };
    let mut k: usize = 1;
    while k < n
        invariant
            tz_known(zone@),
            n == pts.len(),
            pts == rule.schedule.points(),
            points@ == pts,
            t == at.nanos(),
            1 <= k <= n,
            next_day@ == next_date(date@.0, date@.1, date@.2),
            date@ != (9999int, 12int, 31int),
            edge == day_edge(zone@, date@, pts, (k - 1) as nat),
            edge <= t,
            day_edge(zone@, date@, pts, 0) <= t,
            start == edge_boundary(zone@, date@, pts, (k - 1) as nat, rule.boundary_uncertainty),
        decreases n - k,
    {
        let res = resolve_reading(zone, date, points[k].0);
        let placed = placement(res);
        let next_edge = if placed > edge {
            placed
        } else {
            edge
        };
        let boundary = PhaseBoundary {
            instant: UtcInstant::from_nanos_since_unix_epoch(next_edge),
            uncertainty: boundary_uncertainty(res, &rule.boundary_uncertainty),
        };
        if at.as_nanos_since_unix_epoch() < next_edge {
            proof {
                lemma_slot_is_found(zone@, date@, pts, t, k as nat, (n - 1) as nat);
                lemma_day_edge_monotone(zone@, date@, pts, k as nat, n as nat);
            }
            return Some((k - 1, start, boundary));
        }
        edge = next_edge;
        start = boundary;
        k = k + 1;
    }
    let res = resolve_reading(zone, next_day, CivilTime::midnight());
    let placed = placement(res);
    let last_edge = if placed > edge {
        placed
    } else {
        edge
    };
    if at.as_nanos_since_unix_epoch() < last_edge {
        let boundary = PhaseBoundary {
            instant: UtcInstant::from_nanos_since_unix_epoch(last_edge),
            uncertainty: boundary_uncertainty(res, &rule.boundary_uncertainty),
        };
        proof {
            lemma_slot_is_found(zone@, date@, pts, t, n as nat, (n - 1) as nat);
        }
        return Some((n - 1, start, boundary));
    }
    None
}

/// The occurrences that event rule `e`, number `idx` among the venue's event rules,
/// produces on `day` from its first `k` times, keeping those whose instants lie in
/// `[lo, hi)`: `(instant, rule number)` pairs in the order of the rule's times.
pub open spec fn rule_occurrences(
    zone: Seq<char>,
    day: (int, int, int),
    e: EventRule,
    idx: int,
    lo: int,
    hi: int,
    k: nat,
) -> Seq<(int, int)>
    decreases k,
{
    if k == 0 {
        Seq::empty()
    } else {
        let before = rule_occurrences(zone, day, e, idx, lo, hi, (k - 1) as nat);
        let at = placed_at(resolution_of(zone, day, e.times@[k - 1]@));
        if lo <= at < hi {
            before.push((at, idx))
        } else {
            before
        }
    }
}

/// Whether an event rule is in force on `day`.
pub open spec fn event_in_force(e: EventRule, day: (int, int, int)) -> bool {
    e.applies.start.ordinal() <= date_ordinal(day.0, day.1, day.2) <= e.applies.end.ordinal()
}

/// The occurrences the first `n` event rules produce on `day` inside `[lo, hi)`, rule by
/// rule.
pub open spec fn day_occurrences(
    zone: Seq<char>,
    day: (int, int, int),
    events: Seq<EventRule>,
    lo: int,
    hi: int,
    n: nat,
) -> Seq<(int, int)>
    decreases n,
{
    if n == 0 {
        Seq::empty()
    } else {
        let before = day_occurrences(zone, day, events, lo, hi, (n - 1) as nat);
        let e = events[n - 1];
        if event_in_force(e, day) {
            before + rule_occurrences(zone, day, e, n - 1, lo, hi, e.times@.len())
        } else {
            before
        }
    }
}

/// An occurrence reports the rule it came from: its kind, its uncertainty unchanged, and
/// its evidence.
pub open spec fn occurrence_matches(o: EventOccurrence, found: (int, int), events: Seq<EventRule>) -> bool {
    let e = events[found.1];
    &&& o.kind == e.kind
    &&& o.instant.nanos() == found.0
    &&& o.uncertainty == e.uncertainty
    &&& o.evidence@ == seq![e.evidence]
}

/// `s` with `x` appended, unless `s` already holds it.
pub open spec fn push_new(s: Seq<Seq<char>>, x: Seq<char>) -> Seq<Seq<char>> {
    if s.contains(x) {
        s
    } else {
        s.push(x)
    }
}

/// The identifiers of a list of revision identifiers, as text.
pub open spec fn id_views(ids: Seq<DatasetRevisionId>) -> Seq<Seq<char>> {
    ids.map_values(|i: DatasetRevisionId| i@)
}

/// `start`, followed by the revision of each occurrence's rule that is not yet listed.
pub open spec fn revisions_with(
    start: Seq<Seq<char>>,
    found: Seq<(int, int)>,
    events: Seq<EventRule>,
) -> Seq<Seq<char>>
    decreases found.len(),
{
    if found.len() == 0 {
        start
    } else {
        push_new(
            revisions_with(start, found.drop_last(), events),
            events[found.last().1].revision@,
        )
    }
}

/// Adds a revision identifier to a list unless it is already there.
fn add_revision(ids: &mut Vec<DatasetRevisionId>, id: &DatasetRevisionId)
    ensures
        id_views(final(ids)@) == push_new(id_views(old(ids)@), id@),
{
    let ghost before = id_views(ids@);
    let mut j: usize = 0;
    while j < ids.len()
        invariant
            j <= ids@.len(),
            before == id_views(ids@),
            forall|m: int| 0 <= m < j ==> before[m] != id@,
        decreases ids@.len() - j,
    {
        if ids[j].same_as(id) {
            assert(before[j as int] == id@);
            return;
        }
        j = j + 1;
    }
    ids.push(id.duplicate());
    proof {
        assert(!before.contains(id@));
        assert(id_views(ids@) =~= before.push(id@));
    }
}

/// The occurrences the venue's event rules produce on `date` inside `[lo, hi)`, adding
/// each contributing rule's revision to `revisions`.
fn occurrences_within(
    zone: &str,
    date: CivilDate,
    events: &Vec<EventRule>,
    lo: i128,
    hi: i128,
    revisions: &mut Vec<DatasetRevisionId>,
) -> (r: Vec<EventOccurrence>)
    requires
        tz_known(zone@),
    ensures
        r@.len() == day_occurrences(zone@, date@, events@, lo as int, hi as int, events@.len()).len(),
        forall|i: int|
            0 <= i < r@.len() ==> occurrence_matches(
                #[trigger] r@[i],
                day_occurrences(zone@, date@, events@, lo as int, hi as int, events@.len())[i],
                events@,
            ),
        id_views(final(revisions)@) == revisions_with(
            id_views(old(revisions)@),
            day_occurrences(zone@, date@, events@, lo as int, hi as int, events@.len()),
            events@,
        ),
{
    let ghost start = id_views(revisions@);
    let mut out: Vec<EventOccurrence> = Vec::new();
    let mut i: usize = 0;
    while i < events.len()
        invariant
            i <= events@.len(),
            tz_known(zone@),
            start == id_views(old(revisions)@),
            out@.len() == day_occurrences(zone@, date@, events@, lo as int, hi as int, i as nat).len(),
            forall|m: int|
                0 <= m < out@.len() ==> occurrence_matches(
                    #[trigger] out@[m],
                    day_occurrences(zone@, date@, events@, lo as int, hi as int, i as nat)[m],
                    events@,
                ),
            id_views(revisions@) == revisions_with(
                start,
                day_occurrences(zone@, date@, events@, lo as int, hi as int, i as nat),
                events@,
            ),
        decreases events@.len() - i,
    {
        let e = &events[i];
        let ghost before = day_occurrences(zone@, date@, events@, lo as int, hi as int, i as nat);
        if e.applies.contains(date) {
            let mut k: usize = 0;
            while k < e.times.len()
                invariant
                    k <= e.times@.len(),
                    tz_known(zone@),
                    i < events@.len(),
                    *e == events@[i as int],
                    start == id_views(old(revisions)@),
                    before == day_occurrences(zone@, date@, events@, lo as int, hi as int, i as nat),
                    out@.len() == before.len() + rule_occurrences(
                        zone@,
                        date@,
                        *e,
                        i as int,
                        lo as int,
                        hi as int,
                        k as nat,
                    ).len(),
                    forall|m: int|
                        0 <= m < out@.len() ==> occurrence_matches(
                            #[trigger] out@[m],
                            (before + rule_occurrences(
                                zone@,
                                date@,
                                *e,
                                i as int,
                                lo as int,
                                hi as int,
                                k as nat,
                            ))[m],
                            events@,
                        ),
                    id_views(revisions@) == revisions_with(
                        start,
                        before + rule_occurrences(
                            zone@,
                            date@,
                            *e,
                            i as int,
                            lo as int,
                            hi as int,
                            k as nat,
                        ),
                        events@,
                    ),
                decreases e.times@.len() - k,
            {
                let ghost so_far = before + rule_occurrences(
                    zone@,
                    date@,
                    *e,
                    i as int,
                    lo as int,
                    hi as int,
                    k as nat,
                );
                let res = resolve_reading(zone, date, e.times[k]);
                let at = placement(res);
                if lo <= at && at < hi {
                    let mut evidence: Vec<EvidenceRef> = Vec::new();
                    evidence.push(e.evidence.duplicate());
                    out.push(
                        EventOccurrence {
                            kind: e.kind,
                            instant: UtcInstant::from_nanos_since_unix_epoch(at),
                            uncertainty: e.uncertainty.duplicate(),
                            evidence,
                        },
                    );
                    add_revision(revisions, &e.revision);
                    proof {
                        let next = before + rule_occurrences(
                            zone@,
                            date@,
                            *e,
                            i as int,
                            lo as int,
                            hi as int,
                            (k + 1) as nat,
                        );
                        assert(next =~= so_far.push((at as int, i as int)));
                        assert(next.drop_last() =~= so_far);
                        assert(evidence@ =~= seq![e.evidence]);
                    }
                } else {
                    proof {
                        let next = before + rule_occurrences(
                            zone@,
                            date@,
                            *e,
                            i as int,
                            lo as int,
                            hi as int,
                            (k + 1) as nat,
                        );
                        assert(next =~= so_far);
                    }
                }
                k = k + 1;
            }
        }
        i = i + 1;
    }
    out
}

/// The entry a ruleset holds for `venue`, if it holds one.
pub open spec fn venue_entry(rs: Ruleset, venue: Seq<char>) -> Option<VenueRuleset> {
    if exists|k: int| 0 <= k < rs.venue_list().len() && (#[trigger] rs.venue_list()[k]).venue@ == venue {
        Some(
            rs.venue_list()[choose|k: int|
                0 <= k < rs.venue_list().len() && (#[trigger] rs.venue_list()[k]).venue@ == venue],
        )
    } else {
        None
    }
}

/// The rule that governs the venue-local date of `t`.
pub open spec fn governing_rule_at(v: VenueRuleset, t: int) -> Rule {
    v.rules@[governing(v.rules@, local_date_at(v.home_zone@, t))]
}

/// Whether the venue's data answers for the instant: it lies inside coverage, a rule
/// governs its venue-local date, and that day's edges place it inside the day.
pub open spec fn answerable(v: VenueRuleset, at: UtcInstant) -> bool {
    let day = local_date_at(v.home_zone@, at.nanos());
    &&& v.coverage.spec_interval().spec_contains(at)
    &&& governing(v.rules@, day) >= 0
    &&& day_places(v.home_zone@, day, governing_rule_at(v, at.nanos()).schedule.points(), at.nanos())
}

/// The slot of `t` in the schedule of the rule that governs its date.
pub open spec fn slot_at(v: VenueRuleset, t: int) -> nat {
    let pts = governing_rule_at(v, t).schedule.points();
    slot_upto(v.home_zone@, local_date_at(v.home_zone@, t), pts, t, (pts.len() - 1) as nat)
}

/// The boundary at change point `k` of the schedule governing the date of `t`.
pub open spec fn boundary_at(v: VenueRuleset, t: int, k: nat) -> PhaseBoundary {
    let rule = governing_rule_at(v, t);
    edge_boundary(
        v.home_zone@,
        local_date_at(v.home_zone@, t),
        rule.schedule.points(),
        k,
        rule.boundary_uncertainty,
    )
}

/// The event occurrences inside the stretch that holds `t`.
pub open spec fn occurrences_at(v: VenueRuleset, t: int) -> Seq<(int, int)> {
    day_occurrences(
        v.home_zone@,
        local_date_at(v.home_zone@, t),
        v.events@,
        boundary_at(v, t, slot_at(v, t)).instant.nanos(),
        boundary_at(v, t, slot_at(v, t) + 1).instant.nanos(),
        v.events@.len(),
    )
}

/// `a` is the answer the venue's data gives at `t`: the phase of the governing rule's
/// stretch that holds `t`, its two boundaries, the answer-level uncertainty as the wider
/// of theirs, the rule's category, label, evidence and reasoning, the events scheduled
/// inside the stretch, and the revisions behind all of it.
pub open spec fn answers(a: PhaseAnswer, venue: Seq<char>, v: VenueRuleset, t: int) -> bool {
    let rule = governing_rule_at(v, t);
    let s = slot_at(v, t);
    let start = boundary_at(v, t, s);
    let end = boundary_at(v, t, s + 1);
    let found = occurrences_at(v, t);
    &&& a.venue@ == venue
    &&& a.phase == rule.schedule.points()[s as int].1
    &&& a.calendar_rule_kind@ == kind_text(rule.kind)
    &&& a.calendar_label@ == kind_label(rule.kind)
    &&& a.boundary_start == start
    &&& a.boundary_end == end
    &&& a.uncertainty == widest_of(start.uncertainty, end.uncertainty)
    &&& a.evidence@ == seq![rule.evidence]
    &&& (match rule.derived {
        Some(note) => a.derived_reasoning matches Some(text) && text@ == note.spec_reasoning(),
        None => a.derived_reasoning is None,
    })
    &&& a.events@.len() == found.len()
    &&& forall|i: int|
        0 <= i < found.len() ==> occurrence_matches(#[trigger] a.events@[i], found[i], v.events@)
    &&& id_views(a.dataset_revisions@) == revisions_with(seq![rule.revision@], found, v.events@)
}

/// The revisions the first `n` rules cite, each once, in the order first cited.
pub open spec fn rule_revisions(rules: Seq<Rule>, n: nat) -> Seq<Seq<char>>
    decreases n,
{
    if n == 0 || n > rules.len() {
        Seq::empty()
    } else {
        push_new(rule_revisions(rules, (n - 1) as nat), rules[n - 1].revision@)
    }
}

/// The revisions behind a venue's schedules: those its rules cite, each once, in the order
/// first cited.
pub open spec fn venue_revisions(v: VenueRuleset) -> Seq<Seq<char>> {
    rule_revisions(v.rules@, v.rules@.len())
}

/// A coverage gap reports the venue, the instant, the declaration it fell outside, and
/// the revisions behind the answer it could not give: those behind the venue's schedules
/// for a venue the ruleset holds, and every revision the ruleset holds otherwise.
pub open spec fn gap_reports(
    gap: CoverageGap,
    venue: Seq<char>,
    at: UtcInstant,
    coverage: Option<CoverageRange>,
    rs: Ruleset,
) -> bool {
    &&& gap.venue@ == venue
    &&& gap.queried_at == at
    &&& gap.coverage == coverage
    &&& id_views(gap.dataset_revisions@) == match venue_entry(rs, venue) {
        Some(v) => venue_revisions(v),
        None => revision_ids_of(rs.revision_list()),
    }
}

/// `o` is what the ruleset answers for `venue` at `at`: an unknown without coverage for a
/// venue it does not hold; the venue's answer where its data answers; otherwise an
/// unknown naming the venue's coverage.
pub open spec fn outcome_for(o: PhaseOutcome, at: UtcInstant, venue: Seq<char>, rs: Ruleset) -> bool {
    match venue_entry(rs, venue) {
        None => o matches PhaseOutcome::Unknown(gap) && gap_reports(*gap, venue, at, None, rs),
        Some(v) => if answerable(v, at) {
            o matches PhaseOutcome::Known(a) && answers(*a, venue, v, at.nanos())
                && a.boundary_start.instant.nanos() <= at.nanos() < a.boundary_end.instant.nanos()
        } else {
            o matches PhaseOutcome::Unknown(gap) && gap_reports(
                *gap,
                venue,
                at,
                Some(v.coverage),
                rs,
            )
        },
    }
}

/// The phase the ruleset answers for `venue` at `at`, or `None` for an unknown.
pub open spec fn phase_at(at: UtcInstant, venue: Seq<char>, rs: Ruleset) -> Option<Phase> {
    match venue_entry(rs, venue) {
        Some(v) => if answerable(v, at) {
            Some(governing_rule_at(v, at.nanos()).schedule.points()[slot_at(v, at.nanos()) as int].1)
        } else {
            None
        },
        None => None,
    }
}

/// An outcome's phase is the ruleset's phase at that instant, and an unknown outcome
/// carries no phase: an unknown is never read as a closed market.
pub proof fn an_outcome_carries_the_phase_at_its_instant(
    o: PhaseOutcome,
    at: UtcInstant,
    venue: Seq<char>,
    rs: Ruleset,
)
    requires
        outcome_for(o, at, venue, rs),
    ensures
        (match o {
            PhaseOutcome::Known(a) => Some(a.phase),
            PhaseOutcome::Unknown(_) => None,
        }) == phase_at(at, venue, rs),
        (o is Unknown) <==> phase_at(at, venue, rs) is None,
{
}

/// Outside a venue's declared coverage, and for a venue the ruleset does not hold, the
/// answer is unknown: a schedule is never extrapolated past the data.
pub proof fn outside_coverage_nothing_is_known(at: UtcInstant, venue: Seq<char>, rs: Ruleset)
    requires
        match venue_entry(rs, venue) {
            Some(v) => !v.coverage.spec_interval().spec_contains(at),
            None => true,
        },
    ensures
        phase_at(at, venue, rs) is None,
{
}

/// A known answer's uncertainty is never narrower than either of its boundaries'.
pub proof fn an_answer_is_never_narrower_than_its_boundaries(
    o: PhaseOutcome,
    at: UtcInstant,
    venue: Seq<char>,
    rs: Ruleset,
)
    requires
        outcome_for(o, at, venue, rs),
    ensures
        o matches PhaseOutcome::Known(a) ==> at_least_as_wide(
            a.uncertainty,
            a.boundary_start.uncertainty,
        ) && at_least_as_wide(a.uncertainty, a.boundary_end.uncertainty),
{
    if let PhaseOutcome::Known(a) = o {
        widest_never_narrows(a.boundary_start.uncertainty, a.boundary_end.uncertainty);
    }
}

/// The entry `Ruleset::venue` returns is the ruleset's entry for that venue.
proof fn lemma_entry_is_unique(rs: Ruleset, venue: Seq<char>, v: VenueRuleset)
    requires
        distinct_venues(rs.venue_list()),
        exists|k: int|
            0 <= k < rs.venue_list().len() && rs.venue_list()[k] == v && v.venue@ == venue,
    ensures
        venue_entry(rs, venue) == Some(v),
{
    let k = choose|k: int|
        0 <= k < rs.venue_list().len() && rs.venue_list()[k] == v && v.venue@ == venue;
    assert(rs.venue_list()[k].venue@ == venue);
    let c = choose|c: int|
        0 <= c < rs.venue_list().len() && (#[trigger] rs.venue_list()[c]).venue@ == venue;
    if c < k {
        assert(rs.venue_list()[c].venue@ != rs.venue_list()[k].venue@);
    } else if k < c {
        assert(rs.venue_list()[k].venue@ != rs.venue_list()[c].venue@);
    }
}

/// The venue's answer at `at`, when its data answers for that instant.
fn known_answer(at: UtcInstant, venue: &VenueId, v: &VenueRuleset) -> (r: Option<PhaseAnswer>)
    requires
        tz_known(v.home_zone@),
    ensures
        r is Some <==> answerable(*v, at),
        r matches Some(a) ==> answers(a, venue@, *v, at.nanos()),
        r matches Some(a) ==> a.boundary_start.instant.nanos() <= at.nanos()
            < a.boundary_end.instant.nanos(),
{
    if !v.coverage.contains(at) {
        return None;
    }
    let zone = v.home_zone.as_str();
    let (date, _) = local_reading(zone, at);
    let index = match governing_rule(&v.rules, date) {
        Some(i) => i,
        None => return None,
    };
    let rule = &v.rules[index];
    let (slot, start, end) = match day_slot(zone, date, rule, at) {
        Some(found) => found,
        None => return None,
    };
    let points = rule.schedule.change_points();
    let phase = points[slot].1;
    let mut revisions: Vec<DatasetRevisionId> = Vec::new();
    revisions.push(rule.revision.duplicate());
    proof {
        assert(id_views(revisions@) =~= seq![rule.revision@]);
    }
    let events = occurrences_within(
        zone,
        date,
        &v.events,
        start.instant.as_nanos_since_unix_epoch(),
        end.instant.as_nanos_since_unix_epoch(),
        &mut revisions,
    );
    let mut evidence: Vec<EvidenceRef> = Vec::new();
    evidence.push(rule.evidence.duplicate());
    proof {
        assert(evidence@ =~= seq![rule.evidence]);
    }
    let derived_reasoning = match &rule.derived {
        Some(note) => Some(String::from_str(note.reasoning())),
        None => None,
    };
    let uncertainty = start.uncertainty.duplicate().widest(end.uncertainty.duplicate());
    Some(
        PhaseAnswer {
            venue: venue.duplicate(),
            phase,
            calendar_rule_kind: String::from_str(rule.kind.kind_str()),
            calendar_label: String::from_str(rule.kind.label()),
            boundary_start: start,
            boundary_end: end,
            events,
            evidence,
            derived_reasoning,
            uncertainty,
            dataset_revisions: revisions,
        },
    )
}

/// A gap naming `coverage`, reporting every revision the ruleset holds.
fn gap(at: UtcInstant, venue: &VenueId, entry: Option<&VenueRuleset>, ruleset: &Ruleset) -> (r: CoverageGap)
    requires
        venue_entry(*ruleset, venue@) == (match entry {
            Some(v) => Some(*v),
            None => None,
        }),
    ensures
        gap_reports(
            r,
            venue@,
            at,
            match entry {
                Some(v) => Some(v.coverage),
                None => None,
            },
            *ruleset,
        ),
{
    match entry {
        None => {
            let dataset_revisions = ruleset.revision_ids();
            proof {
                assert(id_views(dataset_revisions@) =~= revision_ids_of(ruleset.revision_list()));
            }
            CoverageGap { venue: venue.duplicate(), queried_at: at, coverage: None, dataset_revisions }
        },
        Some(v) => {
            let mut dataset_revisions: Vec<DatasetRevisionId> = Vec::new();
            let mut i: usize = 0;
            proof {
                assert(id_views(dataset_revisions@) =~= Seq::<Seq<char>>::empty());
            }
            while i < v.rules.len()
                invariant
                    i <= v.rules@.len(),
                    id_views(dataset_revisions@) == rule_revisions(v.rules@, i as nat),
                decreases v.rules@.len() - i,
            {
                add_revision(&mut dataset_revisions, &v.rules[i].revision);
                i = i + 1;
            }
            CoverageGap { venue: venue.duplicate(), queried_at: at, coverage: Some(v.coverage), dataset_revisions }
        },
    }
}

/// Resolves one venue's phase at one explicit UTC instant.
///
/// Total: a venue the ruleset does not hold, an instant outside the venue's coverage, or
/// an instant its data cannot place is an ordinary `Unknown`, never an error and never a
/// closed market.
pub fn resolve_phase(at: UtcInstant, venue: &VenueId, ruleset: &Ruleset) -> (r: PhaseOutcome)
    ensures
        outcome_for(r, at, venue@, *ruleset),
{
    ruleset.check_invariant();
    match ruleset.venue(venue) {
        None => PhaseOutcome::Unknown(Box::new(gap(at, venue, None, ruleset))),
        Some(v) => {
            proof {
                lemma_entry_is_unique(*ruleset, venue@, *v);
            }
            match known_answer(at, venue, v) {
                Some(answer) => PhaseOutcome::Known(Box::new(answer)),
                None => PhaseOutcome::Unknown(Box::new(gap(at, venue, Some(v), ruleset))),
            }
        },
    }
}

/// Resolves several venues at one shared instant: one outcome per requested venue, in
/// the order requested. One venue's unknown does not void the others.
pub fn resolve_phases(at: UtcInstant, venues: &[VenueId], ruleset: &Ruleset) -> (r: Vec<VenueOutcome>)
    ensures
        r@.len() == venues@.len(),
        forall|i: int|
            0 <= i < r@.len() ==> (#[trigger] r@[i]).venue@ == venues@[i]@ && outcome_for(
                r@[i].outcome,
                at,
                venues@[i]@,
                *ruleset,
            ),
{
    let mut out: Vec<VenueOutcome> = Vec::new();
    let mut i: usize = 0;
    while i < venues.len()
        invariant
            i <= venues@.len(),
            out@.len() == i,
            forall|k: int|
                0 <= k < i ==> (#[trigger] out@[k]).venue@ == venues@[k]@ && outcome_for(
                    out@[k].outcome,
                    at,
                    venues@[k]@,
                    *ruleset,
                ),
        decreases venues@.len() - i,
    {
        let outcome = resolve_phase(at, &venues[i], ruleset);
        out.push(VenueOutcome { venue: venues[i].duplicate(), outcome });
        i = i + 1;
    }
    out
}

/// What a timeline segment reports: it is a run of stretches, each vouched for as the
/// segment's phase (or as unknown) by the answer at its own start; it is non-empty; a phase
/// segment starts where the ruleset answers that phase, lies inside the venue's coverage and inside its answer's
/// boundaries, and its answer is never narrower than either boundary; an unknown segment
/// starts where the ruleset answers unknown and names the venue's coverage.
pub open spec fn segment_reports(seg: TimelineSegment, venue: Seq<char>, rs: Ruleset) -> bool {
    &&& exists|cuts: Seq<UtcInstant>| run_of(cuts, segment_interval(seg), segment_phase(seg), venue, rs)
    &&& match seg {
        TimelineSegment::Phase { interval, answer } => {
            &&& interval.wf()
            &&& phase_at(interval.start, venue, rs) == Some(answer.phase)
            &&& answer.venue@ == venue
            &&& venue_entry(rs, venue) matches Some(v) && v.coverage.spec_interval().start.nanos()
                <= interval.start.nanos() && interval.end.nanos()
                <= v.coverage.spec_interval().end.nanos()
            &&& answer.boundary_start.instant.nanos() <= interval.start.nanos()
            &&& interval.end.nanos() <= answer.boundary_end.instant.nanos()
            &&& at_least_as_wide(answer.uncertainty, answer.boundary_start.uncertainty)
            &&& at_least_as_wide(answer.uncertainty, answer.boundary_end.uncertainty)
        },
        TimelineSegment::Unknown { interval, gap } => {
            &&& interval.wf()
            &&& phase_at(interval.start, venue, rs) is None
            &&& gap_reports(*gap, venue, interval.start, coverage_of(venue_entry(rs, venue)), rs)
        },
    }
}

/// Where the answer at `at` stops vouching for its phase: the end of the stretch of the
/// governing schedule that holds `at`.
pub open spec fn answered_end(at: UtcInstant, venue: Seq<char>, rs: Ruleset) -> int {
    match venue_entry(rs, venue) {
        Some(v) => boundary_at(v, at.nanos(), slot_at(v, at.nanos()) + 1).instant.nanos(),
        None => at.nanos(),
    }
}

/// How far an unknown at `at` may run: before coverage, up to its start; inside it, up
/// to its end; after it, or for a venue the ruleset does not hold, without bound.
pub open spec fn unknown_reaches(at: UtcInstant, to: UtcInstant, venue: Seq<char>, rs: Ruleset) -> bool {
    match venue_entry(rs, venue) {
        None => true,
        Some(v) => {
            let cov = v.coverage.spec_interval();
            if at.nanos() < cov.start.nanos() {
                to.nanos() <= cov.start.nanos()
            } else if at.nanos() < cov.end.nanos() {
                to.nanos() <= cov.end.nanos()
            } else {
                true
            }
        },
    }
}

/// The stretch `[from, to)` is vouched for as `phase` by the answer at `from`.
pub open spec fn stretch_holds(
    from: UtcInstant,
    to: UtcInstant,
    phase: Option<Phase>,
    venue: Seq<char>,
    rs: Ruleset,
) -> bool {
    &&& from.nanos() < to.nanos()
    &&& phase_at(from, venue, rs) == phase
    &&& match phase {
        Some(_) => to.nanos() <= answered_end(from, venue, rs),
        None => unknown_reaches(from, to, venue, rs),
    }
}

/// `cuts` splits `interval` into stretches, each vouched for as `phase` by the answer at
/// its own start.
pub open spec fn run_of(
    cuts: Seq<UtcInstant>,
    interval: Interval,
    phase: Option<Phase>,
    venue: Seq<char>,
    rs: Ruleset,
) -> bool {
    &&& cuts.len() >= 2
    &&& cuts[0] == interval.start
    &&& cuts[cuts.len() - 1] == interval.end
    &&& forall|i: int|
        0 <= i < cuts.len() - 1 ==> #[trigger] stretch_holds(cuts[i], cuts[i + 1], phase, venue, rs)
}

/// Two runs of one phase that meet make one run over both.
proof fn lemma_runs_join(
    a: Seq<UtcInstant>,
    b: Seq<UtcInstant>,
    first: Interval,
    next: Interval,
    phase: Option<Phase>,
    venue: Seq<char>,
    rs: Ruleset,
)
    requires
        run_of(a, first, phase, venue, rs),
        run_of(b, next, phase, venue, rs),
        first.end == next.start,
    ensures
        run_of(a + b.subrange(1, b.len() as int), Interval { start: first.start, end: next.end }, phase, venue, rs),
{
    let c = a + b.subrange(1, b.len() as int);
    let n = a.len() as int;
    assert forall|i: int| 0 <= i < c.len() - 1 implies #[trigger] stretch_holds(
        c[i],
        c[i + 1],
        phase,
        venue,
        rs,
    ) by {
        if i < n - 1 {
            assert(c[i] == a[i]);
            assert(c[i + 1] == a[i + 1]);
        } else {
            let j = i - n + 1;
            assert(c[i] == b[j]);
            assert(c[i + 1] == b[j + 1]);
            assert(stretch_holds(b[j], b[j + 1], phase, venue, rs));
        }
    }
}

/// A segment that is one vouched-for stretch is a run.
proof fn lemma_single_stretch_run(seg: TimelineSegment, venue: Seq<char>, rs: Ruleset)
    requires
        stretch_holds(segment_interval(seg).start, segment_interval(seg).end, segment_phase(seg), venue, rs),
    ensures
        exists|cuts: Seq<UtcInstant>| run_of(cuts, segment_interval(seg), segment_phase(seg), venue, rs),
{
    let w = seq![segment_interval(seg).start, segment_interval(seg).end];
    assert(w[0] == segment_interval(seg).start && w[1] == segment_interval(seg).end);
    assert(run_of(w, segment_interval(seg), segment_phase(seg), venue, rs));
}

/// The coverage of a venue entry, `None` without one.
pub open spec fn coverage_of(entry: Option<VenueRuleset>) -> Option<CoverageRange> {
    match entry {
        Some(v) => Some(v.coverage),
        None => None,
    }
}

/// Neighbouring segments never share a phase, nor are both unknown: identical stretches
/// join rather than showing a boundary at each midnight.
pub open spec fn neighbours_differ(segs: Seq<TimelineSegment>) -> bool {
    forall|i: int|
        0 <= i < segs.len() - 1 ==> segment_phase(#[trigger] segs[i]) != segment_phase(segs[i + 1])
}

/// Joins the answer for a following stretch of the same phase onto `first`.
fn join_answers(first: PhaseAnswer, next: PhaseAnswer) -> (r: PhaseAnswer)
    ensures
        r.venue == first.venue,
        r.phase == first.phase,
        r.boundary_start == first.boundary_start,
        r.boundary_end == next.boundary_end,
        r.uncertainty == widest_of(first.boundary_start.uncertainty, next.boundary_end.uncertainty),
        r.events@ == first.events@ + next.events@,
{
    let mut joined = first;
    let mut events = next.events;
    joined.events.append(&mut events);
    let mut i: usize = 0;
    while i < next.evidence.len()
        invariant
            i <= next.evidence@.len(),
            joined.venue == first.venue,
            joined.phase == first.phase,
            joined.boundary_start == first.boundary_start,
            joined.events@ == first.events@ + next.events@,
        decreases next.evidence@.len() - i,
    {
        add_evidence(&mut joined.evidence, &next.evidence[i]);
        i = i + 1;
    }
    let mut j: usize = 0;
    while j < next.dataset_revisions.len()
        invariant
            j <= next.dataset_revisions@.len(),
            joined.venue == first.venue,
            joined.phase == first.phase,
            joined.boundary_start == first.boundary_start,
            joined.events@ == first.events@ + next.events@,
        decreases next.dataset_revisions@.len() - j,
    {
        add_revision(&mut joined.dataset_revisions, &next.dataset_revisions[j]);
        j = j + 1;
    }
    joined.uncertainty = joined.boundary_start.uncertainty.duplicate().widest(
        next.boundary_end.uncertainty.duplicate(),
    );
    joined.boundary_end = next.boundary_end;
    joined
}

/// Adds an evidence reference to a list unless one with the same source is already there.
fn add_evidence(list: &mut Vec<EvidenceRef>, evidence: &EvidenceRef)
    ensures
        forall|k: int| 0 <= k < old(list)@.len() ==> final(list)@[k] == old(list)@[k],
        final(list)@.len() >= old(list)@.len(),
        exists|k: int|
            0 <= k < final(list)@.len() && (#[trigger] final(list)@[k]).spec_source_url()
                == evidence.spec_source_url(),
{
    let mut j: usize = 0;
    while j < list.len()
        invariant
            j <= list@.len(),
            list@ == old(list)@,
        decreases list@.len() - j,
    {
        if text_eq(list[j].source_url(), evidence.source_url()) {
            return;
        }
        j = j + 1;
    }
    list.push(evidence.duplicate());
    assert(list@[list@.len() - 1] == *evidence);
}

/// The timeline so far: its segments chain from `start` to `cursor`, each reports what
/// it should, and neighbours differ.
pub open spec fn timeline_so_far(
    segs: Seq<TimelineSegment>,
    start: UtcInstant,
    cursor: UtcInstant,
    venue: Seq<char>,
    rs: Ruleset,
) -> bool {
    &&& chains(start, cursor, segment_intervals(segs))
    &&& forall|i: int| 0 <= i < segs.len() ==> segment_reports(#[trigger] segs[i], venue, rs)
    &&& neighbours_differ(segs)
}

/// Appends a segment starting at the cursor, joining it onto the last one when the two
/// carry the same phase or are both unknown.
#[verifier::spinoff_prover]
#[verifier::rlimit(40)]
fn push_segment(
    segs: &mut Vec<TimelineSegment>,
    seg: TimelineSegment,
    Ghost(start): Ghost<UtcInstant>,
    Ghost(venue): Ghost<Seq<char>>,
    Ghost(rs): Ghost<Ruleset>,
)
    requires
        timeline_so_far(old(segs)@, start, segment_interval(seg).start, venue, rs),
        segment_reports(seg, venue, rs),
    ensures
        timeline_so_far(final(segs)@, start, segment_interval(seg).end, venue, rs),
{
    let ghost before = segs@;
    let n = segs.len();
    if n > 0 {
        let same = match (&segs[n - 1], &seg) {
            (TimelineSegment::Phase { answer: a, .. }, TimelineSegment::Phase { answer: b, .. }) =>
                a.phase == b.phase,
            (TimelineSegment::Unknown { .. }, TimelineSegment::Unknown { .. }) => true,
            _ => false,
        };
        if same {
            let last = match segs.pop() {
                Some(l) => l,
                None => return,
            };
            proof {
                assert(segs@ =~= before.drop_last());
                assert(last == before[n - 1]);
            }
            let joined = match seg {
                TimelineSegment::Phase { interval: next, answer: b } => match last {
                    TimelineSegment::Phase { interval: first, answer: a } => TimelineSegment::Phase {
                        interval: Interval { start: first.start, end: next.end },
                        answer: Box::new(join_answers(*a, *b)),
                    },
                    TimelineSegment::Unknown { .. } => {
                        proof {
                            assert(false);
                        }
                        return;
                    },
                },
                TimelineSegment::Unknown { interval: next, .. } => match last {
                    TimelineSegment::Unknown { interval: first, gap } => TimelineSegment::Unknown {
                        interval: Interval { start: first.start, end: next.end },
                        gap,
                    },
                    TimelineSegment::Phase { .. } => {
                        proof {
                            assert(false);
                        }
                        return;
                    },
                },
            };
            proof {
                let first = segment_interval(last);
                let next = segment_interval(seg);
                let ph = segment_phase(seg);
                let a = choose|cuts: Seq<UtcInstant>| run_of(cuts, first, ph, venue, rs);
                let b = choose|cuts: Seq<UtcInstant>| run_of(cuts, next, ph, venue, rs);
                assert(first.end == next.start) by {
                    let ivs = segment_intervals(before);
                    assert(ivs[n - 1] == first);
                }
                lemma_runs_join(a, b, first, next, ph, venue, rs);
                assert(segment_interval(joined) == Interval { start: first.start, end: next.end });
                assert(run_of(a + b.subrange(1, b.len() as int), segment_interval(joined), segment_phase(joined), venue, rs));
            }
            segs.push(joined);
            proof {
                let ivs = segment_intervals(segs@);
                let old_ivs = segment_intervals(before);
                assert(segs@ =~= before.drop_last().push(joined));
                assert(forall|i: int| 0 <= i < n - 1 ==> ivs[i] == old_ivs[i]);
                assert(segment_phase(joined) == segment_phase(before[n - 1]));
                assert forall|i: int| 0 <= i < segs@.len() implies segment_reports(
                    #[trigger] segs@[i],
                    venue,
                    rs,
                ) by {
                    if i < n - 1 {
                        assert(segs@[i] == before[i]);
                    }
                }
                assert forall|i: int| 0 <= i < segs@.len() - 1 implies segment_phase(
                    #[trigger] segs@[i],
                ) != segment_phase(segs@[i + 1]) by {
                    assert(segs@[i] == before[i]);
                    if i + 1 < n - 1 {
                        assert(segs@[i + 1] == before[i + 1]);
                    }
                }
            }
            return;
        }
    }
    segs.push(seg);
    proof {
        let ivs = segment_intervals(segs@);
        let old_ivs = segment_intervals(before);
        assert(segs@ =~= before.push(seg));
        assert(forall|i: int| 0 <= i < n ==> ivs[i] == old_ivs[i]);
        assert forall|i: int| 0 <= i < segs@.len() implies segment_reports(
            #[trigger] segs@[i],
            venue,
            rs,
        ) by {
            if i < n {
                assert(segs@[i] == before[i]);
            }
        }
        assert forall|i: int| 0 <= i < segs@.len() - 1 implies segment_phase(#[trigger] segs@[i])
            != segment_phase(segs@[i + 1]) by {
            assert(segs@[i] == before[i]);
            if i + 1 < n {
                assert(segs@[i + 1] == before[i + 1]);
            }
        }
    }
}

/// One venue's phases across an interval.
///
/// The segments tile the interval with no gap and no overlap. A stretch outside the
/// venue's coverage, or one its data cannot place, is an `Unknown` segment rather than a
/// hole; a stretch of one phase is one segment, however many days it spans. Each segment
/// starts where [`resolve_phase`] gives the same answer.
pub fn resolve_timeline(interval: Interval, venue: &VenueId, ruleset: &Ruleset) -> (r: Timeline)
    ensures
        r.venue@ == venue@,
        r.interval == interval,
        interval.wf() ==> r.spec_tiles_interval(),
        forall|i: int|
            0 <= i < r.segments@.len() ==> segment_reports(#[trigger] r.segments@[i], venue@, *ruleset),
        neighbours_differ(r.segments@),
{
    ruleset.check_invariant();
    let mut segs: Vec<TimelineSegment> = Vec::new();
    let mut cursor = interval.start;
    if !cursor.is_before(interval.end) {
        return Timeline { venue: venue.duplicate(), interval, segments: segs };
    }
    match ruleset.venue(venue) {
        None => {
            if cursor.is_before(interval.end) {
                let whole = TimelineSegment::Unknown {
                    interval,
                    gap: Box::new(gap(cursor, venue, None, ruleset)),
                };
                proof {
                    lemma_single_stretch_run(whole, venue@, *ruleset);
                }
                push_segment(&mut segs, whole, Ghost(interval.start), Ghost(venue@), Ghost(*ruleset));
                cursor = interval.end;
            }
        },
        Some(v) => {
            proof {
                lemma_entry_is_unique(*ruleset, venue@, *v);
            }
            let coverage = v.coverage.interval();
            while cursor.is_before(interval.end)
                invariant
                    timeline_so_far(segs@, interval.start, cursor, venue@, *ruleset),
                    interval.start.nanos() <= cursor.nanos() <= interval.end.nanos(),
                    venue_entry(*ruleset, venue@) == Some(*v),
                    tz_known(v.home_zone@),
                    coverage == v.coverage.spec_interval(),
                    v.venue@ == venue@,
                decreases interval.end.nanos() - cursor.nanos(),
            {
                let seg = if cursor.is_before(coverage.start) {
                    let end = if coverage.start.is_before(interval.end) {
                        coverage.start
                    } else {
                        interval.end
                    };
                    TimelineSegment::Unknown {
                        interval: Interval { start: cursor, end },
                        gap: Box::new(gap(cursor, venue, Some(v), ruleset)),
                    }
                } else if !cursor.is_before(coverage.end) {
                    TimelineSegment::Unknown {
                        interval: Interval { start: cursor, end: interval.end },
                        gap: Box::new(gap(cursor, venue, Some(v), ruleset)),
                    }
                } else {
                    let stop = if coverage.end.is_before(interval.end) {
                        coverage.end
                    } else {
                        interval.end
                    };
                    match known_answer(cursor, venue, v) {
                        Some(answer) => {
                            let end = if answer.boundary_end.instant.is_before(stop) {
                                answer.boundary_end.instant
                            } else {
                                stop
                            };
                            proof {
                                widest_never_narrows(
                                    answer.boundary_start.uncertainty,
                                    answer.boundary_end.uncertainty,
                                );
                            }
                            TimelineSegment::Phase {
                                interval: Interval { start: cursor, end },
                                answer: Box::new(answer),
                            }
                        },
                        None => TimelineSegment::Unknown {
                            interval: Interval { start: cursor, end: stop },
                            gap: Box::new(gap(cursor, venue, Some(v), ruleset)),
                        },
                    }
                };
                let next = seg.interval().end;
                proof {
                    lemma_single_stretch_run(seg, venue@, *ruleset);
                }
                push_segment(&mut segs, seg, Ghost(interval.start), Ghost(venue@), Ghost(*ruleset));
                cursor = next;
            }
        },
    }
    Timeline { venue: venue.duplicate(), interval, segments: segs }
}

/// Whether a rule kind names a day the venue keeps apart from its ordinary schedule: a
/// holiday or a shortened session.
pub open spec fn is_special_day(k: RuleKind) -> bool {
    k is Holiday || k is ShortenedSession
}

/// Holidays and shortened sessions govern the days they name; an announced change governs
/// over the weekly pattern. On a day where a holiday or shortened-session rule applies, the
/// governing rule is one of those, never an announced change or the weekly pattern; on a
/// day where an announced change applies, the governing rule is never the weekly pattern.
pub proof fn a_holiday_governs_over_an_announced_change_and_the_weekly_pattern(
    rules: Seq<Rule>,
    day: (int, int, int),
    i: int,
)
    requires
        0 <= i < rules.len(),
        applies_on_day(rules[i], day),
    ensures
        0 <= governing(rules, day) < rules.len(),
        is_special_day(rules[i].kind) ==> is_special_day(rules[governing(rules, day)].kind),
        rules[i].kind is AnnouncedChange ==> !(rules[governing(rules, day)].kind is WeeklyPattern),
        is_special_day(rules[i].kind) ==> governing(rules, day) <= i,
{
    governing_rule_outranks_every_applying_rule(rules, day);
    lemma_governing_is_first(rules, day, rules.len());
}

/// No rule before the governing one that applies ranks as high as it.
proof fn lemma_governing_is_first(rules: Seq<Rule>, day: (int, int, int), n: nat)
    requires
        n <= rules.len(),
    ensures
        forall|j: int|
            0 <= j < governing_upto(rules, day, n) && applies_on_day(#[trigger] rules[j], day) ==> precedence_of(
                rules[j].kind,
            ) < precedence_of(rules[governing_upto(rules, day, n)].kind),
    decreases n,
{
    if n > 0 {
        lemma_governing_is_first(rules, day, (n - 1) as nat);
        lemma_governing_upto(rules, day, (n - 1) as nat);
    }
}

} // verus!
