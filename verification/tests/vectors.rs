//! Golden vectors over three invented venues that exercise the structural cases: auctions
//! with a mid-day break, a daylight-saving zone whose open is a process, and an always-on
//! venue carrying scheduled events.

use market_time::board::{glyph, render, BoardView, ClockDiscipline, NowMarker};
use market_time::catalog::{AssetFamily, VenueProfile};
use market_time::civil::{CivilDate, CivilTime, Weekday};
use market_time::coverage::CoverageRange;
use market_time::event::{EventKind, EventRule};
use market_time::evidence::{DerivationNote, EvidenceRef};
use market_time::ids::{DatasetRevisionId, IanaZoneId, VenueId};
use market_time::instant::{Interval, UtcInstant, NANOS_PER_SECOND};
use market_time::phase::Phase;
use market_time::query::{PhaseAnswer, PhaseOutcome, TimelineSegment};
use market_time::resolve::{resolve_phase, resolve_phases, resolve_timeline};
use market_time::rule::{CivilDaySchedule, DateRange, Rule, RuleKind};
use market_time::ruleset::{DatasetRevision, Ruleset, VenueRuleset};
use market_time::uncertainty::Uncertainty;

fn instant(text: &str) -> UtcInstant {
    let timestamp: jiff::Timestamp = text.parse().expect("test vector holds a valid timestamp");
    UtcInstant::from_nanos_since_unix_epoch(timestamp.as_nanosecond())
}

fn interval(start: &str, end: &str) -> Interval {
    Interval::new(instant(start), instant(end)).expect("test vector holds a valid interval")
}

fn venue(id: &str) -> VenueId {
    VenueId::new(id.to_string()).expect("valid identifier")
}

fn revision_id() -> DatasetRevisionId {
    DatasetRevisionId::new("synthetic-2026-07-30".to_string()).expect("valid identifier")
}

fn revision() -> DatasetRevision {
    DatasetRevision {
        id: revision_id(),
        supersedes: None,
        iana_tzdb_version: market_time::tzdata::iana_tzdb_version().map(ToOwned::to_owned),
        assembled_at: instant("2026-07-30T00:00:00Z"),
    }
}

fn evidence(url: &str) -> EvidenceRef {
    EvidenceRef::new(url.to_string(), instant("2026-07-29T00:00:00Z"), "2026-01-01".to_string())
        .expect("test evidence is complete")
}

fn date(y: i16, m: i8, d: i8) -> CivilDate {
    CivilDate::new(y, m, d).expect("valid date")
}

fn time(h: i8, m: i8) -> CivilTime {
    CivilTime::new(h, m, 0, 0).expect("valid time")
}

fn weekdays() -> Vec<Weekday> {
    vec![Weekday::Monday, Weekday::Tuesday, Weekday::Wednesday, Weekday::Thursday, Weekday::Friday]
}

fn every_day() -> Vec<Weekday> {
    let mut all = weekdays();
    all.push(Weekday::Saturday);
    all.push(Weekday::Sunday);
    all
}

fn coverage(start: &str, end: &str) -> CoverageRange {
    CoverageRange::new(interval(start, end))
}

fn schedule(points: Vec<(CivilTime, Phase)>) -> CivilDaySchedule {
    CivilDaySchedule::new(points).expect("test schedule tiles the day")
}

fn dates(start: CivilDate, end: CivilDate) -> DateRange {
    DateRange::new(start, end).expect("test date range runs forwards")
}

fn profile(name: &str, location: &str, family: AssetFamily) -> VenueProfile {
    VenueProfile {
        display_name: Some(name.to_string()),
        location: Some(location.to_string()),
        family: Some(family),
    }
}

fn auction_venue() -> VenueRuleset {
    let trading_day = schedule(vec![
        (CivilTime::midnight(), Phase::Closed),
        (time(9, 15), Phase::PreOpen),
        (time(9, 25), Phase::OpeningAuction),
        (time(9, 30), Phase::ContinuousTrading),
        (time(11, 30), Phase::MidDayBreak),
        (time(13, 0), Phase::ContinuousTrading),
        (time(14, 57), Phase::ClosingAuction),
        (time(15, 0), Phase::PostClose),
        (time(15, 30), Phase::Closed),
    ]);
    VenueRuleset {
        venue: venue("SYNTH-AUCT"),
        profile: profile("Synthetic Auction Exchange", "Shanghai", AssetFamily::Equities),
        home_zone: IanaZoneId::new("Asia/Shanghai".to_string()).expect("valid identifier"),
        coverage: coverage("2026-01-01T00:00:00Z", "2026-12-31T16:00:00Z"),
        rules: vec![
            Rule {
                kind: RuleKind::WeeklyPattern { weekdays: weekdays() },
                schedule: trading_day,
                applies: dates(date(2026, 1, 1), date(2026, 12, 31)),
                boundary_uncertainty: Uncertainty::minutes(1),
                evidence: evidence("https://synthetic.test/auct/trading-rules"),
                derived: None,
                revision: revision_id(),
            },
            Rule {
                kind: RuleKind::WeeklyPattern { weekdays: vec![Weekday::Saturday, Weekday::Sunday] },
                schedule: schedule(vec![(CivilTime::midnight(), Phase::Closed)]),
                applies: dates(date(2026, 1, 1), date(2026, 12, 31)),
                boundary_uncertainty: Uncertainty::minutes(1),
                evidence: evidence("https://synthetic.test/auct/trading-rules"),
                derived: None,
                revision: revision_id(),
            },
            Rule {
                kind: RuleKind::Holiday { name: "Synthetic National Day".to_string() },
                schedule: schedule(vec![(CivilTime::midnight(), Phase::Closed)]),
                applies: dates(date(2026, 10, 1), date(2026, 10, 1)),
                boundary_uncertainty: Uncertainty::minutes(1),
                evidence: evidence("https://synthetic.test/auct/holidays-2026"),
                derived: None,
                revision: revision_id(),
            },
        ],
        events: Vec::new(),
        evidence: vec![evidence("https://synthetic.test/auct/")],
    }
}

fn dst_venue() -> VenueRuleset {
    let trading_day = schedule(vec![
        (CivilTime::midnight(), Phase::Closed),
        (time(4, 0), Phase::PreOpen),
        (time(9, 30), Phase::ContinuousTrading),
        (time(16, 0), Phase::PostClose),
        (time(20, 0), Phase::Closed),
    ]);
    let early_close = schedule(vec![
        (CivilTime::midnight(), Phase::Closed),
        (time(4, 0), Phase::PreOpen),
        (time(9, 30), Phase::ContinuousTrading),
        (time(13, 0), Phase::PostClose),
        (time(17, 0), Phase::Closed),
    ]);
    VenueRuleset {
        venue: venue("SYNTH-DST"),
        profile: profile("Synthetic Daylight Exchange", "New York", AssetFamily::Equities),
        home_zone: IanaZoneId::new("America/New_York".to_string()).expect("valid identifier"),
        coverage: coverage("2026-01-01T05:00:00Z", "2026-12-31T05:00:00Z"),
        rules: vec![
            Rule {
                kind: RuleKind::WeeklyPattern { weekdays: weekdays() },
                schedule: trading_day,
                applies: dates(date(2026, 1, 1), date(2026, 12, 30)),
                boundary_uncertainty: Uncertainty::ProcessStart {
                    process: "the security-by-security opening process".to_string(),
                },
                evidence: evidence("https://synthetic.test/dst/hours"),
                derived: None,
                revision: revision_id(),
            },
            Rule {
                kind: RuleKind::WeeklyPattern { weekdays: vec![Weekday::Saturday, Weekday::Sunday] },
                schedule: schedule(vec![(CivilTime::midnight(), Phase::Closed)]),
                applies: dates(date(2026, 1, 1), date(2026, 12, 30)),
                boundary_uncertainty: Uncertainty::minutes(1),
                evidence: evidence("https://synthetic.test/dst/hours"),
                derived: None,
                revision: revision_id(),
            },
            Rule {
                kind: RuleKind::ShortenedSession { name: "Synthetic half day".to_string() },
                schedule: early_close,
                applies: dates(date(2026, 11, 27), date(2026, 11, 27)),
                boundary_uncertainty: Uncertainty::minutes(1),
                evidence: evidence("https://synthetic.test/dst/half-days"),
                derived: Some(
                    DerivationNote::new(
                        "the notice gives the close but not the post-close end; the ordinary \
                         four-hour post-close window is carried over"
                            .to_string(),
                    )
                    .expect("reasoning is present"),
                ),
                revision: revision_id(),
            },
        ],
        events: Vec::new(),
        evidence: vec![evidence("https://synthetic.test/dst/")],
    }
}

fn always_on_venue() -> VenueRuleset {
    VenueRuleset {
        venue: venue("SYNTH-ALWAYS"),
        profile: profile("Synthetic Always-On Venue", "Global", AssetFamily::Futures),
        home_zone: IanaZoneId::new("UTC".to_string()).expect("valid identifier"),
        coverage: coverage("2026-01-01T00:00:00Z", "2027-01-01T00:00:00Z"),
        rules: vec![Rule {
            kind: RuleKind::WeeklyPattern { weekdays: every_day() },
            schedule: CivilDaySchedule::all_day(Phase::ContinuousTrading)
                .expect("an all-day schedule tiles the day"),
            applies: dates(date(2026, 1, 1), date(2026, 12, 31)),
            boundary_uncertainty: Uncertainty::Exact,
            evidence: evidence("https://synthetic.test/always/trading-rules"),
            derived: None,
            revision: revision_id(),
        }],
        events: vec![EventRule {
            kind: EventKind::FundingSettlement,
            times: vec![CivilTime::midnight(), time(8, 0), time(16, 0)],
            applies: dates(date(2026, 1, 1), date(2026, 12, 31)),
            uncertainty: Uncertainty::PublishedBound {
                nanos: 15 * NANOS_PER_SECOND,
                published_as: "the venue publishes a 15-second deviation".to_string(),
            },
            evidence: evidence("https://synthetic.test/always/funding"),
            revision: revision_id(),
        }],
        evidence: vec![evidence("https://synthetic.test/always/")],
    }
}

fn ruleset() -> Ruleset {
    Ruleset::from_parts(vec![revision()], vec![auction_venue(), dst_venue(), always_on_venue()])
        .expect("synthetic fixtures are a valid ruleset")
}

fn venue_ids() -> Vec<VenueId> {
    vec![venue("SYNTH-ALWAYS"), venue("SYNTH-AUCT"), venue("SYNTH-DST")]
}

fn phase_at(id: &str, at: &str) -> PhaseOutcome {
    resolve_phase(instant(at), &venue(id), &ruleset())
}

fn known(id: &str, at: &str) -> PhaseAnswer {
    match phase_at(id, at) {
        PhaseOutcome::Known(answer) => *answer,
        PhaseOutcome::Unknown(gap) => panic!("expected a phase, got unknown: {:?}", gap),
    }
}

#[test]
fn v001_continuous_trading_mid_morning() {
    assert_eq!(known("SYNTH-AUCT", "2026-07-30T02:00:00Z").phase, Phase::ContinuousTrading);
}

#[test]
fn v002_midday_break_is_neither_open_nor_closed() {
    let answer = known("SYNTH-AUCT", "2026-07-30T04:00:00Z");
    assert_eq!(answer.phase, Phase::MidDayBreak);
    assert_ne!(answer.phase, Phase::Closed);
    assert!(!answer.phase.is_trading());
}

#[test]
fn v003_opening_auction_is_its_own_phase() {
    assert_eq!(known("SYNTH-AUCT", "2026-07-30T01:27:00Z").phase, Phase::OpeningAuction);
}

#[test]
fn v004_closing_auction_then_post_close() {
    assert_eq!(known("SYNTH-AUCT", "2026-07-30T06:58:00Z").phase, Phase::ClosingAuction);
    assert_eq!(known("SYNTH-AUCT", "2026-07-30T07:10:00Z").phase, Phase::PostClose);
}

#[test]
fn v005_weekend_is_closed() {
    assert_eq!(known("SYNTH-AUCT", "2026-08-01T02:00:00Z").phase, Phase::Closed);
}

#[test]
fn v006_holiday_outranks_the_weekly_pattern() {
    let answer = known("SYNTH-AUCT", "2026-10-01T02:00:00Z");
    assert_eq!(answer.phase, Phase::Closed);
    assert!(
        answer.evidence.iter().any(|e| e.source_url().contains("holidays-2026")),
        "the holiday notice is the evidence, not the weekly pattern"
    );
}

#[test]
fn v007_a_boundary_instant_belongs_to_exactly_one_phase() {
    assert_eq!(known("SYNTH-AUCT", "2026-07-30T01:30:00Z").phase, Phase::ContinuousTrading);
    assert_eq!(
        known("SYNTH-AUCT", "2026-07-30T01:29:59.999999999Z").phase,
        Phase::OpeningAuction
    );
}

#[test]
fn v008_daylight_saving_moves_the_open_in_utc() {
    assert_eq!(known("SYNTH-DST", "2026-01-15T14:30:00Z").phase, Phase::ContinuousTrading);
    assert_eq!(known("SYNTH-DST", "2026-01-15T13:30:00Z").phase, Phase::PreOpen);
    assert_eq!(known("SYNTH-DST", "2026-07-15T13:30:00Z").phase, Phase::ContinuousTrading);
}

#[test]
fn v009_spring_forward_is_carried_not_invented() {
    let answer = known("SYNTH-DST", "2026-03-09T13:30:00Z");
    assert_eq!(answer.phase, Phase::ContinuousTrading);
}

#[test]
fn v010_an_open_that_is_a_process_never_claims_an_instant() {
    let answer = known("SYNTH-DST", "2026-07-15T13:30:00Z");
    assert!(
        matches!(answer.boundary_start.uncertainty, Uncertainty::ProcessStart { .. }),
        "the open is the scheduled start of a process, not a market-wide transition"
    );
    assert!(!answer.boundary_start.uncertainty.is_exact());
    assert_eq!(answer.boundary_start.uncertainty.bound_nanos(), None);
}

#[test]
fn v011_a_shortened_session_replaces_the_normal_one() {
    let answer = known("SYNTH-DST", "2026-11-27T19:00:00Z");
    assert_eq!(answer.phase, Phase::PostClose);
    assert!(
        answer.derived_reasoning.is_some(),
        "the post-close end was our reading, and derived is never presented as observed"
    );
}

#[test]
fn v012_an_always_on_venue_is_never_closed() {
    for at in ["2026-01-01T00:00:00Z", "2026-06-14T03:17:42Z", "2026-12-31T23:59:59Z"] {
        assert_eq!(
            known("SYNTH-ALWAYS", at).phase,
            Phase::ContinuousTrading,
            "always-on venue at {at}"
        );
    }
}

#[test]
fn v013_a_funding_settlement_is_an_event_not_a_phase() {
    let answer = known("SYNTH-ALWAYS", "2026-06-14T08:00:00Z");
    assert_eq!(
        answer.phase,
        Phase::ContinuousTrading,
        "the event does not replace the phase it sits inside"
    );
    assert!(
        answer.events.iter().any(|e| e.kind == EventKind::FundingSettlement),
        "the settlement is reported as an event on the phase"
    );
}

#[test]
fn v014_a_venue_published_bound_is_carried_unchanged() {
    let answer = known("SYNTH-ALWAYS", "2026-06-14T08:00:00Z");
    let settlement = answer
        .events
        .iter()
        .find(|e| e.kind == EventKind::FundingSettlement)
        .expect("a settlement occurs in this phase");
    match &settlement.uncertainty {
        Uncertainty::PublishedBound { nanos, .. } => {
            assert_eq!(*nanos, 15 * NANOS_PER_SECOND);
        }
        other => panic!("expected the venue's published bound, got {other:?}"),
    }
}

#[test]
fn v015_outside_coverage_is_unknown_not_closed() {
    let outcome = phase_at("SYNTH-AUCT", "2028-03-01T02:00:00Z");
    assert!(outcome.is_unknown());
    assert_eq!(outcome.phase(), None, "unknown is not a phase, closed is");
    let PhaseOutcome::Unknown(gap) = outcome else {
        unreachable!("asserted unknown above")
    };
    assert!(
        gap.describe().contains("coverage ends"),
        "the answer names the boundary it fell outside: {}",
        gap.describe()
    );
}

#[test]
fn v016_a_venue_with_no_data_has_zero_coverage() {
    let outcome = phase_at("SYNTH-NOT-TRACKED", "2026-07-30T02:00:00Z");
    assert!(outcome.is_unknown(), "an unknown venue is a query answer, not a call failure");
}

#[test]
fn v017_three_venues_three_states_at_one_instant() {
    let outcomes = resolve_phases(instant("2026-07-30T04:00:00Z"), &venue_ids(), &ruleset());
    let phases: Vec<Option<Phase>> = outcomes.iter().map(|o| o.outcome.phase()).collect();
    assert_eq!(
        phases,
        vec![Some(Phase::ContinuousTrading), Some(Phase::MidDayBreak), Some(Phase::Closed)]
    );
}

#[test]
fn v018_one_venue_out_of_coverage_does_not_void_the_others() {
    let venues = vec![venue("SYNTH-ALWAYS"), venue("SYNTH-NOT-TRACKED"), venue("SYNTH-AUCT")];
    let outcomes = resolve_phases(instant("2026-07-30T02:00:00Z"), &venues, &ruleset());
    assert_eq!(outcomes.len(), 3, "one outcome per requested venue, in order");
    assert!(!outcomes[0].outcome.is_unknown());
    assert!(outcomes[1].outcome.is_unknown());
    assert!(!outcomes[2].outcome.is_unknown());
}

#[test]
fn v019_a_trading_day_tiles_without_gaps() {
    let timeline = resolve_timeline(
        interval("2026-07-30T00:00:00Z", "2026-07-31T00:00:00Z"),
        &venue("SYNTH-AUCT"),
        &ruleset(),
    );
    assert!(timeline.tiles_interval(), "segments must tile the queried interval");
    assert!(
        timeline.segments.iter().any(|s| s.phase() == Some(Phase::MidDayBreak)),
        "the mid-day break is its own segment, not merged into trading"
    );
}

#[test]
fn v020_a_timeline_crossing_the_coverage_edge_answers_both_sides() {
    let timeline = resolve_timeline(
        interval("2026-12-31T00:00:00Z", "2027-01-02T00:00:00Z"),
        &venue("SYNTH-ALWAYS"),
        &ruleset(),
    );
    assert!(timeline.tiles_interval());
    assert!(timeline.segments.iter().any(|s| !s.is_unknown()), "the covered part still answers");
    assert!(
        timeline.segments.iter().any(TimelineSegment::is_unknown),
        "the part past coverage is an explicit unknown segment, not a hole"
    );
}

#[test]
fn v021_an_always_on_venue_is_one_segment_not_seven() {
    let timeline = resolve_timeline(
        interval("2026-06-01T00:00:00Z", "2026-06-08T00:00:00Z"),
        &venue("SYNTH-ALWAYS"),
        &ruleset(),
    );
    assert!(timeline.tiles_interval());
    assert_eq!(
        timeline.segments.len(),
        1,
        "consecutive identical phases join rather than showing a boundary each midnight"
    );
}

#[test]
fn v022_every_minute_of_a_day_belongs_to_exactly_one_segment() {
    let day = interval("2026-07-30T00:00:00Z", "2026-07-31T00:00:00Z");
    let timeline = resolve_timeline(day, &venue("SYNTH-DST"), &ruleset());
    let minute_nanos = 60 * NANOS_PER_SECOND;
    let mut at = day.start;
    while at.is_before(day.end) {
        let hits = timeline.segments.iter().filter(|segment| segment.interval().contains(at)).count();
        assert_eq!(hits, 1, "exactly one segment owns {at:?}");
        at = at.saturating_add_nanos(minute_nanos);
    }
}

#[test]
fn v023_the_same_query_returns_the_same_answer() {
    let first = phase_at("SYNTH-AUCT", "2026-07-30T02:00:00Z");
    let second = phase_at("SYNTH-AUCT", "2026-07-30T02:00:00Z");
    assert_eq!(first, second);
}

#[test]
fn v024_answers_name_the_revisions_that_produced_them() {
    let answer = known("SYNTH-AUCT", "2026-07-30T02:00:00Z");
    assert!(
        answer.dataset_revisions.iter().any(|r| r.as_str() == "synthetic-2026-07-30"),
        "an answer is attributable to the revisions behind it"
    );
    assert!(!answer.evidence.is_empty(), "no answer is returned without a source a person can open");
}

#[test]
fn a_boundary_that_is_a_process_start_keeps_the_answer_unbounded() {
    let answer = known("SYNTH-DST", "2026-07-15T13:30:00Z");
    assert_eq!(answer.uncertainty.bound_nanos(), None);
    assert!(answer.uncertainty.is_at_least_as_wide_as(&answer.boundary_end.uncertainty));
}

#[test]
fn an_answer_names_its_calendar_rule() {
    let answer = known("SYNTH-AUCT", "2026-10-01T02:00:00Z");
    assert_eq!(answer.calendar_rule_kind, "holiday");
    assert_eq!(answer.calendar_label, "Synthetic National Day");
    let weekly = known("SYNTH-AUCT", "2026-07-30T02:00:00Z");
    assert_eq!(weekly.calendar_rule_kind, "weekly_pattern");
    assert_eq!(weekly.calendar_label, "weekly pattern");
}

#[test]
fn the_opening_boundaries_are_the_civil_times_in_the_zone() {
    // 09:30 to 11:30 Shanghai is 01:30Z to 03:30Z.
    let answer = known("SYNTH-AUCT", "2026-07-30T02:00:00Z");
    assert_eq!(answer.boundary_start.instant, instant("2026-07-30T01:30:00Z"));
    assert_eq!(answer.boundary_end.instant, instant("2026-07-30T03:30:00Z"));
    assert_eq!(answer.uncertainty, Uncertainty::minutes(1));
}

#[test]
fn the_first_instant_after_coverage_is_unknown() {
    let outcome = phase_at("SYNTH-ALWAYS", "2027-01-01T00:00:00Z");
    assert!(outcome.is_unknown());
    let last = phase_at("SYNTH-ALWAYS", "2026-12-31T23:59:59.999999999Z");
    assert_eq!(last.phase(), Some(Phase::ContinuousTrading));
}

#[test]
fn three_settlements_fall_inside_an_always_on_day() {
    let answer = known("SYNTH-ALWAYS", "2026-06-14T12:00:00Z");
    let instants: Vec<UtcInstant> = answer.events.iter().map(|e| e.instant).collect();
    assert_eq!(
        instants,
        vec![
            instant("2026-06-14T00:00:00Z"),
            instant("2026-06-14T08:00:00Z"),
            instant("2026-06-14T16:00:00Z"),
        ]
    );
}

fn view(zone: &str, start: &str, end: &str, now: Option<&str>) -> BoardView {
    let ruleset = ruleset();
    let interval = interval(start, end);
    BoardView {
        interval,
        rows: ruleset.venues().iter().map(|venue| resolve_timeline(interval, venue, &ruleset)).collect(),
        now: now.map(|text| NowMarker {
            instant: instant(text),
            discipline: ClockDiscipline::Given { source: "test".to_string() },
        }),
        axis_zone: zone.to_string(),
        columns: 48,
    }
}

#[test]
fn unknown_never_renders_as_closed() {
    assert_ne!(glyph(Phase::Closed), '?', "the closed glyph must not be the unknown glyph");
    let board = view("UTC", "2027-02-01T00:00:00Z", "2027-02-02T00:00:00Z", None);
    let rendered = render(&board);
    let dst_row = rendered
        .lines()
        .find(|line| line.starts_with("SYNTH-DST"))
        .expect("the board draws a row per venue");
    assert!(dst_row.contains('?'), "an out-of-coverage stretch renders as not-known: {dst_row}");
    assert!(!dst_row.contains(glyph(Phase::Closed)), "and never as closed: {dst_row}");
}

#[test]
fn changing_the_axis_zone_moves_no_segment() {
    let start = "2026-07-30T00:00:00Z";
    let end = "2026-07-31T00:00:00Z";
    let utc = view("UTC", start, end, None);
    let shanghai = view("Asia/Shanghai", start, end, None);
    for (left, right) in utc.rows.iter().zip(shanghai.rows.iter()) {
        assert_eq!(left.segments.len(), right.segments.len());
        for (a, b) in left.segments.iter().zip(right.segments.iter()) {
            assert_eq!(a.interval(), b.interval(), "segments occupy the same instants");
            assert_eq!(a.phase(), b.phase());
        }
    }
    assert_ne!(render(&utc), render(&shanghai));
}

#[test]
fn the_now_marker_reports_the_clock_bound() {
    let board = view("UTC", "2026-07-30T00:00:00Z", "2026-07-31T00:00:00Z", Some("2026-07-30T02:00:00Z"));
    let rendered = render(&board);
    assert!(rendered.contains("now:"), "the board says which instant it drew");
    assert!(rendered.contains("not read from a clock"), "and how well that instant is known: {rendered}");
    assert!(rendered.contains("now:  2026-07-30 02:00:00"), "{rendered}");
}

#[test]
fn an_unmeasured_clock_is_never_reported_as_exact() {
    let describe = ClockDiscipline::Unmeasured { source: "host system clock".to_string() }.describe();
    assert!(describe.contains("unmeasured"));
    assert!(!describe.contains("0.0ms"), "silence is not a measurement");
}

#[test]
fn a_bounded_clock_reports_its_bound_in_milliseconds() {
    let describe = ClockDiscipline::BoundedNanos { nanos: 1_250_000, source: "chrony".to_string() }.describe();
    assert_eq!(describe, "host clock within 1.2ms (chrony)");
    let describe = ClockDiscipline::BoundedNanos { nanos: 1_350_000, source: "chrony".to_string() }.describe();
    assert_eq!(describe, "host clock within 1.4ms (chrony)");
    let describe = ClockDiscipline::BoundedNanos { nanos: 12_345_678, source: "ptp".to_string() }.describe();
    assert_eq!(describe, "host clock within 12.3ms (ptp)");
}

#[test]
fn the_board_draws_only_what_the_core_returned() {
    let ruleset = ruleset();
    let interval = interval("2026-07-30T00:00:00Z", "2026-07-31T00:00:00Z");
    let timeline = resolve_timeline(interval, &venue("SYNTH-ABSENT"), &ruleset);
    assert!(timeline.segments.iter().all(|segment| segment.is_unknown()));
    let board = BoardView { interval, rows: vec![timeline], now: None, axis_zone: "UTC".to_string(), columns: 24 };
    let rendered = render(&board);
    assert!(rendered.contains("SYNTH-ABSENT"));
    assert!(rendered.contains('?'));
}

#[test]
fn a_phase_answer_and_the_board_agree() {
    let answer = known("SYNTH-AUCT", "2026-07-30T04:00:00Z");
    let board = view("UTC", "2026-07-30T00:00:00Z", "2026-07-31T00:00:00Z", Some("2026-07-30T04:00:00Z"));
    let rendered = render(&board);
    let row = rendered.lines().find(|line| line.starts_with("SYNTH-AUCT")).expect("row present");
    assert!(row.ends_with(answer.phase.as_str()), "the status the board shows is the phase the core returned: {row}");
}

#[test]
fn the_board_lays_out_the_axis_and_the_key() {
    let board = view("Asia/Shanghai", "2026-07-30T02:00:00Z", "2026-07-31T02:00:00Z", None);
    let rendered = render(&board);
    let first = rendered.lines().next().expect("axis line");
    assert!(first.starts_with("               10:00"), "{first:?}");
    assert!(rendered.contains("  axis: Asia/Shanghai (48 columns)"));
    assert!(rendered.ends_with("  key:  # trading  = auction  - pre-open  : break  _ post-close  . closed  ! halt  ? not known\n"));
    let always = rendered.lines().find(|line| line.starts_with("SYNTH-ALWAYS")).expect("row");
    assert_eq!(always, format!("SYNTH-ALWAYS  [{}]  ", "#".repeat(48)));
}
