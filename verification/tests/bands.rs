//! Session bands and overlap windows derived from two synthetic venues: band A trades
//! 08:00-12:00Z, band B trades 10:00-14:00Z with a wider published boundary uncertainty,
//! and the "gap" variants are the same schedules with coverage cut off early.

use market_time::bands::{
    derive_band, derive_overlap, widen_optional, BandDefinition, BandError, BandSegment, BandState,
    OverlapState, SessionBand,
};
use market_time::catalog::{AssetFamily, VenueProfile};
use market_time::civil::{CivilDate, CivilTime, Weekday};
use market_time::coverage::CoverageRange;
use market_time::evidence::{DerivationNote, EvidenceRef};
use market_time::ids::{BandId, DatasetRevisionId, IanaZoneId, VenueId};
use market_time::instant::{Interval, UtcInstant};
use market_time::phase::Phase;
use market_time::resolve::resolve_timeline;
use market_time::rule::{CivilDaySchedule, DateRange, Rule, RuleKind};
use market_time::ruleset::{DatasetRevision, Ruleset, VenueRuleset};
use market_time::uncertainty::Uncertainty;

fn instant(text: &str) -> UtcInstant {
    let timestamp: jiff::Timestamp = text.parse().expect("test vector holds a valid timestamp");
    UtcInstant::from_nanos_since_unix_epoch(timestamp.as_nanosecond())
}

fn interval(start: &str, end: &str) -> Interval {
    Interval::new(instant(start), instant(end)).expect("test vector holds a valid interval")
}

fn venue(id: &str) -> VenueId {
    VenueId::new(id.to_string()).expect("valid identifier")
}

fn band_id(id: &str) -> BandId {
    BandId::new(id.to_string()).expect("valid identifier")
}

fn derivation(reasoning: &str) -> DerivationNote {
    DerivationNote::new(reasoning.to_string()).expect("reasoning is present")
}

fn revision_id() -> DatasetRevisionId {
    DatasetRevisionId::new("synthetic-2026-07-30".to_string()).expect("valid identifier")
}

fn evidence(url: &str) -> EvidenceRef {
    EvidenceRef::new(url.to_string(), instant("2026-07-29T00:00:00Z"), "2026-01-01".to_string())
        .expect("test evidence is complete")
}

fn time(h: i8) -> CivilTime {
    CivilTime::new(h, 0, 0, 0).expect("valid time")
}

fn every_day() -> Vec<Weekday> {
    vec![
        Weekday::Monday,
        Weekday::Tuesday,
        Weekday::Wednesday,
        Weekday::Thursday,
        Weekday::Friday,
        Weekday::Saturday,
        Weekday::Sunday,
    ]
}

fn one_day_venue(id: &str, coverage_end: &str, open: i8, close: i8, minutes: i128, url: &str) -> VenueRuleset {
    let day = CivilDate::new(2026, 1, 1).expect("valid date");
    VenueRuleset {
        venue: venue(id),
        profile: VenueProfile {
            display_name: Some("Synthetic Band Venue".to_string()),
            location: Some("Global".to_string()),
            family: Some(AssetFamily::Equities),
        },
        home_zone: IanaZoneId::new("UTC".to_string()).expect("valid identifier"),
        coverage: CoverageRange::new(interval("2026-01-01T00:00:00Z", coverage_end)),
        rules: vec![Rule {
            kind: RuleKind::WeeklyPattern { weekdays: every_day() },
            schedule: CivilDaySchedule::new(vec![
                (CivilTime::midnight(), Phase::Closed),
                (time(open), Phase::ContinuousTrading),
                (time(close), Phase::Closed),
            ])
            .expect("test schedule tiles the day"),
            applies: DateRange::new(day, day).expect("forwards"),
            boundary_uncertainty: Uncertainty::minutes(minutes),
            evidence: evidence(url),
            derived: None,
            revision: revision_id(),
        }],
        events: Vec::new(),
        evidence: vec![evidence(url)],
    }
}

fn band_ruleset() -> Ruleset {
    let revision = DatasetRevision {
        id: revision_id(),
        supersedes: None,
        iana_tzdb_version: None,
        assembled_at: instant("2026-07-30T00:00:00Z"),
    };
    Ruleset::from_parts(
        vec![revision],
        vec![
            one_day_venue("SYNTH-BAND-A", "2026-01-02T00:00:00Z", 8, 12, 1, "https://synthetic.test/band-a/trading-rules"),
            one_day_venue("SYNTH-BAND-A-GAP", "2026-01-01T09:00:00Z", 8, 12, 1, "https://synthetic.test/band-a/trading-rules"),
            one_day_venue("SYNTH-BAND-B", "2026-01-02T00:00:00Z", 10, 14, 10, "https://synthetic.test/band-b/trading-rules"),
            one_day_venue("SYNTH-BAND-B-GAP", "2026-01-01T11:00:00Z", 10, 14, 10, "https://synthetic.test/band-b/trading-rules"),
        ],
    )
    .expect("band fixtures are a valid ruleset")
}

fn band_day() -> Interval {
    interval("2026-01-01T00:00:00Z", "2026-01-02T00:00:00Z")
}

fn segment_covering<'a>(band: &'a SessionBand, at: &str) -> &'a BandSegment {
    let at = instant(at);
    band.segments()
        .iter()
        .find(|segment| segment.interval.contains(at))
        .unwrap_or_else(|| panic!("no segment covers {at:?}; tiles_interval should have caught this"))
}

// -------------------------------------------------------- band derivation (3.1, 3.2)

#[test]
fn a_band_from_two_venues_is_trading_across_the_union_and_names_who() {
    let ruleset = band_ruleset();
    let a = venue("SYNTH-BAND-A");
    let b = venue("SYNTH-BAND-B");
    let timeline_a = resolve_timeline(band_day(), &a, &ruleset);
    let timeline_b = resolve_timeline(band_day(), &b, &ruleset);

    let definition = BandDefinition::new(
        band_id("test-band-ab"),
        "Test Band AB".to_string(),
        vec![a.clone(), b.clone()],
        derivation("union of two synthetic venues for the bands golden-vector suite"),
    )
    .expect("valid definition");

    let band = derive_band(&definition, &[timeline_a, timeline_b]).expect("band derives");

    assert!(
        band.tiles_interval(),
        "a session band must tile its queried interval, same as a Timeline"
    );

    // Before either venue opens: neither trading.
    let before = segment_covering(&band, "2026-01-01T02:00:00Z");
    assert_eq!(before.state, BandState::NotTrading);

    // 09:00Z: only A is trading (08:00-12:00); B is known but closed (it opens at 10:00).
    // Uncertainty still folds over every *known* member regardless of whether it is
    // trading, so B's wider published boundary (10 minutes) already applies here, not just
    // once B starts trading.
    let a_only = segment_covering(&band, "2026-01-01T09:00:00Z");
    assert_eq!(a_only.state, BandState::Trading);
    assert_eq!(a_only.venues_trading, vec![a.clone()]);
    assert!(a_only.venues_unknown.is_empty());
    assert_eq!(
        a_only.uncertainty,
        Some(Uncertainty::minutes(10)),
        "band uncertainty is never narrower than the widest constituent boundary uncertainty"
    );

    // 11:00Z: both open (A 08-12, B 10-14) — the union, not just a touch.
    let both = segment_covering(&band, "2026-01-01T11:00:00Z");
    assert_eq!(both.state, BandState::Trading);
    assert_eq!(both.venues_trading, vec![a.clone(), b.clone()]);
    assert!(
        both.uncertainty
            .as_ref()
            .expect("both members known")
            .is_at_least_as_wide_as(&Uncertainty::minutes(10)),
        "band uncertainty is never narrower than the widest constituent boundary uncertainty"
    );

    // 13:00Z: only B is open.
    let b_only = segment_covering(&band, "2026-01-01T13:00:00Z");
    assert_eq!(b_only.state, BandState::Trading);
    assert_eq!(b_only.venues_trading, vec![b.clone()]);
    assert_eq!(b_only.uncertainty, Some(Uncertainty::minutes(10)));

    // After both close: neither trading again.
    let after = segment_covering(&band, "2026-01-01T20:00:00Z");
    assert_eq!(after.state, BandState::NotTrading);
}

#[test]
fn a_member_out_of_coverage_makes_the_band_unknown_for_exactly_that_stretch() {
    // Task 3.3's vector: SYNTH-BAND-B-GAP's coverage ends at 11:00Z, mid-way through both
    // its own trading window (10:00-14:00) and A's (08:00-12:00).
    let ruleset = band_ruleset();
    let a = venue("SYNTH-BAND-A");
    let b_gap = venue("SYNTH-BAND-B-GAP");
    let timeline_a = resolve_timeline(band_day(), &a, &ruleset);
    let timeline_b_gap = resolve_timeline(band_day(), &b_gap, &ruleset);

    let definition = BandDefinition::new(
        band_id("test-band-gap"),
        "Test Band With Gap".to_string(),
        vec![a.clone(), b_gap.clone()],
        derivation("A alongside a venue whose coverage ends mid-window, for task 3.3"),
    )
    .expect("valid definition");

    let band = derive_band(&definition, &[timeline_a, timeline_b_gap]).expect("band derives");
    assert!(band.tiles_interval());

    let cutoff = instant("2026-01-01T11:00:00Z");

    // Before the cutoff, the band answers normally: A alone trades 08:00-10:00, both trade
    // 10:00-11:00.
    let before_cutoff = segment_covering(&band, "2026-01-01T09:00:00Z");
    assert_ne!(
        before_cutoff.state,
        BandState::Unknown,
        "coverage holds before the gap opens"
    );
    let just_before_cutoff = segment_covering(&band, "2026-01-01T10:59:00Z");
    assert_eq!(just_before_cutoff.state, BandState::Trading);

    // From 11:00Z on, B is out of coverage. A is still trading until 12:00 and then closed
    // until the next day — but the band must read Unknown throughout, never Trading (drawn
    // from A while A trades) and never NotTrading (drawn from A once A closes).
    for probe in [
        "2026-01-01T11:00:00Z", // A trading, B unknown
        "2026-01-01T11:59:00Z", // A trading, B unknown
        "2026-01-01T13:00:00Z", // A closed, B unknown
        "2026-01-01T23:00:00Z", // A closed, B unknown
    ] {
        let segment = segment_covering(&band, probe);
        assert_eq!(
            segment.state,
            BandState::Unknown,
            "at {probe} the band must be unknown, not narrowed to A alone"
        );
        assert_eq!(segment.venues_unknown, vec![b_gap.clone()]);
    }

    // The stretch strictly before the cutoff is never marked unknown.
    assert!(
        band.segments()
            .iter()
            .filter(|segment| segment.interval.end <= cutoff)
            .all(|segment| segment.state != BandState::Unknown),
        "unknown is scoped to exactly the out-of-coverage stretch"
    );
}

#[test]
fn a_slice_with_every_member_unknown_carries_no_uncertainty_at_all() {
    // SYNTH-BAND-A-GAP's coverage ends at 09:00Z, SYNTH-BAND-B-GAP's at 11:00Z. Between
    // them, 09:00-11:00 has exactly one member unknown (uncertainty still folds from the
    // other, known, member) and 11:00 onward has *both* unknown — the only stretch in the
    // whole suite where `BandSegment::uncertainty` should read `None`, per its doc comment.
    let ruleset = band_ruleset();
    let a_gap = venue("SYNTH-BAND-A-GAP");
    let b_gap = venue("SYNTH-BAND-B-GAP");
    let timeline_a_gap = resolve_timeline(band_day(), &a_gap, &ruleset);
    let timeline_b_gap = resolve_timeline(band_day(), &b_gap, &ruleset);

    let definition = BandDefinition::new(
        band_id("test-band-all-unknown"),
        "Test Band All Unknown".to_string(),
        vec![a_gap.clone(), b_gap.clone()],
        derivation("both members lose coverage before the day ends, at different points"),
    )
    .expect("valid definition");

    let band = derive_band(&definition, &[timeline_a_gap, timeline_b_gap]).expect("band derives");
    assert!(band.tiles_interval());

    // 09:00-11:00Z: only A-gap is unknown; B-gap is still known (and trading from 10:00).
    let one_unknown = segment_covering(&band, "2026-01-01T09:30:00Z");
    assert_eq!(one_unknown.state, BandState::Unknown);
    assert_eq!(one_unknown.venues_unknown, vec![a_gap.clone()]);
    assert_eq!(
        one_unknown.uncertainty,
        Some(Uncertainty::minutes(10)),
        "one known member (B-gap) still contributes its own uncertainty"
    );

    // From 11:00Z on, both members are unknown: nothing is known about this stretch at
    // all, so uncertainty must be `None`, never a number and never a stale carried-over
    // value from an earlier slice.
    for probe in ["2026-01-01T11:00:00Z", "2026-01-01T23:00:00Z"] {
        let segment = segment_covering(&band, probe);
        assert_eq!(segment.state, BandState::Unknown);
        assert_eq!(segment.venues_unknown, vec![a_gap.clone(), b_gap.clone()]);
        assert!(
            segment.uncertainty.is_none(),
            "at {probe} every member is unknown, so precision is not a meaningful question"
        );
    }
}

// -------------------------------------------------------------------- overlaps (3.2)

#[test]
fn two_bands_overlapping_produce_exactly_the_shared_stretch() {
    let ruleset = band_ruleset();
    let a = venue("SYNTH-BAND-A");
    let b = venue("SYNTH-BAND-B");
    let timeline_a = resolve_timeline(band_day(), &a, &ruleset);
    let timeline_b = resolve_timeline(band_day(), &b, &ruleset);

    let band_a = derive_band(
        &BandDefinition::new(
            band_id("band-x"),
            "Band X".to_string(),
            vec![a],
            derivation("single-venue band X for the overlap golden vector"),
        )
        .expect("valid definition"),
        &[timeline_a],
    )
    .expect("band derives");

    let band_b = derive_band(
        &BandDefinition::new(
            band_id("band-y"),
            "Band Y".to_string(),
            vec![b],
            derivation("single-venue band Y for the overlap golden vector"),
        )
        .expect("valid definition"),
        &[timeline_b],
    )
    .expect("band derives");

    let overlap = derive_overlap(&band_a, &band_b).expect("overlap derives");
    assert!(overlap.tiles_interval());
    assert!(!overlap.derivation().reasoning().is_empty());

    let windows = overlap.windows();
    assert_eq!(
        windows.len(),
        1,
        "exactly one shared stretch is overlapping"
    );

    let window = &windows[0];
    assert_eq!(window.interval.start, instant("2026-01-01T10:00:00Z"));
    assert_eq!(window.interval.end, instant("2026-01-01T12:00:00Z"));
    assert!(
        window
            .uncertainty
            .as_ref()
            .expect("both bands known here")
            .is_at_least_as_wide_as(&Uncertainty::minutes(10)),
        "overlap uncertainty is at least as wide as the least precise band boundary involved"
    );
}

#[test]
fn an_unknown_band_makes_the_overlap_unknown_never_not_overlapping() {
    let ruleset = band_ruleset();
    let a = venue("SYNTH-BAND-A");
    let b_gap = venue("SYNTH-BAND-B-GAP");
    let timeline_a = resolve_timeline(band_day(), &a, &ruleset);
    let timeline_b_gap = resolve_timeline(band_day(), &b_gap, &ruleset);

    let band_a = derive_band(
        &BandDefinition::new(
            band_id("band-full"),
            "Band Full Coverage".to_string(),
            vec![a],
            derivation("single-venue band with full coverage"),
        )
        .expect("valid definition"),
        &[timeline_a],
    )
    .expect("band derives");

    let band_b_gap = derive_band(
        &BandDefinition::new(
            band_id("band-gapped"),
            "Band With Gap".to_string(),
            vec![b_gap],
            derivation("single-venue band whose coverage ends at 11:00Z"),
        )
        .expect("valid definition"),
        &[timeline_b_gap],
    )
    .expect("band derives");

    let overlap = derive_overlap(&band_a, &band_b_gap).expect("overlap derives");
    assert!(overlap.tiles_interval());

    // After 11:00Z, band_b_gap is unknown. Band A is trading until 12:00 and then closed —
    // both cases must read Unknown, never NotOverlapping just because A itself is not
    // trading in the second half.
    for probe in ["2026-01-01T11:30:00Z", "2026-01-01T13:00:00Z"] {
        let at = instant(probe);
        let segment = overlap
            .segments()
            .iter()
            .find(|segment| segment.interval.contains(at))
            .expect("tiles_interval holds");
        assert_eq!(
            segment.state,
            OverlapState::Unknown,
            "at {probe} an unknown band must win, not read as NotOverlapping"
        );
    }
}

#[test]
fn deriving_an_overlap_of_a_band_with_itself_is_rejected() {
    let ruleset = band_ruleset();
    let a = venue("SYNTH-BAND-A");
    let timeline_a = resolve_timeline(band_day(), &a, &ruleset);

    let band_a = derive_band(
        &BandDefinition::new(
            band_id("same-band"),
            "Same Band".to_string(),
            vec![a],
            derivation("single-venue band reused on both sides of derive_overlap"),
        )
        .expect("valid definition"),
        &[timeline_a],
    )
    .expect("band derives");

    assert_eq!(
        derive_overlap(&band_a, &band_a),
        Err(BandError::SameBand(band_id("same-band")))
    );
}

// ------------------------------------------------------------- BandDefinition validation

#[test]
fn a_band_definition_rejects_empty_and_duplicate_members() {
    assert_eq!(
        BandDefinition::new(
            band_id("empty"),
            "Empty Band".to_string(),
            Vec::new(),
            derivation("no members"),
        ),
        Err(BandError::NoMembers)
    );

    let a = venue("SYNTH-BAND-A");
    assert_eq!(
        BandDefinition::new(
            band_id("dup"),
            "Duplicate Band".to_string(),
            vec![a.clone(), a.clone()],
            derivation("the same venue listed twice"),
        ),
        Err(BandError::DuplicateMember(a))
    );
}

#[test]
fn a_band_definition_carries_its_derivation_note() {
    // A `BandDefinition` cannot be constructed without a `DerivationNote` — the constructor
    // requires one as a parameter, so "derived, unexplained" is not representable, the same
    // guarantee `DerivationNote::new` itself gives (evidence.rs).
    let definition = BandDefinition::new(
        band_id("labelled"),
        "Labelled Band".to_string(),
        vec![venue("SYNTH-BAND-A")],
        derivation("exactly one member, for inspecting the definition's accessors"),
    )
    .expect("valid definition");

    assert_eq!(definition.id(), &band_id("labelled"));
    assert_eq!(definition.display_name(), "Labelled Band");
    assert_eq!(
        definition.derivation().reasoning(),
        "exactly one member, for inspecting the definition's accessors"
    );
}


#[test]
fn widen_optional_treats_none_as_nothing_known() {
    assert_eq!(widen_optional(None, None), None);
    assert_eq!(widen_optional(None, Some(Uncertainty::minutes(1))), Some(Uncertainty::minutes(1)));
    assert_eq!(widen_optional(Some(Uncertainty::minutes(5)), None), Some(Uncertainty::minutes(5)));
}

#[test]
fn widen_optional_picks_the_wider_of_two_known_values() {
    let wide = widen_optional(Some(Uncertainty::minutes(1)), Some(Uncertainty::minutes(10)))
        .expect("both sides known");
    assert!(wide.is_at_least_as_wide_as(&Uncertainty::minutes(10)));
}

#[test]
fn a_member_without_a_timeline_is_named() {
    let ruleset = band_ruleset();
    let a = venue("SYNTH-BAND-A");
    let b = venue("SYNTH-BAND-B");
    let timeline_a = resolve_timeline(band_day(), &a, &ruleset);
    let definition = BandDefinition::new(
        band_id("missing"),
        "Missing Member".to_string(),
        vec![a, b.clone()],
        derivation("B has no timeline here"),
    )
    .expect("valid definition");
    assert_eq!(derive_band(&definition, &[timeline_a]), Err(BandError::MissingMemberTimeline(b)));
}

#[test]
fn members_over_different_intervals_are_rejected() {
    let ruleset = band_ruleset();
    let a = venue("SYNTH-BAND-A");
    let b = venue("SYNTH-BAND-B");
    let timeline_a = resolve_timeline(band_day(), &a, &ruleset);
    let short = interval("2026-01-01T00:00:00Z", "2026-01-01T12:00:00Z");
    let timeline_b = resolve_timeline(short, &b, &ruleset);
    let definition = BandDefinition::new(
        band_id("mismatch"),
        "Mismatched".to_string(),
        vec![a.clone(), b.clone()],
        derivation("two intervals"),
    )
    .expect("valid definition");
    assert_eq!(
        derive_band(&definition, &[timeline_a, timeline_b]),
        Err(BandError::MemberIntervalMismatch {
            first_venue: a,
            first_interval: band_day(),
            other_venue: b,
            other_interval: short,
        })
    );
}

#[test]
fn a_band_of_two_bands_over_different_days_cannot_overlap() {
    let ruleset = band_ruleset();
    let a = venue("SYNTH-BAND-A");
    let b = venue("SYNTH-BAND-B");
    let band_a = derive_band(
        &BandDefinition::new(band_id("x"), "X".to_string(), vec![a.clone()], derivation("x")).expect("valid"),
        &[resolve_timeline(band_day(), &a, &ruleset)],
    )
    .expect("band derives");
    let short = interval("2026-01-01T00:00:00Z", "2026-01-01T12:00:00Z");
    let band_b = derive_band(
        &BandDefinition::new(band_id("y"), "Y".to_string(), vec![b.clone()], derivation("y")).expect("valid"),
        &[resolve_timeline(short, &b, &ruleset)],
    )
    .expect("band derives");
    assert_eq!(
        derive_overlap(&band_a, &band_b),
        Err(BandError::BandIntervalMismatch { first: band_id("x"), second: band_id("y") })
    );
}

#[test]
fn an_overlap_says_how_it_was_computed() {
    let ruleset = band_ruleset();
    let a = venue("SYNTH-BAND-A");
    let b = venue("SYNTH-BAND-B");
    let band_a = derive_band(
        &BandDefinition::new(band_id("x"), "Band X".to_string(), vec![a.clone()], derivation("x")).expect("valid"),
        &[resolve_timeline(band_day(), &a, &ruleset)],
    )
    .expect("band derives");
    let band_b = derive_band(
        &BandDefinition::new(band_id("y"), "Band Y".to_string(), vec![b.clone()], derivation("y")).expect("valid"),
        &[resolve_timeline(band_day(), &b, &ruleset)],
    )
    .expect("band derives");
    let overlap = derive_overlap(&band_a, &band_b).expect("overlap derives");
    assert_eq!(
        overlap.derivation().reasoning(),
        "computed as the overlap of session bands \"Band X\" and \"Band Y\"; no venue publishes a combined window"
    );
    assert_eq!(overlap.bands(), &[band_id("x"), band_id("y")]);
    let states: Vec<OverlapState> = overlap.segments().iter().map(|s| s.state).collect();
    assert_eq!(
        states,
        vec![OverlapState::NotOverlapping, OverlapState::Overlapping, OverlapState::NotOverlapping]
    );
}

fn auction_then_continuous_ruleset() -> Ruleset {
    let day = CivilDate::new(2026, 1, 1).expect("valid date");
    let mut venue_rules = one_day_venue("SYNTH-BAND-AUCT", "2026-01-02T00:00:00Z", 8, 12, 5, "https://synthetic.test/band-auct/trading-rules");
    venue_rules.rules = vec![Rule {
        kind: RuleKind::WeeklyPattern { weekdays: every_day() },
        schedule: CivilDaySchedule::new(vec![
            (CivilTime::midnight(), Phase::Closed),
            (time(8), Phase::OpeningAuction),
            (time(9), Phase::ContinuousTrading),
            (time(12), Phase::Closed),
        ])
        .expect("test schedule tiles the day"),
        applies: DateRange::new(day, day).expect("forwards"),
        boundary_uncertainty: Uncertainty::minutes(5),
        evidence: evidence("https://synthetic.test/band-auct/trading-rules"),
        derived: None,
        revision: revision_id(),
    }];
    let revision = DatasetRevision {
        id: revision_id(),
        supersedes: None,
        iana_tzdb_version: None,
        assembled_at: instant("2026-07-30T00:00:00Z"),
    };
    Ruleset::from_parts(vec![revision], vec![venue_rules]).expect("a valid ruleset")
}

#[test]
fn adjacent_matching_band_segments_merge_and_widen_uncertainty() {
    let ruleset = auction_then_continuous_ruleset();
    let member = venue("SYNTH-BAND-AUCT");
    let timeline = resolve_timeline(band_day(), &member, &ruleset);
    let definition = BandDefinition::new(
        band_id("test-band-auct"),
        "Auction then continuous".to_string(),
        vec![member.clone()],
        derivation("one venue, two trading phases back to back"),
    )
    .expect("a valid definition");
    let band = derive_band(&definition, &[timeline]).expect("band derives");
    let trading: Vec<&BandSegment> =
        band.segments().iter().filter(|segment| segment.state == BandState::Trading).collect();
    assert_eq!(trading.len(), 1, "the auction and continuous trading merge into one trading stretch");
    assert_eq!(trading[0].interval.start, instant("2026-01-01T08:00:00Z"));
    assert_eq!(trading[0].interval.end, instant("2026-01-01T12:00:00Z"));
    assert!(trading[0]
        .uncertainty
        .as_ref()
        .expect("the member is covered")
        .is_at_least_as_wide_as(&Uncertainty::minutes(5)));
}

#[test]
fn band_segments_with_different_state_do_not_merge() {
    let ruleset = band_ruleset();
    let member = venue("SYNTH-BAND-A");
    let timeline = resolve_timeline(band_day(), &member, &ruleset);
    let definition = BandDefinition::new(
        band_id("test-band-a"),
        "Band A".to_string(),
        vec![member.clone()],
        derivation("a single venue"),
    )
    .expect("a valid definition");
    let band = derive_band(&definition, &[timeline]).expect("band derives");
    let states: Vec<BandState> = band.segments().iter().map(|segment| segment.state).collect();
    assert_eq!(states, vec![BandState::NotTrading, BandState::Trading, BandState::NotTrading]);
}

#[test]
fn an_overlap_is_the_same_in_either_order_and_carries_the_widest_uncertainty() {
    let ruleset = band_ruleset();
    let single = |venue_id: &str, band: &str| {
        let id = venue(venue_id);
        let timeline = resolve_timeline(band_day(), &id, &ruleset);
        derive_band(
            &BandDefinition::new(band_id(band), band.to_string(), vec![id], derivation("single-venue band"))
                .expect("valid definition"),
            &[timeline],
        )
        .expect("band derives")
    };
    let band_a = single("SYNTH-BAND-A", "band-a");
    let band_b = single("SYNTH-BAND-B-GAP", "band-b");
    let forward = derive_overlap(&band_a, &band_b).expect("overlap derives");
    let backward = derive_overlap(&band_b, &band_a).expect("overlap derives");

    assert_eq!(forward.segments().len(), backward.segments().len());
    for (f, b) in forward.segments().iter().zip(backward.segments()) {
        assert_eq!(f.interval, b.interval);
        assert_eq!(f.state, b.state);
        assert_eq!(f.uncertainty, b.uncertainty);
    }
    assert_eq!(forward.bands()[0], backward.bands()[1]);
    assert_eq!(forward.bands()[1], backward.bands()[0]);

    // Where band B is known, its ten-minute boundary is the widest; after its coverage
    // ends, only band A is known, and its one-minute boundary is what the overlap carries.
    for segment in forward.segments() {
        let end = segment.interval.end;
        if end <= instant("2026-01-01T11:00:00Z") {
            assert_eq!(segment.uncertainty, Some(Uncertainty::minutes(10)), "{segment:?}");
        } else {
            assert_eq!(segment.state, OverlapState::Unknown);
            assert_eq!(segment.uncertainty, Some(Uncertainty::minutes(1)), "{segment:?}");
        }
    }
}

#[test]
fn a_band_segment_carries_the_widest_uncertainty_of_its_known_members() {
    let ruleset = band_ruleset();
    let a = venue("SYNTH-BAND-A");
    let b = venue("SYNTH-BAND-B-GAP");
    let band = derive_band(
        &BandDefinition::new(
            band_id("band-ab"),
            "Band AB".to_string(),
            vec![a.clone(), b.clone()],
            derivation("two venues, one of which loses coverage"),
        )
        .expect("valid definition"),
        &[resolve_timeline(band_day(), &a, &ruleset), resolve_timeline(band_day(), &b, &ruleset)],
    )
    .expect("band derives");
    for segment in band.segments() {
        if segment.interval.end <= instant("2026-01-01T11:00:00Z") {
            assert_eq!(segment.uncertainty, Some(Uncertainty::minutes(10)), "{segment:?}");
        } else {
            assert_eq!(segment.state, BandState::Unknown);
            assert_eq!(segment.uncertainty, Some(Uncertainty::minutes(1)), "{segment:?}");
        }
    }
}
