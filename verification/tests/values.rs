//! The library's small value types: vocabularies, identifiers, evidence, uncertainty,
//! civil readings and rule building blocks.

use market_time::board::format_instant;
use market_time::catalog::{AssetFamily, VenueProfile};
use market_time::civil::{CivilDate, CivilError, CivilInstant, CivilResolution, CivilTime, Weekday};
use market_time::coverage::{CoverageGap, CoverageRange};
use market_time::event::EventKind;
use market_time::evidence::{DerivationNote, EvidenceError, EvidenceRef};
use market_time::ids::{IanaZoneId, IdentifierError, VenueId};
use market_time::instant::{Interval, IntervalError, UtcInstant, NANOS_PER_SECOND};
use market_time::phase::Phase;
use market_time::rule::{CivilDaySchedule, DateRange, RuleError, RuleKind};
use market_time::text::text_compare;
use market_time::uncertainty::Uncertainty;

fn new_york(text: &str) -> CivilInstant {
    CivilInstant::parse(IanaZoneId::new("America/New_York".to_string()).expect("valid zone"), text)
        .expect("valid civil reading")
}

fn seconds(n: i64) -> UtcInstant {
    UtcInstant::from_seconds_since_unix_epoch(n)
}

#[test]
fn the_family_vocabulary_is_closed() {
    for family in AssetFamily::all() {
        assert_eq!(AssetFamily::from_str_exact(family.as_str()), Some(family));
    }
    assert_eq!(AssetFamily::from_str_exact("commodities_and_futures"), None);
}

#[test]
fn a_venue_without_a_name_falls_back_to_its_identifier() {
    assert_eq!(VenueProfile::default().label("XSHG"), "XSHG");
}

#[test]
fn a_venue_with_a_name_is_labelled_by_it() {
    let profile = VenueProfile {
        display_name: Some("Shanghai Stock Exchange".to_string()),
        location: None,
        family: None,
    };
    assert_eq!(profile.label("XSHG"), "Shanghai Stock Exchange");
}

#[test]
fn a_derived_rule_cannot_ship_unexplained() {
    assert_eq!(DerivationNote::new(" ".to_string()), Err(EvidenceError::DerivedWithoutReasoning));
    assert!(DerivationNote::new("two intervals unassigned; read from the trading rules".to_string()).is_ok());
}

#[test]
fn evidence_without_a_source_is_rejected() {
    assert_eq!(
        EvidenceRef::new("   ".to_string(), seconds(1_750_000_000), "2026-01-01".to_string()),
        Err(EvidenceError::MissingSourceUrl)
    );
}

#[test]
fn evidence_without_an_effective_date_is_rejected() {
    assert_eq!(
        EvidenceRef::new("https://example.test/rules".to_string(), seconds(1_750_000_000), String::new()),
        Err(EvidenceError::MissingEffectiveFrom)
    );
}

#[test]
fn evidence_keeps_what_the_publisher_said() {
    let evidence = EvidenceRef::new(
        "https://example.test/rules".to_string(),
        seconds(1_750_000_000),
        "2026-01-01".to_string(),
    )
    .expect("complete evidence")
    .with_publisher_last_changed("2025-12-01".to_string());
    assert_eq!(evidence.source_url(), "https://example.test/rules");
    assert_eq!(evidence.effective_from(), "2026-01-01");
    assert_eq!(evidence.fetched_at(), seconds(1_750_000_000));
    assert_eq!(evidence.publisher_last_changed(), Some("2025-12-01"));
}

#[test]
fn the_vocabulary_round_trips_and_is_closed() {
    for phase in Phase::all() {
        assert_eq!(Phase::from_str_exact(phase.as_str()), Some(phase));
    }
    assert_eq!(Phase::from_str_exact("after_hours_fixed_price"), None);
    assert_eq!(Phase::from_str_exact("night_session"), None);
}

#[test]
fn only_auctions_and_continuous_trading_trade() {
    let trading: Vec<Phase> = Phase::all().into_iter().filter(|p| p.is_trading()).collect();
    assert_eq!(
        trading,
        vec![Phase::OpeningAuction, Phase::ContinuousTrading, Phase::ClosingAuction]
    );
}

#[test]
fn the_event_vocabulary_round_trips() {
    assert_eq!(EventKind::from_str_exact(EventKind::FundingSettlement.as_str()), Some(EventKind::FundingSettlement));
    assert_eq!(EventKind::from_str_exact("liquidation"), None);
}

#[test]
fn an_unpublished_spread_is_wider_than_any_number() {
    let process = Uncertainty::ProcessStart { process: "opening process".to_string() };
    let minute = Uncertainty::minutes(1);
    assert_eq!(process.clone().widest(minute.clone()), process);
    assert!(process.is_at_least_as_wide_as(&minute));
    assert!(!minute.is_at_least_as_wide_as(&process));
}

#[test]
fn a_published_bound_is_a_floor() {
    let venue_bound = Uncertainty::PublishedBound {
        nanos: 15 * NANOS_PER_SECOND,
        published_as: "±15 seconds".to_string(),
    };
    assert!(!Uncertainty::seconds(1).is_at_least_as_wide_as(&venue_bound));
    assert!(Uncertainty::seconds(30).is_at_least_as_wide_as(&venue_bound));
}

#[test]
fn exact_is_zero_width_not_unknown_width() {
    assert_eq!(Uncertainty::Exact.bound_nanos(), Some(0));
}

#[test]
fn a_minute_is_sixty_billion_nanoseconds() {
    assert_eq!(Uncertainty::minutes(1).bound_nanos(), Some(60 * NANOS_PER_SECOND));
    assert_eq!(Uncertainty::minutes(1).widest(Uncertainty::seconds(90)), Uncertainty::seconds(90));
}

#[test]
fn blank_identifiers_are_rejected() {
    assert!(VenueId::new("  ".to_string()).is_err());
    let err: IdentifierError = IanaZoneId::new(String::new()).expect_err("blank zone");
    assert!(!err.message().is_empty());
    assert_eq!(VenueId::new("SSE".to_string()).expect("valid").as_str(), "SSE");
}

#[test]
fn an_interval_must_run_forwards() {
    assert_eq!(
        Interval::new(seconds(10), seconds(10)),
        Err(IntervalError::NotIncreasing { start: seconds(10), end: seconds(10) })
    );
    let interval = Interval::new(seconds(10), seconds(20)).expect("forwards");
    assert!(interval.contains(seconds(10)));
    assert!(!interval.contains(seconds(20)));
    let other = Interval::new(seconds(15), seconds(30)).expect("forwards");
    assert_eq!(interval.intersection(other), Interval::new(seconds(15), seconds(20)).ok());
    assert_eq!(interval.intersection(Interval::new(seconds(20), seconds(30)).expect("forwards")), None);
}

#[test]
fn instants_saturate_rather_than_wrap() {
    let max = UtcInstant::from_nanos_since_unix_epoch(i128::MAX);
    assert_eq!(max.saturating_add_nanos(1), max);
    assert_eq!(seconds(0).saturating_nanos_until(seconds(2)), 2 * NANOS_PER_SECOND);
}

#[test]
fn an_instant_prints_as_rfc_3339() {
    assert_eq!(seconds(0).to_string(), "1970-01-01T00:00:00Z");
    let beyond = UtcInstant::from_nanos_since_unix_epoch(i128::MAX);
    assert_eq!(
        beyond.to_string(),
        "170141183460469231731687303715884105727 ns since the Unix epoch"
    );
    let before = UtcInstant::from_nanos_since_unix_epoch(i128::MIN);
    assert!(before.to_string().starts_with("-170141183460469231731687303715884105728"));
}

#[test]
fn a_gap_names_the_side_of_coverage() {
    let venue = VenueId::new("SYNTH".to_string()).expect("valid");
    let range = CoverageRange::new(Interval::new(seconds(0), seconds(86_400)).expect("forwards"));
    let before = CoverageGap {
        venue: venue.clone(),
        queried_at: seconds(-1),
        coverage: Some(range),
        dataset_revisions: Vec::new(),
    };
    assert_eq!(before.describe(), "before SYNTH coverage begins at 1970-01-01T00:00:00Z");
    let after = CoverageGap {
        venue: venue.clone(),
        queried_at: seconds(86_400),
        coverage: Some(range),
        dataset_revisions: Vec::new(),
    };
    assert_eq!(after.describe(), "after SYNTH coverage ends at 1970-01-02T00:00:00Z");
    let none = CoverageGap { venue, queried_at: seconds(0), coverage: None, dataset_revisions: Vec::new() };
    assert_eq!(none.describe(), "no coverage is declared for SYNTH");
}

#[test]
fn an_ordinary_reading_names_one_instant() {
    let resolution = new_york("2026-07-15T09:30:00").to_utc();
    assert!(resolution.is_unambiguous());
    assert_eq!(
        resolution.unambiguous(),
        Some(UtcInstant::from_seconds_since_unix_epoch(1_784_122_200))
    );
}

#[test]
fn the_hour_that_happens_twice_is_reported_as_two() {
    let resolution = new_york("2026-11-01T01:30:00").to_utc();
    match resolution {
        CivilResolution::Ambiguous { earlier, later } => {
            assert!(earlier.is_before(later));
            assert_eq!(
                earlier.saturating_nanos_until(later),
                3_600 * NANOS_PER_SECOND,
                "the two occurrences are an hour apart"
            );
        }
        other => panic!("expected an ambiguous reading, got {other:?}"),
    }
    assert_eq!(resolution.unambiguous(), None, "no silent pick");
}

#[test]
fn the_hour_that_never_happens_is_reported_as_none_of_them() {
    let resolution = new_york("2026-03-08T02:30:00").to_utc();
    assert!(
        matches!(resolution, CivilResolution::Nonexistent { .. }),
        "got {resolution:?}"
    );
    assert_eq!(resolution.unambiguous(), None, "no invented instant");
    assert!(resolution.describe().starts_with("does not exist: the clocks jumped from "));
}

#[test]
fn a_zone_free_reading_cannot_be_built() {
    let zone = IanaZoneId::new("Mars/Olympus_Mons".to_string()).expect("non-empty");
    assert_eq!(
        CivilInstant::new(zone.clone(), CivilDate::new(2026, 1, 1).expect("valid"), CivilTime::midnight()),
        Err(CivilError::UnknownZone { zone })
    );
}

#[test]
fn a_nonexistent_reading_still_parses() {
    assert!(CivilInstant::parse(
        IanaZoneId::new("America/New_York".to_string()).expect("valid zone"),
        "2026-03-08T02:30:00"
    )
    .is_ok());
}

#[test]
fn a_reading_that_is_not_a_datetime_is_unparseable() {
    assert_eq!(
        CivilInstant::parse(IanaZoneId::new("UTC".to_string()).expect("valid zone"), "half past nine"),
        Err(CivilError::Unparseable { value: "half past nine".to_string() })
    );
}

#[test]
fn the_calendar_knows_its_dates() {
    assert!(CivilDate::new(2024, 2, 29).is_ok());
    assert!(CivilDate::new(2026, 2, 29).is_err());
    assert!(CivilDate::new(1900, 2, 29).is_err());
    assert!(CivilDate::new(2000, 2, 29).is_ok());
    let last = CivilDate::new(2026, 12, 31).expect("valid");
    assert_eq!(last.tomorrow(), CivilDate::new(2027, 1, 1).ok());
    assert_eq!(CivilDate::new(9999, 12, 31).expect("valid").tomorrow(), None);
    assert_eq!(CivilDate::new(2026, 7, 30).expect("valid").weekday(), Weekday::Thursday);
    assert!(CivilTime::new(24, 0, 0, 0).is_err());
    assert_eq!(CivilTime::new(9, 30, 0, 0).expect("valid").nanos_since_midnight(), 34_200 * 1_000_000_000);
}

#[test]
fn a_day_with_a_gap_cannot_be_expressed() {
    let not_midnight = vec![(CivilTime::new(9, 30, 0, 0).expect("valid"), Phase::ContinuousTrading)];
    assert_eq!(CivilDaySchedule::new(not_midnight), Err(RuleError::ScheduleDoesNotStartAtMidnight));
}

#[test]
fn change_points_must_increase() {
    let backwards = vec![
        (CivilTime::midnight(), Phase::Closed),
        (CivilTime::new(15, 0, 0, 0).expect("valid"), Phase::PostClose),
        (CivilTime::new(9, 30, 0, 0).expect("valid"), Phase::ContinuousTrading),
    ];
    assert_eq!(CivilDaySchedule::new(backwards), Err(RuleError::ScheduleNotOrdered));
}

#[test]
fn holidays_outrank_the_weekly_pattern() {
    let holiday = RuleKind::Holiday { name: "New Year".to_string() };
    let weekly = RuleKind::WeeklyPattern { weekdays: vec![Weekday::Monday] };
    assert!(holiday.precedence() > weekly.precedence());
}

#[test]
fn a_date_range_runs_forwards() {
    let start = CivilDate::new(2026, 1, 2).expect("valid");
    let end = CivilDate::new(2026, 1, 1).expect("valid");
    assert_eq!(DateRange::new(start, end), Err(RuleError::DateRangeReversed { start, end }));
    let range = DateRange::new(end, start).expect("forwards");
    assert!(range.contains(start));
    assert!(!range.contains(CivilDate::new(2026, 1, 3).expect("valid")));
}

#[test]
fn text_sorts_by_code_point() {
    assert!(text_compare("SYNTH-A", "SYNTH-B") < 0);
    assert_eq!(text_compare("SSE", "SSE"), 0);
    assert!(text_compare("SSE2", "SSE") > 0);
}

#[test]
fn dates_know_their_day_of_the_week() {
    let date = |y: i16, m: i8, d: i8| CivilDate::new(y, m, d).expect("valid date");
    assert_eq!(date(1970, 1, 1).weekday(), Weekday::Thursday);
    assert_eq!(date(2026, 1, 5).weekday(), Weekday::Monday);
    assert_eq!(date(2000, 2, 29).weekday(), Weekday::Tuesday);
    assert_eq!(date(2026, 7, 26).weekday(), Weekday::Sunday);
    assert_eq!(date(1, 1, 1).weekday(), Weekday::Monday);
}

#[test]
fn instants_are_written_in_rfc3339_utc_with_the_fraction_trimmed() {
    let nanos = |n: i128| UtcInstant::from_nanos_since_unix_epoch(n);
    assert_eq!(nanos(1_785_376_800_000_000_000).to_string(), "2026-07-30T02:00:00Z");
    assert_eq!(nanos(1_785_376_800_120_000_000).to_string(), "2026-07-30T02:00:00.12Z");
    assert_eq!(nanos(-1).to_string(), "1969-12-31T23:59:59.999999999Z");
    assert_eq!(nanos(0).to_string(), "1970-01-01T00:00:00Z");
    assert_eq!(nanos(951_782_400_000_000_000).to_string(), "2000-02-29T00:00:00Z");
}

#[test]
fn zones_come_from_the_bundled_database_never_the_host() {
    // Host zoneinfo installations commonly carry the leap-second `right/` and `posix/`
    // trees; the bundled database does not. Were the host's files consulted, these
    // names would be known.
    let date = CivilDate::new(2026, 7, 30).expect("valid date");
    let time = CivilTime::new(12, 0, 0, 0).expect("valid time");
    for name in ["right/UTC", "posix/Asia/Tokyo", "right/Europe/London"] {
        let zone = IanaZoneId::new(name.to_string()).expect("well-formed identifier");
        assert!(
            matches!(CivilInstant::new(zone, date, time), Err(CivilError::UnknownZone { .. })),
            "{name} must not be known"
        );
    }
    let zone = IanaZoneId::new("Asia/Tokyo".to_string()).expect("well-formed identifier");
    assert!(CivilInstant::new(zone, date, time).is_ok());
}

#[test]
fn instants_compare_as_their_nanosecond_counts() {
    let at = |n: i128| UtcInstant::from_nanos_since_unix_epoch(n);
    for (a, b) in [(-5i128, 7i128), (7, 7), (9, -3), (i128::MIN, i128::MAX)] {
        assert_eq!(at(a) <= at(b), a <= b);
        assert_eq!(at(a) < at(b), a < b);
        assert_eq!(at(a) >= at(b), a >= b);
        assert_eq!(at(a) > at(b), a > b);
        assert_eq!(at(a).as_nanos_since_unix_epoch(), a);
    }
}

#[test]
fn a_reading_no_offset_can_place_in_range_resolves_to_the_epoch() {
    let zone = IanaZoneId::new("Asia/Tokyo".to_string()).expect("well-formed identifier");
    let date = CivilDate::new(9999, 12, 31).expect("valid date");
    let time = CivilTime::new(12, 0, 0, 0).expect("valid time");
    let reading = CivilInstant::new(zone, date, time).expect("known zone");
    assert_eq!(reading.to_utc().unambiguous(), Some(UtcInstant::from_nanos_since_unix_epoch(0)));
}

#[test]
fn an_axis_zone_the_database_does_not_know_is_read_as_utc() {
    let at = UtcInstant::from_seconds_since_unix_epoch(1_785_376_800);
    assert_eq!(format_instant("UTC", at), "2026-07-30 02:00:00");
    assert_eq!(format_instant("Mars/Olympus_Mons", at), "2026-07-30 02:00:00");
    assert_eq!(format_instant("Asia/Tokyo", at), "2026-07-30 11:00:00");
}
