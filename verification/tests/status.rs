//! The status service's report: every venue answered at one shared instant.

use market_time::catalog::{AssetFamily, VenueProfile};
use market_time::civil::{CivilDate, CivilTime, Weekday};
use market_time::coverage::CoverageRange;
use market_time::evidence::EvidenceRef;
use market_time::ids::{DatasetRevisionId, IanaZoneId, VenueId};
use market_time::instant::{Interval, UtcInstant};
use market_time::phase::Phase;
use market_time::query::PhaseOutcome;
use market_time::rule::{CivilDaySchedule, DateRange, Rule, RuleKind};
use market_time::ruleset::{DatasetRevision, Ruleset, VenueRuleset};
use market_time::resolve::resolve_phase;
use market_time::status::{status_report, venue_listing};
use market_time::uncertainty::Uncertainty;

fn instant(text: &str) -> UtcInstant {
    let timestamp: jiff::Timestamp = text.parse().expect("valid timestamp");
    UtcInstant::from_nanos_since_unix_epoch(timestamp.as_nanosecond())
}

fn revision_id() -> DatasetRevisionId {
    DatasetRevisionId::new("status-2026-01".to_string()).expect("valid identifier")
}

fn evidence() -> EvidenceRef {
    EvidenceRef::new(
        "https://synthetic.test/status/hours".to_string(),
        instant("2026-01-01T00:00:00Z"),
        "2026-01-01".to_string(),
    )
    .expect("complete evidence")
}

fn venue(id: &str, zone: &str, last_day: (i16, i8, i8), profile: VenueProfile) -> VenueRuleset {
    let first = CivilDate::new(2026, 1, 1).expect("valid date");
    let last = CivilDate::new(last_day.0, last_day.1, last_day.2).expect("valid date");
    VenueRuleset {
        venue: VenueId::new(id.to_string()).expect("valid identifier"),
        profile,
        home_zone: IanaZoneId::new(zone.to_string()).expect("valid zone"),
        coverage: CoverageRange::new(
            Interval::new(instant("2026-01-01T00:00:00Z"), instant("2026-02-01T00:00:00Z"))
                .expect("forwards"),
        ),
        rules: vec![Rule {
            kind: RuleKind::WeeklyPattern {
                weekdays: vec![
                    Weekday::Monday,
                    Weekday::Tuesday,
                    Weekday::Wednesday,
                    Weekday::Thursday,
                    Weekday::Friday,
                    Weekday::Saturday,
                    Weekday::Sunday,
                ],
            },
            schedule: CivilDaySchedule::new(vec![
                (CivilTime::midnight(), Phase::Closed),
                (CivilTime::new(9, 0, 0, 0).expect("valid time"), Phase::ContinuousTrading),
                (CivilTime::new(17, 0, 0, 0).expect("valid time"), Phase::Closed),
            ])
            .expect("tiles the day"),
            applies: DateRange::new(first, last).expect("forwards"),
            boundary_uncertainty: Uncertainty::minutes(1),
            evidence: evidence(),
            derived: None,
            revision: revision_id(),
        }],
        events: Vec::new(),
        evidence: vec![evidence()],
    }
}

fn ruleset() -> Ruleset {
    Ruleset::from_parts(
        vec![DatasetRevision {
            id: revision_id(),
            supersedes: None,
            iana_tzdb_version: None,
            assembled_at: instant("2026-01-01T00:00:00Z"),
        }],
        vec![
            venue(
                "STATUS-TOKYO",
                "Asia/Tokyo",
                (2026, 2, 1),
                VenueProfile {
                    display_name: Some("Synthetic Tokyo".to_string()),
                    location: Some("Tokyo".to_string()),
                    family: Some(AssetFamily::Equities),
                },
            ),
            venue("STATUS-LONDON", "Europe/London", (2026, 1, 31), VenueProfile::default()),
        ],
    )
    .expect("a valid ruleset")
}

#[test]
fn a_status_report_answers_every_venue_at_one_instant() {
    let ruleset = ruleset();
    // 10:00 in London is 19:00 in Tokyo: one venue trades, the other has closed.
    let at = instant("2026-01-05T10:00:00Z");
    let report = status_report(at, true, &ruleset);

    assert_eq!(report.at, at);
    assert!(report.supplied);
    assert_eq!(report.tzdb_version.as_deref(), Some("2026e"));
    assert_eq!(report.dataset_revisions.len(), 1);
    assert_eq!(report.dataset_revisions[0].as_str(), "status-2026-01");
    assert_eq!(report.venues.len(), 2);

    // The ruleset keeps its venues in identifier order.
    let london = &report.venues[0];
    assert_eq!(london.venue.as_str(), "STATUS-LONDON");
    assert_eq!(london.label, "STATUS-LONDON", "no display name: the identifier stands in");
    assert_eq!(london.location, None);
    assert_eq!(london.home_zone.as_str(), "Europe/London");
    assert_eq!(london.outcome.phase(), Some(Phase::ContinuousTrading));

    let tokyo = &report.venues[1];
    assert_eq!(tokyo.venue.as_str(), "STATUS-TOKYO");
    assert_eq!(tokyo.label, "Synthetic Tokyo");
    assert_eq!(tokyo.location.as_deref(), Some("Tokyo"));
    assert_eq!(tokyo.home_zone.as_str(), "Asia/Tokyo");
    assert_eq!(tokyo.outcome.phase(), Some(Phase::Closed));
}

#[test]
fn a_status_report_outside_coverage_says_unknown_for_every_venue() {
    let ruleset = ruleset();
    let report = status_report(instant("2026-03-01T10:00:00Z"), false, &ruleset);
    assert!(!report.supplied);
    assert_eq!(report.venues.len(), 2);
    for line in &report.venues {
        assert!(matches!(line.outcome, PhaseOutcome::Unknown(_)), "{line:?}");
        assert!(line.outcome.is_unknown());
    }
}

#[test]
fn the_venue_listing_names_every_venue_with_its_zone_and_coverage() {
    let ruleset = ruleset();
    let listing = venue_listing(&ruleset);
    assert_eq!(listing.len(), 2);
    assert_eq!(listing[0].venue.as_str(), "STATUS-LONDON");
    assert_eq!(listing[0].profile, VenueProfile::default());
    assert_eq!(listing[0].home_zone.as_str(), "Europe/London");
    assert_eq!(listing[1].venue.as_str(), "STATUS-TOKYO");
    assert_eq!(listing[1].profile.family, Some(AssetFamily::Equities));
    assert_eq!(listing[1].coverage.start(), instant("2026-01-01T00:00:00Z"));
    assert_eq!(listing[1].coverage.end(), instant("2026-02-01T00:00:00Z"));
}

#[test]
fn a_gap_names_the_revisions_behind_the_venue_and_an_unknown_venue_names_them_all() {
    let other = DatasetRevisionId::new("status-2026-02".to_string()).expect("valid identifier");
    let ruleset = Ruleset::from_parts(
        vec![
            DatasetRevision {
                id: revision_id(),
                supersedes: None,
                iana_tzdb_version: None,
                assembled_at: instant("2026-01-01T00:00:00Z"),
            },
            DatasetRevision {
                id: other,
                supersedes: Some(revision_id()),
                iana_tzdb_version: None,
                assembled_at: instant("2026-02-01T00:00:00Z"),
            },
        ],
        vec![venue("STATUS-LONDON", "Europe/London", (2026, 1, 31), VenueProfile::default())],
    )
    .expect("a valid ruleset");
    let names = |outcome: &PhaseOutcome| match outcome {
        PhaseOutcome::Unknown(gap) => gap.dataset_revisions.iter().map(|r| r.as_str().to_string()).collect::<Vec<_>>(),
        PhaseOutcome::Known(_) => panic!("expected an unknown"),
    };
    let at = instant("2026-03-01T10:00:00Z");
    let london = VenueId::new("STATUS-LONDON".to_string()).expect("valid identifier");
    let nowhere = VenueId::new("STATUS-NOWHERE".to_string()).expect("valid identifier");
    assert_eq!(names(&resolve_phase(at, &london, &ruleset)), vec!["status-2026-01"]);
    assert_eq!(names(&resolve_phase(at, &nowhere, &ruleset)), vec!["status-2026-01", "status-2026-02"]);
}
