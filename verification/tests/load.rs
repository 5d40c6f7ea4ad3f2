//! Dataset records become a validated ruleset, or are refused with the first problem met.

use market_time::format::{
    BandRecord, ChangePointRecord, CoverageRecord, DatasetFile, DateRangeRecord, EventRecord,
    EvidenceRecord, RevisionRecord, RuleKindRecord, RuleRecord, UncertaintyRecord, VenueRecord,
};
use market_time::load::{
    dataset_from_file, read_instant, read_time, read_uncertainty, read_weekday, LoadError,
};
use market_time::civil::Weekday;
use market_time::uncertainty::Uncertainty;

fn s(text: &str) -> String {
    text.to_string()
}

fn evidence(url: &str) -> EvidenceRecord {
    EvidenceRecord {
        source_url: s(url),
        fetched_at: s("2026-01-01T00:00:00Z"),
        effective_from: s("2026-01-01"),
        publisher_last_changed: None,
        terms: None,
        digest: None,
    }
}

fn rule(weekdays: &[&str], schedule: &[(&str, &str)], start: &str, end: &str, url: &str) -> RuleRecord {
    RuleRecord {
        kind: RuleKindRecord::WeeklyPattern {
            weekdays: weekdays.iter().map(|day| s(day)).collect(),
        },
        schedule: schedule
            .iter()
            .map(|(at, phase)| ChangePointRecord { at: s(at), phase: s(phase) })
            .collect(),
        applies: DateRangeRecord { start: s(start), end: s(end) },
        boundary_uncertainty: UncertaintyRecord::Exact,
        evidence: evidence(url),
        derived_reasoning: None,
        revision: s("r1"),
    }
}

fn venue(id: &str, coverage_end: &str, rules: Vec<RuleRecord>) -> VenueRecord {
    VenueRecord {
        venue: s(id),
        home_zone: s("UTC"),
        display_name: None,
        location: None,
        family: None,
        coverage: CoverageRecord { start: s("2026-01-01T00:00:00Z"), end: s(coverage_end) },
        evidence: Vec::new(),
        rules,
        events: Vec::new(),
    }
}

fn revision() -> RevisionRecord {
    RevisionRecord {
        id: s("r1"),
        supersedes: None,
        iana_tzdb_version: None,
        assembled_at: s("2026-01-01T00:00:00Z"),
    }
}

fn one_venue(rule: RuleRecord, coverage_end: &str) -> DatasetFile {
    DatasetFile {
        revisions: vec![revision()],
        venues: vec![venue("V", coverage_end, vec![rule])],
        bands: Vec::new(),
    }
}

const ALL_WEEK: [&str; 7] = ["mon", "tue", "wed", "thu", "fri", "sat", "sun"];

/// Two venues, both always trading, with the given bands.
fn dataset_with_bands(bands: Vec<BandRecord>) -> DatasetFile {
    let always = |id: &str, url: &str| {
        venue(
            id,
            "2026-01-08T00:00:00Z",
            vec![rule(&ALL_WEEK, &[("00:00", "continuous_trading")], "2026-01-01", "2026-01-07", url)],
        )
    };
    DatasetFile {
        revisions: vec![revision()],
        venues: vec![always("V1", "https://synthetic.test/v1"), always("V2", "https://synthetic.test/v2")],
        bands,
    }
}

fn band(id: &str, display_name: &str, members: &[&str], reasoning: &str) -> BandRecord {
    BandRecord {
        id: s(id),
        display_name: s(display_name),
        members: members.iter().map(|member| s(member)).collect(),
        derived_reasoning: s(reasoning),
    }
}

#[test]
fn a_dataset_may_not_invent_a_phase_name() {
    let file = one_venue(
        rule(&["thu"], &[("00:00", "night_session")], "2026-01-01", "2026-01-01", "https://synthetic.test/v"),
        "2026-01-02T00:00:00Z",
    );
    assert_eq!(
        dataset_from_file(&file).err(),
        Some(LoadError::UnknownPhase { phase: "night_session".to_owned() })
    );
}

#[test]
fn a_rule_without_evidence_does_not_load() {
    let file = one_venue(
        rule(&["thu"], &[("00:00", "closed")], "2026-01-01", "2026-01-01", "  "),
        "2026-01-02T00:00:00Z",
    );
    assert!(
        matches!(dataset_from_file(&file), Err(LoadError::Invalid(_))),
        "a rule with no source document must not load, however obviously correct it looks"
    );
}

#[test]
fn coverage_the_rules_cannot_answer_is_rejected() {
    let file = one_venue(
        rule(&["thu"], &[("00:00", "closed")], "2026-01-01", "2026-01-01", "https://synthetic.test/v"),
        "2026-01-03T00:00:00Z",
    );
    assert!(
        matches!(dataset_from_file(&file), Err(LoadError::Invalid(_))),
        "coverage that promises more than the rules can answer is rejected before any query"
    );
}

#[test]
fn a_band_naming_an_unknown_venue_is_rejected() {
    let file = dataset_with_bands(vec![band("b1", "B1", &["V1", "GHOST"], "test")]);
    assert_eq!(
        dataset_from_file(&file).err(),
        Some(LoadError::UnknownBandMember { band: "b1".to_owned(), venue: "GHOST".to_owned() })
    );
}

#[test]
fn a_band_with_no_members_is_rejected() {
    let file = dataset_with_bands(vec![band("b1", "B1", &[], "test")]);
    assert!(
        matches!(dataset_from_file(&file), Err(LoadError::Invalid(_))),
        "a band with nothing to derive from is not a band"
    );
}

#[test]
fn a_band_with_a_duplicate_member_is_rejected() {
    let file = dataset_with_bands(vec![band("b1", "B1", &["V1", "V1"], "test")]);
    assert!(
        matches!(dataset_from_file(&file), Err(LoadError::Invalid(_))),
        "the same venue counted twice would double its vote toward the band"
    );
}

#[test]
fn a_band_with_blank_reasoning_is_rejected() {
    let file = dataset_with_bands(vec![band("b1", "B1", &["V1"], "   ")]);
    assert!(
        matches!(dataset_from_file(&file), Err(LoadError::Invalid(_))),
        "a band with no stated reasoning cannot be expressed, same as DerivationNote::new"
    );
}

#[test]
fn a_band_with_a_blank_id_is_rejected() {
    let file = dataset_with_bands(vec![band("   ", "B1", &["V1"], "test")]);
    assert!(
        matches!(dataset_from_file(&file), Err(LoadError::Invalid(_))),
        "a blank identifier names nothing, same as any other id in this format"
    );
}

#[test]
fn two_bands_sharing_an_id_are_rejected() {
    let file = dataset_with_bands(vec![
        band("b1", "First", &["V1"], "test"),
        band("b1", "Second", &["V2"], "test"),
    ]);
    assert_eq!(
        dataset_from_file(&file).err(),
        Some(LoadError::DuplicateBandId { id: "b1".to_owned() })
    );
}

#[test]
fn a_dataset_with_an_empty_bands_array_loads_with_no_bands() {
    let file = dataset_with_bands(Vec::new());
    let dataset = dataset_from_file(&file).expect("a dataset with an empty bands array still loads");
    assert!(dataset.bands.is_empty());
    assert_eq!(dataset.ruleset.venues().len(), 2);
}

#[test]
fn declared_bands_load_with_their_members_in_order() {
    let file = dataset_with_bands(vec![band("b1", "Both", &["V2", "V1"], "they overlap")]);
    let dataset = dataset_from_file(&file).expect("loads");
    assert_eq!(dataset.bands.len(), 1);
    let loaded = &dataset.bands[0];
    assert_eq!(loaded.id().as_str(), "b1");
    assert_eq!(loaded.display_name(), "Both");
    let members: Vec<&str> = loaded.members().iter().map(|m| m.as_str()).collect();
    assert_eq!(members, vec!["V2", "V1"]);
    assert_eq!(loaded.derivation().reasoning(), "they overlap");
}

#[test]
fn the_reversed_date_range_message_names_both_dates() {
    let file = one_venue(
        rule(&["thu"], &[("00:00", "closed")], "2026-01-02", "2026-01-01", "https://synthetic.test/v"),
        "2026-01-02T00:00:00Z",
    );
    assert_eq!(
        dataset_from_file(&file).err(),
        Some(LoadError::Invalid(
            "date range ends at 2026-01-01, before it starts at 2026-01-02".to_owned()
        ))
    );
}

#[test]
fn an_unknown_zone_is_refused_by_the_ruleset_with_its_message() {
    let mut file = one_venue(
        rule(&["thu"], &[("00:00", "closed")], "2026-01-01", "2026-01-01", "https://synthetic.test/v"),
        "2026-01-02T00:00:00Z",
    );
    file.venues[0].home_zone = s("Mars/Olympus_Mons");
    assert_eq!(
        dataset_from_file(&file).err(),
        Some(LoadError::Invalid("venue V declares unknown zone Mars/Olympus_Mons".to_owned()))
    );
}

#[test]
fn each_bad_field_is_named() {
    let mut bad_instant = one_venue(
        rule(&["thu"], &[("00:00", "closed")], "2026-01-01", "2026-01-01", "https://synthetic.test/v"),
        "2026-01-02T00:00:00Z",
    );
    bad_instant.revisions[0].assembled_at = s("yesterday");
    assert_eq!(
        dataset_from_file(&bad_instant).err(),
        Some(LoadError::BadInstant { value: s("yesterday") })
    );

    let bad_time = one_venue(
        rule(&["thu"], &[("25:00", "closed")], "2026-01-01", "2026-01-01", "https://synthetic.test/v"),
        "2026-01-02T00:00:00Z",
    );
    assert_eq!(dataset_from_file(&bad_time).err(), Some(LoadError::BadTime { value: s("25:00") }));

    let bad_day = one_venue(
        rule(&["thursday-ish"], &[("00:00", "closed")], "2026-01-01", "2026-01-01", "https://synthetic.test/v"),
        "2026-01-02T00:00:00Z",
    );
    assert_eq!(
        dataset_from_file(&bad_day).err(),
        Some(LoadError::BadWeekday { value: s("thursday-ish") })
    );

    let bad_date = one_venue(
        rule(&["thu"], &[("00:00", "closed")], "2026-02-30", "2026-01-01", "https://synthetic.test/v"),
        "2026-01-02T00:00:00Z",
    );
    assert_eq!(dataset_from_file(&bad_date).err(), Some(LoadError::BadDate { value: s("2026-02-30") }));

    let mut bad_family = one_venue(
        rule(&["thu"], &[("00:00", "closed")], "2026-01-01", "2026-01-01", "https://synthetic.test/v"),
        "2026-01-02T00:00:00Z",
    );
    bad_family.venues[0].family = Some(s("crypto"));
    assert_eq!(
        dataset_from_file(&bad_family).err(),
        Some(LoadError::UnknownFamily { family: s("crypto") })
    );

    let mut bad_event = one_venue(
        rule(&["thu"], &[("00:00", "closed")], "2026-01-01", "2026-01-01", "https://synthetic.test/v"),
        "2026-01-02T00:00:00Z",
    );
    bad_event.venues[0].events.push(EventRecord {
        kind: s("dividend"),
        times: vec![s("08:00")],
        applies: DateRangeRecord { start: s("2026-01-01"), end: s("2026-01-01") },
        uncertainty: UncertaintyRecord::Exact,
        evidence: evidence("https://synthetic.test/v"),
        revision: s("r1"),
    });
    assert_eq!(
        dataset_from_file(&bad_event).err(),
        Some(LoadError::UnknownEventKind { kind: s("dividend") })
    );
}

#[test]
fn weekday_names_ignore_ascii_case_and_times_gain_seconds() {
    assert_eq!(read_weekday("Mon"), Ok(Weekday::Monday));
    assert_eq!(read_weekday("SUNDAY"), Ok(Weekday::Sunday));
    assert_eq!(read_weekday("Mo"), Err(LoadError::BadWeekday { value: s("Mo") }));
    let time = read_time("09:30").expect("HH:MM reads");
    assert_eq!((time.hour(), time.minute(), time.second()), (9, 30, 0));
    let time = read_time("09:30:15").expect("HH:MM:SS reads");
    assert_eq!(time.second(), 15);
    assert_eq!(read_time("9h30"), Err(LoadError::BadTime { value: s("9h30") }));
}

#[test]
fn instants_read_to_the_nanosecond() {
    let at = read_instant("2026-07-30T02:00:00Z").expect("RFC 3339 reads");
    assert_eq!(at.as_nanos_since_unix_epoch(), 1_785_376_800_000_000_000);
    assert_eq!(read_instant("2026-07-30").err(), Some(LoadError::BadInstant { value: s("2026-07-30") }));
}

#[test]
fn published_seconds_become_nanoseconds() {
    assert_eq!(
        read_uncertainty(&UncertaintyRecord::PublishedGranularity { seconds: 60 }),
        Uncertainty::PublishedGranularity { nanos: 60_000_000_000 }
    );
    assert_eq!(
        read_uncertainty(&UncertaintyRecord::PublishedBound { seconds: 2, published_as: s("+/- 2s") }),
        Uncertainty::PublishedBound { nanos: 2_000_000_000, published_as: s("+/- 2s") }
    );
}

#[test]
fn load_errors_read_as_sentences_with_the_offending_value_quoted() {
    let s = |text: &str| text.to_string();
    assert_eq!(
        LoadError::Unreadable { path: s("/data/venues.json"), source: s("not found") }.describe(),
        "cannot read /data/venues.json: not found"
    );
    assert_eq!(
        LoadError::Malformed(s("expected value at line 1")).describe(),
        "dataset is not in the expected format: expected value at line 1"
    );
    assert_eq!(
        LoadError::Invalid(s("coverage ends before it starts")).describe(),
        "dataset does not describe a valid ruleset: coverage ends before it starts"
    );
    assert_eq!(
        LoadError::UnknownPhase { phase: s("lunch") }.describe(),
        "dataset uses phase \"lunch\", which is not in the shared vocabulary; a venue may not \
         introduce a phase name of its own"
    );
    assert_eq!(
        LoadError::UnknownFamily { family: s("crypto") }.describe(),
        format!(
            "dataset uses asset family \"crypto\", which is not one of equities,{}spot_and_fx, or futures",
            " ".repeat(18)
        )
    );
    assert_eq!(
        LoadError::UnknownEventKind { kind: s("fixing") }.describe(),
        "dataset uses event kind \"fixing\", which is not in the vocabulary"
    );
    assert_eq!(
        LoadError::BadInstant { value: s("yesterday") }.describe(),
        "\"yesterday\" is not an RFC 3339 instant"
    );
    assert_eq!(
        LoadError::BadDate { value: s("2026-13-01") }.describe(),
        "\"2026-13-01\" is not a YYYY-MM-DD date"
    );
    assert_eq!(
        LoadError::BadTime { value: s("9\"30") }.describe(),
        "\"9\\\"30\" is not an HH:MM time of day"
    );
    assert_eq!(
        LoadError::BadWeekday { value: s("funday\n") }.describe(),
        "\"funday\\n\" is not a weekday name"
    );
    assert_eq!(
        LoadError::UnknownBandMember { band: s("ASIA"), venue: s("NOPE") }.describe(),
        "band \"ASIA\" names venue \"NOPE\", which is not among this file's venues; a band may \
         not name a venue the dataset cannot answer for"
    );
    assert_eq!(
        LoadError::DuplicateBandId { id: s("ASIA") }.describe(),
        "band id \"ASIA\" is used by more than one band in this file"
    );
}
