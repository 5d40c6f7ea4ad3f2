//! Assembling a revision: rules cite it, evidence comes from the retrieval, and a revision
//! the loader would reject is refused.

use market_time::fetch::{FetchedDocument, SourceRegistration};
use market_time::format::{
    ChangePointRecord, DateRangeRecord, EvidenceRecord, RuleKindRecord, RuleRecord,
    UncertaintyRecord,
};
use market_time::instant::UtcInstant;
use market_time::load::LoadError;
use market_time::revision::{evidence_from, AssemblyError, RevisionAssembly};

fn instant(text: &str) -> UtcInstant {
    let timestamp: jiff::Timestamp = text.parse().expect("test instant parses");
    UtcInstant::from_nanos_since_unix_epoch(timestamp.as_nanosecond())
}

fn placeholder_evidence() -> EvidenceRecord {
    EvidenceRecord {
        source_url: "https://operator.invalid/placeholder".to_owned(),
        fetched_at: "2026-01-01T00:00:00Z".to_owned(),
        effective_from: "2026-01-01".to_owned(),
        publisher_last_changed: None,
        terms: None,
        digest: None,
    }
}

fn day_rule() -> RuleRecord {
    RuleRecord {
        kind: RuleKindRecord::WeeklyPattern {
            weekdays: ["mon", "tue", "wed", "thu", "fri", "sat", "sun"].iter().map(|d| d.to_string()).collect(),
        },
        schedule: vec![
            ChangePointRecord { at: "00:00".to_owned(), phase: "closed".to_owned() },
            ChangePointRecord { at: "09:30".to_owned(), phase: "continuous_trading".to_owned() },
            ChangePointRecord { at: "16:00".to_owned(), phase: "post_close".to_owned() },
        ],
        applies: DateRangeRecord { start: "2026-01-01".to_owned(), end: "2026-01-31".to_owned() },
        boundary_uncertainty: UncertaintyRecord::PublishedGranularity { seconds: 60 },
        evidence: placeholder_evidence(),
        derived_reasoning: None,
        revision: String::new(),
    }
}

#[test]
fn rules_cite_the_revision_they_were_assembled_into() {
    let assembly = RevisionAssembly::new("operator-2026-02".to_string(), instant("2026-02-01T00:00:00Z"))
        .superseding("operator-2026-01".to_string());
    let venue = assembly.venue(
        "OPER-1".to_string(),
        "UTC".to_string(),
        (instant("2026-01-01T00:00:00Z"), instant("2026-02-01T00:00:00Z")),
        Vec::new(),
        vec![day_rule()],
        Vec::new(),
    );
    assert_eq!(venue.rules[0].revision, "operator-2026-02");
    assert_eq!(venue.coverage.start, "2026-01-01T00:00:00Z");
    assert_eq!(assembly.revision().supersedes.as_deref(), Some("operator-2026-01"));
    assert_eq!(assembly.revision().assembled_at, "2026-02-01T00:00:00Z");
    assert_eq!(assembly.revision().iana_tzdb_version.as_deref(), Some("2026e"));
    assert_eq!(assembly.id(), "operator-2026-02");
}

#[test]
fn a_revision_the_loader_would_reject_is_refused() {
    let assembly = RevisionAssembly::new("operator-2026-01".to_string(), instant("2026-01-02T00:00:00Z"));
    let mut rule = day_rule();
    rule.applies = DateRangeRecord { start: "2026-01-01".to_owned(), end: "2026-01-01".to_owned() };
    let venue = assembly.venue(
        "OPER-1".to_string(),
        "UTC".to_string(),
        (instant("2026-01-01T00:00:00Z"), instant("2026-02-01T00:00:00Z")),
        Vec::new(),
        vec![rule],
        Vec::new(),
    );
    let assembly = assembly.with_venue(venue);
    assert!(matches!(assembly.validate(), Err(LoadError::Invalid(_))));
    match (assembly.validate(), assembly.check_writable()) {
        (Err(refusal), Err(AssemblyError::Invalid(message))) => {
            assert_eq!(message, refusal.describe());
            assert!(message.starts_with("dataset does not describe a valid ruleset: "), "{message}");
        }
        other => panic!("the revision must be refused before it is written: {other:?}"),
    }
}

#[test]
fn a_whole_month_of_rules_validates() {
    let assembly = RevisionAssembly::new("operator-2026-01".to_string(), instant("2026-01-02T00:00:00Z"));
    let venue = assembly.venue(
        "OPER-1".to_string(),
        "UTC".to_string(),
        (instant("2026-01-01T00:00:00Z"), instant("2026-02-01T00:00:00Z")),
        Vec::new(),
        vec![day_rule()],
        Vec::new(),
    );
    let assembly = assembly.with_venue(venue);
    assert_eq!(assembly.validate(), Ok(()));
    assert_eq!(assembly.check_writable(), Ok(()));
}

#[test]
fn the_terms_and_the_digest_reach_the_evidence() {
    let source = SourceRegistration::new(
        "https://synthetic.test/operator/hours.txt".to_string(),
        "personal, non-commercial use only".to_string(),
    )
    .expect("valid registration");
    let document = FetchedDocument::new(source, instant("2026-01-02T00:00:00Z"), b"09:30-16:00".to_vec());
    let evidence = evidence_from(&document, "2026-01-01".to_string());
    assert_eq!(evidence.source_url, "https://synthetic.test/operator/hours.txt");
    assert_eq!(evidence.fetched_at, "2026-01-02T00:00:00Z");
    assert_eq!(evidence.terms.as_deref(), Some("personal, non-commercial use only"));
    assert_eq!(evidence.digest.as_deref(), Some(document.digest()));
    assert!(evidence.digest.as_deref().unwrap_or("").starts_with("sha256:"));
}

#[test]
fn assembly_errors_say_what_went_wrong() {
    assert_eq!(
        AssemblyError::Invalid("bad".to_string()).describe(),
        "refusing to write a revision the loader would reject: bad"
    );
    assert_eq!(
        AssemblyError::Unwritable { path: "/x".to_string(), detail: "denied".to_string() }.describe(),
        "cannot write /x: denied"
    );
}
