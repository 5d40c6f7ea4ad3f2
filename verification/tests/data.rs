//! Source registration, retrieval records and the time-scale vocabulary.

use market_time::fetch::{FetchError, FetchedDocument, SourceRegistration};
use market_time::instant::UtcInstant;
use market_time::scales::{utc_from_j1900_nanos, Scale};

fn instant() -> UtcInstant {
    UtcInstant::from_seconds_since_unix_epoch(1_785_283_200)
}

#[test]
fn a_source_without_terms_cannot_be_registered() {
    assert_eq!(
        SourceRegistration::new("https://venue.test/hours".to_string(), "  ".to_string()),
        Err(FetchError::MissingTerms { url: "https://venue.test/hours".to_string() })
    );
}

#[test]
fn a_source_without_a_url_cannot_be_registered() {
    assert_eq!(
        SourceRegistration::new(" ".to_string(), "personal use only".to_string()),
        Err(FetchError::MissingUrl)
    );
}

#[test]
fn a_retrieval_carries_a_digest_of_what_was_retrieved() {
    let source = SourceRegistration::new("https://venue.test/hours".to_string(), "personal use only".to_string())
        .expect("valid registration");
    let first = FetchedDocument::new(source.clone(), instant(), b"09:30-16:00".to_vec());
    let same = FetchedDocument::new(source.clone(), instant(), b"09:30-16:00".to_vec());
    let changed = FetchedDocument::new(source, instant(), b"09:30-13:00".to_vec());
    assert_eq!(first.digest(), same.digest());
    assert_ne!(first.digest(), changed.digest(), "a changed document is a detectable event, not a surprise");
    assert!(first.digest().starts_with("sha256:"));
}

#[test]
fn the_digest_is_the_sha256_of_the_bytes() {
    let source = SourceRegistration::new("https://venue.test/hours".to_string(), "terms".to_string())
        .expect("valid registration");
    let document = FetchedDocument::new(source, instant(), b"abc".to_vec());
    assert_eq!(
        document.digest(),
        "sha256:ba7816bf8f01cfea414140de5dae2223b00361a396177a9cb410ff61f20015ad"
    );
}

#[test]
fn the_terms_travel_with_the_document() {
    let source = SourceRegistration::new("https://venue.test/hours".to_string(), "no redistribution".to_string())
        .expect("valid registration")
        .with_note("terms page, clause 7".to_string());
    let document = FetchedDocument::new(source, instant(), b"x".to_vec());
    assert_eq!(document.source().terms(), "no redistribution");
    assert_eq!(document.source().note(), Some("terms page, clause 7"));
    assert_eq!(document.text(), Ok("x"));
    assert_eq!(document.bytes(), b"x");
    assert_eq!(document.fetched_at(), instant());
}

#[test]
fn bytes_that_are_not_text_are_reported() {
    let source = SourceRegistration::new("https://venue.test/hours".to_string(), "terms".to_string())
        .expect("valid registration");
    let document = FetchedDocument::new(source, instant(), vec![0xff, 0xfe]);
    assert_eq!(document.text(), Err(FetchError::NotText { url: "https://venue.test/hours".to_string() }));
}

#[test]
fn a_document_is_expected_under_the_last_path_segment() {
    let named = SourceRegistration::new("https://venue.test/rules/hours.html/".to_string(), "terms".to_string())
        .expect("valid registration");
    assert_eq!(named.file_name(), "hours.html");
    let bare = SourceRegistration::new("///".to_string(), "terms".to_string()).expect("valid registration");
    assert_eq!(bare.file_name(), "document");
}

#[test]
fn the_scale_label_round_trips() {
    for scale in [Scale::Utc, Scale::Tai, Scale::Gps] {
        assert_eq!(Scale::from_str_exact(scale.as_str()), Some(scale));
    }
    assert_eq!(Scale::from_str_exact("monotonic"), None);
}

#[test]
fn version_is_present_and_well_formed() {
    let v = market_time::tzdata::iana_tzdb_version().expect("the bundled tzdb reports a version");
    let mut chars = v.chars();
    let year: String = chars.by_ref().take(4).collect();
    let suffix: String = chars.collect();
    assert!(year.len() == 4 && year.chars().all(|c| c.is_ascii_digit()), "{v:?}");
    assert!(suffix.len() == 1 && suffix.chars().all(|c| c.is_ascii_lowercase()), "{v:?}");
    assert!(market_time::tzdata::is_verified());
}

#[test]
fn release_identifier_is_reportable() {
    assert!(market_time::tzdata::is_verified());
    let v = market_time::tzdata::iana_tzdb_version().expect("checked by is_verified");
    assert!(!v.is_empty());
}

#[test]
fn bundled_database_is_populated() {
    let db = jiff::tz::TimeZoneDatabase::bundled();
    assert!(!db.is_definitively_empty());
    assert!(db.get("Asia/Shanghai").is_ok());
    assert!(db.get("America/New_York").is_ok());
}

#[test]
fn a_j1900_count_becomes_a_unix_instant_or_is_refused() {
    let at = utc_from_j1900_nanos(2_208_988_800 * 1_000_000_000 + 5).expect("in range");
    assert_eq!(at.as_nanos_since_unix_epoch(), 5);
    assert_eq!(utc_from_j1900_nanos(i128::MIN), None);
}

#[test]
fn fetch_errors_say_what_went_wrong() {
    assert_eq!(FetchError::MissingUrl.describe(), "a source registration needs a URL");
    assert_eq!(
        FetchError::NotText { url: "https://venue.test/x".to_string() }.describe(),
        "https://venue.test/x is not UTF-8 text"
    );
    assert_eq!(
        FetchError::Unreadable {
            url: "https://venue.test/x".to_string(),
            path: "/tmp/x".to_string(),
            detail: "missing".to_string()
        }
        .describe(),
        "cannot read https://venue.test/x from /tmp/x: missing"
    );
    assert!(FetchError::MissingTerms { url: "u".to_string() }.describe().starts_with("no terms recorded for u;"));
}

#[test]
fn an_absent_or_empty_release_marker_is_never_verified() {
    assert!(!market_time::tzdata::release_is_verified(None));
    assert!(!market_time::tzdata::release_is_verified(Some("")));
    assert!(market_time::tzdata::release_is_verified(Some("2026e")));
}
