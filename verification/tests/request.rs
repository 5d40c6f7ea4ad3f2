//! Explicit instants as shells accept them.

use market_time::request::{parse_explicit_utc, supplied_instant};

#[test]
fn a_command_line_instant_is_utc_and_explicit() {
    let at = parse_explicit_utc("2026-07-30T02:00:00Z").expect("a UTC instant reads");
    assert_eq!(at.as_nanos_since_unix_epoch(), 1_785_376_800_000_000_000);
    assert_eq!(
        parse_explicit_utc("now"),
        Err("`--at now` is disabled until host clock-discipline bounds are available".to_string())
    );
    assert_eq!(
        parse_explicit_utc("2026-07-30T10:00:00+08:00"),
        Err("--at must be an RFC 3339 UTC instant ending in Z".to_string())
    );
    let error = parse_explicit_utc("yesterday").expect_err("not an instant");
    assert!(error.starts_with("invalid RFC 3339 UTC instant: "), "{error}");
    assert!(error.len() > "invalid RFC 3339 UTC instant: ".len());
}

#[test]
fn a_service_query_instant_is_checked_for_its_zone_first() {
    let at = supplied_instant("2026-07-30T02:00:00Z").expect("a UTC instant reads");
    assert_eq!(at.as_nanos_since_unix_epoch(), 1_785_376_800_000_000_000);
    assert_eq!(
        supplied_instant("yesterday"),
        Err("at must be a UTC RFC 3339 instant ending in Z".to_string())
    );
    assert_eq!(
        supplied_instant("2026-13-40T00:00:00Z"),
        Err("at must be a valid UTC RFC 3339 instant".to_string())
    );
}
