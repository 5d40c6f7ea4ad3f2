use market_time::origin::{api_origin, origin_from_parsed, UrlParts};

#[test]
fn defaults_to_the_local_service_origin() {
    assert_eq!(api_origin(None).unwrap(), "http://127.0.0.1:8080");
}

#[test]
fn accepts_and_normalizes_an_https_origin() {
    assert_eq!(
        api_origin(Some("https://market-time.example".to_owned())).unwrap(),
        "https://market-time.example"
    );
}

#[test]
fn rejects_a_missing_host_and_non_origin_components() {
    assert!(api_origin(Some("http://:".to_owned())).is_err());
    assert!(api_origin(Some("https://example.test/api".to_owned())).is_err());
    assert!(api_origin(Some("https://user@example.test".to_owned())).is_err());
}

#[test]
fn a_default_port_and_upper_case_are_normalized_away() {
    assert_eq!(
        api_origin(Some("HTTPS://Example.TEST:443/".to_owned())).unwrap(),
        "https://example.test"
    );
    assert_eq!(
        api_origin(Some("http://localhost:9000".to_owned())).unwrap(),
        "http://localhost:9000"
    );
}

#[test]
fn an_unparsable_value_names_the_parse_error() {
    let error = api_origin(Some("not a url".to_owned())).unwrap_err();
    assert!(error.starts_with("NEXT_PUBLIC_MARK_TIME_API is not a URL: "));
    assert!(error.len() > "NEXT_PUBLIC_MARK_TIME_API is not a URL: ".len());
}

#[test]
fn a_query_a_fragment_or_another_scheme_is_not_an_origin() {
    let message =
        "NEXT_PUBLIC_MARK_TIME_API must be an HTTP(S) origin without credentials, path, query, or fragment";
    assert_eq!(api_origin(Some("https://example.test/?a=1".to_owned())).unwrap_err(), message);
    assert_eq!(api_origin(Some("https://example.test/#top".to_owned())).unwrap_err(), message);
    assert_eq!(api_origin(Some("ftp://example.test".to_owned())).unwrap_err(), message);
    assert_eq!(api_origin(Some("https://:secret@example.test".to_owned())).unwrap_err(), message);
}

fn parts(scheme: &str, path: &str) -> UrlParts {
    UrlParts {
        scheme: scheme.to_string(),
        host: Some("venue.test".to_string()),
        username: String::new(),
        password: None,
        path: path.to_string(),
        query: None,
        fragment: None,
        origin: format!("{scheme}://venue.test"),
    }
}

#[test]
fn a_parse_outcome_decides_the_origin() {
    assert_eq!(origin_from_parsed(Ok(parts("https", "/"))).unwrap(), "https://venue.test");
    assert!(origin_from_parsed(Ok(parts("https", "/x"))).is_err());
    assert!(origin_from_parsed(Ok(parts("wss", "/"))).is_err());
    assert_eq!(
        origin_from_parsed(Err("empty host".to_string())).unwrap_err(),
        "NEXT_PUBLIC_MARK_TIME_API is not a URL: empty host"
    );
}
