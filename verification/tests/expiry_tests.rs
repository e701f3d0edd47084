//! The expiry policy on concrete inputs: exact parses, rejections, and the
//! relative-delta conversion.

use palladium::directive::ExpirySpec;
use palladium::errors::StoreError;
use palladium::expiry::{delta_seconds, parse_rfc3339_utc, resolve};

#[test]
fn parse_epoch_origin() {
    assert_eq!(parse_rfc3339_utc("1970-01-01T00:00:00Z"), Some(0));
    assert_eq!(parse_rfc3339_utc("1970-01-01T00:00:01Z"), Some(1));
}

#[test]
fn parse_known_instants() {
    assert_eq!(parse_rfc3339_utc("2000-02-29T12:30:45Z"), Some(951827445));
    assert_eq!(parse_rfc3339_utc("2024-01-01T00:00:00Z"), Some(1704067200));
    assert_eq!(parse_rfc3339_utc("2024-02-29T23:59:59Z"), Some(1709251199));
    assert_eq!(parse_rfc3339_utc("9999-12-31T23:59:59Z"), Some(253402300799));
}

#[test]
fn parse_rejects_bad_shapes() {
    assert_eq!(parse_rfc3339_utc(""), None);
    assert_eq!(parse_rfc3339_utc("2024-1-01T00:00:00Z"), None);
    assert_eq!(parse_rfc3339_utc("2024-01-01 00:00:00Z"), None);
    assert_eq!(parse_rfc3339_utc("2024-01-01T00:00:00"), None);
    assert_eq!(parse_rfc3339_utc("2024-01-01t00:00:00z"), None);
    assert_eq!(parse_rfc3339_utc("2024-01-01T00:00:00.5Z"), None);
    assert_eq!(parse_rfc3339_utc("2024-01-01T00:00:00+01:00"), None);
    assert_eq!(parse_rfc3339_utc("not a timestamp at all"), None);
}

#[test]
fn parse_rejects_bad_fields() {
    assert_eq!(parse_rfc3339_utc("2023-02-29T00:00:00Z"), None);
    assert_eq!(parse_rfc3339_utc("2024-13-01T00:00:00Z"), None);
    assert_eq!(parse_rfc3339_utc("2024-00-01T00:00:00Z"), None);
    assert_eq!(parse_rfc3339_utc("2024-01-00T00:00:00Z"), None);
    assert_eq!(parse_rfc3339_utc("2024-01-32T00:00:00Z"), None);
    assert_eq!(parse_rfc3339_utc("2024-01-01T24:00:00Z"), None);
    assert_eq!(parse_rfc3339_utc("2024-01-01T00:60:00Z"), None);
    assert_eq!(parse_rfc3339_utc("2024-01-01T00:00:60Z"), None);
    assert_eq!(parse_rfc3339_utc("1969-12-31T23:59:59Z"), None);
}

#[test]
fn parse_accepts_leap_day_only_in_leap_years() {
    assert!(parse_rfc3339_utc("2024-02-29T00:00:00Z").is_some());
    assert!(parse_rfc3339_utc("2000-02-29T00:00:00Z").is_some());
    assert_eq!(parse_rfc3339_utc("1900-02-29T00:00:00Z"), None);
}

#[test]
fn resolve_none_means_no_expiry() {
    assert_eq!(resolve(&None, 1704067200), Ok(None));
}

#[test]
fn resolve_at_parses_the_instant() {
    let e = Some(ExpirySpec::At("2024-01-01T00:01:00Z".to_string()));
    assert_eq!(resolve(&e, 1704067200), Ok(Some(1704067260)));
}

#[test]
fn resolve_at_rejects_unparsable() {
    let e = Some(ExpirySpec::At("soon".to_string()));
    assert_eq!(resolve(&e, 1704067200), Err(StoreError::InvalidExpiryFormat));
}

#[test]
fn resolve_seconds_is_relative_to_now() {
    let e = Some(ExpirySpec::Seconds(60));
    assert_eq!(resolve(&e, 1704067200), Ok(Some(1704067260)));
    let zero = Some(ExpirySpec::Seconds(0));
    assert_eq!(resolve(&zero, 1704067200), Ok(Some(1704067200)));
}

#[test]
fn resolve_seconds_rejects_unrepresentable_target() {
    let e = Some(ExpirySpec::Seconds(u64::MAX));
    assert_eq!(resolve(&e, 1), Err(StoreError::InvalidExpiryFormat));
}

#[test]
fn delta_is_exact_and_clamped() {
    assert_eq!(delta_seconds(1704067260, 1704067200), 60);
    assert_eq!(delta_seconds(1704067200, 1704067200), 0);
    assert_eq!(delta_seconds(5, 10), 0);
}
