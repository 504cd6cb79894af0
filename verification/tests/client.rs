use california_dashboard::client::{
    after_body, after_send, body_accepts_chunk, check_client_limits, http_date_parts,
    parse_http_date, parse_retry_after, provenance, retry_backoff, retryable_status, sha256_hex, BodyResult, ClientError, FetchStep, SendResult, MAX_ATTEMPTS,
};
use california_dashboard::model::{FetchSpec, FetchStatus, SchoolRecord};
use california_dashboard::METHOD_VERSION;
use std::time::Duration;

#[test]
fn backoff_schedule_is_exact() {
    assert_eq!(Duration::from_millis(retry_backoff(1)), Duration::from_millis(250));
    assert_eq!(Duration::from_millis(retry_backoff(2)), Duration::from_millis(500));
    assert_eq!(Duration::from_millis(retry_backoff(3)), Duration::from_millis(1_000));
}

#[test]
fn documented_statuses_are_retried() {
    for code in [408, 429, 500, 503, 599] {
        assert!(retryable_status(code));
    }
    for code in [200, 404, 407, 499, 600] {
        assert!(!retryable_status(code));
    }
}

#[test]
fn transport_errors_retry_until_the_last_attempt() {
    let step = after_send(1, 100, SendResult::TransportError { message: "reset".to_owned() });
    assert!(matches!(step, FetchStep::Retry { delay_millis: 250 }));
    let last = after_send(MAX_ATTEMPTS, 100, SendResult::TransportError { message: "reset".to_owned() });
    match last {
        FetchStep::Finish { status: FetchStatus::TransportError { message }, http_status: None, keeps_payload: false } => {
            assert_eq!(message, "reset")
        }
        other => panic!("unexpected step {other:?}"),
    }
}

#[test]
fn server_delay_wins_only_when_longer_than_backoff() {
    let slow = after_send(
        2,
        100,
        SendResult::Response { status_code: 429, declared_bytes: None, retry_after_secs: Some(3) },
    );
    assert!(matches!(slow, FetchStep::Retry { delay_millis: 3000 }));
    let quick = after_send(
        3,
        100,
        SendResult::Response { status_code: 503, declared_bytes: None, retry_after_secs: Some(0) },
    );
    assert!(matches!(quick, FetchStep::Retry { delay_millis: 1000 }));
}

#[test]
fn declared_payload_over_the_limit_is_refused_before_reading() {
    let step = after_send(
        1,
        100,
        SendResult::Response { status_code: 200, declared_bytes: Some(101), retry_after_secs: None },
    );
    match step {
        FetchStep::Finish {
            status: FetchStatus::PayloadTooLarge { limit_bytes: 100, declared_bytes: Some(101) },
            http_status: Some(200),
            keeps_payload: false,
        } => {}
        other => panic!("unexpected step {other:?}"),
    }
    let fits = after_send(
        1,
        100,
        SendResult::Response { status_code: 200, declared_bytes: Some(100), retry_after_secs: None },
    );
    assert!(matches!(fits, FetchStep::ReadBody));
}

#[test]
fn completed_bodies_end_as_http_error_empty_or_parse() {
    let error = after_body(1, 404, None, 100, BodyResult::Complete { payload_bytes: 12 });
    assert!(matches!(
        error,
        FetchStep::Finish { status: FetchStatus::HttpError { status_code: 404 }, http_status: Some(404), keeps_payload: true }
    ));
    let empty = after_body(1, 200, None, 100, BodyResult::Complete { payload_bytes: 0 });
    assert!(matches!(
        empty,
        FetchStep::Finish { status: FetchStatus::EmptyPayload, http_status: Some(200), keeps_payload: true }
    ));
    let parse = after_body(1, 200, None, 100, BodyResult::Complete { payload_bytes: 3 });
    assert!(matches!(parse, FetchStep::Parse));
    let too_large = after_body(4, 200, Some(5), 100, BodyResult::TooLarge);
    assert!(matches!(
        too_large,
        FetchStep::Finish { status: FetchStatus::PayloadTooLarge { limit_bytes: 100, declared_bytes: Some(5) }, .. }
    ));
}

#[test]
fn chunks_are_accepted_only_under_the_limit() {
    assert!(body_accepts_chunk(90, 10, 100));
    assert!(!body_accepts_chunk(90, 11, 100));
    assert!(!body_accepts_chunk(120, 1, 100));
}

#[test]
fn configuration_rules_are_checked_in_order() {
    assert!(check_client_limits(50, true, false, 16).is_ok());
    let message = |r: Result<(), ClientError>| match r {
        Err(ClientError::InvalidConfiguration(m)) => m,
        Ok(()) => String::new(),
    };
    assert_eq!(
        message(check_client_limits(1, false, true, 0)),
        "max_requests_per_second must be finite and greater than zero"
    );
    assert_eq!(message(check_client_limits(1, true, true, 0)), "timeout must be greater than zero");
    assert_eq!(
        message(check_client_limits(1, true, false, 0)),
        "max_payload_bytes must be greater than zero"
    );
}

#[test]
fn provenance_records_digest_size_and_attempts() {
    let spec = FetchSpec {
        school: SchoolRecord {
            cds_code: "19649071995901".to_owned(),
            school_name: "Example".to_owned(),
            county: None,
            district: None,
            city: None,
        },
        year: 2025,
        dashboard_year_id: 11,
        url: "https://example.test/card".to_owned(),
    };
    let p = provenance(&spec, 2, Some(200), Some(&b"abc"[..]), "2026-01-01T00:00:00Z".to_owned());
    assert_eq!(
        p.payload_sha256.as_deref(),
        Some("ba7816bf8f01cfea414140de5dae2223b00361a396177a9cb410ff61f20015ad")
    );
    assert_eq!(p.payload_bytes, 3);
    assert_eq!(p.attempts, 2);
    assert_eq!(p.http_status, Some(200));
    assert_eq!(p.source_url, "https://example.test/card");
    assert_eq!(p.method_version, METHOD_VERSION);
    let none = provenance(&spec, 4, None, None, String::new());
    assert_eq!(none.payload_sha256, None);
    assert_eq!(none.payload_bytes, 0);
    assert_eq!(
        sha256_hex(b""),
        "e3b0c44298fc1c149afbf4c8996fb92427ae41e4649b934ca495991b7852b855"
    );
}

#[test]
fn parses_standard_http_date() {
    assert_eq!(
        parse_http_date("Sun, 06 Nov 1994 08:49:37 GMT"),
        Some(784_111_777)
    );
    assert_eq!(parse_http_date("not a date"), None);
}

#[test]
fn http_date_fields_are_read_exactly() {
    let parts = http_date_parts("Sun, 06 Nov 1994 08:49:37 GMT").unwrap();
    assert_eq!(parts.year, 1994);
    assert_eq!(parts.month, 11);
    assert_eq!(parts.day, 6);
    assert_eq!((parts.hour, parts.minute, parts.second), (8, 49, 37));
    assert_eq!(http_date_parts("Sun, 06 Nov 1994 08:49 GMT"), None);
    assert_eq!(http_date_parts("Sun, 06 Nov 1994 08:49:37:01 GMT"), None);
    assert_eq!(http_date_parts("Sun 06 Nov 1994 08:49:37 GMT"), None);
    assert_eq!(http_date_parts("Sun, 06 Foo 1994 08:49:37 GMT"), None);
    assert_eq!(http_date_parts("Sun, 06 Nov 1994 08:49:37 UTC"), None);
}

#[test]
fn impossible_calendar_dates_are_refused() {
    assert_eq!(parse_http_date("Mon, 30 Feb 2023 00:00:00 GMT"), None);
    assert_eq!(parse_http_date("Thu, 29 Feb 2024 00:00:00 GMT"), Some(1_709_164_800));
    assert_eq!(parse_http_date("Sun, 06 Nov 1994 24:00:00 GMT"), None);
}

#[test]
fn retry_after_reads_seconds_or_a_future_date() {
    assert_eq!(parse_retry_after(" 120 ", 0), Some(120));
    assert_eq!(parse_retry_after("Sun, 06 Nov 1994 08:49:37 GMT", 784_111_700), Some(77));
    assert_eq!(parse_retry_after("Sun, 06 Nov 1994 08:49:37 GMT", 784_111_777), None);
    assert_eq!(parse_retry_after("soon", 0), None);
    assert_eq!(parse_retry_after("-5", 0), None);
}
