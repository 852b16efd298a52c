use qwen_client::error::{is_success, parse_failed, request_failed, status_error, stream_failed};
use qwen_client::ApiError;

fn kind(e: &ApiError) -> String {
    match e {
        ApiError::QwenError { type_, .. } => type_.clone(),
        ApiError::Internal { .. } => "internal".to_string(),
    }
}

#[test]
fn rate_limited_status_is_an_api_error_with_the_body() {
    let e = status_error(429, Some("rate limited".to_string())).unwrap();
    assert_eq!(e.message(), "rate limited");
    assert_eq!(kind(&e), "api_error");
}

#[test]
fn unreadable_body_gives_unknown_error() {
    let e = status_error(500, None).unwrap();
    assert_eq!(e.message(), "Unknown error");
    assert_eq!(kind(&e), "api_error");
}

#[test]
fn success_statuses_give_no_error() {
    assert!(status_error(200, Some("ok".to_string())).is_none());
    assert!(status_error(299, None).is_none());
    assert!(status_error(300, None).is_some());
    assert!(status_error(199, None).is_some());
    assert!(is_success(204));
    assert!(!is_success(404));
}

#[test]
fn transport_errors_carry_their_kind() {
    let e = request_failed("connection refused");
    assert_eq!(e.message(), "Request failed: connection refused");
    assert_eq!(kind(&e), "request_failed");
    let e = parse_failed("missing field `id`");
    assert_eq!(e.message(), "Failed to parse response: missing field `id`");
    assert_eq!(kind(&e), "parse_error");
    let e = stream_failed("reset");
    assert_eq!(e.message(), "Stream error: reset");
    assert_eq!(kind(&e), "stream_error");
}
