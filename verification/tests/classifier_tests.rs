use getman::benchmark_types::{BenchmarkErrorType, BenchmarkSaveBodies};
use getman::sample::{
    classify_status, classify_transport_failure, error_type_name, response_sample,
    transport_failure_sample, cancelled_sample, read_error_sample, u64_to_dec_string,
};

#[test]
fn transport_failures_classify_by_priority() {
    assert_eq!(
        classify_transport_failure(true, false, "anything"),
        BenchmarkErrorType::Timeout
    );
    assert_eq!(
        classify_transport_failure(false, true, "DNS lookup failed"),
        BenchmarkErrorType::DnsError
    );
    assert_eq!(
        classify_transport_failure(false, false, "failed to lookup address"),
        BenchmarkErrorType::DnsError
    );
    assert_eq!(
        classify_transport_failure(false, false, "TLS handshake broke"),
        BenchmarkErrorType::TlsError
    );
    assert_eq!(
        classify_transport_failure(false, false, "bad CERTIFICATE chain"),
        BenchmarkErrorType::TlsError
    );
    assert_eq!(
        classify_transport_failure(false, true, "connection refused"),
        BenchmarkErrorType::ConnectError
    );
    assert_eq!(
        classify_transport_failure(false, false, "stream closed"),
        BenchmarkErrorType::ReadError
    );
}

#[test]
fn status_classes() {
    assert_eq!(classify_status(200), None);
    assert_eq!(classify_status(399), None);
    assert_eq!(classify_status(404), Some(BenchmarkErrorType::HttpStatus4xx));
    assert_eq!(classify_status(499), Some(BenchmarkErrorType::HttpStatus4xx));
    assert_eq!(classify_status(500), Some(BenchmarkErrorType::HttpStatus5xx));
    assert_eq!(classify_status(503), Some(BenchmarkErrorType::HttpStatus5xx));
}

#[test]
fn response_sample_builds_http_error() {
    let body = b"upstream exploded".to_vec();
    let s = response_sample(1234, 2500, 503, 80, &body, BenchmarkSaveBodies::Errors, 40);
    assert_eq!(s.status_code, Some(503));
    assert!(!s.success);
    assert_eq!(s.error_type, Some(BenchmarkErrorType::HttpStatus5xx));
    assert_eq!(s.error_message.as_deref(), Some("HTTP 503"));
    assert_eq!(s.bytes_in, 80 + body.len() as u64);
    assert_eq!(s.sample_body.as_deref(), Some("upstream exploded"));
    assert!(!s.cancelled);
}

#[test]
fn response_sample_decodes_bodies_lossily_and_caps_them() {
    let body = vec![b'a', 0xFF, b'b'];
    let s = response_sample(0, 1, 500, 0, &body, BenchmarkSaveBodies::Errors, 0);
    assert_eq!(s.sample_body.as_deref(), Some("a\u{FFFD}b"));

    let long = vec![b'x'; 10000];
    let s = response_sample(0, 1, 500, 0, &long, BenchmarkSaveBodies::Errors, 0);
    assert_eq!(s.sample_body.as_deref().map(|b| b.len()), Some(8192));

    let s = response_sample(0, 1, 500, 0, &long, BenchmarkSaveBodies::Disabled, 0);
    assert!(s.sample_body.is_none());

    let s = response_sample(0, 1, 200, 0, &long, BenchmarkSaveBodies::Errors, 0);
    assert!(s.sample_body.is_none());
}

#[test]
fn cancelled_and_read_error_samples() {
    let c = cancelled_sample(10, 20, Some(200), 30, 40);
    assert!(c.cancelled);
    assert!(!c.success);
    assert_eq!(c.error_type, Some(BenchmarkErrorType::Canceled));
    assert_eq!(c.error_message.as_deref(), Some("Benchmark cancelled"));

    let t = transport_failure_sample(10, 20, true, false, "timed out".to_string(), 5);
    assert_eq!(t.error_type, Some(BenchmarkErrorType::Timeout));
    assert_eq!(t.bytes_in, 0);

    let r = read_error_sample(10, 20, 200, 64, "broken pipe".to_string(), 5);
    assert_eq!(r.error_type, Some(BenchmarkErrorType::ReadError));
    assert_eq!(r.status_code, Some(200));
    assert_eq!(r.bytes_in, 64);
}

#[test]
fn error_type_names_are_the_wire_names() {
    assert_eq!(error_type_name(BenchmarkErrorType::DnsError), "DNS_ERROR");
    assert_eq!(error_type_name(BenchmarkErrorType::Timeout), "TIMEOUT");
    assert_eq!(error_type_name(BenchmarkErrorType::Canceled), "CANCELED");
    assert_eq!(
        error_type_name(BenchmarkErrorType::HttpStatus4xx),
        "HTTP_STATUS_4XX"
    );
}

#[test]
fn decimal_rendering() {
    assert_eq!(u64_to_dec_string(0), "0");
    assert_eq!(u64_to_dec_string(503), "503");
    assert_eq!(u64_to_dec_string(18446744073709551615), "18446744073709551615");
}
