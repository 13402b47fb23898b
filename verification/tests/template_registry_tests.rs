use getman::benchmark_types::{
    BenchmarkEnvConfig, BenchmarkLoadConfig, BenchmarkLoadMode, BenchmarkLoggingConfig,
    BenchmarkRequestSnapshot, BenchmarkSaveBodies, BenchmarkSpecPayload, BenchmarkTarget,
    BenchmarkTimingConfig, BenchmarkTransportConfig,
};
use getman::registry::CancelRegistry;
use getman::strmap::StringMap;
use getman::template::build_request_template;

fn spec_with(method: &str, headers: Vec<(String, String)>, body: Option<&str>) -> BenchmarkSpecPayload {
    BenchmarkSpecPayload {
        id: None,
        name: None,
        target: BenchmarkTarget {
            request_id: None,
            request_snapshot: BenchmarkRequestSnapshot {
                method: method.to_string(),
                url: "https://example.com/x".to_string(),
                headers,
                body: body.map(|b| b.to_string()),
            },
        },
        load: BenchmarkLoadConfig {
            mode: BenchmarkLoadMode::FixedIterations,
            iterations: Some(1),
            duration_ms: None,
            concurrency: 1,
        },
        transport: BenchmarkTransportConfig {
            keep_alive: true,
            follow_redirects: true,
            proxy_url: None,
            verify_ssl: true,
        },
        timing: BenchmarkTimingConfig {
            timeout_ms: 1000,
            warmup_duration_ms: None,
            warmup_iterations: None,
        },
        logging: BenchmarkLoggingConfig {
            sample_errors_top_k: 5,
            save_bodies: BenchmarkSaveBodies::Disabled,
        },
        env: BenchmarkEnvConfig {
            variables_snapshot: StringMap::new(),
            random_seed: None,
        },
    }
}

#[test]
fn template_strips_body_for_get_and_estimates_bytes() {
    let headers = vec![("Content-Type".to_string(), "application/json".to_string())];
    let spec = spec_with("GET", headers, Some("ignored"));
    let t = build_request_template(&spec).unwrap();
    assert_eq!(t.method, "GET");
    assert!(t.body.is_none());
    // lowercased name
    assert_eq!(t.headers[0].0, "content-type");
    assert_eq!(t.headers[0].1, "application/json");
    // "content-type" (12) + "application/json" (16) + 4 framing bytes
    assert_eq!(t.bytes_out, 32);
}

#[test]
fn template_keeps_body_for_post_and_counts_it() {
    let spec = spec_with("POST", Vec::new(), Some("hello"));
    let t = build_request_template(&spec).unwrap();
    assert_eq!(t.body.as_deref(), Some("hello"));
    assert_eq!(t.bytes_out, 5);
}

#[test]
fn template_rejects_malformed_method_and_headers() {
    let spec = spec_with("GE T", Vec::new(), None);
    assert_eq!(
        build_request_template(&spec).unwrap_err(),
        "Invalid benchmark method `GE T`"
    );

    let headers = vec![("bad header".to_string(), "v".to_string())];
    let spec = spec_with("GET", headers, None);
    assert_eq!(
        build_request_template(&spec).unwrap_err(),
        "Invalid header name `bad header`"
    );

    let headers = vec![("x-ok".to_string(), "bad\u{7f}value".to_string())];
    let spec = spec_with("GET", headers, None);
    assert_eq!(
        build_request_template(&spec).unwrap_err(),
        "Invalid header value for `x-ok`"
    );

    // the first offending header names the error
    let headers = vec![
        ("fine".to_string(), "ok".to_string()),
        ("also bad".to_string(), "v".to_string()),
        ("bad too".to_string(), "v".to_string()),
    ];
    let spec = spec_with("GET", headers, None);
    assert_eq!(
        build_request_template(&spec).unwrap_err(),
        "Invalid header name `also bad`"
    );

    // headers with empty names are dropped, not rejected
    let headers = vec![("".to_string(), "v".to_string())];
    let spec = spec_with("GET", headers, None);
    let t = build_request_template(&spec).unwrap();
    assert!(t.headers.is_empty());
}

#[test]
fn registry_register_cancel_remove() {
    let mut registry = CancelRegistry::new();
    let mut rx = registry.register("run-1");
    assert!(registry.cancel("run-1"));
    // the broadcast reached the receiver
    assert!(rx.try_recv().is_ok());
    // a second cancel finds nothing: cancel is idempotent
    assert!(!registry.cancel("run-1"));

    let _rx2 = registry.register("run-2");
    registry.remove("run-2");
    assert!(!registry.cancel("run-2"));

    // registering twice replaces the first signal
    let _rx3 = registry.register("run-3");
    let _rx4 = registry.register("run-3");
    assert!(registry.cancel("run-3"));
    assert!(!registry.cancel("run-3"));
}

#[test]
fn strmap_inserts_and_overrides() {
    let mut m = StringMap::new();
    assert!(m.get("a").is_none());
    m.insert("a".to_string(), "1".to_string());
    m.insert("b".to_string(), "2".to_string());
    m.insert("a".to_string(), "3".to_string());
    assert_eq!(m.get("a").unwrap(), "3");
    assert_eq!(m.get("b").unwrap(), "2");
    assert!(m.contains_key("a"));
    assert!(!m.contains_key("c"));
}
