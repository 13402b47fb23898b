use getman::benchmark_types::{
    BenchmarkEnvConfig, BenchmarkErrorType, BenchmarkLoadConfig, BenchmarkLoadMode,
    BenchmarkLoggingConfig, BenchmarkRequestSnapshot, BenchmarkSaveBodies, BenchmarkSpecPayload,
    BenchmarkTarget, BenchmarkTimingConfig, BenchmarkTransportConfig, SampleResult,
};
use getman::metrics::aggregate_samples;
use getman::orchestrate::{
    cancelled_warmup_result, iteration_decision, measurement_workload, validate_spec,
    warmup_workload, PhaseWorkload, WorkerStep,
};
use getman::strmap::StringMap;

fn base_spec() -> BenchmarkSpecPayload {
    BenchmarkSpecPayload {
        id: None,
        name: None,
        target: BenchmarkTarget {
            request_id: Some("req-1".to_string()),
            request_snapshot: BenchmarkRequestSnapshot {
                method: "GET".to_string(),
                url: "https://example.com".to_string(),
                headers: Vec::new(),
                body: None,
            },
        },
        load: BenchmarkLoadConfig {
            mode: BenchmarkLoadMode::FixedDuration,
            iterations: None,
            duration_ms: Some(1000),
            concurrency: 1,
        },
        transport: BenchmarkTransportConfig {
            keep_alive: true,
            follow_redirects: true,
            proxy_url: None,
            verify_ssl: true,
        },
        timing: BenchmarkTimingConfig {
            timeout_ms: 1000,
            warmup_duration_ms: None,
            warmup_iterations: None,
        },
        logging: BenchmarkLoggingConfig {
            sample_errors_top_k: 10,
            save_bodies: BenchmarkSaveBodies::Disabled,
        },
        env: BenchmarkEnvConfig {
            variables_snapshot: StringMap::new(),
            random_seed: None,
        },
    }
}

fn sample(latency_ms: f64, status_code: u16, success: bool) -> SampleResult {
    SampleResult {
        timestamp_ms: 1000,
        latency_us: (latency_ms * 1000.0).round() as u64,
        status_code: Some(status_code),
        success,
        error_type: if success {
            None
        } else if status_code >= 500 {
            Some(BenchmarkErrorType::HttpStatus5xx)
        } else {
            Some(BenchmarkErrorType::HttpStatus4xx)
        },
        error_message: if success {
            None
        } else {
            Some(format!("HTTP {status_code}"))
        },
        bytes_in: 100,
        bytes_out: 50,
        sample_body: None,
        cancelled: false,
    }
}

#[test]
fn aggregate_samples_computes_latency_percentiles() {
    let samples = vec![
        sample(10.0, 200, true),
        sample(20.0, 200, true),
        sample(30.0, 200, true),
        sample(40.0, 200, true),
    ];
    let result = aggregate_samples(&samples, 0, 1000, 10);

    assert_eq!(result.summary.total_requests, 4);
    assert_eq!(result.summary.success_count, 4);
    assert_eq!(result.summary.error_count, 0);
    assert!((result.summary.latency.p50_us as f64 / 1000.0 - 20.0).abs() < 0.1);
    assert!((result.summary.latency.p95_us as f64 / 1000.0 - 40.0).abs() < 0.1);
    assert!((result.summary.latency.p99_us as f64 / 1000.0 - 40.0).abs() < 0.1);
    assert_eq!(result.summary.rps_avg as f64 / 1000.0, 4.0);
}

#[test]
fn aggregate_samples_tracks_errors_and_top_samples() {
    let mut timeout_sample = sample(15.0, 0, false);
    timeout_sample.status_code = None;
    timeout_sample.error_type = Some(BenchmarkErrorType::Timeout);
    timeout_sample.error_message = Some("timed out".to_string());

    let mut timeout_sample_2 = timeout_sample.clone();
    timeout_sample_2.timestamp_ms = 2000;

    let samples = vec![
        sample(20.0, 503, false),
        timeout_sample,
        timeout_sample_2,
        sample(25.0, 200, true),
    ];
    let result = aggregate_samples(&samples, 0, 2000, 10);

    assert_eq!(result.summary.total_requests, 4);
    assert_eq!(result.summary.error_count, 3);
    let timeout_count = result
        .summary
        .error_type_counts
        .iter()
        .find(|e| e.error_type == BenchmarkErrorType::Timeout)
        .map(|e| e.count);
    assert_eq!(timeout_count, Some(2));
    let status_5xx_count = result
        .summary
        .error_type_counts
        .iter()
        .find(|e| e.error_type == BenchmarkErrorType::HttpStatus5xx)
        .map(|e| e.count);
    assert_eq!(status_5xx_count, Some(1));
    assert_eq!(result.top_errors.first().map(|item| item.count), Some(2));
}

#[test]
fn measurement_workload_requires_positive_duration_or_iterations() {
    let mut spec = base_spec();
    spec.load.mode = BenchmarkLoadMode::FixedDuration;
    spec.load.duration_ms = Some(0);
    assert!(measurement_workload(&spec).is_err());

    spec.load.mode = BenchmarkLoadMode::FixedIterations;
    spec.load.iterations = Some(0);
    assert!(measurement_workload(&spec).is_err());
}

#[test]
fn validate_spec_rejects_bad_configs() {
    let mut spec = base_spec();
    spec.load.concurrency = 0;
    assert_eq!(
        validate_spec(&spec).unwrap_err(),
        "Benchmark concurrency must be greater than 0"
    );

    let mut spec = base_spec();
    spec.timing.timeout_ms = 0;
    assert_eq!(
        validate_spec(&spec).unwrap_err(),
        "Benchmark timeoutMs must be greater than 0"
    );

    let mut spec = base_spec();
    spec.load.duration_ms = Some(0);
    assert_eq!(
        validate_spec(&spec).unwrap_err(),
        "Benchmark fixed_duration mode requires durationMs > 0"
    );

    assert!(validate_spec(&base_spec()).is_ok());
}

#[test]
fn histogram_counts_sum_to_total_and_skip_empty_buckets() {
    let samples = vec![
        sample(0.5, 200, true),
        sample(3.0, 200, true),
        sample(3.5, 200, true),
        sample(700.0, 200, true),
        sample(120000.0, 200, true),
    ];
    let result = aggregate_samples(&samples, 0, 1000, 5);
    let total: u64 = result.histogram.iter().map(|b| b.count).sum();
    assert_eq!(total, result.summary.total_requests);
    assert!(result.histogram.iter().all(|b| b.count > 0));
    // the two samples between 2 ms and 5 ms share a bucket
    let bucket = result
        .histogram
        .iter()
        .find(|b| b.lower_bound_ms == 2 && b.upper_bound_ms == 5)
        .unwrap();
    assert_eq!(bucket.count, 2);
    // anything past the highest edge lands in the last bucket
    let last = result
        .histogram
        .iter()
        .find(|b| b.lower_bound_ms == 45000 && b.upper_bound_ms == 60000)
        .unwrap();
    assert_eq!(last.count, 1);
}

#[test]
fn percentiles_are_monotone_and_capped_by_max() {
    let samples = vec![
        sample(1.0, 200, true),
        sample(2.0, 200, true),
        sample(9.0, 200, true),
        sample(55.0, 200, true),
        sample(199.0, 200, true),
        sample(823.0, 200, true),
        sample(12.5, 200, true),
    ];
    let result = aggregate_samples(&samples, 0, 1000, 5);
    let lat = &result.summary.latency;
    assert!(lat.p50_us <= lat.p90_us);
    assert!(lat.p90_us <= lat.p95_us);
    assert!(lat.p95_us <= lat.p99_us);
    assert!(lat.p99_us <= lat.max_us);
}

#[test]
fn aggregation_is_order_independent() {
    let mut samples = vec![
        sample(10.0, 200, true),
        sample(20.0, 503, false),
        sample(30.0, 404, false),
        sample(40.0, 200, true),
        sample(50.0, 200, true),
    ];
    let forward = aggregate_samples(&samples, 0, 1000, 5);
    samples.reverse();
    let backward = aggregate_samples(&samples, 0, 1000, 5);

    assert_eq!(
        forward.summary.total_requests,
        backward.summary.total_requests
    );
    assert_eq!(forward.summary.error_count, backward.summary.error_count);
    assert_eq!(forward.summary.error_rate, backward.summary.error_rate);
    assert_eq!(forward.summary.bytes_in, backward.summary.bytes_in);
    assert_eq!(forward.summary.latency.p50_us, backward.summary.latency.p50_us);
    assert_eq!(forward.summary.latency.avg_us, backward.summary.latency.avg_us);
    assert_eq!(
        forward.summary.latency.stddev_us,
        backward.summary.latency.stddev_us
    );
    assert_eq!(forward.histogram.len(), backward.histogram.len());
    for (a, b) in forward.histogram.iter().zip(backward.histogram.iter()) {
        assert_eq!(a.lower_bound_ms, b.lower_bound_ms);
        assert_eq!(a.count, b.count);
    }
}

#[test]
fn aggregation_is_deterministic() {
    let samples = vec![sample(10.0, 200, true), sample(20.0, 503, false)];
    let first = aggregate_samples(&samples, 0, 1000, 5);
    let second = aggregate_samples(&samples, 0, 1000, 5);
    assert_eq!(first.summary.total_requests, second.summary.total_requests);
    assert_eq!(first.summary.error_rate, second.summary.error_rate);
    assert_eq!(first.summary.latency.p99_us, second.summary.latency.p99_us);
    assert_eq!(first.top_errors.len(), second.top_errors.len());
}

#[test]
fn cancelled_samples_are_excluded_entirely() {
    let mut cancelled = sample(10.0, 200, true);
    cancelled.cancelled = true;
    cancelled.error_type = Some(BenchmarkErrorType::Canceled);
    let samples = vec![cancelled, sample(20.0, 200, true)];
    let result = aggregate_samples(&samples, 0, 1000, 5);
    assert_eq!(result.summary.total_requests, 1);
    assert_eq!(result.summary.success_count, 1);
    assert!(result.timeseries.iter().map(|p| p.rps_success + p.rps_error).sum::<u64>() == 1);
}

#[test]
fn error_rate_is_in_thousandths_of_a_percent() {
    let samples = vec![
        sample(10.0, 500, false),
        sample(20.0, 200, true),
        sample(30.0, 200, true),
        sample(40.0, 200, true),
    ];
    let result = aggregate_samples(&samples, 0, 1000, 5);
    assert_eq!(result.summary.total_requests, 4);
    assert_eq!(
        result.summary.total_requests,
        result.summary.success_count + result.summary.error_count
    );
    // 1 of 4 failed: 25%, reported in thousandths
    assert_eq!(result.summary.error_rate, 25000);
}

#[test]
fn top_errors_cap_and_order() {
    let mut s1 = sample(10.0, 500, false);
    s1.error_message = Some("alpha".to_string());
    let mut s2 = sample(10.0, 502, false);
    s2.error_message = Some("beta".to_string());
    let mut s3 = sample(10.0, 404, false);
    s3.error_message = Some("gamma".to_string());
    let mut s4 = s3.clone();
    s4.timestamp_ms = 1500;

    // three distinct errors, the 404 seen twice, cap of two
    let samples = vec![s1, s2, s3.clone(), s4];
    let result = aggregate_samples(&samples, 0, 1000, 2);
    assert_eq!(result.top_errors.len(), 2);
    assert_eq!(result.top_errors[0].count, 2);
    assert_eq!(result.top_errors[0].error_type, "HTTP_STATUS_4XX");
    assert_eq!(result.top_errors[1].count, 1);

    // with a generous cap all three appear, ties ordered by name
    let samples = vec![sample(10.0, 500, false), s3];
    let result = aggregate_samples(&samples, 0, 1000, 10);
    assert_eq!(result.top_errors.len(), 2);
    assert_eq!(result.top_errors[0].error_type, "HTTP_STATUS_4XX");
    assert_eq!(result.top_errors[1].error_type, "HTTP_STATUS_5XX");
}

#[test]
fn empty_sample_set_aggregates_to_zeroes() {
    let samples: Vec<SampleResult> = Vec::new();
    let result = aggregate_samples(&samples, 0, 1000, 5);
    assert_eq!(result.summary.total_requests, 0);
    assert_eq!(result.summary.error_rate, 0);
    assert_eq!(result.summary.rps_avg, 0);
    assert_eq!(result.summary.latency.p99_us, 0);
    assert!(result.timeseries.is_empty());
    assert!(result.histogram.is_empty());
    assert!(result.top_errors.is_empty());
}

#[test]
fn warmup_cancellation_yields_empty_cancelled_result() {
    // cancellation observed during warmup: the worker stops at once and
    // the run concludes with empty metrics, no measurement request issued
    let spec = base_spec();
    let workload = warmup_workload(&spec);
    assert!(workload.is_none());

    let mut spec = base_spec();
    spec.timing.warmup_iterations = Some(5);
    let workload = warmup_workload(&spec).unwrap();
    assert_eq!(workload, PhaseWorkload::Iterations(5));
    assert_eq!(
        iteration_decision(true, workload, 0, false),
        WorkerStep::Stop
    );

    let result = cancelled_warmup_result();
    assert!(result.cancelled);
    assert_eq!(result.metrics.summary.total_requests, 0);
    assert_eq!(result.metrics.summary.success_count, 0);
    assert_eq!(result.metrics.summary.error_count, 0);
    assert_eq!(result.metrics.summary.rps_peak, 0);
    assert!(result.metrics.timeseries.is_empty());
    assert!(result.metrics.histogram.is_empty());
    assert!(result.metrics.top_errors.is_empty());
}

#[test]
fn iteration_decision_respects_bounds() {
    let w = PhaseWorkload::Iterations(3);
    assert_eq!(iteration_decision(false, w, 2, false), WorkerStep::Proceed);
    assert_eq!(iteration_decision(false, w, 3, false), WorkerStep::Stop);
    let d = PhaseWorkload::DurationMs(100);
    assert_eq!(iteration_decision(false, d, 0, false), WorkerStep::Proceed);
    assert_eq!(iteration_decision(false, d, 0, true), WorkerStep::Stop);
}
