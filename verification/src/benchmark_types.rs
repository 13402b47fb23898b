//! Data model of the benchmark engine: run configuration, per-request
//! sample outcomes, and the aggregated metrics that a run produces.
//!
//! Latencies are carried in microseconds; a microsecond is exactly one
//! thousandth of a millisecond, so a `*_us` field holds the same number a
//! millisecond value with three decimal digits would. Rates and
//! percentages with three decimal digits are carried in thousandths
//! (`error_rate` of 75000 means 75%).

use vstd::prelude::*;
use crate::strmap::StringMap;

verus! {

/// The request that a benchmark drives, captured once at spec creation.
pub struct BenchmarkRequestSnapshot {
    pub method: String,
    pub url: String,
    pub headers: Vec<(String, String)>,
    pub body: Option<String>,
}

pub struct BenchmarkTarget {
    pub request_id: Option<String>,
    pub request_snapshot: BenchmarkRequestSnapshot,
}

/// Whether a phase is bounded by a request count or by wall-clock time.
#[derive(Clone, Copy, PartialEq, Eq, Structural, Debug)]
pub enum BenchmarkLoadMode {
    FixedIterations,
    FixedDuration,
}

pub struct BenchmarkLoadConfig {
    pub mode: BenchmarkLoadMode,
    pub iterations: Option<u64>,
    pub duration_ms: Option<u64>,
    pub concurrency: u32,
}

pub struct BenchmarkTransportConfig {
    pub keep_alive: bool,
    pub follow_redirects: bool,
    pub proxy_url: Option<String>,
    pub verify_ssl: bool,
}

/// TLS verification is on unless the spec turns it off.
pub fn default_verify_ssl() -> (r: bool)
    ensures
        r == true,
{
    true
}

pub struct BenchmarkTimingConfig {
    pub timeout_ms: u64,
    pub warmup_duration_ms: Option<u64>,
    pub warmup_iterations: Option<u64>,
}

/// Which response bodies to keep as diagnostic samples.
#[derive(Clone, Copy, PartialEq, Eq, Structural, Debug)]
pub enum BenchmarkSaveBodies {
    Disabled,
    Errors,
}

pub struct BenchmarkLoggingConfig {
    pub sample_errors_top_k: u32,
    pub save_bodies: BenchmarkSaveBodies,
}

pub struct BenchmarkEnvConfig {
    pub variables_snapshot: StringMap,
    pub random_seed: Option<u64>,
}

/// Immutable run configuration, created once by the caller and validated
/// before any request is sent.
pub struct BenchmarkSpecPayload {
    pub id: Option<String>,
    pub name: Option<String>,
    pub target: BenchmarkTarget,
    pub load: BenchmarkLoadConfig,
    pub transport: BenchmarkTransportConfig,
    pub timing: BenchmarkTimingConfig,
    pub logging: BenchmarkLoggingConfig,
    pub env: BenchmarkEnvConfig,
}

#[derive(Clone, Copy, PartialEq, Eq, Structural, Debug)]
pub enum BenchmarkRunStatus {
    Queued,
    Running,
    Completed,
    Cancelled,
    Failed,
}

/// Closed taxonomy of request failure modes.
#[derive(Clone, Copy, PartialEq, Eq, Structural, Debug)]
pub enum BenchmarkErrorType {
    DnsError,
    ConnectError,
    TlsError,
    Timeout,
    ReadError,
    HttpStatus4xx,
    HttpStatus5xx,
    Canceled,
}

/// One outcome per completed or aborted request attempt.
#[derive(Clone, Debug)]
pub struct SampleResult {
    /// Milliseconds since the epoch when the attempt completed.
    pub timestamp_ms: u64,
    /// How long the attempt took, in microseconds.
    pub latency_us: u64,
    pub status_code: Option<u16>,
    pub success: bool,
    pub error_type: Option<BenchmarkErrorType>,
    pub error_message: Option<String>,
    pub bytes_in: u64,
    pub bytes_out: u64,
    /// Captured (truncated) error body, when body saving asked for it.
    pub sample_body: Option<String>,
    pub cancelled: bool,
}

/// Latency distribution of a run, in microseconds.
#[derive(Clone, Debug)]
pub struct BenchmarkLatencyMetrics {
    pub min_us: u64,
    pub avg_us: u64,
    pub max_us: u64,
    pub stddev_us: u64,
    pub p50_us: u64,
    pub p90_us: u64,
    pub p95_us: u64,
    pub p99_us: u64,
}

impl Default for BenchmarkLatencyMetrics {
    fn default() -> (r: Self)
        ensures
            r.min_us == 0 && r.avg_us == 0 && r.max_us == 0 && r.stddev_us == 0,
            r.p50_us == 0 && r.p90_us == 0 && r.p95_us == 0 && r.p99_us == 0,
    {
        BenchmarkLatencyMetrics {
            min_us: 0,
            avg_us: 0,
            max_us: 0,
            stddev_us: 0,
            p50_us: 0,
            p90_us: 0,
            p95_us: 0,
            p99_us: 0,
        }
    }
}

/// How often one HTTP status code was seen.
#[derive(Clone, Copy, Debug)]
pub struct StatusCount {
    pub status: u16,
    pub count: u64,
}

/// How often one error type was seen.
#[derive(Clone, Copy, Debug)]
pub struct ErrorTypeCount {
    pub error_type: BenchmarkErrorType,
    pub count: u64,
}

/// Totals of a run. `error_rate` is in thousandths of a percent and
/// `rps_avg` in thousandths of a request per second; `rps_peak` is the
/// highest one-second request count.
#[derive(Clone, Debug)]
pub struct BenchmarkSummaryMetrics {
    pub total_requests: u64,
    pub success_count: u64,
    pub error_count: u64,
    pub error_rate: u64,
    pub rps_avg: u64,
    pub rps_peak: u64,
    pub bytes_in: u64,
    pub bytes_out: u64,
    pub latency: BenchmarkLatencyMetrics,
    /// One entry per status code seen, in ascending status order.
    pub status_code_counts: Vec<StatusCount>,
    /// One entry per error type seen, in ascending name order.
    pub error_type_counts: Vec<ErrorTypeCount>,
}

/// One second of the run. Latency figures are in microseconds.
#[derive(Clone, Debug)]
pub struct BenchmarkTimeseriesPoint {
    pub bucket_ts_ms: u64,
    pub rps_success: u64,
    pub rps_error: u64,
    pub latency_p95_us: u64,
    pub latency_avg_us: u64,
    pub bytes_in: u64,
    pub bytes_out: u64,
}

/// One non-empty display bucket of the latency histogram; bounds in
/// milliseconds.
#[derive(Clone, Copy, Debug)]
pub struct BenchmarkHistogramBucket {
    pub lower_bound_ms: u64,
    pub upper_bound_ms: u64,
    pub count: u64,
}

/// One ranked entry of the top-K error list.
#[derive(Clone, Debug)]
pub struct BenchmarkErrorSample {
    pub error_type: String,
    pub status_code: Option<u16>,
    pub message: String,
    pub count: u64,
    pub sample_body: Option<String>,
}

/// The only artifact that crosses the boundary to persistence and export.
#[derive(Clone, Debug)]
pub struct BenchmarkAggregatedMetrics {
    pub summary: BenchmarkSummaryMetrics,
    pub timeseries: Vec<BenchmarkTimeseriesPoint>,
    pub histogram: Vec<BenchmarkHistogramBucket>,
    pub top_errors: Vec<BenchmarkErrorSample>,
}

pub struct BenchmarkEnvironmentFingerprint {
    pub os: String,
    pub arch: String,
    pub cpu_count: u32,
    pub app_version: String,
}

pub struct BenchmarkRunSummary {
    pub run_id: String,
    pub spec_id: String,
    pub request_id: Option<String>,
    pub status: BenchmarkRunStatus,
    pub created_at: u64,
    pub started_at: Option<u64>,
    pub finished_at: Option<u64>,
    pub spec_hash: Option<String>,
}

pub struct BenchmarkStartResponse {
    pub run_id: String,
}

pub struct BenchmarkExportPayload {
    pub file_name: String,
    pub mime_type: String,
    pub content: String,
}

} // verus!
