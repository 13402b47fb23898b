//! Run orchestration: spec validation, the workload bound of each phase,
//! the per-iteration worker decision, and the shape of a finished run.

use vstd::prelude::*;
use crate::benchmark_types::{
    BenchmarkAggregatedMetrics, BenchmarkLatencyMetrics, BenchmarkLoadMode,
    BenchmarkSpecPayload, BenchmarkSummaryMetrics, SampleResult,
};
use crate::kernel::agg_kernel;
use crate::metrics::{aggregate_samples, aggregated_matches};

verus! {

/// A closed workload bound: a fixed request count divided across workers,
/// or a wall-clock deadline shared by them.
#[derive(Clone, Copy, PartialEq, Eq, Structural, Debug)]
pub enum PhaseWorkload {
    Iterations(u64),
    DurationMs(u64),
}

/// What a finished run hands back: the aggregated metrics and whether the
/// measurement phase was cancelled.
pub struct BenchmarkExecutionResult {
    pub metrics: BenchmarkAggregatedMetrics,
    pub cancelled: bool,
}

/// Whether the spec's chosen load mode carries a positive bound.
pub open spec fn spec_measurement_ok(spec: BenchmarkSpecPayload) -> bool {
    match spec.load.mode {
        BenchmarkLoadMode::FixedIterations => spec.load.iterations matches Some(n) && n > 0,
        BenchmarkLoadMode::FixedDuration => spec.load.duration_ms matches Some(d) && d > 0,
    }
}

/// The measurement phase's workload: the configured iteration count or
/// duration, rejected when the chosen mode has no positive bound.
pub fn measurement_workload(spec: &BenchmarkSpecPayload) -> (r: Result<PhaseWorkload, String>)
    ensures
        r is Ok <==> spec_measurement_ok(*spec),
        spec_measurement_ok(*spec) ==> r == Ok::<PhaseWorkload, String>(
            match spec.load.mode {
                BenchmarkLoadMode::FixedIterations => PhaseWorkload::Iterations(
                    spec.load.iterations->0,
                ),
                BenchmarkLoadMode::FixedDuration => PhaseWorkload::DurationMs(
                    spec.load.duration_ms->0,
                ),
            },
        ),
        (!spec_measurement_ok(*spec) && spec.load.mode == BenchmarkLoadMode::FixedIterations)
            ==> (r matches Err(m) && m@
            == "Benchmark fixed_iterations mode requires iterations > 0"@),
        (!spec_measurement_ok(*spec) && spec.load.mode == BenchmarkLoadMode::FixedDuration) ==> (
        r matches Err(m) && m@ == "Benchmark fixed_duration mode requires durationMs > 0"@),
{
    match spec.load.mode {
        BenchmarkLoadMode::FixedIterations => {
            let iterations = match spec.load.iterations {
                Some(n) => n,
                None => 0,
            };
            if iterations == 0 {
                return Err("Benchmark fixed_iterations mode requires iterations > 0".to_owned());
            }
            Ok(PhaseWorkload::Iterations(iterations))
        },
        BenchmarkLoadMode::FixedDuration => {
            let duration_ms = match spec.load.duration_ms {
                Some(d) => d,
                None => 0,
            };
            if duration_ms == 0 {
                return Err("Benchmark fixed_duration mode requires durationMs > 0".to_owned());
            }
            Ok(PhaseWorkload::DurationMs(duration_ms))
        },
    }
}

/// Whether the whole spec passes validation: positive concurrency, a
/// positive per-request timeout, and a positive bound for the chosen mode.
pub open spec fn spec_valid(spec: BenchmarkSpecPayload) -> bool {
    &&& spec.load.concurrency > 0
    &&& spec.timing.timeout_ms > 0
    &&& spec_measurement_ok(spec)
}

/// Validate the spec before any request is sent: concurrency and timeout
/// must be positive, and the chosen load mode must carry a positive bound.
pub fn validate_spec(spec: &BenchmarkSpecPayload) -> (r: Result<(), String>)
    ensures
        r is Ok <==> spec_valid(*spec),
        spec.load.concurrency == 0 ==> (r matches Err(m) && m@
            == "Benchmark concurrency must be greater than 0"@),
        (spec.load.concurrency > 0 && spec.timing.timeout_ms == 0) ==> (r matches Err(m) && m@
            == "Benchmark timeoutMs must be greater than 0"@),
{
    if spec.load.concurrency == 0 {
        return Err("Benchmark concurrency must be greater than 0".to_owned());
    }
    if spec.timing.timeout_ms == 0 {
        return Err("Benchmark timeoutMs must be greater than 0".to_owned());
    }
    match measurement_workload(spec) {
        Ok(_) => Ok(()),
        Err(m) => Err(m),
    }
}

/// The warmup phase's workload, if the spec asks for one: warmup
/// iterations take priority over a warmup duration.
pub open spec fn spec_warmup_workload(spec: BenchmarkSpecPayload) -> Option<PhaseWorkload> {
    if spec.timing.warmup_iterations matches Some(n) && n > 0 {
        Some(PhaseWorkload::Iterations(spec.timing.warmup_iterations->0))
    } else if spec.timing.warmup_duration_ms matches Some(d) && d > 0 {
        Some(PhaseWorkload::DurationMs(spec.timing.warmup_duration_ms->0))
    } else {
        None
    }
}

/// See `spec_warmup_workload`.
pub fn warmup_workload(spec: &BenchmarkSpecPayload) -> (r: Option<PhaseWorkload>)
    ensures
        r == spec_warmup_workload(*spec),
{
    let warmup_iterations = match spec.timing.warmup_iterations {
        Some(n) => n,
        None => 0,
    };
    if warmup_iterations > 0 {
        return Some(PhaseWorkload::Iterations(warmup_iterations));
    }
    let warmup_duration = match spec.timing.warmup_duration_ms {
        Some(d) => d,
        None => 0,
    };
    if warmup_duration > 0 {
        return Some(PhaseWorkload::DurationMs(warmup_duration));
    }
    None
}

/// The worker pool size a phase runs with: the configured concurrency,
/// coerced to at least one.
pub fn worker_count(concurrency: u32) -> (r: usize)
    ensures
        r == (if concurrency == 0 {
            1int
        } else {
            concurrency as int
        }),
{
    if concurrency == 0 {
        1
    } else {
        concurrency as usize
    }
}

/// What a worker does next, per iteration.
#[derive(Clone, Copy, PartialEq, Eq, Structural, Debug)]
pub enum WorkerStep {
    Stop,
    Proceed,
}

/// The per-iteration decision of one worker: a seen cancellation stops it;
/// then a drawn ticket at or past the iteration target, or a passed
/// deadline, stops it; otherwise it issues one more request.
pub fn iteration_decision(
    cancel_seen: bool,
    workload: PhaseWorkload,
    ticket: u64,
    deadline_passed: bool,
) -> (r: WorkerStep)
    ensures
        r == WorkerStep::Stop <==> (cancel_seen || (workload matches PhaseWorkload::Iterations(n)
            && ticket >= n) || (workload matches PhaseWorkload::DurationMs(_) && deadline_passed)),
{
    if cancel_seen {
        return WorkerStep::Stop;
    }
    match workload {
        PhaseWorkload::Iterations(n) => {
            if ticket >= n {
                WorkerStep::Stop
            } else {
                WorkerStep::Proceed
            }
        },
        PhaseWorkload::DurationMs(_) => {
            if deadline_passed {
                WorkerStep::Stop
            } else {
                WorkerStep::Proceed
            }
        },
    }
}

/// Whether a summary is entirely zero-valued.
pub open spec fn zero_summary(sm: BenchmarkSummaryMetrics) -> bool {
    &&& sm.total_requests == 0
    &&& sm.success_count == 0
    &&& sm.error_count == 0
    &&& sm.error_rate == 0
    &&& sm.rps_avg == 0
    &&& sm.rps_peak == 0
    &&& sm.bytes_in == 0
    &&& sm.bytes_out == 0
    &&& sm.latency.min_us == 0 && sm.latency.avg_us == 0 && sm.latency.max_us == 0
        && sm.latency.stddev_us == 0
    &&& sm.latency.p50_us == 0 && sm.latency.p90_us == 0 && sm.latency.p95_us == 0
        && sm.latency.p99_us == 0
    &&& sm.status_code_counts@.len() == 0
    &&& sm.error_type_counts@.len() == 0
}

/// Whether a whole result is empty and flagged as cancelled.
pub open spec fn cancelled_empty_result(r: BenchmarkExecutionResult) -> bool {
    &&& r.cancelled
    &&& zero_summary(r.metrics.summary)
    &&& r.metrics.timeseries@.len() == 0
    &&& r.metrics.histogram@.len() == 0
    &&& r.metrics.top_errors@.len() == 0
}

/// The result a run returns when cancellation arrives during warmup: the
/// cancelled flag with empty, zero-valued metrics; the measurement phase
/// never starts.
pub fn cancelled_warmup_result() -> (r: BenchmarkExecutionResult)
    ensures
        cancelled_empty_result(r),
{
    BenchmarkExecutionResult {
        metrics: BenchmarkAggregatedMetrics {
            summary: BenchmarkSummaryMetrics {
                total_requests: 0,
                success_count: 0,
                error_count: 0,
                error_rate: 0,
                rps_avg: 0,
                rps_peak: 0,
                bytes_in: 0,
                bytes_out: 0,
                latency: BenchmarkLatencyMetrics::default(),
                status_code_counts: Vec::new(),
                error_type_counts: Vec::new(),
            },
            timeseries: Vec::new(),
            histogram: Vec::new(),
            top_errors: Vec::new(),
        },
        cancelled: true,
    }
}

/// Conclude a run from the measurement phase's samples: aggregate them
/// with the configured top-K cap (floored at one) and carry the phase's
/// cancellation flag through.
pub fn finish_measurement(
    samples: &Vec<SampleResult>,
    started_at_ms: u64,
    finished_at_ms: u64,
    sample_errors_top_k: u32,
    cancelled: bool,
) -> (r: BenchmarkExecutionResult)
    ensures
        r.cancelled == cancelled,
        aggregated_matches(
            r.metrics,
            agg_kernel(samples@),
            started_at_ms as int,
            finished_at_ms as int,
            if sample_errors_top_k < 1 {
                1int
            } else {
                sample_errors_top_k as int
            },
            samples@,
        ),
{
    let cap: usize = if sample_errors_top_k < 1 {
        1
    } else {
        sample_errors_top_k as usize
    };
    let metrics = aggregate_samples(samples, started_at_ms, finished_at_ms, cap);
    BenchmarkExecutionResult { metrics, cancelled }
}

} // verus!
