//! Import/export formats, plugin hooks, CLI configuration, and the stored
//! form of a benchmark run.

use vstd::prelude::*;
use crate::benchmark_types::{BenchmarkRunStatus, BenchmarkRunSummary};
use crate::text::str_eq;

verus! {

/// Supported import source formats.
#[derive(Clone, Copy, PartialEq, Eq, Structural, Debug)]
pub enum ImportFormat {
    PostmanV2_1,
    Getman,
}

/// Supported export target formats.
#[derive(Clone, Copy, PartialEq, Eq, Structural, Debug)]
pub enum ExportFormat {
    Getman,
}

/// Lifecycle event at which a plugin hook can execute.
#[derive(Clone, Copy, PartialEq, Eq, Structural, Debug)]
pub enum HookEvent {
    BeforeRequest,
    AfterResponse,
}

/// A registered plugin hook.
pub struct PluginHook {
    pub name: String,
    pub event: HookEvent,
    pub script: String,
    pub enabled: bool,
}

/// CLI configuration parsed from command-line arguments.
pub struct CliConfig {
    pub collection_path: String,
    pub environment: Option<String>,
    pub output_format: OutputFormat,
    pub report_path: Option<String>,
}

/// Output format for CLI reports.
#[derive(Clone, Copy, PartialEq, Eq, Structural, Debug)]
pub enum OutputFormat {
    Text,
    Json,
}

impl Default for OutputFormat {
    fn default() -> (r: Self)
        ensures
            r is Text,
    {
        OutputFormat::Text
    }
}

/// One benchmark run as the relational store holds it.
pub struct StoredBenchmarkRunRow {
    pub run_id: String,
    pub spec_id: String,
    pub request_id: Option<String>,
    pub status: String,
    pub created_at: u64,
    pub started_at: Option<u64>,
    pub finished_at: Option<u64>,
    pub spec_hash: String,
    pub spec_json: String,
    pub env_fingerprint_json: String,
    pub aggregated_json: Option<String>,
}

/// The stored name of a run status.
pub open spec fn status_name(status: BenchmarkRunStatus) -> Seq<char> {
    match status {
        BenchmarkRunStatus::Queued => "queued"@,
        BenchmarkRunStatus::Running => "running"@,
        BenchmarkRunStatus::Completed => "completed"@,
        BenchmarkRunStatus::Cancelled => "cancelled"@,
        BenchmarkRunStatus::Failed => "failed"@,
    }
}

/// See `status_name`.
pub fn status_to_str(status: BenchmarkRunStatus) -> (r: &'static str)
    ensures
        r@ == status_name(status),
{
    match status {
        BenchmarkRunStatus::Queued => "queued",
        BenchmarkRunStatus::Running => "running",
        BenchmarkRunStatus::Completed => "completed",
        BenchmarkRunStatus::Cancelled => "cancelled",
        BenchmarkRunStatus::Failed => "failed",
    }
}

/// The status a stored name denotes; anything unknown reads as failed.
pub open spec fn spec_status_from_str(s: Seq<char>) -> BenchmarkRunStatus {
    if s == "queued"@ { BenchmarkRunStatus::Queued }
    else if s == "running"@ { BenchmarkRunStatus::Running }
    else if s == "completed"@ { BenchmarkRunStatus::Completed }
    else if s == "cancelled"@ { BenchmarkRunStatus::Cancelled }
    else { BenchmarkRunStatus::Failed }
}

/// See `spec_status_from_str`.
pub fn status_from_str(value: &str) -> (r: BenchmarkRunStatus)
    ensures
        r == spec_status_from_str(value@),
{
    if str_eq(value, "queued") { BenchmarkRunStatus::Queued }
    else if str_eq(value, "running") { BenchmarkRunStatus::Running }
    else if str_eq(value, "completed") { BenchmarkRunStatus::Completed }
    else if str_eq(value, "cancelled") { BenchmarkRunStatus::Cancelled }
    else { BenchmarkRunStatus::Failed }
}

/// The run summary a stored row denotes.
pub fn run_summary_from_row(row: &StoredBenchmarkRunRow) -> (r: BenchmarkRunSummary)
    ensures
        r.run_id@ == row.run_id@,
        r.spec_id@ == row.spec_id@,
        r.request_id == row.request_id || (r.request_id matches Some(a) && row.request_id
            matches Some(b) && a@ == b@),
        (r.request_id is Some) == (row.request_id is Some),
        r.status == spec_status_from_str(row.status@),
        r.created_at == row.created_at,
        r.started_at == row.started_at,
        r.finished_at == row.finished_at,
        r.spec_hash matches Some(h) && h@ == row.spec_hash@,
{
    BenchmarkRunSummary {
        run_id: row.run_id.clone(),
        spec_id: row.spec_id.clone(),
        request_id: match &row.request_id {
            Some(id) => Some(id.clone()),
            None => None,
        },
        status: status_from_str(row.status.as_str()),
        created_at: row.created_at,
        started_at: row.started_at,
        finished_at: row.finished_at,
        spec_hash: Some(row.spec_hash.clone()),
    }
}

} // verus!
