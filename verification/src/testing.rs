//! Response assertions and the collection runner's report shapes.

use vstd::prelude::*;

verus! {

/// Target of an assertion within the HTTP response.
pub enum AssertionTarget {
    StatusCode,
    Header(String),
    JsonPath(String),
    BodyContains,
}

/// Comparison operator for an assertion.
#[derive(Clone, Copy, PartialEq, Eq, Structural, Debug)]
pub enum AssertionOperator {
    Equals,
    NotEquals,
    Contains,
    GreaterThan,
    LessThan,
    Exists,
}

/// A single assertion that can be evaluated against a response.
pub struct Assertion {
    pub target: AssertionTarget,
    pub operator: AssertionOperator,
    pub expected: String,
}

/// Result of evaluating an assertion.
pub struct AssertionResult {
    pub assertion: Assertion,
    pub passed: bool,
    pub actual: String,
    pub message: String,
}

/// Execution mode for the collection runner.
#[derive(Clone, Copy, PartialEq, Eq, Structural, Debug)]
pub enum RunMode {
    Serial,
    Parallel,
}

/// Summary report for a batch run.
pub struct RunReport {
    pub total: usize,
    pub passed: usize,
    pub failed: usize,
    pub duration_ms: u128,
    pub results: Vec<AssertionResult>,
}

} // verus!
