//! Deriving the process exit disposition from the aggregate report.

use vstd::prelude::*;

use crate::aggregate::AggregateReport;

verus! {

/// Overall disposition of a run, as the process reports it to the caller.
#[derive(Clone, Copy, Debug, PartialEq, Eq, Structural)]
pub enum ExitDisposition {
    Success,
    Failure,
}

/// Signals overall failure exactly when the operator asked for strictness
/// and at least one target failed; otherwise the run is an overall success,
/// irrespective of individual failures.
pub fn evaluate_exit(report: &AggregateReport, fail_on_fail: bool) -> (d: ExitDisposition)
    ensures
        d is Failure <==> fail_on_fail && report.failure_count > 0,
        d is Success <==> !fail_on_fail || report.failure_count == 0,
{
    if fail_on_fail && report.failure_count > 0 {
        ExitDisposition::Failure
    } else {
        ExitDisposition::Success
    }
}

} // verus!
