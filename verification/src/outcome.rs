//! Terminal per-target results.

use vstd::prelude::*;

verus! {

/// Terminal status of one target's remote command.
#[derive(Debug, PartialEq, Eq)]
pub enum ExecutionStatus {
    /// The transport launched and the remote command exited with this code.
    Completed { exit_code: i32 },
    /// The remote command had not finished when the per-target deadline
    /// expired.
    TimedOut,
    /// The transport process could not be started for this target.
    LaunchFailed { reason: String },
}

impl ExecutionStatus {
    /// An exact copy, `r == *self`, so contracts can track the value through
    /// the aggregation step.
    pub fn duplicate(&self) -> (r: Self)
        ensures
            r == *self,
    {
        match self {
            ExecutionStatus::Completed { exit_code } => ExecutionStatus::Completed {
                exit_code: *exit_code,
            },
            ExecutionStatus::TimedOut => ExecutionStatus::TimedOut,
            ExecutionStatus::LaunchFailed { reason } => ExecutionStatus::LaunchFailed {
                reason: reason.clone(),
            },
        }
    }
}

/// Terminal result of running one command specification against one target.
/// Exactly one of these exists per target of a run, however the target
/// terminated.
#[derive(Debug, PartialEq, Eq)]
pub struct ExecutionOutcome {
    pub target_id: String,
    pub status: ExecutionStatus,
    pub captured_output: String,
    pub duration_ms: u64,
}

impl ExecutionOutcome {
    /// An outcome counts as a success exactly when the remote command
    /// completed with exit code 0; every other status is a failure for
    /// reporting and exit-code purposes.
    pub open spec fn is_success(&self) -> bool {
        self.status matches ExecutionStatus::Completed { exit_code } && exit_code == 0
    }

    /// Decides `is_success` for this outcome.
    pub fn check_success(&self) -> (b: bool)
        ensures
            b == self.is_success(),
    {
        match &self.status {
            ExecutionStatus::Completed { exit_code } => *exit_code == 0,
            _ => false,
        }
    }

    /// An exact copy, `r == *self`, so contracts can track the value through
    /// the aggregation step.
    pub fn duplicate(&self) -> (r: Self)
        ensures
            r == *self,
    {
        ExecutionOutcome {
            target_id: self.target_id.clone(),
            status: self.status.duplicate(),
            captured_output: self.captured_output.clone(),
            duration_ms: self.duration_ms,
        }
    }
}

} // verus!
