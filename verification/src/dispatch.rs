//! Classification of transport observations into terminal outcomes.
//!
//! The dispatcher runs one transport process per target concurrently; the
//! process and timer work happens outside the library. What comes back for
//! each target is a `TransportEvent`; classifying that observation into the
//! target's `ExecutionOutcome` is pure and verified here.

use vstd::prelude::*;

use crate::outcome::ExecutionOutcome;
use crate::outcome::ExecutionStatus;

verus! {

/// What the per-target runner observed for one target: either the transport
/// process could not be spawned, or the deadline expired while the process
/// was still running (and it was terminated), or the process terminated on
/// its own with an exit code after the measured duration.
pub enum TransportEvent {
    LaunchFailure { reason: String },
    DeadlineExpired { output: String },
    Exited { exit_code: i32, output: String, duration_ms: u64 },
}

/// The status the dispatcher assigns to `event` under the per-target
/// deadline `timeout_ms`. A launch failure is never masked; a command that
/// ran past its deadline is timed out, never completed.
pub open spec fn classified_status(timeout_ms: u64, event: TransportEvent) -> ExecutionStatus {
    match event {
        TransportEvent::LaunchFailure { reason } => ExecutionStatus::LaunchFailed { reason },
        TransportEvent::DeadlineExpired { output: _ } => ExecutionStatus::TimedOut,
        TransportEvent::Exited { exit_code, output: _, duration_ms } => if duration_ms
            > timeout_ms {
            ExecutionStatus::TimedOut
        } else {
            ExecutionStatus::Completed { exit_code }
        },
    }
}

/// The output the outcome carries for `event`: nothing was captured when the
/// launch failed, otherwise whatever the process wrote before terminating.
pub open spec fn classified_output(event: TransportEvent) -> Seq<char> {
    match event {
        TransportEvent::LaunchFailure { reason: _ } => Seq::<char>::empty(),
        TransportEvent::DeadlineExpired { output } => output@,
        TransportEvent::Exited { exit_code: _, output, duration_ms: _ } => output@,
    }
}

/// The duration the outcome carries for `event`: a launch failure consumed no
/// run time, a target cut off at its deadline ran for the whole deadline, and
/// a process that exited ran for the measured duration.
pub open spec fn classified_duration(timeout_ms: u64, event: TransportEvent) -> u64 {
    match event {
        TransportEvent::LaunchFailure { reason: _ } => 0,
        TransportEvent::DeadlineExpired { output: _ } => timeout_ms,
        TransportEvent::Exited { exit_code: _, output: _, duration_ms } => duration_ms,
    }
}

/// Builds the one terminal outcome for the target `target_id` from what the
/// transport observed for it.
pub fn classify_outcome(target_id: &String, timeout_ms: u64, event: TransportEvent) -> (out:
    ExecutionOutcome)
    ensures
        out.target_id@ == target_id@,
        out.status == classified_status(timeout_ms, event),
        out.captured_output@ == classified_output(event),
        out.duration_ms == classified_duration(timeout_ms, event),
{
    match event {
        TransportEvent::LaunchFailure { reason } => ExecutionOutcome {
            target_id: target_id.clone(),
            status: ExecutionStatus::LaunchFailed { reason },
            captured_output: String::new(),
            duration_ms: 0,
        },
        TransportEvent::DeadlineExpired { output } => ExecutionOutcome {
            target_id: target_id.clone(),
            status: ExecutionStatus::TimedOut,
            captured_output: output,
            duration_ms: timeout_ms,
        },
        TransportEvent::Exited { exit_code, output, duration_ms } => ExecutionOutcome {
            target_id: target_id.clone(),
            status: if duration_ms > timeout_ms {
                ExecutionStatus::TimedOut
            } else {
                ExecutionStatus::Completed { exit_code }
            },
            captured_output: output,
            duration_ms,
        },
    }
}

/// A target whose remote command exceeded its deadline is always classified
/// `TimedOut` and never `Completed`, whether the runner cut it off at the
/// deadline or only noticed the overrun after the process ended.
pub proof fn lemma_exceeded_deadline_times_out(timeout_ms: u64, event: TransportEvent)
    requires
        event matches TransportEvent::DeadlineExpired { .. } || (event
            matches TransportEvent::Exited { duration_ms, .. } && duration_ms > timeout_ms),
    ensures
        classified_status(timeout_ms, event) is TimedOut,
        !(classified_status(timeout_ms, event) is Completed),
{
}

/// A target whose transport could not be launched is always classified
/// `LaunchFailed`, whatever its deadline was; the failure is recorded as
/// that target's own outcome and nothing else.
pub proof fn lemma_launch_failure_always_recorded(timeout_ms: u64, event: TransportEvent)
    requires
        event matches TransportEvent::LaunchFailure { .. },
    ensures
        classified_status(timeout_ms, event) is LaunchFailed,
        forall|other_timeout_ms: u64|
            classified_status(other_timeout_ms, event) == classified_status(timeout_ms, event),
{
}

} // verus!
