//! Human-readable rendering of an aggregate report.
//!
//! Rendering produces one line per rendered outcome plus one summary line;
//! writing the lines to a terminal or file happens outside the library.
//! The `show_all` flag keeps every outcome; without it only the failing
//! outcomes get a line of their own and the successes are only summarized.

use vstd::prelude::*;

use crate::aggregate::count_successes;
use crate::aggregate::AggregateReport;
use crate::json::int_rep;
use crate::numeral::dec_rep;
use crate::numeral::push_decimal;
use crate::outcome::ExecutionOutcome;
use crate::outcome::ExecutionStatus;
use crate::text::chars_to_string;
use crate::text::push_literal;

verus! {

/// The status phrase of a human row.
pub open spec fn human_status(st: ExecutionStatus) -> Seq<char> {
    match st {
        ExecutionStatus::Completed { exit_code } => "exit "@ + int_rep(exit_code as int),
        ExecutionStatus::TimedOut => "timed out"@,
        ExecutionStatus::LaunchFailed { reason } => "launch failed: "@ + reason@,
    }
}

/// The one line an outcome gets in the human rendering.
pub open spec fn human_row(o: ExecutionOutcome) -> Seq<char> {
    o.target_id@ + "  "@ + human_status(o.status) + "  "@ + dec_rep(o.duration_ms as nat)
        + " ms"@
}

/// The closing summary line.
pub open spec fn summary_line(successes: nat, failures: nat) -> Seq<char> {
    dec_rep(successes) + " succeeded, "@ + dec_rep(failures) + " failed"@
}

/// The failing outcomes of `s`, in order.
pub open spec fn failing_outcomes(s: Seq<ExecutionOutcome>) -> Seq<ExecutionOutcome>
    decreases s.len(),
{
    if s.len() == 0 {
        Seq::<ExecutionOutcome>::empty()
    } else {
        failing_outcomes(s.drop_last()) + if s.last().is_success() {
            Seq::<ExecutionOutcome>::empty()
        } else {
            seq![s.last()]
        }
    }
}

/// The outcomes that get a line of their own: all of them, or only the
/// failing ones.
pub open spec fn rendered_outcomes(s: Seq<ExecutionOutcome>, show_all: bool) -> Seq<
    ExecutionOutcome,
> {
    if show_all {
        s
    } else {
        failing_outcomes(s)
    }
}

/// Exactly the outcomes that are not successes get a failing row: the
/// failing rows and the successes together account for every outcome.
pub proof fn lemma_failing_partition(s: Seq<ExecutionOutcome>)
    ensures
        failing_outcomes(s).len() + count_successes(s) == s.len(),
    decreases s.len(),
{
    if s.len() > 0 {
        lemma_failing_partition(s.drop_last());
    }
}

/// Builds the one line for `o`.
fn render_row(o: &ExecutionOutcome) -> (line: String)
    ensures
        line@ == human_row(*o),
{
    let mut out: Vec<char> = Vec::new();
    push_literal(&mut out, o.target_id.as_str());
    push_literal(&mut out, "  ");
    match &o.status {
        ExecutionStatus::Completed { exit_code } => {
            push_literal(&mut out, "exit ");
            if *exit_code < 0 {
                out.push('-');
                let m: u64 = (-(*exit_code as i64)) as u64;
                push_decimal(&mut out, m);
                assert(seq!['-'] + dec_rep(m as nat) =~= int_rep(*exit_code as int));
            } else {
                push_decimal(&mut out, *exit_code as u64);
            }
        },
        ExecutionStatus::TimedOut => {
            push_literal(&mut out, "timed out");
        },
        ExecutionStatus::LaunchFailed { reason } => {
            push_literal(&mut out, "launch failed: ");
            push_literal(&mut out, reason.as_str());
        },
    }
    push_literal(&mut out, "  ");
    push_decimal(&mut out, o.duration_ms);
    push_literal(&mut out, " ms");
    proof {
        assert(out@ =~= human_row(*o));
    }
    chars_to_string(&out)
}

/// Builds the closing summary line.
fn render_summary(successes: usize, failures: usize) -> (line: String)
    ensures
        line@ == summary_line(successes as nat, failures as nat),
{
    let mut out: Vec<char> = Vec::new();
    push_decimal(&mut out, successes as u64);
    push_literal(&mut out, " succeeded, ");
    push_decimal(&mut out, failures as u64);
    push_literal(&mut out, " failed");
    proof {
        assert(out@ =~= summary_line(successes as nat, failures as nat));
    }
    chars_to_string(&out)
}

/// Renders the report: one line per rendered outcome, in report order, then
/// the summary line. With `show_all` unset, exactly the failing outcomes get
/// a line; the successes appear in the summary count alone.
pub fn render_human(report: &AggregateReport, show_all: bool) -> (lines: Vec<String>)
    requires
        report.wf(),
    ensures
        lines@.len() == rendered_outcomes(report.outcomes@, show_all).len() + 1,
        show_all ==> lines@.len() == report.outcomes@.len() + 1,
        !show_all ==> lines@.len() == report.failure_count + 1,
        forall|i: int|
            0 <= i < lines@.len() - 1 ==> (#[trigger] lines@[i])@ == human_row(
                rendered_outcomes(report.outcomes@, show_all)[i],
            ),
        lines@[lines@.len() - 1]@ == summary_line(
            report.success_count as nat,
            report.failure_count as nat,
        ),
{
    let mut lines: Vec<String> = Vec::new();
    let n = report.outcomes.len();
    let mut i: usize = 0;
    while i < n
        invariant
            n == report.outcomes@.len(),
            0 <= i <= n,
            lines@.len() == rendered_outcomes(report.outcomes@.take(i as int), show_all).len(),
            forall|k: int|
                0 <= k < lines@.len() ==> (#[trigger] lines@[k])@ == human_row(
                    rendered_outcomes(report.outcomes@.take(i as int), show_all)[k],
                ),
        decreases n - i,
    {
        let o = &report.outcomes[i];
        let ghost prev = rendered_outcomes(report.outcomes@.take(i as int), show_all);
        proof {
            assert(report.outcomes@.take(i + 1).drop_last() =~= report.outcomes@.take(i as int));
            assert(report.outcomes@.take(i + 1).last() == report.outcomes@[i as int]);
        }
        if show_all || !o.check_success() {
            let line = render_row(o);
            lines.push(line);
            proof {
                let cur = rendered_outcomes(report.outcomes@.take(i + 1), show_all);
                if show_all {
                    assert(cur =~= prev.push(report.outcomes@[i as int]));
                } else {
                    assert(cur =~= prev + seq![report.outcomes@[i as int]]);
                    assert(cur =~= prev.push(report.outcomes@[i as int]));
                }
            }
        } else {
            proof {
                let cur = rendered_outcomes(report.outcomes@.take(i + 1), show_all);
                assert(cur =~= prev);
            }
        }
        i = i + 1;
    }
    proof {
        assert(report.outcomes@.take(n as int) =~= report.outcomes@);
        lemma_failing_partition(report.outcomes@);
    }
    let line = render_summary(report.success_count, report.failure_count);
    lines.push(line);
    lines
}

} // verus!
