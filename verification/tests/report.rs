use ceres::aggregate::AggregateReport;
use ceres::json::parse_report_json;
use ceres::json::render_json;
use ceres::outcome::ExecutionOutcome;
use ceres::outcome::ExecutionStatus;
use ceres::render::render_human;

fn outcome(id: &str, status: ExecutionStatus, duration_ms: u64) -> ExecutionOutcome {
    ExecutionOutcome {
        target_id: id.to_string(),
        status,
        captured_output: String::new(),
        duration_ms,
    }
}

fn report(outcomes: Vec<ExecutionOutcome>) -> AggregateReport {
    let successes = outcomes
        .iter()
        .filter(|o| o.status == ExecutionStatus::Completed { exit_code: 0 })
        .count();
    let failures = outcomes.len() - successes;
    AggregateReport { outcomes, success_count: successes, failure_count: failures }
}

fn three_successes_two_failures() -> AggregateReport {
    report(vec![
        outcome("i-1", ExecutionStatus::Completed { exit_code: 0 }, 10),
        outcome("i-2", ExecutionStatus::Completed { exit_code: 1 }, 20),
        outcome("i-3", ExecutionStatus::Completed { exit_code: 0 }, 30),
        outcome("i-4", ExecutionStatus::TimedOut, 5000),
        outcome("i-5", ExecutionStatus::Completed { exit_code: 0 }, 50),
    ])
}

#[test]
fn render_human_filters_to_failures() {
    let rep = three_successes_two_failures();
    let lines = render_human(&rep, false);
    assert_eq!(lines.len(), 3);
    assert_eq!(lines[0], "i-2  exit 1  20 ms");
    assert_eq!(lines[1], "i-4  timed out  5000 ms");
    assert_eq!(lines[2], "3 succeeded, 2 failed");
}

#[test]
fn render_human_shows_all() {
    let rep = three_successes_two_failures();
    let lines = render_human(&rep, true);
    assert_eq!(lines.len(), 6);
    assert_eq!(lines[0], "i-1  exit 0  10 ms");
    assert_eq!(lines[4], "i-5  exit 0  50 ms");
    assert_eq!(lines[5], "3 succeeded, 2 failed");
}

#[test]
fn render_human_launch_failure_row() {
    let rep = report(vec![outcome(
        "i-1",
        ExecutionStatus::LaunchFailed { reason: "transport missing".to_string() },
        0,
    )]);
    let lines = render_human(&rep, false);
    assert_eq!(lines[0], "i-1  launch failed: transport missing  0 ms");
    assert_eq!(lines[1], "0 succeeded, 1 failed");
}

#[test]
fn render_json_exact_document() {
    let rep = report(vec![
        outcome("i-1", ExecutionStatus::Completed { exit_code: 0 }, 12),
        outcome("i-2", ExecutionStatus::TimedOut, 5000),
    ]);
    let doc = render_json(&rep);
    let expected = "[{\"target_id\":\"i-1\",\"status\":\"completed\",\"exit_code\":0,\"duration_ms\":12},{\"target_id\":\"i-2\",\"status\":\"timed_out\",\"duration_ms\":5000}]";
    assert_eq!(doc, expected);
}

#[test]
fn render_json_empty_report() {
    let rep = report(vec![]);
    assert_eq!(render_json(&rep), "[]");
    let parsed = parse_report_json("[]").unwrap();
    assert!(parsed.is_empty());
}

#[test]
fn render_json_escapes_strings() {
    let rep = report(vec![outcome(
        "i-\"quoted\\\"",
        ExecutionStatus::LaunchFailed { reason: "path \\tmp".to_string() },
        0,
    )]);
    let doc = render_json(&rep);
    let expected = "[{\"target_id\":\"i-\\\"quoted\\\\\\\"\",\"status\":\"launch_failed\",\"reason\":\"path \\\\tmp\",\"duration_ms\":0}]";
    assert_eq!(doc, expected);
}

#[test]
fn json_round_trips_every_status() {
    let rep = report(vec![
        outcome("i-1", ExecutionStatus::Completed { exit_code: 0 }, 12),
        outcome("i-2", ExecutionStatus::Completed { exit_code: -7 }, 44),
        outcome("i-\"3\\", ExecutionStatus::TimedOut, 5000),
        outcome(
            "i-4",
            ExecutionStatus::LaunchFailed { reason: "no \"ssh\" found".to_string() },
            0,
        ),
    ]);
    let doc = render_json(&rep);
    let records = parse_report_json(&doc).unwrap();
    assert_eq!(records.len(), rep.outcomes.len());
    for (rec, out) in records.iter().zip(rep.outcomes.iter()) {
        assert_eq!(rec.target_id, out.target_id);
        assert_eq!(rec.status, out.status);
        assert_eq!(rec.duration_ms, out.duration_ms);
    }
}

#[test]
fn parse_rejects_malformed_documents() {
    assert!(parse_report_json("").is_none());
    assert!(parse_report_json("{}").is_none());
    assert!(parse_report_json("[] ").is_none());
    let good = "[{\"target_id\":\"i-1\",\"status\":\"timed_out\",\"duration_ms\":5000}]";
    assert!(parse_report_json(good).is_some());
    let trailing = "[{\"target_id\":\"i-1\",\"status\":\"timed_out\",\"duration_ms\":5000}]x";
    assert!(parse_report_json(trailing).is_none());
    let bad_escape = "[{\"target_id\":\"i-\\n1\",\"status\":\"timed_out\",\"duration_ms\":5}]";
    assert!(parse_report_json(bad_escape).is_none());
    let bad_status = "[{\"target_id\":\"i-1\",\"status\":\"sleeping\",\"duration_ms\":5}]";
    assert!(parse_report_json(bad_status).is_none());
    let huge = "[{\"target_id\":\"i-1\",\"status\":\"timed_out\",\"duration_ms\":99999999999999999999999}]";
    assert!(parse_report_json(huge).is_none());
}
