use ceres::aggregate::aggregate_outcomes;
use ceres::command::build_command_specs;
use ceres::command::collect_resolutions;
use ceres::command::interactive_arguments;
use ceres::command::split_on_spaces;
use ceres::command::transport_arguments;
use ceres::command::BuildError;
use ceres::command::CommandSpec;
use ceres::command::ResolutionError;
use ceres::command::ResolvedTarget;
use ceres::command::RunOptions;
use ceres::console::is_affirmative;
use ceres::dispatch::classify_outcome;
use ceres::dispatch::TransportEvent;
use ceres::exit_policy::evaluate_exit;
use ceres::exit_policy::ExitDisposition;
use ceres::outcome::ExecutionOutcome;
use ceres::outcome::ExecutionStatus;
use ceres::progress::ProgressTracker;

fn target(id: &str, private: Option<&str>, public: Option<&str>) -> ResolvedTarget {
    ResolvedTarget {
        target_id: id.to_string(),
        private_address: private.map(|a| a.to_string()),
        public_address: public.map(|a| a.to_string()),
    }
}

fn options() -> RunOptions {
    RunOptions {
        login_user: None,
        profile_login_user: None,
        use_public_address: false,
        transport_options: vec![],
        remote_command_tokens: vec!["uptime".to_string()],
        timeout_ms: 5000,
    }
}

fn outcome(id: &str, status: ExecutionStatus, duration_ms: u64) -> ExecutionOutcome {
    ExecutionOutcome {
        target_id: id.to_string(),
        status,
        captured_output: String::new(),
        duration_ms,
    }
}

#[test]
fn build_one_spec_per_target_in_order() {
    let targets = vec![
        target("i-1", Some("10.0.0.1"), None),
        target("i-2", Some("10.0.0.2"), None),
        target("i-3", Some("10.0.0.3"), None),
    ];
    let specs = build_command_specs(&targets, &options()).unwrap();
    assert_eq!(specs.len(), 3);
    assert_eq!(specs[0].target_id, "i-1");
    assert_eq!(specs[1].target_id, "i-2");
    assert_eq!(specs[2].target_id, "i-3");
    assert_eq!(specs[1].address, "10.0.0.2");
    assert_eq!(specs[1].remote_command_tokens, vec!["uptime".to_string()]);
    assert_eq!(specs[1].timeout_ms, 5000);
}

#[test]
fn build_prefers_public_when_flag_set() {
    let targets = vec![target("i-1", Some("10.0.0.1"), Some("54.0.0.1"))];
    let mut opts = options();
    opts.use_public_address = true;
    let specs = build_command_specs(&targets, &opts).unwrap();
    assert_eq!(specs[0].address, "54.0.0.1");
}

#[test]
fn build_uses_private_without_flag() {
    let targets = vec![target("i-1", Some("10.0.0.1"), Some("54.0.0.1"))];
    let specs = build_command_specs(&targets, &options()).unwrap();
    assert_eq!(specs[0].address, "10.0.0.1");
}

#[test]
fn build_falls_back_when_preferred_address_missing() {
    let with_flag = {
        let mut o = options();
        o.use_public_address = true;
        o
    };
    let specs = build_command_specs(&vec![target("i-1", Some("10.0.0.1"), None)], &with_flag)
        .unwrap();
    assert_eq!(specs[0].address, "10.0.0.1");
    let specs = build_command_specs(&vec![target("i-1", None, Some("54.0.0.1"))], &options())
        .unwrap();
    assert_eq!(specs[0].address, "54.0.0.1");
}

#[test]
fn build_fails_for_target_without_address() {
    let targets = vec![
        target("i-1", Some("10.0.0.1"), None),
        target("i-2", None, None),
        target("i-3", None, None),
    ];
    let err = build_command_specs(&targets, &options()).unwrap_err();
    assert_eq!(
        err,
        BuildError::AddressUnavailable { target_id: "i-2".to_string() }
    );
}

#[test]
fn build_login_user_precedence() {
    let targets = vec![target("i-1", Some("10.0.0.1"), None)];
    let mut opts = options();
    opts.profile_login_user = Some("profile-user".to_string());
    let specs = build_command_specs(&targets, &opts).unwrap();
    assert_eq!(specs[0].login_user, Some("profile-user".to_string()));
    opts.login_user = Some("cli-user".to_string());
    let specs = build_command_specs(&targets, &opts).unwrap();
    assert_eq!(specs[0].login_user, Some("cli-user".to_string()));
    let specs = build_command_specs(&targets, &options()).unwrap();
    assert_eq!(specs[0].login_user, None);
}

#[test]
fn classify_completed_within_deadline() {
    let out = classify_outcome(
        &"i-1".to_string(),
        5000,
        TransportEvent::Exited { exit_code: 3, output: "boom".to_string(), duration_ms: 120 },
    );
    assert_eq!(out.target_id, "i-1");
    assert_eq!(out.status, ExecutionStatus::Completed { exit_code: 3 });
    assert_eq!(out.captured_output, "boom");
    assert_eq!(out.duration_ms, 120);
}

#[test]
fn classify_deadline_event_times_out() {
    let out = classify_outcome(
        &"i-1".to_string(),
        5000,
        TransportEvent::DeadlineExpired { output: "partial".to_string() },
    );
    assert_eq!(out.status, ExecutionStatus::TimedOut);
    assert_eq!(out.duration_ms, 5000);
}

#[test]
fn classify_overrun_never_completes() {
    let out = classify_outcome(
        &"i-1".to_string(),
        5000,
        TransportEvent::Exited { exit_code: 0, output: String::new(), duration_ms: 5001 },
    );
    assert_eq!(out.status, ExecutionStatus::TimedOut);
}

#[test]
fn classify_launch_failure_is_recorded() {
    let out = classify_outcome(
        &"i-1".to_string(),
        5000,
        TransportEvent::LaunchFailure { reason: "no such binary".to_string() },
    );
    assert_eq!(
        out.status,
        ExecutionStatus::LaunchFailed { reason: "no such binary".to_string() }
    );
    assert_eq!(out.duration_ms, 0);
    assert_eq!(out.captured_output, "");
}

#[test]
fn aggregate_restores_input_order() {
    let targets = vec![
        target("i-1", Some("10.0.0.1"), None),
        target("i-2", Some("10.0.0.2"), None),
        target("i-3", Some("10.0.0.3"), None),
    ];
    let specs = build_command_specs(&targets, &options()).unwrap();
    let completion_order = vec![
        outcome("i-3", ExecutionStatus::Completed { exit_code: 0 }, 10),
        outcome("i-1", ExecutionStatus::Completed { exit_code: 1 }, 30),
        outcome("i-2", ExecutionStatus::TimedOut, 5000),
    ];
    let report = aggregate_outcomes(&specs, completion_order).unwrap();
    assert_eq!(report.outcomes.len(), 3);
    assert_eq!(report.outcomes[0].target_id, "i-1");
    assert_eq!(report.outcomes[1].target_id, "i-2");
    assert_eq!(report.outcomes[2].target_id, "i-3");
    assert_eq!(report.outcomes[0].status, ExecutionStatus::Completed { exit_code: 1 });
}

#[test]
fn aggregate_counts_successes_exactly() {
    let targets = vec![
        target("i-1", Some("a"), None),
        target("i-2", Some("b"), None),
        target("i-3", Some("c"), None),
        target("i-4", Some("d"), None),
    ];
    let specs = build_command_specs(&targets, &options()).unwrap();
    let outs = vec![
        outcome("i-1", ExecutionStatus::Completed { exit_code: 0 }, 1),
        outcome("i-2", ExecutionStatus::Completed { exit_code: 2 }, 1),
        outcome("i-3", ExecutionStatus::TimedOut, 5000),
        outcome("i-4", ExecutionStatus::Completed { exit_code: 0 }, 1),
    ];
    let report = aggregate_outcomes(&specs, outs).unwrap();
    assert_eq!(report.success_count, 2);
    assert_eq!(report.failure_count, 2);
    assert_eq!(report.success_count + report.failure_count, 4);
}

#[test]
fn aggregate_rejects_missing_outcome() {
    let targets = vec![target("i-1", Some("a"), None), target("i-2", Some("b"), None)];
    let specs = build_command_specs(&targets, &options()).unwrap();
    let outs = vec![
        outcome("i-1", ExecutionStatus::TimedOut, 5000),
        outcome("i-9", ExecutionStatus::TimedOut, 5000),
    ];
    assert!(aggregate_outcomes(&specs, outs).is_none());
}

#[test]
fn exit_policy_matrix() {
    let targets = vec![target("i-1", Some("a"), None)];
    let specs = build_command_specs(&targets, &options()).unwrap();
    let failing = aggregate_outcomes(
        &specs,
        vec![outcome("i-1", ExecutionStatus::TimedOut, 5000)],
    )
    .unwrap();
    let passing = aggregate_outcomes(
        &specs,
        vec![outcome("i-1", ExecutionStatus::Completed { exit_code: 0 }, 1)],
    )
    .unwrap();
    assert_eq!(evaluate_exit(&failing, false), ExitDisposition::Success);
    assert_eq!(evaluate_exit(&failing, true), ExitDisposition::Failure);
    assert_eq!(evaluate_exit(&passing, true), ExitDisposition::Success);
}

#[test]
fn progress_tracker_counts_and_renders() {
    let mut tracker = ProgressTracker::new(3);
    assert!(!tracker.is_finished());
    assert_eq!(tracker.progress_line(), "0 of 3 targets done");
    tracker.record_completion();
    tracker.record_completion();
    assert_eq!(tracker.progress_line(), "2 of 3 targets done");
    tracker.record_completion();
    assert!(tracker.is_finished());
    assert_eq!(tracker.progress_line(), "3 of 3 targets done");
}

#[test]
fn affirmative_answers() {
    assert!(is_affirmative("yes"));
    assert!(is_affirmative("  YES \n"));
    assert!(is_affirmative("Yes"));
    assert!(!is_affirmative("no"));
    assert!(!is_affirmative(""));
    assert!(!is_affirmative("   "));
    assert!(!is_affirmative("yes please"));
}

#[test]
fn transport_arguments_in_order() {
    let spec = CommandSpec {
        target_id: "i-1".to_string(),
        address: "10.0.0.1".to_string(),
        login_user: Some("ops".to_string()),
        extra_transport_options: vec!["-oStrictHostKeyChecking=no".to_string()],
        remote_command_tokens: vec!["uptime".to_string(), "-p".to_string()],
        timeout_ms: 5000,
    };
    let args = transport_arguments(&spec);
    assert_eq!(
        args,
        vec![
            "-oStrictHostKeyChecking=no".to_string(),
            "ops@10.0.0.1".to_string(),
            "uptime".to_string(),
            "-p".to_string(),
        ]
    );
}

#[test]
fn transport_arguments_without_login_user() {
    let spec = CommandSpec {
        target_id: "i-1".to_string(),
        address: "10.0.0.1".to_string(),
        login_user: None,
        extra_transport_options: vec![],
        remote_command_tokens: vec![],
        timeout_ms: 300,
    };
    assert_eq!(transport_arguments(&spec), vec!["10.0.0.1".to_string()]);
}

#[test]
fn split_keeps_empty_pieces() {
    let pieces = split_on_spaces("a  b");
    assert_eq!(pieces, vec!["a".to_string(), "".to_string(), "b".to_string()]);
    assert_eq!(split_on_spaces(""), vec!["".to_string()]);
    assert_eq!(split_on_spaces("-v"), vec!["-v".to_string()]);
}

#[test]
fn interactive_arguments_layout() {
    let args = interactive_arguments(
        &"10.0.0.1".to_string(),
        Some(&"-v -C".to_string()),
        Some(&"uptime".to_string()),
    );
    assert_eq!(
        args,
        vec![
            "10.0.0.1".to_string(),
            "-v".to_string(),
            "-C".to_string(),
            "uptime".to_string(),
        ]
    );
    let bare = interactive_arguments(&"10.0.0.1".to_string(), None, None);
    assert_eq!(bare, vec!["10.0.0.1".to_string()]);
}

#[test]
fn collect_resolutions_all_or_nothing() {
    let ids = vec!["i-1".to_string(), "i-2".to_string()];
    let ok = collect_resolutions(
        &ids,
        vec![
            Ok(target("i-1", Some("a"), None)),
            Ok(target("i-2", Some("b"), None)),
        ],
    );
    assert_eq!(ok.unwrap().len(), 2);
    let err = collect_resolutions(
        &ids,
        vec![
            Ok(target("i-1", Some("a"), None)),
            Err("no such instance".to_string()),
        ],
    )
    .unwrap_err();
    assert_eq!(
        err,
        ResolutionError::Unresolved {
            target_id: "i-2".to_string(),
            message: "no such instance".to_string(),
        }
    );
}

#[test]
fn scenario_one_target_hangs() {
    let targets = vec![
        target("i-1", Some("10.0.0.1"), None),
        target("i-2", Some("10.0.0.2"), None),
        target("i-3", Some("10.0.0.3"), None),
    ];
    let specs = build_command_specs(&targets, &options()).unwrap();
    assert_eq!(specs.len(), 3);
    let completed = |id: &str, ms: u64| {
        classify_outcome(
            &id.to_string(),
            5000,
            TransportEvent::Exited { exit_code: 0, output: String::new(), duration_ms: ms },
        )
    };
    let hung = classify_outcome(
        &"i-2".to_string(),
        5000,
        TransportEvent::DeadlineExpired { output: String::new() },
    );
    let completion_order = vec![completed("i-3", 900), completed("i-1", 1200), hung];
    let report = aggregate_outcomes(&specs, completion_order).unwrap();
    assert_eq!(report.outcomes[0].status, ExecutionStatus::Completed { exit_code: 0 });
    assert_eq!(report.outcomes[1].status, ExecutionStatus::TimedOut);
    assert_eq!(report.outcomes[2].status, ExecutionStatus::Completed { exit_code: 0 });
    assert_eq!(report.success_count, 2);
    assert_eq!(report.failure_count, 1);
    assert_eq!(evaluate_exit(&report, false), ExitDisposition::Success);
}
