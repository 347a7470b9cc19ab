use ciroach::engine::ExitState;
use ciroach::models::{Step, StepReport, StepStatus};
use ciroach::runner::step::backoff_seconds;
use ciroach::runner::{AttemptOutcome, StepAction, StepDecision, StepPhase, StepRunner};

fn step(name: &str, max_retries: u32, timeout_secs: u64) -> Step {
    Step {
        name: name.to_string(),
        exploded_name: name.to_string(),
        image: "alpine".to_string(),
        command: "true".to_string(),
        memory_bytes: 1024,
        needs: vec![],
        env: vec![],
        max_retries,
        timeout_secs,
    }
}

fn exited(code: i64) -> AttemptOutcome {
    AttemptOutcome::Exited(ExitState { exit_code: Some(code), oom_killed: Some(false) })
}

fn started(step: Step) -> StepRunner {
    let mut runner = StepRunner::new(step);
    assert_eq!(runner.current_phase(), StepPhase::Idle);
    assert!(matches!(runner.start(), StepAction::Attempt));
    assert_eq!(runner.current_phase(), StepPhase::Attempting);
    runner
}

fn report_of(decision: &StepDecision) -> (&StepReport, bool) {
    match &decision.action {
        StepAction::Finish { report, cancel_others } => (report, *cancel_others),
        other => panic!("the step is not over: {:?}", other),
    }
}

fn lines(decision: &StepDecision) -> Vec<(String, String, bool)> {
    decision.logs.iter().map(|m| (m.step_name.clone(), m.line.clone(), m.is_error)).collect()
}

#[test]
fn a_clean_exit_is_a_success() {
    let mut runner = started(step("hello", 0, 10));
    let decision = runner.attempt_finished(&exited(0), false, 1234);
    let (report, cancel) = report_of(&decision);
    assert_eq!(report, &StepReport::success("hello", 0, 1234));
    assert!(!cancel);
    assert!(decision.logs.is_empty());
    assert!(!decision.remove_container);
    assert_eq!(runner.current_phase(), StepPhase::Success);
    assert!(runner.is_finished());
}

#[test]
fn an_unknown_memory_state_does_not_spoil_a_clean_exit() {
    let mut runner = started(step("hello", 0, 10));
    let outcome = AttemptOutcome::Exited(ExitState { exit_code: Some(0), oom_killed: None });
    let decision = runner.attempt_finished(&outcome, false, 5);
    assert_eq!(report_of(&decision).0.status, StepStatus::Success);
}

#[test]
fn a_success_is_reported_even_when_the_run_is_cancelled() {
    let mut runner = started(step("hello", 0, 10));
    let decision = runner.attempt_finished(&exited(0), true, 5);
    assert_eq!(report_of(&decision).0.status, StepStatus::Success);
}

#[test]
fn a_bad_exit_code_fails_the_step_and_cancels_the_run() {
    let mut runner = started(step("build", 0, 10));
    let decision = runner.attempt_finished(&exited(3), false, 77);
    let (report, cancel) = report_of(&decision);
    assert_eq!(report, &StepReport::failed("build", 0, 77));
    assert!(cancel);
    assert_eq!(
        lines(&decision),
        vec![("build".to_string(), "Process exited with code 3".to_string(), true)]
    );
    assert!(!decision.remove_container);
    assert_eq!(runner.current_phase(), StepPhase::Failed);
}

#[test]
fn a_missing_exit_code_is_reported_as_minus_one() {
    let mut runner = started(step("build", 0, 10));
    let outcome = AttemptOutcome::Exited(ExitState { exit_code: None, oom_killed: None });
    let decision = runner.attempt_finished(&outcome, false, 1);
    assert_eq!(report_of(&decision).0.status, StepStatus::Failed);
    assert_eq!(lines(&decision)[0].1, "Process exited with code -1");
}

#[test]
fn a_container_killed_for_memory_fails_whatever_its_exit_code() {
    let mut runner = started(step("big", 0, 10));
    let outcome = AttemptOutcome::Exited(ExitState { exit_code: Some(0), oom_killed: Some(true) });
    let decision = runner.attempt_finished(&outcome, false, 9);
    assert_eq!(report_of(&decision).0.status, StepStatus::Failed);
    assert_eq!(
        lines(&decision),
        vec![("big".to_string(), "System ran out of memory".to_string(), true)]
    );
}

#[test]
fn a_failure_is_retried_after_a_notice_and_a_pause() {
    let mut runner = started(step("flaky", 2, 10));
    let decision = runner.attempt_finished(&exited(1), false, 100);
    match decision.action {
        StepAction::Backoff { attempt, seconds } => {
            assert_eq!(attempt, 1);
            assert_eq!(seconds, Some(2));
        }
        ref other => panic!("no pause: {:?}", other),
    }
    assert_eq!(
        lines(&decision),
        vec![
            ("flaky".to_string(), "Process exited with code 1".to_string(), true),
            (
                "flaky".to_string(),
                "Retrying step (1/2) - Error: Non-zero exit code 1 (Step: flaky)".to_string(),
                true
            ),
        ]
    );
    assert_eq!(runner.current_phase(), StepPhase::RetryWait);
    assert_eq!(runner.retries_used(), 1);
    assert!(!runner.is_finished());
    let next = runner.backoff_finished(false, 2100);
    assert!(matches!(next.action, StepAction::Attempt));
    assert!(next.logs.is_empty());
    assert_eq!(runner.current_phase(), StepPhase::Attempting);
}

#[test]
fn the_notice_quotes_the_error() {
    let mut runner = started(step("s", 5, 7));
    let oom = AttemptOutcome::Exited(ExitState { exit_code: Some(137), oom_killed: Some(true) });
    let d = runner.attempt_finished(&oom, false, 1);
    assert_eq!(
        lines(&d)[1].1,
        "Retrying step (1/5) - Error: System ran out of memory (Step: s)"
    );
    runner.backoff_finished(false, 2);
    let d = runner.attempt_finished(&AttemptOutcome::TimedOut, false, 3);
    assert_eq!(lines(&d)[1].1, "Retrying step (2/5) - Error: Timeout");
    runner.backoff_finished(false, 4);
    let d = runner
        .attempt_finished(&AttemptOutcome::DriverError("no such image".to_string()), false, 5);
    assert_eq!(lines(&d).len(), 1);
    assert_eq!(lines(&d)[0].1, "Retrying step (3/5) - Error: no such image");
}

#[test]
fn retries_stop_at_the_limit() {
    let mut runner = started(step("flaky", 2, 10));
    let mut pauses = vec![];
    let mut elapsed = 0;
    let report = loop {
        elapsed += 10;
        let decision = runner.attempt_finished(&exited(1), false, elapsed);
        assert!(runner.retries_used() <= 2);
        match decision.action {
            StepAction::Backoff { seconds, .. } => {
                pauses.push(seconds.unwrap());
                elapsed += seconds.unwrap() * 1000;
                assert!(matches!(runner.backoff_finished(false, elapsed).action, StepAction::Attempt));
            }
            StepAction::Finish { report, cancel_others } => {
                assert!(cancel_others);
                break report;
            }
            StepAction::Attempt => panic!("an attempt without a pause"),
        }
    };
    assert_eq!(pauses, vec![2, 4]);
    assert_eq!(report.status, StepStatus::Failed);
    assert_eq!(report.retries, 2);
    assert!(report.elapsed >= 6000);
}

#[test]
fn a_retry_can_succeed() {
    let mut runner = started(step("flaky", 3, 10));
    runner.attempt_finished(&exited(1), false, 1);
    runner.backoff_finished(false, 2);
    runner.attempt_finished(&exited(1), false, 3);
    runner.backoff_finished(false, 4);
    let decision = runner.attempt_finished(&exited(0), false, 5);
    assert_eq!(report_of(&decision).0, &StepReport::success("flaky", 2, 5));
}

#[test]
fn no_retry_once_the_run_is_cancelled() {
    let mut runner = started(step("flaky", 2, 10));
    let decision = runner.attempt_finished(&exited(1), true, 10);
    let (report, cancel) = report_of(&decision);
    assert_eq!(report, &StepReport::failed("flaky", 0, 10));
    assert!(cancel);
}

#[test]
fn a_cancelled_attempt_ends_the_step_and_removes_its_container() {
    let mut runner = started(step("slow", 2, 10));
    let decision = runner.attempt_finished(&AttemptOutcome::Cancelled, true, 420);
    let (report, cancel) = report_of(&decision);
    assert_eq!(report, &StepReport::cancelled("slow", 0, 420));
    assert!(!cancel);
    assert!(decision.remove_container);
    assert!(decision.logs.is_empty());
    assert_eq!(runner.current_phase(), StepPhase::Cancelled);
}

#[test]
fn a_cancelled_pause_ends_the_step() {
    let mut runner = started(step("flaky", 2, 10));
    runner.attempt_finished(&exited(1), false, 10);
    let decision = runner.backoff_finished(true, 900);
    let (report, cancel) = report_of(&decision);
    assert_eq!(report, &StepReport::cancelled("flaky", 1, 900));
    assert!(!cancel);
    assert_eq!(runner.current_phase(), StepPhase::Cancelled);
}

#[test]
fn a_timeout_fails_the_attempt_and_removes_the_container() {
    let mut runner = started(step("slow", 0, 1));
    let decision = runner.attempt_finished(&AttemptOutcome::TimedOut, false, 1003);
    let (report, cancel) = report_of(&decision);
    assert_eq!(report, &StepReport::failed("slow", 0, 1003));
    assert!(cancel);
    assert!(decision.remove_container);
    assert_eq!(
        lines(&decision),
        vec![("slow".to_string(), "⏳ Step timed out after 1s".to_string(), true)]
    );
}

#[test]
fn a_timeout_is_retried_like_any_failure() {
    let mut runner = started(step("slow", 1, 90));
    let decision = runner.attempt_finished(&AttemptOutcome::TimedOut, false, 90_000);
    assert!(matches!(decision.action, StepAction::Backoff { attempt: 1, seconds: Some(2) }));
    assert!(decision.remove_container);
    assert_eq!(lines(&decision)[0].1, "⏳ Step timed out after 90s");
}

#[test]
fn a_driver_error_fails_the_attempt_without_a_line_of_its_own() {
    let mut runner = started(step("s", 0, 1));
    let decision =
        runner.attempt_finished(&AttemptOutcome::DriverError("daemon gone".to_string()), false, 4);
    assert_eq!(report_of(&decision).0.status, StepStatus::Failed);
    assert!(decision.logs.is_empty());
    assert!(!decision.remove_container);
}

#[test]
fn pauses_double() {
    assert_eq!(backoff_seconds(0), Some(1));
    assert_eq!(backoff_seconds(1), Some(2));
    assert_eq!(backoff_seconds(2), Some(4));
    assert_eq!(backoff_seconds(3), Some(8));
    assert_eq!(backoff_seconds(10), Some(1024));
    assert_eq!(backoff_seconds(63), Some(1 << 63));
    assert_eq!(backoff_seconds(64), None);
    assert_eq!(backoff_seconds(u32::MAX), None);
}

#[test]
fn the_report_carries_the_instance_name() {
    let mut s = step("test", 0, 1);
    s.exploded_name = "test-18".to_string();
    let mut runner = started(s);
    assert_eq!(runner.step_ref().name, "test");
    let decision = runner.attempt_finished(&exited(2), false, 4);
    assert_eq!(report_of(&decision).0.name, "test-18");
    assert_eq!(lines(&decision)[0].0, "test-18");
}
