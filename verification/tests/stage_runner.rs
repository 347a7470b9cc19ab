use ciroach::models::{Stage, Step, StepReport, StepStatus};
use ciroach::runner::{StageNext, StageRunner};

fn step(name: &str, exploded: &str, needs: &[&str]) -> Step {
    Step {
        name: name.to_string(),
        exploded_name: exploded.to_string(),
        image: "alpine".to_string(),
        command: "true".to_string(),
        memory_bytes: 1024,
        needs: needs.iter().map(|n| n.to_string()).collect(),
        env: vec![],
        max_retries: 0,
        timeout_secs: 10,
    }
}

fn stage(steps: Vec<Step>) -> Stage {
    Stage { name: "ci".to_string(), steps }
}

fn names(stage: &Stage, launch: &[usize]) -> Vec<String> {
    launch.iter().map(|i| stage.steps[*i].exploded_name.clone()).collect()
}

fn report_names(reports: &[StepReport]) -> Vec<(String, StepStatus)> {
    reports.iter().map(|r| (r.name.clone(), r.status)).collect()
}

#[test]
fn steps_without_needs_start_at_once() {
    let s = stage(vec![step("a", "a", &[]), step("b", "b", &[]), step("c", "c", &[])]);
    let mut runner = StageRunner::new(&s);
    let poll = runner.poll(false);
    assert_eq!(poll.launch, vec![0, 1, 2]);
    assert_eq!(poll.next, StageNext::Wait);
    assert!(runner.is_in_flight("a"));
    assert!(!runner.is_in_flight("z"));
}

#[test]
fn a_step_waits_for_what_it_needs() {
    let s = stage(vec![step("b", "b", &["a"]), step("a", "a", &[]), step("c", "c", &["a", "b"])]);
    let mut runner = StageRunner::new(&s);
    assert!(!runner.can_start(&s.steps[0]));
    assert!(runner.can_start(&s.steps[1]));
    let poll = runner.poll(false);
    assert_eq!(names(&s, &poll.launch), vec!["a"]);
    assert_eq!(poll.next, StageNext::Wait);

    let again = runner.poll(false);
    assert!(again.launch.is_empty());
    assert_eq!(again.next, StageNext::Wait);

    runner.record(StepReport::success("a", 0, 5));
    assert!(runner.can_start(&s.steps[0]));
    assert!(!runner.can_start(&s.steps[2]));
    let poll = runner.poll(false);
    assert_eq!(names(&s, &poll.launch), vec!["b"]);

    runner.record(StepReport::success("b", 0, 5));
    let poll = runner.poll(false);
    assert_eq!(names(&s, &poll.launch), vec!["c"]);
    runner.record(StepReport::success("c", 0, 5));
    let poll = runner.poll(false);
    assert!(poll.launch.is_empty());
    assert_eq!(poll.next, StageNext::Done);
}

#[test]
fn a_step_waits_for_every_instance_of_what_it_needs() {
    let s = stage(vec![
        step("test", "test-18", &[]),
        step("test", "test-20", &[]),
        step("pub", "pub", &["test"]),
    ]);
    let mut runner = StageRunner::new(&s);
    let poll = runner.poll(false);
    assert_eq!(names(&s, &poll.launch), vec!["test-18", "test-20"]);
    runner.record(StepReport::success("test-20", 0, 1));
    assert!(!runner.can_start(&s.steps[2]));
    assert!(runner.poll(false).launch.is_empty());
    runner.record(StepReport::success("test-18", 0, 2));
    assert!(runner.can_start(&s.steps[2]));
    assert_eq!(names(&s, &runner.poll(false).launch), vec!["pub"]);
}

#[test]
fn any_end_of_a_needed_step_counts() {
    let s = stage(vec![step("a", "a", &[]), step("b", "b", &["a"])]);
    let mut runner = StageRunner::new(&s);
    runner.poll(false);
    runner.record(StepReport::cancelled("a", 0, 1));
    assert!(runner.can_start(&s.steps[1]));
}

#[test]
fn a_need_that_names_no_step_holds_nothing_back() {
    let s = stage(vec![step("a", "a", &["nobody"])]);
    let mut runner = StageRunner::new(&s);
    assert!(runner.can_start(&s.steps[0]));
    assert_eq!(runner.poll(false).launch, vec![0]);
}

#[test]
fn steps_that_wait_for_each_other_are_a_deadlock() {
    let s = stage(vec![step("x", "x", &["y"]), step("y", "y", &["x"])]);
    let mut runner = StageRunner::new(&s);
    let poll = runner.poll(false);
    assert!(poll.launch.is_empty());
    assert_eq!(poll.next, StageNext::Deadlock);
    assert_eq!(
        runner.deadlock_message(),
        "Deadlock detected in stage 'ci'! Check your 'needs' configuration."
    );
    let report = runner.finalize_report();
    assert!(report.step_reports.iter().all(|r| r.status != StepStatus::Success));
}

#[test]
fn a_deadlock_can_come_after_some_steps_ran() {
    let s = stage(vec![step("a", "a", &[]), step("x", "x", &["x"])]);
    let mut runner = StageRunner::new(&s);
    let poll = runner.poll(false);
    assert_eq!(poll.launch, vec![0]);
    assert_eq!(poll.next, StageNext::Wait);
    runner.record(StepReport::success("a", 0, 1));
    assert_eq!(runner.poll(false).next, StageNext::Deadlock);
}

#[test]
fn an_empty_stage_is_done_at_once() {
    let s = stage(vec![]);
    let mut runner = StageRunner::new(&s);
    let poll = runner.poll(false);
    assert!(poll.launch.is_empty());
    assert_eq!(poll.next, StageNext::Done);
    assert!(runner.finalize_report().step_reports.is_empty());
}

#[test]
fn nothing_starts_once_the_run_is_cancelled() {
    let s = stage(vec![step("a", "a", &[]), step("b", "b", &["a"])]);
    let mut runner = StageRunner::new(&s);
    let poll = runner.poll(true);
    assert!(poll.launch.is_empty());
    assert_eq!(poll.next, StageNext::Done);
    let report = runner.finalize_report();
    assert_eq!(
        report_names(&report.step_reports),
        vec![("a".to_string(), StepStatus::Skipped), ("b".to_string(), StepStatus::Skipped)]
    );
}

#[test]
fn a_cancelled_stage_waits_for_the_steps_under_way() {
    let s = stage(vec![step("a", "a", &[]), step("b", "b", &[]), step("c", "c", &["a"])]);
    let mut runner = StageRunner::new(&s);
    assert_eq!(runner.poll(false).launch, vec![0, 1]);
    runner.record(StepReport::failed("a", 0, 3));
    let poll = runner.poll(true);
    assert!(poll.launch.is_empty());
    assert_eq!(poll.next, StageNext::Wait);
    runner.record(StepReport::cancelled("b", 0, 4));
    assert_eq!(runner.poll(true).next, StageNext::Done);
    let report = runner.finalize_report();
    assert_eq!(
        report_names(&report.step_reports),
        vec![
            ("a".to_string(), StepStatus::Failed),
            ("b".to_string(), StepStatus::Cancelled),
            ("c".to_string(), StepStatus::Skipped),
        ]
    );
    assert!(!report.is_success());
}

#[test]
fn reports_come_in_the_order_in_which_they_arrived() {
    let s = stage(vec![step("a", "a", &[]), step("b", "b", &[]), step("c", "c", &[])]);
    let mut runner = StageRunner::new(&s);
    runner.poll(false);
    runner.record(StepReport::success("c", 0, 1));
    runner.record(StepReport::success("a", 0, 2));
    runner.record(StepReport::success("b", 0, 3));
    assert_eq!(runner.poll(false).next, StageNext::Done);
    let report = runner.finalize_report();
    let order: Vec<&str> = report.step_reports.iter().map(|r| r.name.as_str()).collect();
    assert_eq!(order, vec!["c", "a", "b"]);
}

#[test]
fn a_started_step_without_a_report_counts_as_failed() {
    let s = stage(vec![step("a", "a", &[]), step("b", "b", &[]), step("c", "c", &["b"])]);
    let mut runner = StageRunner::new(&s);
    runner.poll(false);
    runner.record(StepReport::success("a", 1, 9));
    let report = runner.finalize_report();
    assert_eq!(
        report.step_reports,
        vec![StepReport::success("a", 1, 9), StepReport::failed("b", 0, 0), StepReport::skipped("c")]
    );
}

#[test]
fn every_step_has_exactly_one_report_at_the_end() {
    let s = stage(vec![
        step("a", "a", &[]),
        step("t", "t-1", &["a"]),
        step("t", "t-2", &["a"]),
        step("z", "z", &["t"]),
    ]);
    let mut runner = StageRunner::new(&s);
    runner.poll(false);
    runner.record(StepReport::success("a", 0, 1));
    runner.poll(false);
    runner.record(StepReport::failed("t-2", 0, 1));
    runner.poll(true);
    runner.record(StepReport::cancelled("t-1", 0, 1));
    assert_eq!(runner.poll(true).next, StageNext::Done);
    let report = runner.finalize_report();
    let mut got: Vec<&str> = report.step_reports.iter().map(|r| r.name.as_str()).collect();
    got.sort();
    assert_eq!(got, vec!["a", "t-1", "t-2", "z"]);
}

#[test]
fn steps_of_the_same_name_block_the_stage() {
    let s = stage(vec![step("t", "t-a", &[]), step("t", "t-a", &[])]);
    let mut runner = StageRunner::new(&s);
    let poll = runner.poll(false);
    assert_eq!(poll.launch, vec![0]);
    runner.record(StepReport::success("t-a", 0, 1));
    assert_eq!(runner.poll(false).next, StageNext::Deadlock);
}
