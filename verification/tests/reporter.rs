use ciroach::logger::LogArchive;
use ciroach::models::{PipelineReport, StageReport, StepReport, StepStatus};
use ciroach::reporter::{ConsoleReporter, FileReporter};

#[test]
fn the_summary_starts_with_its_heading() {
    assert_eq!(FileReporter::header(), "--- Pipeline Report ---\n\n");
}

#[test]
fn a_status_is_written_by_its_name() {
    for status in
        [StepStatus::Success, StepStatus::Failed, StepStatus::Cancelled, StepStatus::Skipped]
    {
        assert_eq!(FileReporter::status_name(status), format!("{:?}", status));
    }
}

#[test]
fn a_step_has_one_line_in_the_summary() {
    assert_eq!(
        FileReporter::line(&StepReport::success("test-18", 1, 2500), "2"),
        "Step: test-18 | Status Success | Duration 2s\n"
    );
    assert_eq!(
        FileReporter::line(&StepReport::failed("build", 0, 15), "0.01"),
        "Step: build | Status Failed | Duration 0.01s\n"
    );
    assert_eq!(
        FileReporter::line(&StepReport::skipped("ship"), "0.00"),
        "Step: ship | Status Skipped | Duration 0.00s\n"
    );
}

#[test]
fn a_status_has_a_badge_of_four_letters() {
    assert_eq!(ConsoleReporter::badge(StepStatus::Success), "PASS");
    assert_eq!(ConsoleReporter::badge(StepStatus::Failed), "FAIL");
    assert_eq!(ConsoleReporter::badge(StepStatus::Cancelled), "STOP");
    assert_eq!(ConsoleReporter::badge(StepStatus::Skipped), "SKIP");
}

#[test]
fn the_table_lists_the_steps_stage_by_stage() {
    let report = PipelineReport {
        stage_reports: vec![
            StageReport {
                step_reports: vec![StepReport::success("b", 0, 1), StepReport::failed("a", 2, 3)],
            },
            StageReport { step_reports: vec![] },
            StageReport { step_reports: vec![StepReport::skipped("c")] },
        ],
        logs: LogArchive::new(),
    };
    let names: Vec<&str> =
        report.step_reports().into_iter().map(|r| r.name.as_str()).collect();
    assert_eq!(names, vec!["b", "a", "c"]);
    let empty = PipelineReport { stage_reports: vec![], logs: LogArchive::new() };
    assert!(empty.step_reports().is_empty());
}
