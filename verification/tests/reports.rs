use ciroach::logger::LogArchive;
use ciroach::models::StepStatus::{Cancelled, Failed, Skipped, Success};
use ciroach::models::{PipelineReport, StageReport, StepReport, StepStatus};

fn stage(statuses: &[StepStatus]) -> StageReport {
    StageReport {
        step_reports: statuses
            .iter()
            .enumerate()
            .map(|(i, status)| StepReport {
                name: format!("s{}", i),
                status: *status,
                retries: 0,
                elapsed: 0,
            })
            .collect(),
    }
}

#[test]
fn reports_are_made_with_their_status() {
    let s = StepReport::success("a", 1, 20);
    assert_eq!((s.name.as_str(), s.status, s.retries, s.elapsed), ("a", StepStatus::Success, 1, 20));
    let f = StepReport::failed("b", 2, 30);
    assert_eq!((f.name.as_str(), f.status, f.retries, f.elapsed), ("b", StepStatus::Failed, 2, 30));
    let c = StepReport::cancelled("c", 3, 40);
    assert_eq!((c.name.as_str(), c.status, c.retries, c.elapsed), ("c", StepStatus::Cancelled, 3, 40));
    let k = StepReport::skipped("d");
    assert_eq!((k.name.as_str(), k.status, k.retries, k.elapsed), ("d", StepStatus::Skipped, 0, 0));
    assert_eq!(f.clone(), f);
}

#[test]
fn a_stage_succeeds_unless_a_step_failed() {
    assert!(stage(&[]).is_success());
    assert!(stage(&[Success]).is_success());
    assert!(stage(&[Success, Cancelled, Skipped]).is_success());
    assert!(!stage(&[Failed]).is_success());
    assert!(!stage(&[Success, Skipped, Failed]).is_success());
    assert!(!stage(&[Failed, Success]).is_success());
}

#[test]
fn a_run_succeeds_unless_a_step_of_any_stage_failed() {
    let run = |stages: Vec<StageReport>| PipelineReport { stage_reports: stages, logs: LogArchive::new() };
    assert!(run(vec![]).is_success());
    assert!(run(vec![stage(&[Success]), stage(&[Success, Skipped])]).is_success());
    assert!(run(vec![stage(&[Cancelled]), stage(&[])]).is_success());
    assert!(!run(vec![stage(&[Success]), stage(&[Failed]), stage(&[Skipped])]).is_success());
    assert!(!run(vec![stage(&[Failed])]).is_success());
}
