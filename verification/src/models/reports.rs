//! The outcome records of a run.

use crate::logger::LogArchive;
use vstd::prelude::*;
use vstd::string::StringExecFns;

verus! {

/// How a step ended.
#[derive(Debug, Clone, Copy, PartialEq, Eq, Structural)]
pub enum StepStatus {
    Success,
    Failed,
    Cancelled,
    Skipped,
}

/// The outcome of one step instance.
#[derive(Debug, PartialEq, Eq)]
pub struct StepReport {
    /// The instance name of the step.
    pub name: String,
    pub status: StepStatus,
    /// The attempts made after the first.
    pub retries: u32,
    /// Wall time spent on the step, in milliseconds.
    pub elapsed: u64,
}

/// What a `StepReport` holds, as mathematical values.
pub struct StepReportView {
    pub name: Seq<char>,
    pub status: StepStatus,
    pub retries: u32,
    pub elapsed: u64,
}

impl View for StepReport {
    type V = StepReportView;

    open spec fn view(&self) -> StepReportView {
        StepReportView {
            name: self.name@,
            status: self.status,
            retries: self.retries,
            elapsed: self.elapsed,
        }
    }
}

impl StepReport {
    /// The report of a step that succeeded.
    pub fn success(name: &str, retries: u32, elapsed: u64) -> (out: Self)
        ensures
            out@ == (StepReportView { name: name@, status: StepStatus::Success, retries, elapsed }),
    {
        StepReport { name: String::from_str(name), status: StepStatus::Success, retries, elapsed }
    }

    /// The report of a step that failed.
    pub fn failed(name: &str, retries: u32, elapsed: u64) -> (out: Self)
        ensures
            out@ == (StepReportView { name: name@, status: StepStatus::Failed, retries, elapsed }),
    {
        StepReport { name: String::from_str(name), status: StepStatus::Failed, retries, elapsed }
    }

    /// The report of a step that was cancelled while under way.
    pub fn cancelled(name: &str, retries: u32, elapsed: u64) -> (out: Self)
        ensures
            out@ == (StepReportView {
                name: name@,
                status: StepStatus::Cancelled,
                retries,
                elapsed,
            }),
    {
        StepReport { name: String::from_str(name), status: StepStatus::Cancelled, retries, elapsed }
    }

    /// The report of a step that was never started.
    pub fn skipped(name: &str) -> (out: Self)
        ensures
            out@ == (StepReportView {
                name: name@,
                status: StepStatus::Skipped,
                retries: 0,
                elapsed: 0,
            }),
    {
        StepReport {
            name: String::from_str(name),
            status: StepStatus::Skipped,
            retries: 0,
            elapsed: 0,
        }
    }

}

impl Clone for StepReport {
    fn clone(&self) -> (out: Self)
        ensures
            out@ == self@,
    {
        StepReport {
            name: self.name.clone(),
            status: self.status,
            retries: self.retries,
            elapsed: self.elapsed,
        }
    }
}

/// The views of a sequence of step reports.
pub open spec fn reports_view(reports: Seq<StepReport>) -> Seq<StepReportView> {
    Seq::new(reports.len(), |i: int| reports[i]@)
}

/// None of the reports is a failure.
pub open spec fn none_failed(reports: Seq<StepReportView>) -> bool {
    forall|i: int| 0 <= i < reports.len() ==> (#[trigger] reports[i]).status != StepStatus::Failed
}

/// The outcome of one stage: the reports of its steps.
#[derive(Debug, Clone, PartialEq, Eq)]
pub struct StageReport {
    pub step_reports: Vec<StepReport>,
}

impl View for StageReport {
    type V = Seq<StepReportView>;

    open spec fn view(&self) -> Seq<StepReportView> {
        reports_view(self.step_reports@)
    }
}

impl StageReport {
    /// A stage succeeds when none of its steps failed.
    pub fn is_success(&self) -> (ok: bool)
        ensures
            ok == none_failed(self@),
    {
        let mut i: usize = 0;
        while i < self.step_reports.len()
            invariant
                i <= self.step_reports.len(),
                forall|k: int| 0 <= k < i ==> (#[trigger] self@[k]).status != StepStatus::Failed,
            decreases self.step_reports.len() - i,
        {
            if self.step_reports[i].status == StepStatus::Failed {
                assert(self@[i as int].status == StepStatus::Failed);
                return false;
            }
            i += 1;
        }
        true
    }
}

/// The views of a sequence of stage reports.
pub open spec fn stage_reports_view(reports: Seq<StageReport>) -> Seq<Seq<StepReportView>> {
    Seq::new(reports.len(), |i: int| reports[i]@)
}

/// No report of any stage is a failure.
pub open spec fn all_stages_succeeded(stages: Seq<Seq<StepReportView>>) -> bool {
    forall|i: int| 0 <= i < stages.len() ==> none_failed(#[trigger] stages[i])
}

/// The outcome of a run: the stage reports in order and the log lines of
/// each step.
#[derive(Debug, Clone, PartialEq, Eq)]
pub struct PipelineReport {
    pub stage_reports: Vec<StageReport>,
    pub logs: LogArchive,
}

/// The step reports of all stages, in the order of the stages.
pub open spec fn flattened(stages: Seq<Seq<StepReportView>>) -> Seq<StepReportView>
    decreases stages.len(),
{
    if stages.len() == 0 {
        Seq::empty()
    } else {
        flattened(stages.drop_last()) + stages.last()
    }
}

/// The views of the reports that a list refers to.
pub open spec fn referred(rows: Seq<&StepReport>) -> Seq<StepReportView> {
    Seq::new(rows.len(), |i: int| rows[i]@)
}

impl PipelineReport {
    /// The stage reports, as mathematical values.
    pub open spec fn stages(&self) -> Seq<Seq<StepReportView>> {
        stage_reports_view(self.stage_reports@)
    }

    /// The step reports of all stages, in the order of the stages and,
    /// within a stage, in the order of its self.
    pub fn step_reports(&self) -> (out: Vec<&StepReport>)
        ensures
            referred(out@) == flattened(self.stages()),
    {
        let mut out: Vec<&StepReport> = Vec::new();
        let mut i: usize = 0;
        assert(self.stages().take(0) =~= Seq::<Seq<StepReportView>>::empty());
        assert(referred(out@) =~= Seq::<StepReportView>::empty());
        while i < self.stage_reports.len()
            invariant
                i <= self.stage_reports.len(),
                referred(out@) == flattened(self.stages().take(i as int)),
            decreases self.stage_reports.len() - i,
        {
            let stage = &self.stage_reports[i];
            let ghost before = referred(out@);
            let ghost prefix = self.stages().take(i + 1);
            assert(prefix.drop_last() =~= self.stages().take(i as int));
            assert(prefix.last() == stage@);
            let mut k: usize = 0;
            while k < stage.step_reports.len()
                invariant
                    k <= stage.step_reports.len(),
                    referred(out@) == before + stage@.take(k as int),
                decreases stage.step_reports.len() - k,
            {
                let ghost rows = referred(out@);
                out.push(&stage.step_reports[k]);
                assert(stage@[k as int] == stage.step_reports[k as int]@);
                assert(stage@.take(k + 1) =~= stage@.take(k as int).push(stage@[k as int]));
                assert(referred(out@) =~= rows.push(stage@[k as int]));
                assert(referred(out@) =~= before + stage@.take(k + 1));
                k += 1;
            }
            assert(stage@.take(stage.step_reports.len() as int) =~= stage@);
            i += 1;
        }
        assert(self.stages().take(self.stage_reports.len() as int) =~= self.stages());
        out
    }

    /// A run succeeds when no step of any stage failed.
    pub fn is_success(&self) -> (ok: bool)
        ensures
            ok == all_stages_succeeded(self.stages()),
    {
        let mut i: usize = 0;
        while i < self.stage_reports.len()
            invariant
                i <= self.stage_reports.len(),
                forall|k: int| 0 <= k < i ==> none_failed(#[trigger] self.stages()[k]),
            decreases self.stage_reports.len() - i,
        {
            if !self.stage_reports[i].is_success() {
                assert(!none_failed(self.stages()[i as int]));
                return false;
            }
            i += 1;
        }
        true
    }
}

} // verus!
