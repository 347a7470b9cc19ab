//! The sequence of the stages: which stage runs next, which stages are
//! skipped after a failure or a cancellation, and the report at the end.

use crate::logger::LogArchive;
use crate::models::config::{instance_names, names_unique, Pipeline, Stage, StageView, StepView};
use crate::models::reports::{
    all_stages_succeeded, none_failed, stage_reports_view, PipelineReport, StageReport, StepReport,
    StepReportView, StepStatus,
};
use crate::runner::stage::{covers, report_names};
use crate::text::{contains_string, strings_view};
use vstd::prelude::*;

verus! {

/// The reports of a stage that is not run: every step skipped, in the order
/// of the stage.
pub open spec fn skipped_reports(steps: Seq<StepView>) -> Seq<StepReportView> {
    Seq::new(
        steps.len(),
        |i: int|
            StepReportView {
                name: steps[i].exploded_name,
                status: StepStatus::Skipped,
                retries: 0,
                elapsed: 0,
            },
    )
}

/// The images of the first `n` steps, each once, in the order in which they
/// first occur.
pub open spec fn unique_images(steps: Seq<StepView>, n: int) -> Seq<Seq<char>>
    decreases n,
{
    if n <= 0 {
        Seq::empty()
    } else {
        let before = unique_images(steps, n - 1);
        if before.contains(steps[n - 1].image) {
            before
        } else {
            before.push(steps[n - 1].image)
        }
    }
}

/// The skipped reports of the stages from `from` up to `to`.
pub open spec fn skipped_stages(stages: Seq<StageView>, from: int, to: int) -> Seq<
    Seq<StepReportView>,
> {
    Seq::new((to - from) as nat, |i: int| skipped_reports(stages[from + i].steps))
}

/// In a list of stage reports, every stage after one with a failed step is
/// skipped as a whole.
pub open spec fn failure_skips_rest(stages: Seq<StageView>, reports: Seq<Seq<StepReportView>>)
    -> bool {
    forall|k: int, j: int|
        #![trigger reports[k], reports[j]]
        0 <= k < j < reports.len() && j < stages.len() && !none_failed(reports[k]) ==> reports[j]
            == skipped_reports(stages[j].steps)
}

/// Some report among `reports` holds a failed step.
pub open spec fn any_failed(reports: Seq<Seq<StepReportView>>) -> bool {
    exists|k: int| 0 <= k < reports.len() && !none_failed(#[trigger] reports[k])
}

/// Every stage report holds exactly one report for each step of its stage.
pub open spec fn all_covered(stages: Seq<StageView>, reports: Seq<Seq<StepReportView>>) -> bool {
    forall|j: int|
        0 <= j < reports.len() && j < stages.len() ==> covers(
            (#[trigger] stages[j]).steps,
            reports[j],
        )
}

/// The skipped reports of a stage whose steps have distinct names hold
/// exactly one report for each step.
pub proof fn lemma_skipped_covers(steps: Seq<StepView>)
    requires
        names_unique(steps),
    ensures
        covers(steps, skipped_reports(steps)),
        none_failed(skipped_reports(steps)),
{
    assert(report_names(skipped_reports(steps)) =~= instance_names(steps));
}

/// Skipping the stages that are left keeps one report for each step, where
/// the steps of each stage have distinct names.
pub proof fn lemma_skipping_keeps_coverage(
    stages: Seq<StageView>,
    settled: Seq<Seq<StepReportView>>,
)
    requires
        settled.len() <= stages.len(),
        all_covered(stages, settled),
        forall|j: int| 0 <= j < stages.len() ==> names_unique((#[trigger] stages[j]).steps),
    ensures
        all_covered(
            stages,
            settled + skipped_stages(stages, settled.len() as int, stages.len() as int),
        ),
{
    let all = settled + skipped_stages(stages, settled.len() as int, stages.len() as int);
    assert forall|j: int| 0 <= j < all.len() && j < stages.len() implies covers(
        (#[trigger] stages[j]).steps,
        all[j],
    ) by {
        if j < settled.len() {
            assert(all[j] == settled[j]);
        } else {
            assert(all[j] == skipped_reports(stages[j].steps));
            lemma_skipped_covers(stages[j].steps);
        }
    }
}

/// If a step of some stage failed, the run is no success, and every step of
/// every later stage is reported as skipped.
pub proof fn lemma_failure_halts_run(
    stages: Seq<StageView>,
    reports: Seq<Seq<StepReportView>>,
    k: int,
    i: int,
)
    requires
        reports.len() == stages.len(),
        failure_skips_rest(stages, reports),
        0 <= k < reports.len(),
        0 <= i < reports[k].len(),
        reports[k][i].status == StepStatus::Failed,
    ensures
        !all_stages_succeeded(reports),
        forall|j: int|
            k < j < reports.len() ==> (#[trigger] reports[j]).len() == stages[j].steps.len(),
        forall|j: int, s: int|
            k < j < reports.len() && 0 <= s < reports[j].len() ==> (#[trigger] reports[j][s])
                == (StepReportView {
                name: stages[j].steps[s].exploded_name,
                status: StepStatus::Skipped,
                retries: 0,
                elapsed: 0,
            }),
{
    assert(!none_failed(reports[k]));
    assert forall|j: int| k < j < reports.len() implies (#[trigger] reports[j])
        == skipped_reports(stages[j].steps) by {
        let a = reports[k];
        let b = reports[j];
    }
}

/// What the caller of the pipeline does next.
#[derive(Debug)]
pub enum PipelineAction {
    /// Pull `images`, run the stage with the index `index`, then call
    /// `stage_finished` with its report.
    RunStage { index: usize, images: Vec<String> },
    /// Every stage has its report: call `finish`.
    Finished,
}

/// What a `PipelineAction` holds, as mathematical values.
pub enum PipelineActionView {
    RunStage { index: int, images: Seq<Seq<char>> },
    Finished,
}

impl View for PipelineAction {
    type V = PipelineActionView;

    open spec fn view(&self) -> PipelineActionView {
        match self {
            PipelineAction::RunStage { index, images } => PipelineActionView::RunStage {
                index: *index as int,
                images: strings_view(images@),
            },
            PipelineAction::Finished => PipelineActionView::Finished,
        }
    }
}

/// Runs a pipeline: takes the stages in order, skips what is left once a
/// step has failed or the run is cancelled, and puts the report together.
pub struct PipelineRunner {
    pipeline: Pipeline,
    halted: bool,
    awaiting: bool,
    stage_reports: Vec<StageReport>,
}

impl PipelineRunner {
    /// The stages of the pipeline.
    pub closed spec fn pipeline(&self) -> Seq<StageView> {
        self.pipeline@
    }

    /// The reports of the stages settled so far, in order.
    pub closed spec fn reports(&self) -> Seq<Seq<StepReportView>> {
        stage_reports_view(self.stage_reports@)
    }

    /// Whether a stage is running, whose report is awaited.
    pub closed spec fn awaiting(&self) -> bool {
        self.awaiting
    }

    /// No more stages are settled than the pipeline has; a stage runs only
    /// if it is one of the pipeline and no earlier stage had a failure; and
    /// once a stage had a failure, every later stage was skipped.
    pub closed spec fn wf(&self) -> bool {
        &&& self.stage_reports@.len() <= self.pipeline.stages@.len()
        &&& self.awaiting ==> self.stage_reports@.len() < self.pipeline.stages@.len()
        &&& self.awaiting ==> !self.halted
        &&& self.halted == any_failed(self.reports())
        &&& failure_skips_rest(self.pipeline(), self.reports())
    }

    /// A runner at the start of the pipeline: no stage has run.
    pub fn new(pipeline: Pipeline) -> (out: Self)
        ensures
            out.wf(),
            out.pipeline() == pipeline@,
            out.reports() == Seq::<Seq<StepReportView>>::empty(),
            !out.awaiting(),
    {
        let out = PipelineRunner {
            pipeline,
            halted: false,
            awaiting: false,
            stage_reports: Vec::new(),
        };
        assert(out.reports() =~= Seq::<Seq<StepReportView>>::empty());
        out
    }

    /// The stage with the index `index`.
    pub fn stage(&self, index: usize) -> (stage: &Stage)
        requires
            index < self.pipeline().len(),
        ensures
            stage@ == self.pipeline()[index as int],
    {
        &self.pipeline.stages[index]
    }

    /// How many stages the pipeline has.
    pub fn stage_count(&self) -> (n: usize)
        ensures
            n == self.pipeline().len(),
    {
        self.pipeline.stages.len()
    }

    /// The report of a stage that is not run: every step skipped.
    pub fn skip_stage(stage: &Stage) -> (out: StageReport)
        ensures
            out@ == skipped_reports(stage@.steps),
    {
        let mut reports: Vec<StepReport> = Vec::new();
        let mut i: usize = 0;
        while i < stage.steps.len()
            invariant
                i <= stage.steps.len(),
                reports@.len() == i,
                forall|k: int|
                    0 <= k < i ==> (#[trigger] reports@[k])@ == skipped_reports(stage@.steps)[k],
            decreases stage.steps.len() - i,
        {
            reports.push(StepReport::skipped(stage.steps[i].exploded_name.as_str()));
            i += 1;
        }
        let out = StageReport { step_reports: reports };
        assert(out@ =~= skipped_reports(stage@.steps));
        out
    }

    /// The images that the steps of a stage run in, each once, in the order
    /// in which they first occur.
    pub fn images_of(stage: &Stage) -> (out: Vec<String>)
        ensures
            strings_view(out@) == unique_images(stage@.steps, stage@.steps.len() as int),
    {
        let mut out: Vec<String> = Vec::new();
        let mut i: usize = 0;
        assert(strings_view(out@) =~= Seq::<Seq<char>>::empty());
        while i < stage.steps.len()
            invariant
                i <= stage.steps.len(),
                strings_view(out@) == unique_images(stage@.steps, i as int),
            decreases stage.steps.len() - i,
        {
            let image = &stage.steps[i].image;
            assert(stage@.steps[i as int].image == image@);
            let ghost before = strings_view(out@);
            if !contains_string(&out, image) {
                out.push(image.clone());
                assert(strings_view(out@) =~= before.push(image@));
            }
            i += 1;
        }
        out
    }

    /// Decides what comes next when no stage is running. `cancelled` tells
    /// whether the run is cancelled now. If it is, or if a step of an
    /// earlier stage failed, every stage that is left gets its skipped
    /// report and the run is over. Otherwise the next stage is to be run,
    /// after its images have been pulled.
    pub fn advance(&mut self, cancelled: bool) -> (action: PipelineAction)
        requires
            old(self).wf(),
            !old(self).awaiting(),
        ensures
            final(self).wf(),
            final(self).pipeline() == old(self).pipeline(),
            if cancelled || any_failed(old(self).reports()) {
                &&& action@ == PipelineActionView::Finished
                &&& !final(self).awaiting()
                &&& final(self).reports() == old(self).reports() + skipped_stages(
                    old(self).pipeline(),
                    old(self).reports().len() as int,
                    old(self).pipeline().len() as int,
                )
            } else if old(self).reports().len() < old(self).pipeline().len() {
                &&& action@ == PipelineActionView::RunStage {
                    index: old(self).reports().len() as int,
                    images: unique_images(
                        old(self).pipeline()[old(self).reports().len() as int].steps,
                        old(self).pipeline()[old(self).reports().len() as int].steps.len() as int,
                    ),
                }
                &&& final(self).awaiting()
                &&& final(self).reports() == old(self).reports()
            } else {
                &&& action@ == PipelineActionView::Finished
                &&& !final(self).awaiting()
                &&& final(self).reports() == old(self).reports()
            },
            all_covered(old(self).pipeline(), old(self).reports()) && (forall|j: int|
                0 <= j < old(self).pipeline().len() ==> names_unique(
                    (#[trigger] old(self).pipeline()[j]).steps,
                )) ==> all_covered(final(self).pipeline(), final(self).reports()),
    {
        let ghost stages = self.pipeline();
        let ghost settled = self.reports();
        if cancelled || self.halted {
            let mut i: usize = self.stage_reports.len();
            assert(skipped_stages(stages, settled.len() as int, i as int) =~= Seq::<
                Seq<StepReportView>,
            >::empty());
            assert(settled + Seq::<Seq<StepReportView>>::empty() =~= settled);
            while i < self.pipeline.stages.len()
                invariant
                    settled.len() <= i <= self.pipeline.stages.len(),
                    i == self.stage_reports.len(),
                    stages == self.pipeline(),
                    self.pipeline == old(self).pipeline,
                    self.halted == old(self).halted,
                    self.awaiting == old(self).awaiting,
                    !self.awaiting,
                    self.halted == any_failed(settled),
                    failure_skips_rest(stages, settled),
                    self.reports() == settled + skipped_stages(
                        stages,
                        settled.len() as int,
                        i as int,
                    ),
                decreases self.pipeline.stages.len() - i,
            {
                let ghost before = self.reports();
                let report = Self::skip_stage(&self.pipeline.stages[i]);
                self.stage_reports.push(report);
                proof {
                    assert(self.reports() =~= before.push(skipped_reports(stages[i as int].steps)));
                    assert(self.reports() =~= settled + skipped_stages(
                        stages,
                        settled.len() as int,
                        i + 1,
                    ));
                }
                i += 1;
            }
            proof {
                let all = self.reports();
                assert forall|k: int| settled.len() <= k < all.len() implies none_failed(
                    #[trigger] all[k],
                ) && all[k] == skipped_reports(stages[k].steps) by {
                    assert(all[k] == skipped_stages(
                        stages,
                        settled.len() as int,
                        stages.len() as int,
                    )[k - settled.len()]);
                }
                assert forall|k: int| 0 <= k < settled.len() implies #[trigger] all[k]
                    == settled[k] by {}
                assert(any_failed(all) == any_failed(settled)) by {
                    if any_failed(all) {
                        let k = choose|k: int| 0 <= k < all.len() && !none_failed(#[trigger] all[k]);
                        assert(!none_failed(settled[k]));
                    }
                    if any_failed(settled) {
                        let k = choose|k: int|
                            0 <= k < settled.len() && !none_failed(#[trigger] settled[k]);
                        assert(!none_failed(all[k]));
                    }
                }
                assert forall|k: int, j: int|
                    #![trigger all[k], all[j]]
                    0 <= k < j < all.len() && j < stages.len() && !none_failed(
                        all[k],
                    ) implies all[j] == skipped_reports(stages[j].steps) by {
                    if j < settled.len() {
                        assert(!none_failed(settled[k]));
                        assert(settled[j] == skipped_reports(stages[j].steps));
                    }
                }
            }
            proof {
                if all_covered(stages, settled) && (forall|j: int|
                    0 <= j < stages.len() ==> names_unique((#[trigger] stages[j]).steps)) {
                    lemma_skipping_keeps_coverage(stages, settled);
                }
            }
            PipelineAction::Finished
        } else if self.stage_reports.len() < self.pipeline.stages.len() {
            let index = self.stage_reports.len();
            let images = Self::images_of(&self.pipeline.stages[index]);
            self.awaiting = true;
            PipelineAction::RunStage { index, images }
        } else {
            PipelineAction::Finished
        }
    }

    /// Takes the report of the stage that was running. Tells whether the run
    /// is to be cancelled: it is when a step of the stage failed.
    pub fn stage_finished(&mut self, report: StageReport) -> (cancel: bool)
        requires
            old(self).wf(),
            old(self).awaiting(),
        ensures
            final(self).wf(),
            final(self).pipeline() == old(self).pipeline(),
            final(self).reports() == old(self).reports().push(report@),
            !final(self).awaiting(),
            cancel == !none_failed(report@),
            all_covered(old(self).pipeline(), old(self).reports()) && covers(
                old(self).pipeline()[old(self).reports().len() as int].steps,
                report@,
            ) ==> all_covered(final(self).pipeline(), final(self).reports()),
    {
        let ghost stages = self.pipeline();
        let ghost settled = self.reports();
        let failed = !report.is_success();
        let was_halted = self.halted;
        self.stage_reports.push(report);
        self.awaiting = false;
        self.halted = was_halted || failed;
        proof {
            let all = self.reports();
            assert(all =~= settled.push(report@));
            assert(any_failed(all) == (any_failed(settled) || !none_failed(report@))) by {
                if any_failed(all) {
                    let k = choose|k: int| 0 <= k < all.len() && !none_failed(#[trigger] all[k]);
                    if k < settled.len() {
                        assert(!none_failed(settled[k]));
                    }
                }
                if any_failed(settled) {
                    let k = choose|k: int|
                        0 <= k < settled.len() && !none_failed(#[trigger] settled[k]);
                    assert(!none_failed(all[k]));
                }
                if !none_failed(report@) {
                    assert(!none_failed(all[settled.len() as int]));
                }
            }
            assert forall|k: int, j: int|
                #![trigger all[k], all[j]]
                0 <= k < j < all.len() && j < stages.len() && !none_failed(
                    all[k],
                ) implies all[j] == skipped_reports(stages[j].steps) by {
                if j < settled.len() {
                    assert(!none_failed(settled[k]));
                    assert(settled[j] == skipped_reports(stages[j].steps));
                } else {
                    assert(!none_failed(settled[k]));
                    assert(any_failed(settled));
                }
            }
        }
        failed
    }

    /// Whether every stage has its report.
    pub fn is_settled(&self) -> (done: bool)
        ensures
            done == (!self.awaiting() && self.reports().len() == self.pipeline().len()),
    {
        !self.awaiting && self.stage_reports.len() == self.pipeline.stages.len()
    }

    /// Puts the report of the run together from the stage reports and the
    /// archive of the log. There is one stage report for each stage, and
    /// every stage after one with a failed step is skipped as a whole.
    pub fn finish(self, logs: LogArchive) -> (out: PipelineReport)
        requires
            self.wf(),
            !self.awaiting(),
            self.reports().len() == self.pipeline().len(),
        ensures
            out.stages() == self.reports(),
            out.logs == logs,
            out.stages().len() == self.pipeline().len(),
            failure_skips_rest(self.pipeline(), out.stages()),
            any_failed(out.stages()) <==> !all_stages_succeeded(out.stages()),
            all_covered(self.pipeline(), self.reports()) ==> all_covered(
                self.pipeline(),
                out.stages(),
            ),
    {
        let out = PipelineReport { stage_reports: self.stage_reports, logs };
        proof {
            let all = out.stages();
            if any_failed(all) {
                let k = choose|k: int| 0 <= k < all.len() && !none_failed(#[trigger] all[k]);
                assert(!none_failed(all[k]));
            }
        }
        out
    }
}

} // verus!
