//! The schedule of one stage: which steps may start, when the stage is over,
//! and when it is stuck.

use crate::models::config::{instance_names, names_unique, Stage, StageView, Step, StepView};
use crate::models::reports::{reports_view, StageReport, StepReport, StepReportView, StepStatus};
use crate::names::NameSet;
use vstd::prelude::*;
use vstd::set_lib::{lemma_len_subset, lemma_subset_equality};
use vstd::string::StringExecFns;

verus! {

/// Whether a step with the dependencies `needs` may start: every instance of
/// every step it names has completed.
pub open spec fn ready(steps: Seq<StepView>, completed: Set<Seq<char>>, needs: Seq<Seq<char>>)
    -> bool {
    forall|k: int, t: int|
        #![trigger needs[k], steps[t]]
        0 <= k < needs.len() && 0 <= t < steps.len() && steps[t].name == needs[k]
            ==> completed.contains(steps[t].exploded_name)
}

/// Some step of `steps` has the instance name `name`.
pub open spec fn has_instance(steps: Seq<StepView>, name: Seq<char>) -> bool {
    exists|i: int| 0 <= i < steps.len() && (#[trigger] steps[i]).exploded_name == name
}

/// The names that the reports carry, in order.
pub open spec fn report_names(reports: Seq<StepReportView>) -> Seq<Seq<char>> {
    Seq::new(reports.len(), |i: int| reports[i].name)
}

/// The outcome of one pass over the steps: the names started by then, and
/// the indices of the steps to launch, in the order of the stage.
pub struct Dispatch {
    pub started: Set<Seq<char>>,
    pub launch: Seq<int>,
}

/// One pass over the first `n` steps. A step is launched when its name is
/// not among the started ones and it is ready; its name then counts as
/// started for the steps after it.
pub open spec fn dispatched(
    steps: Seq<StepView>,
    completed: Set<Seq<char>>,
    started: Set<Seq<char>>,
    n: int,
) -> Dispatch
    decreases n,
{
    if n <= 0 {
        Dispatch { started, launch: Seq::empty() }
    } else {
        let before = dispatched(steps, completed, started, n - 1);
        let step = steps[n - 1];
        if !before.started.contains(step.exploded_name) && ready(steps, completed, step.needs) {
            Dispatch {
                started: before.started.insert(step.exploded_name),
                launch: before.launch.push(n - 1),
            }
        } else {
            before
        }
    }
}

/// What the caller of a stage does after a poll.
#[derive(Debug, Clone, Copy, PartialEq, Eq, Structural)]
pub enum StageNext {
    /// Steps are under way: wait for the next report and record it.
    Wait,
    /// Nothing is under way and nothing more will start: finalize.
    Done,
    /// Nothing is under way, steps are left, and none of them is ready.
    Deadlock,
}

/// The outcome of a poll, as mathematical values.
pub struct Polled {
    pub started: Set<Seq<char>>,
    pub launch: Seq<int>,
    pub next: StageNext,
}

/// One round of the schedule. Unless the run is cancelled, the ready steps
/// are launched. Then, if every started step has completed, the stage is
/// done when the run is cancelled or as many names were started as the stage
/// has steps, and stuck otherwise.
pub open spec fn polled(
    steps: Seq<StepView>,
    started: Set<Seq<char>>,
    completed: Set<Seq<char>>,
    cancelled: bool,
) -> Polled {
    let pass = if cancelled {
        Dispatch { started, launch: Seq::empty() }
    } else {
        dispatched(steps, completed, started, steps.len() as int)
    };
    Polled {
        started: pass.started,
        launch: pass.launch,
        next: if pass.started.len() == completed.len() {
            if cancelled || pass.started.len() == steps.len() {
                StageNext::Done
            } else {
                StageNext::Deadlock
            }
        } else {
            StageNext::Wait
        },
    }
}

/// The reports of a stage at its end: those received, in the order in which
/// they came, and after them one for each of the first `n` steps whose name
/// no received report carries: failed if the step was started, skipped if not.
pub open spec fn finalized(
    steps: Seq<StepView>,
    started: Set<Seq<char>>,
    received: Seq<StepReportView>,
    n: int,
) -> Seq<StepReportView>
    decreases n,
{
    if n <= 0 {
        received
    } else {
        let before = finalized(steps, started, received, n - 1);
        let name = steps[n - 1].exploded_name;
        if report_names(received).contains(name) {
            before
        } else if started.contains(name) {
            before.push(
                StepReportView { name, status: StepStatus::Failed, retries: 0, elapsed: 0 },
            )
        } else {
            before.push(
                StepReportView { name, status: StepStatus::Skipped, retries: 0, elapsed: 0 },
            )
        }
    }
}

/// The reports hold exactly one report for each step: no name twice, and
/// the names of the reports are the instance names of the steps.
pub open spec fn covers(steps: Seq<StepView>, reports: Seq<StepReportView>) -> bool {
    &&& reports.len() == steps.len()
    &&& report_names(reports).no_duplicates()
    &&& forall|name: Seq<char>|
        report_names(reports).contains(name) <==> instance_names(steps).contains(name)
}

/// The indices in `v`, as integers.
pub open spec fn indices_view(v: Seq<usize>) -> Seq<int> {
    Seq::new(v.len(), |i: int| v[i] as int)
}

/// Every step that a pass launches is ready and was not started before, and
/// the pass adds the names of the launched steps to the started ones.
pub proof fn lemma_dispatched(
    steps: Seq<StepView>,
    completed: Set<Seq<char>>,
    started: Set<Seq<char>>,
    n: int,
)
    requires
        0 <= n <= steps.len(),
    ensures
        forall|k: int|
            0 <= k < dispatched(steps, completed, started, n).launch.len() ==> {
                let i = #[trigger] dispatched(steps, completed, started, n).launch[k];
                &&& 0 <= i < n
                &&& ready(steps, completed, steps[i].needs)
                &&& !started.contains(steps[i].exploded_name)
                &&& dispatched(steps, completed, started, n).started.contains(
                    steps[i].exploded_name,
                )
            },
        forall|name: Seq<char>|
            started.contains(name) ==> dispatched(steps, completed, started, n).started.contains(
                name,
            ),
        forall|name: Seq<char>|
            dispatched(steps, completed, started, n).started.contains(name) ==> started.contains(
                name,
            ) || has_instance(steps, name),
        forall|i: int|
            0 <= i < n ==> dispatched(steps, completed, started, n).started.contains(
                (#[trigger] steps[i]).exploded_name,
            ) || !ready(steps, completed, steps[i].needs),
    decreases n,
{
    if n > 0 {
        lemma_dispatched(steps, completed, started, n - 1);
        let before = dispatched(steps, completed, started, n - 1);
        let after = dispatched(steps, completed, started, n);
        assert forall|k: int| 0 <= k < after.launch.len() implies {
            let i = #[trigger] after.launch[k];
            &&& 0 <= i < n
            &&& ready(steps, completed, steps[i].needs)
            &&& !started.contains(steps[i].exploded_name)
            &&& after.started.contains(steps[i].exploded_name)
        } by {
            if k < before.launch.len() {
                assert(after.launch[k] == before.launch[k]);
            }
        }
    }
}

/// At the end of a stage in which every step has reported, the reports are
/// those received: nothing counts as failed or skipped for want of a report.
pub proof fn lemma_finalized_complete(
    steps: Seq<StepView>,
    started: Set<Seq<char>>,
    received: Seq<StepReportView>,
    n: int,
)
    requires
        0 <= n <= steps.len(),
        forall|i: int|
            0 <= i < steps.len() ==> report_names(received).contains(
                (#[trigger] steps[i]).exploded_name,
            ),
    ensures
        finalized(steps, started, received, n) == received,
    decreases n,
{
    if n > 0 {
        lemma_finalized_complete(steps, started, received, n - 1);
        assert(report_names(received).contains(steps[n - 1].exploded_name));
    }
}

/// At the end of a stage whose steps have distinct names, when every
/// received report carries the name of a step and no two carry the same,
/// there is exactly one report for each step.
pub proof fn lemma_finalized_covers(
    steps: Seq<StepView>,
    started: Set<Seq<char>>,
    received: Seq<StepReportView>,
)
    requires
        names_unique(steps),
        report_names(received).no_duplicates(),
        forall|i: int|
            0 <= i < received.len() ==> has_instance(steps, (#[trigger] received[i]).name),
    ensures
        covers(steps, finalized(steps, started, received, steps.len() as int)),
{
    let out = finalized(steps, started, received, steps.len() as int);
    lemma_finalized_names(steps, started, received, steps.len() as int);
    let names = report_names(out);
    let wanted = instance_names(steps);
    assert forall|name: Seq<char>| names.contains(name) <==> wanted.contains(name) by {
        assert(report_names(finalized(steps, started, received, steps.len() as int)).contains(name)
            == names.contains(name));
        if names.contains(name) {
            if report_names(received).contains(name) {
                let i = choose|i: int|
                    0 <= i < received.len() && report_names(received)[i] == name;
                assert(has_instance(steps, received[i].name));
                let j = choose|j: int| 0 <= j < steps.len() && steps[j].exploded_name == name;
                assert(wanted[j] == name);
            } else {
                let j = choose|j: int|
                    0 <= j < steps.len() && (#[trigger] steps[j]).exploded_name == name;
                assert(wanted[j] == name);
            }
        }
        if wanted.contains(name) {
            let j = choose|j: int| 0 <= j < wanted.len() && wanted[j] == name;
            assert(steps[j].exploded_name == name);
        }
    }
    assert(wanted.no_duplicates());
    names.unique_seq_to_set();
    wanted.unique_seq_to_set();
    assert(names.to_set() =~= wanted.to_set());
}

/// The names at the end of a stage: those of the received reports and those
/// of the steps that no received report names, none of them twice.
proof fn lemma_finalized_names(
    steps: Seq<StepView>,
    started: Set<Seq<char>>,
    received: Seq<StepReportView>,
    n: int,
)
    requires
        0 <= n <= steps.len(),
        names_unique(steps),
        report_names(received).no_duplicates(),
    ensures
        report_names(finalized(steps, started, received, n)).no_duplicates(),
        forall|name: Seq<char>|
            #![trigger report_names(finalized(steps, started, received, n)).contains(name)]
            report_names(finalized(steps, started, received, n)).contains(name) <==> (report_names(
                received,
            ).contains(name) || exists|j: int|
                0 <= j < n && (#[trigger] steps[j]).exploded_name == name),
    decreases n,
{
    if n > 0 {
        lemma_finalized_names(steps, started, received, n - 1);
        let before = finalized(steps, started, received, n - 1);
        let after = finalized(steps, started, received, n);
        let name = steps[n - 1].exploded_name;
        if report_names(received).contains(name) {
            assert forall|other: Seq<char>|
                report_names(after).contains(other) <==> (report_names(received).contains(other)
                    || exists|j: int|
                    0 <= j < n && (#[trigger] steps[j]).exploded_name == other) by {
                if exists|j: int| 0 <= j < n && (#[trigger] steps[j]).exploded_name == other {
                    let j = choose|j: int|
                        0 <= j < n && (#[trigger] steps[j]).exploded_name == other;
                    if j < n - 1 {
                        assert(report_names(before).contains(other));
                    }
                }
            }
        } else {
            let names_before = report_names(before);
            let names_after = report_names(after);
            assert(names_after =~= names_before.push(name));
            assert(!names_before.contains(name)) by {
                if names_before.contains(name) {
                    let j = choose|j: int|
                        0 <= j < n - 1 && (#[trigger] steps[j]).exploded_name == name;
                    assert(steps[j].exploded_name != steps[n - 1].exploded_name);
                }
            }
            assert forall|a: int, b: int|
                0 <= a < names_after.len() && 0 <= b < names_after.len() && a != b
                    implies names_after[a] != names_after[b] by {
                if a < names_before.len() && b < names_before.len() {
                    assert(names_before[a] != names_before[b]);
                } else if a < names_before.len() {
                    assert(names_before.contains(names_before[a]));
                } else {
                    assert(names_before.contains(names_before[b]));
                }
            }
            assert forall|other: Seq<char>|
                names_after.contains(other) <==> (report_names(received).contains(other)
                    || exists|j: int|
                    0 <= j < n && (#[trigger] steps[j]).exploded_name == other) by {
                if names_after.contains(other) {
                    let a = choose|a: int| 0 <= a < names_after.len() && names_after[a] == other;
                    if a < names_before.len() {
                        assert(names_before[a] == other);
                        assert(names_before.contains(other));
                    } else {
                        assert(steps[n - 1].exploded_name == other);
                    }
                }
                if report_names(received).contains(other) {
                    assert(names_before.contains(other));
                    let a = choose|a: int| 0 <= a < names_before.len() && names_before[a] == other;
                    assert(names_after[a] == other);
                }
                if exists|j: int| 0 <= j < n && (#[trigger] steps[j]).exploded_name == other {
                    let j = choose|j: int|
                        0 <= j < n && (#[trigger] steps[j]).exploded_name == other;
                    if j < n - 1 {
                        assert(names_before.contains(other));
                        let a = choose|a: int|
                            0 <= a < names_before.len() && names_before[a] == other;
                        assert(names_after[a] == other);
                    } else {
                        assert(names_after[names_before.len() as int] == other);
                    }
                }
            }
        }
    }
}

/// The outcome of a poll.
#[derive(Debug)]
pub struct StagePoll {
    /// The indices of the steps to launch now, in the order of the stage.
    pub launch: Vec<usize>,
    pub next: StageNext,
}

/// Runs one stage: decides which steps start and when the stage is over,
/// and collects the reports.
pub struct StageRunner<'s> {
    stage: &'s Stage,
    started: NameSet,
    completed: NameSet,
    reports: Vec<StepReport>,
}

impl<'s> StageRunner<'s> {
    /// The stage that is run.
    pub closed spec fn stage(&self) -> StageView {
        self.stage@
    }

    /// The names of the steps that were launched.
    pub closed spec fn started(&self) -> Set<Seq<char>> {
        self.started@
    }

    /// The names of the steps whose report was recorded.
    pub closed spec fn completed(&self) -> Set<Seq<char>> {
        self.completed@
    }

    /// The reports recorded so far, in the order in which they came.
    pub closed spec fn reports(&self) -> Seq<StepReportView> {
        reports_view(self.reports@)
    }

    /// Only steps of the stage were started, only started steps completed,
    /// and the recorded reports are those of the completed steps, one each.
    pub closed spec fn wf(&self) -> bool {
        &&& self.started.wf()
        &&& self.completed.wf()
        &&& forall|name: Seq<char>|
            self.started@.contains(name) ==> has_instance(self.stage@.steps, name)
        &&& self.completed@.subset_of(self.started@)
        &&& report_names(self.reports()).no_duplicates()
        &&& report_names(self.reports()).to_set() == self.completed@
    }

    /// Whether the step called `name` was launched and has not reported yet.
    pub open spec fn in_flight(&self, name: Seq<char>) -> bool {
        self.started().contains(name) && !self.completed().contains(name)
    }

    /// A runner at the start of the stage: no step has started.
    pub fn new(stage: &'s Stage) -> (out: Self)
        ensures
            out.wf(),
            out.stage() == stage@,
            out.started() == Set::<Seq<char>>::empty(),
            out.completed() == Set::<Seq<char>>::empty(),
            out.reports() == Seq::<StepReportView>::empty(),
    {
        let out = StageRunner {
            stage,
            started: NameSet::new(),
            completed: NameSet::new(),
            reports: Vec::new(),
        };
        assert(out.reports() =~= Seq::<StepReportView>::empty());
        assert(report_names(out.reports()) =~= Seq::<Seq<char>>::empty());
        assert(report_names(out.reports()).to_set() =~= Set::<Seq<char>>::empty());
        out
    }

    /// Whether `step` may start now: each instance of each step that it
    /// needs has completed.
    pub fn can_start(&self, step: &Step) -> (ok: bool)
        ensures
            ok == ready(self.stage().steps, self.completed(), step@.needs),
    {
        let ghost steps = self.stage@.steps;
        let ghost needs = step@.needs;
        let mut k: usize = 0;
        while k < step.needs.len()
            invariant
                k <= step.needs.len(),
                steps == self.stage@.steps,
                needs == step@.needs,
                forall|a: int, t: int|
                    #![trigger needs[a], steps[t]]
                    0 <= a < k && 0 <= t < steps.len() && steps[t].name == needs[a]
                        ==> self.completed@.contains(steps[t].exploded_name),
            decreases step.needs.len() - k,
        {
            let mut t: usize = 0;
            while t < self.stage.steps.len()
                invariant
                    t <= self.stage.steps.len(),
                    k < step.needs.len(),
                    steps == self.stage@.steps,
                    needs == step@.needs,
                    forall|b: int|
                        #![trigger steps[b]]
                        0 <= b < t && steps[b].name == needs[k as int]
                            ==> self.completed@.contains(steps[b].exploded_name),
                decreases self.stage.steps.len() - t,
            {
                let other = &self.stage.steps[t];
                assert(steps[t as int] == other@);
                assert(needs[k as int] == step.needs[k as int]@);
                if other.name == step.needs[k] && !self.completed.contains(
                    other.exploded_name.as_str(),
                ) {
                    return false;
                }
                t += 1;
            }
            k += 1;
        }
        true
    }

    /// Launches every step that is ready and was not started: one pass over
    /// the steps of the stage, in order. Returns the indices of the launched
    /// steps. Each of them is ready: every instance of every step it needs
    /// has completed.
    pub fn dispatch_ready_steps(&mut self) -> (launch: Vec<usize>)
        requires
            old(self).wf(),
        ensures
            final(self).wf(),
            final(self).stage() == old(self).stage(),
            final(self).completed() == old(self).completed(),
            final(self).reports() == old(self).reports(),
            (Dispatch { started: final(self).started(), launch: indices_view(launch@) })
                == dispatched(
                old(self).stage().steps,
                old(self).completed(),
                old(self).started(),
                old(self).stage().steps.len() as int,
            ),
            forall|k: int|
                0 <= k < launch@.len() ==> (#[trigger] launch@[k]) < old(self).stage().steps.len()
                    && ready(
                    old(self).stage().steps,
                    old(self).completed(),
                    old(self).stage().steps[launch@[k] as int].needs,
                ) && !old(self).started().contains(
                    old(self).stage().steps[launch@[k] as int].exploded_name,
                ),
    {
        let ghost steps = self.stage@.steps;
        let ghost completed = self.completed@;
        let ghost started = self.started@;
        let mut launch: Vec<usize> = Vec::new();
        let mut i: usize = 0;
        assert(indices_view(launch@) =~= Seq::<int>::empty());
        while i < self.stage.steps.len()
            invariant
                i <= self.stage.steps.len(),
                steps == self.stage@.steps,
                completed == self.completed@,
                self.stage == old(self).stage,
                self.completed == old(self).completed,
                self.reports == old(self).reports,
                self.started.wf(),
                (Dispatch { started: self.started@, launch: indices_view(launch@) }) == dispatched(
                    steps,
                    completed,
                    started,
                    i as int,
                ),
            decreases self.stage.steps.len() - i,
        {
            let step = &self.stage.steps[i];
            assert(steps[i as int] == step@);
            let ghost before = indices_view(launch@);
            if !self.started.contains(step.exploded_name.as_str()) && self.can_start(step) {
                self.started.insert(step.exploded_name.as_str());
                launch.push(i);
                assert(indices_view(launch@) =~= before.push(i as int));
            }
            i += 1;
        }
        proof {
            lemma_dispatched(steps, completed, started, steps.len() as int);
            let pass = dispatched(steps, completed, started, steps.len() as int);
            assert forall|k: int| 0 <= k < launch@.len() implies (#[trigger] launch@[k])
                < steps.len() && ready(steps, completed, steps[launch@[k] as int].needs)
                && !started.contains(steps[launch@[k] as int].exploded_name) by {
                assert(indices_view(launch@)[k] == launch@[k] as int);
                assert(pass.launch[k] == launch@[k] as int);
            }
        }
        launch
    }

    /// One round of the schedule: see `polled`.
    pub fn poll(&mut self, cancelled: bool) -> (out: StagePoll)
        requires
            old(self).wf(),
        ensures
            final(self).wf(),
            final(self).stage() == old(self).stage(),
            final(self).completed() == old(self).completed(),
            final(self).reports() == old(self).reports(),
            (Polled {
                started: final(self).started(),
                launch: indices_view(out.launch@),
                next: out.next,
            }) == polled(
                old(self).stage().steps,
                old(self).started(),
                old(self).completed(),
                cancelled,
            ),
            forall|k: int|
                0 <= k < out.launch@.len() ==> (#[trigger] out.launch@[k]) < old(
                    self,
                ).stage().steps.len() && ready(
                    old(self).stage().steps,
                    old(self).completed(),
                    old(self).stage().steps[out.launch@[k] as int].needs,
                ),
            out.next == StageNext::Deadlock ==> !cancelled && final(self).started()
                == final(self).completed(),
            out.next == StageNext::Deadlock && names_unique(final(self).stage().steps)
                ==> exists|i: int|
                0 <= i < final(self).stage().steps.len() && !final(self).started().contains(
                    (#[trigger] final(self).stage().steps[i]).exploded_name,
                ),
            out.next == StageNext::Deadlock ==> forall|i: int|
                0 <= i < final(self).stage().steps.len() && !final(self).started().contains(
                    (#[trigger] final(self).stage().steps[i]).exploded_name,
                ) ==> !ready(
                    final(self).stage().steps,
                    final(self).completed(),
                    final(self).stage().steps[i].needs,
                ),
            out.next == StageNext::Done && !cancelled ==> forall|i: int|
                0 <= i < final(self).stage().steps.len() ==> final(self).completed().contains(
                    (#[trigger] final(self).stage().steps[i]).exploded_name,
                ),
    {
        let ghost steps = self.stage@.steps;
        let ghost started_before = self.started@;
        let launch = if cancelled {
            let none: Vec<usize> = Vec::new();
            assert(indices_view(none@) =~= Seq::<int>::empty());
            none
        } else {
            self.dispatch_ready_steps()
        };
        let started = self.started.len();
        let completed = self.completed.len();
        let next = if started == completed {
            if cancelled || started == self.stage.steps.len() {
                StageNext::Done
            } else {
                StageNext::Deadlock
            }
        } else {
            StageNext::Wait
        };
        proof {
            if started == completed {
                lemma_subset_equality(self.completed@, self.started@);
                let names = instance_names(steps);
                assert forall|name: Seq<char>| self.started@.contains(name) implies names.to_set().contains(
                    name,
                ) by {
                    let i = choose|i: int|
                        0 <= i < steps.len() && (#[trigger] steps[i]).exploded_name == name;
                    assert(names[i] == name);
                }
                if next == StageNext::Deadlock {
                    lemma_dispatched(steps, self.completed@, started_before, steps.len() as int);
                    if names_unique(steps) && forall|i: int|
                        0 <= i < steps.len() ==> self.started@.contains(
                            (#[trigger] steps[i]).exploded_name,
                        ) {
                        assert forall|name: Seq<char>| names.to_set().contains(
                            name,
                        ) implies self.started@.contains(name) by {
                            let i = choose|i: int| 0 <= i < names.len() && names[i] == name;
                            assert(steps[i].exploded_name == name);
                        }
                        assert(names.to_set() =~= self.started@);
                        assert(names.no_duplicates());
                        names.unique_seq_to_set();
                        assert(false);
                    }
                }
                if next == StageNext::Done && !cancelled {
                    names.lemma_cardinality_of_set();
                    assert(self.started@.subset_of(names.to_set()));
                    lemma_len_subset(self.started@, names.to_set());
                    lemma_subset_equality(self.started@, names.to_set());
                    assert forall|i: int| 0 <= i < steps.len() implies self.completed@.contains(
                        (#[trigger] steps[i]).exploded_name,
                    ) by {
                        assert(names[i] == steps[i].exploded_name);
                        assert(names.to_set().contains(names[i]));
                    }
                }
            }
        }
        StagePoll { launch, next }
    }

    /// Whether the step called `name` was launched and has not reported yet.
    pub fn is_in_flight(&self, name: &str) -> (b: bool)
        ensures
            b == self.in_flight(name@),
    {
        self.started.contains(name) && !self.completed.contains(name)
    }

    /// Records the report of a step that is under way: the step counts as
    /// completed, and the report is kept after those that came before.
    pub fn record(&mut self, report: StepReport)
        requires
            old(self).wf(),
            old(self).in_flight(report@.name),
        ensures
            final(self).wf(),
            final(self).stage() == old(self).stage(),
            final(self).started() == old(self).started(),
            final(self).completed() == old(self).completed().insert(report@.name),
            final(self).reports() == old(self).reports().push(report@),
    {
        let ghost before = self.reports();
        let ghost names_before = report_names(before);
        self.completed.insert(report.name.as_str());
        self.reports.push(report);
        proof {
            let after = self.reports();
            let names_after = report_names(after);
            assert(after =~= before.push(report@));
            assert(names_after =~= names_before.push(report@.name));
            assert(!names_before.contains(report@.name)) by {
                if names_before.contains(report@.name) {
                    assert(names_before.to_set().contains(report@.name));
                }
            }
            assert forall|a: int, b: int|
                0 <= a < names_after.len() && 0 <= b < names_after.len() && a != b
                    implies names_after[a] != names_after[b] by {
                if a < names_before.len() && b < names_before.len() {
                    assert(names_before[a] != names_before[b]);
                } else if a < names_before.len() {
                    assert(names_before.contains(names_before[a]));
                } else {
                    assert(names_before.contains(names_before[b]));
                }
            }
            assert forall|name: Seq<char>|
                names_after.to_set().contains(name) == names_before.to_set().insert(
                    report@.name,
                ).contains(name) by {
                if names_after.contains(name) {
                    let a = choose|a: int| 0 <= a < names_after.len() && names_after[a] == name;
                    if a < names_before.len() {
                        assert(names_before[a] == name);
                        assert(names_before.contains(name));
                    }
                }
                if names_before.contains(name) {
                    let a = choose|a: int| 0 <= a < names_before.len() && names_before[a] == name;
                    assert(names_after[a] == name);
                }
                if name == report@.name {
                    assert(names_after[names_before.len() as int] == name);
                }
            }
            assert(names_after.to_set() =~= names_before.to_set().insert(report@.name));
        }
    }

    /// What the error of a stuck stage says.
    pub fn deadlock_message(&self) -> (out: String)
        ensures
            out@ == "Deadlock detected in stage '"@ + self.stage().name
                + "'! Check your 'needs' configuration."@,
    {
        let mut out = String::from_str("Deadlock detected in stage '");
        out.append(self.stage.name.as_str());
        out.append("'! Check your 'needs' configuration.");
        out
    }

    /// Ends the stage: see `finalized`. The reports received come first;
    /// after them each step without a report gets one, failed if it was
    /// started and skipped if it was not. Where the steps of the stage have
    /// distinct names, the result holds exactly one report for each step.
    pub fn finalize_report(self) -> (out: StageReport)
        requires
            self.wf(),
        ensures
            out@ == finalized(
                self.stage().steps,
                self.started(),
                self.reports(),
                self.stage().steps.len() as int,
            ),
            names_unique(self.stage().steps) ==> covers(self.stage().steps, out@),
    {
        let ghost steps = self.stage@.steps;
        let ghost started = self.started@;
        let ghost received = self.reports();
        let stage = self.stage;
        let was_started = self.started;
        let completed = self.completed;
        let mut reports = self.reports;
        let mut i: usize = 0;
        while i < stage.steps.len()
            invariant
                i <= stage.steps.len(),
                steps == stage@.steps,
                started == was_started@,
                report_names(received).to_set() == completed@,
                reports_view(reports@) == finalized(steps, started, received, i as int),
            decreases stage.steps.len() - i,
        {
            let step = &stage.steps[i];
            assert(steps[i as int] == step@);
            let name = step.exploded_name.as_str();
            let ghost before = reports_view(reports@);
            if !completed.contains(name) {
                if was_started.contains(name) {
                    reports.push(StepReport::failed(name, 0, 0));
                } else {
                    reports.push(StepReport::skipped(name));
                }
                assert(reports_view(reports@) =~= before.push(reports@[reports@.len() - 1]@));
            }
            i += 1;
        }
        let out = StageReport { step_reports: reports };
        proof {
            if names_unique(steps) {
                assert forall|k: int| 0 <= k < received.len() implies has_instance(
                    steps,
                    (#[trigger] received[k]).name,
                ) by {
                    assert(report_names(received)[k] == received[k].name);
                    assert(report_names(received).to_set().contains(received[k].name));
                }
                lemma_finalized_covers(steps, started, received);
            }
        }
        out
    }
}

} // verus!
