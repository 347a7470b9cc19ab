//! The compiled pipeline: stages in order, each an ordered list of concrete
//! step instances.

use crate::text::{clone_strings, strings_view};
use vstd::prelude::*;

verus! {

/// One concrete unit of work: one container run per attempt.
#[derive(Debug)]
pub struct Step {
    /// The declared name.
    pub name: String,
    /// The name of this instance: the declared name, or `name-value` for an
    /// instance of a matrix.
    pub exploded_name: String,
    pub image: String,
    pub command: String,
    /// The memory limit in bytes.
    pub memory_bytes: i64,
    /// Declared names of steps of the same stage that must finish first.
    pub needs: Vec<String>,
    /// Environment entries, each `KEY=VALUE`.
    pub env: Vec<String>,
    /// How many attempts may follow the first.
    pub max_retries: u32,
    /// The time allowed to one attempt, in seconds.
    pub timeout_secs: u64,
}

/// What a `Step` holds, as mathematical values.
pub struct StepView {
    pub name: Seq<char>,
    pub exploded_name: Seq<char>,
    pub image: Seq<char>,
    pub command: Seq<char>,
    pub memory_bytes: i64,
    pub needs: Seq<Seq<char>>,
    pub env: Seq<Seq<char>>,
    pub max_retries: u32,
    pub timeout_secs: u64,
}

impl View for Step {
    type V = StepView;

    open spec fn view(&self) -> StepView {
        StepView {
            name: self.name@,
            exploded_name: self.exploded_name@,
            image: self.image@,
            command: self.command@,
            memory_bytes: self.memory_bytes,
            needs: strings_view(self.needs@),
            env: strings_view(self.env@),
            max_retries: self.max_retries,
            timeout_secs: self.timeout_secs,
        }
    }
}

impl Clone for Step {
    fn clone(&self) -> (out: Self)
        ensures
            out@ == self@,
    {
        Step {
            name: self.name.clone(),
            exploded_name: self.exploded_name.clone(),
            image: self.image.clone(),
            command: self.command.clone(),
            memory_bytes: self.memory_bytes,
            needs: clone_strings(&self.needs),
            env: clone_strings(&self.env),
            max_retries: self.max_retries,
            timeout_secs: self.timeout_secs,
        }
    }
}

/// A named group of steps that runs as a whole before the next stage.
#[derive(Debug)]
pub struct Stage {
    pub name: String,
    pub steps: Vec<Step>,
}

/// What a `Stage` holds, as mathematical values.
pub struct StageView {
    pub name: Seq<char>,
    pub steps: Seq<StepView>,
}

/// The views of a sequence of steps.
pub open spec fn steps_view(steps: Seq<Step>) -> Seq<StepView> {
    Seq::new(steps.len(), |i: int| steps[i]@)
}

/// The views of a sequence of stages.
pub open spec fn stages_view(stages: Seq<Stage>) -> Seq<StageView> {
    Seq::new(stages.len(), |i: int| stages[i]@)
}

impl View for Stage {
    type V = StageView;

    open spec fn view(&self) -> StageView {
        StageView { name: self.name@, steps: steps_view(self.steps@) }
    }
}

/// The stages of a run, in the order in which they run.
#[derive(Debug)]
pub struct Pipeline {
    pub stages: Vec<Stage>,
}

impl View for Pipeline {
    type V = Seq<StageView>;

    open spec fn view(&self) -> Seq<StageView> {
        stages_view(self.stages@)
    }
}

/// The instance names of the steps, in order.
pub open spec fn instance_names(steps: Seq<StepView>) -> Seq<Seq<char>> {
    Seq::new(steps.len(), |i: int| steps[i].exploded_name)
}

/// No two steps have the same instance name.
pub open spec fn names_unique(steps: Seq<StepView>) -> bool {
    forall|i: int, j: int|
        0 <= i < j < steps.len() ==> (#[trigger] steps[i]).exploded_name != (
        #[trigger] steps[j]).exploded_name
}

/// Some step was declared under the name `base`.
pub open spec fn has_base_name(steps: Seq<StepView>, base: Seq<char>) -> bool {
    exists|i: int| 0 <= i < steps.len() && (#[trigger] steps[i]).name == base
}

/// Every dependency names a step declared among `steps`.
pub open spec fn needs_resolved(steps: Seq<StepView>) -> bool {
    forall|i: int, k: int|
        0 <= i < steps.len() && 0 <= k < steps[i].needs.len() ==> has_base_name(
            steps,
            #[trigger] steps[i].needs[k],
        )
}

impl StepView {
    /// The limits of a step are positive.
    pub open spec fn well_formed(self) -> bool {
        self.memory_bytes > 0 && self.timeout_secs > 0
    }
}

impl StageView {
    /// Instance names are unique, dependencies name steps of this stage, and
    /// every step has positive limits.
    pub open spec fn well_formed(self) -> bool {
        &&& names_unique(self.steps)
        &&& needs_resolved(self.steps)
        &&& forall|i: int| 0 <= i < self.steps.len() ==> (#[trigger] self.steps[i]).well_formed()
    }
}

} // verus!
