//! The decisions of a run: of one step, of one stage, of the whole pipeline.
//! Each runner is a state machine. Its caller does the work that a decision
//! asks for and reports back what happened.

pub mod pipeline;
pub mod stage;
pub mod step;

pub use pipeline::{PipelineAction, PipelineRunner};
pub use stage::{StageNext, StagePoll, StageRunner};
pub use step::{AttemptOutcome, StepAction, StepDecision, StepPhase, StepRunner};
