//! The data model: the declared pipeline, the compiled pipeline and the reports.

pub mod config;
pub mod raw;
pub mod reports;

pub use config::{Pipeline, Stage, Step};
pub use raw::{ConfigError, MatrixConfig, RawPipeline, RawStage, RawStep};
pub use reports::{PipelineReport, StageReport, StepReport, StepStatus};
