//! A local continuous-integration pipeline executor: the configuration
//! compiler, the log store, and the decisions of the step, stage and pipeline
//! runners, each with a machine-checked contract.

pub mod engine;
pub mod logger;
pub mod models;
pub mod names;
pub mod reporter;
pub mod runner;
pub mod template;
pub mod text;
