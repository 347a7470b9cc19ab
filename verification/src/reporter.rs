//! The texts of the final report: the table on the terminal and the summary
//! in the log file. What a step took is written by the caller, who hands
//! the text in.

use crate::models::reports::{StepReport, StepReportView, StepStatus};
use vstd::prelude::*;
use vstd::string::StringExecFns;

verus! {

/// The name of a status, as the summary in the log file writes it.
pub open spec fn status_name_of(status: StepStatus) -> Seq<char> {
    match status {
        StepStatus::Success => "Success"@,
        StepStatus::Failed => "Failed"@,
        StepStatus::Cancelled => "Cancelled"@,
        StepStatus::Skipped => "Skipped"@,
    }
}

/// The four letters that stand for a status in the table on the terminal.
pub open spec fn badge_of(status: StepStatus) -> Seq<char> {
    match status {
        StepStatus::Success => "PASS"@,
        StepStatus::Failed => "FAIL"@,
        StepStatus::Cancelled => "STOP"@,
        StepStatus::Skipped => "SKIP"@,
    }
}

/// The line of one step in the summary; `duration` is the time it took, in
/// seconds, as text.
pub open spec fn summary_line_of(step: StepReportView, duration: Seq<char>) -> Seq<char> {
    "Step: "@ + step.name + " | Status "@ + status_name_of(step.status) + " | Duration "@ + duration
        + "s\n"@
}

/// Writes the summary of a run for the log file.
pub struct FileReporter;

impl FileReporter {
    /// The heading of the summary.
    pub fn header() -> (out: String)
        ensures
            out@ == "--- Pipeline Report ---\n\n"@,
    {
        String::from_str("--- Pipeline Report ---\n\n")
    }

    /// The name of a status.
    pub fn status_name(status: StepStatus) -> (out: String)
        ensures
            out@ == status_name_of(status),
    {
        match status {
            StepStatus::Success => String::from_str("Success"),
            StepStatus::Failed => String::from_str("Failed"),
            StepStatus::Cancelled => String::from_str("Cancelled"),
            StepStatus::Skipped => String::from_str("Skipped"),
        }
    }

    /// The line of one step: its name, its status and the time it took.
    pub fn line(step: &StepReport, duration: &str) -> (out: String)
        ensures
            out@ == summary_line_of(step@, duration@),
    {
        let mut out = String::from_str("Step: ");
        out.append(step.name.as_str());
        out.append(" | Status ");
        out.append(Self::status_name(step.status).as_str());
        out.append(" | Duration ");
        out.append(duration);
        out.append("s\n");
        out
    }
}

/// Lays out the table of a run for the terminal.
pub struct ConsoleReporter;

impl ConsoleReporter {
    /// The four letters that stand for a status.
    pub fn badge(status: StepStatus) -> (out: String)
        ensures
            out@ == badge_of(status),
    {
        match status {
            StepStatus::Success => String::from_str("PASS"),
            StepStatus::Failed => String::from_str("FAIL"),
            StepStatus::Cancelled => String::from_str("STOP"),
            StepStatus::Skipped => String::from_str("SKIP"),
        }
    }
}

} // verus!
