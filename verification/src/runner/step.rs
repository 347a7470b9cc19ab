//! The life of one step: attempts, retries with growing pauses, and the
//! report at the end.

use crate::engine::ExitState;
use crate::logger::{messages_view, LogMessage, LogMessageView};
use crate::models::config::{Step, StepView};
use crate::models::reports::{StepReport, StepReportView, StepStatus};
use crate::text::{decimal_of, push_decimal, push_signed_decimal};
use vstd::arithmetic::power2::{lemma2_to64, lemma_pow2_strictly_increases, lemma_pow2_unfold, pow2};
use vstd::prelude::*;
use vstd::string::StringExecFns;

verus! {

/// Where a step stands.
#[derive(Debug, Clone, Copy, PartialEq, Eq, Structural)]
pub enum StepPhase {
    /// Nothing has been started.
    Idle,
    /// An attempt is running.
    Attempting,
    /// The pause before the next attempt is running.
    RetryWait,
    /// Over: an attempt succeeded.
    Success,
    /// Over: cancelled during an attempt or a pause.
    Cancelled,
    /// Over: an attempt failed and no retry was due.
    Failed,
}

/// How one attempt ended.
#[derive(Debug)]
pub enum AttemptOutcome {
    /// The container ran to its end and was inspected.
    Exited(ExitState),
    /// The driver could not start, follow or inspect the container; holds
    /// what it said.
    DriverError(String),
    /// The attempt took longer than the step allows.
    TimedOut,
    /// The run was cancelled while the attempt was under way.
    Cancelled,
}

/// What an `AttemptOutcome` holds, as mathematical values.
pub enum AttemptOutcomeView {
    Exited(ExitState),
    DriverError(Seq<char>),
    TimedOut,
    Cancelled,
}

impl View for AttemptOutcome {
    type V = AttemptOutcomeView;

    open spec fn view(&self) -> AttemptOutcomeView {
        match self {
            AttemptOutcome::Exited(state) => AttemptOutcomeView::Exited(*state),
            AttemptOutcome::DriverError(message) => AttemptOutcomeView::DriverError(message@),
            AttemptOutcome::TimedOut => AttemptOutcomeView::TimedOut,
            AttemptOutcome::Cancelled => AttemptOutcomeView::Cancelled,
        }
    }
}

/// What the caller does next.
#[derive(Debug)]
pub enum StepAction {
    /// Run an attempt under the step's timeout, then call `attempt_finished`.
    Attempt,
    /// Pause for `seconds`, or until the run is cancelled, then call
    /// `backoff_finished`. `seconds` is none when two to the power of
    /// `attempt` does not fit in 64 bits.
    Backoff { attempt: u32, seconds: Option<u64> },
    /// The step is over. `cancel_others` asks to cancel the whole run.
    Finish { report: StepReport, cancel_others: bool },
}

/// What a `StepAction` holds, as mathematical values.
pub enum StepActionView {
    Attempt,
    Backoff { attempt: u32, seconds: Option<u64> },
    Finish { report: StepReportView, cancel_others: bool },
}

impl View for StepAction {
    type V = StepActionView;

    open spec fn view(&self) -> StepActionView {
        match self {
            StepAction::Attempt => StepActionView::Attempt,
            StepAction::Backoff { attempt, seconds } => StepActionView::Backoff {
                attempt: *attempt,
                seconds: *seconds,
            },
            StepAction::Finish { report, cancel_others } => StepActionView::Finish {
                report: report@,
                cancel_others: *cancel_others,
            },
        }
    }
}

/// What the runner decided after an event.
#[derive(Debug)]
pub struct StepDecision {
    /// Lines to emit to the log, in this order, before anything else.
    pub logs: Vec<LogMessage>,
    /// Whether to force-remove the container of the attempt, if there is one.
    pub remove_container: bool,
    pub action: StepAction,
}

/// What a `StepDecision` holds, as mathematical values.
pub struct StepDecisionView {
    pub logs: Seq<LogMessageView>,
    pub remove_container: bool,
    pub action: StepActionView,
}

impl View for StepDecision {
    type V = StepDecisionView;

    open spec fn view(&self) -> StepDecisionView {
        StepDecisionView {
            logs: messages_view(self.logs@),
            remove_container: self.remove_container,
            action: self.action@,
        }
    }
}

/// Why an attempt counts as failed.
pub struct Failure {
    /// The line that the failure itself adds to the log of the step.
    pub log: Option<Seq<char>>,
    /// The error as the retry notice quotes it.
    pub message: Seq<char>,
    /// Whether the container of the attempt is still to be removed.
    pub remove_container: bool,
}

/// What an attempt amounts to.
pub enum Verdict {
    Passed,
    Cancelled,
    Failed(Failure),
}

/// The exit code that is reported when the driver knows none.
pub open spec fn reported_code(state: ExitState) -> i64 {
    match state.exit_code {
        Some(code) => code,
        None => -1i64,
    }
}

/// What an attempt of `step` that ended with `outcome` amounts to. A
/// container passes when it was not killed for want of memory and exited
/// with code 0.
pub open spec fn verdict_of(step: StepView, outcome: AttemptOutcomeView) -> Verdict {
    match outcome {
        AttemptOutcomeView::Exited(state) => if state.oom_killed == Some(true) {
            Verdict::Failed(
                Failure {
                    log: Some("System ran out of memory"@),
                    message: "System ran out of memory (Step: "@ + step.exploded_name + ")"@,
                    remove_container: false,
                },
            )
        } else if state.exit_code != Some(0i64) {
            Verdict::Failed(
                Failure {
                    log: Some("Process exited with code "@ + decimal_of(reported_code(state) as int)),
                    message: "Non-zero exit code "@ + decimal_of(reported_code(state) as int)
                        + " (Step: "@ + step.exploded_name + ")"@,
                    remove_container: false,
                },
            )
        } else {
            Verdict::Passed
        },
        AttemptOutcomeView::DriverError(message) => Verdict::Failed(
            Failure { log: None, message, remove_container: false },
        ),
        AttemptOutcomeView::TimedOut => Verdict::Failed(
            Failure {
                log: Some("⏳ Step timed out after "@ + decimal_of(step.timeout_secs as int) + "s"@),
                message: "Timeout"@,
                remove_container: true,
            },
        ),
        AttemptOutcomeView::Cancelled => Verdict::Cancelled,
    }
}

/// The notice that goes to the log before the pause that precedes retry
/// number `attempt`.
pub open spec fn retry_notice(attempt: u32, max_retries: u32, message: Seq<char>) -> Seq<char> {
    "Retrying step ("@ + decimal_of(attempt as int) + "/"@ + decimal_of(max_retries as int)
        + ") - Error: "@ + message
}

/// The pause before retry number `attempt`, in seconds: two to the power of
/// `attempt`, where that fits in 64 bits.
pub open spec fn backoff_of(attempt: u32) -> Option<u64> {
    if attempt < 64 {
        Some(pow2(attempt as nat) as u64)
    } else {
        None
    }
}

/// An error line of the step named `step_name`.
pub open spec fn error_line(step_name: Seq<char>, line: Seq<char>) -> LogMessageView {
    LogMessageView { step_name, line, is_error: true }
}

/// The error lines of the step for a failure and, where a retry follows, for
/// the notice of it.
pub open spec fn failure_lines(
    step_name: Seq<char>,
    failure: Failure,
    notice: Option<Seq<char>>,
) -> Seq<LogMessageView> {
    (match failure.log {
        Some(line) => seq![error_line(step_name, line)],
        None => Seq::empty(),
    }) + (match notice {
        Some(line) => seq![error_line(step_name, line)],
        None => Seq::empty(),
    })
}

/// The report of `step` with the given status, retries and time.
pub open spec fn report_of(step: StepView, status: StepStatus, retries: u32, elapsed: u64)
    -> StepReportView {
    StepReportView { name: step.exploded_name, status, retries, elapsed }
}

/// The runner after an event: its phase, its count of retries, and what it
/// asks of the caller.
pub struct Transition {
    pub phase: StepPhase,
    pub retries: u32,
    pub decision: StepDecisionView,
}

/// What follows the end of an attempt. `retries` counts the retries made so
/// far, `cancelled` tells whether the run was cancelled when the attempt
/// ended, `elapsed` is the time since the step was started, in milliseconds.
///
/// A passed attempt ends the step with success. A cancelled one ends it as
/// cancelled and has its container removed. A failed one is retried, after a
/// notice and a pause, while retries are left and the run is not cancelled;
/// otherwise the step has failed, and asks to cancel the run.
pub open spec fn after_attempt(
    step: StepView,
    retries: u32,
    outcome: AttemptOutcomeView,
    cancelled: bool,
    elapsed: u64,
) -> Transition {
    match verdict_of(step, outcome) {
        Verdict::Passed => Transition {
            phase: StepPhase::Success,
            retries,
            decision: StepDecisionView {
                logs: Seq::empty(),
                remove_container: false,
                action: StepActionView::Finish {
                    report: report_of(step, StepStatus::Success, retries, elapsed),
                    cancel_others: false,
                },
            },
        },
        Verdict::Cancelled => Transition {
            phase: StepPhase::Cancelled,
            retries,
            decision: StepDecisionView {
                logs: Seq::empty(),
                remove_container: true,
                action: StepActionView::Finish {
                    report: report_of(step, StepStatus::Cancelled, retries, elapsed),
                    cancel_others: false,
                },
            },
        },
        Verdict::Failed(failure) => if retries < step.max_retries && !cancelled {
            let attempt = (retries + 1) as u32;
            Transition {
                phase: StepPhase::RetryWait,
                retries: attempt,
                decision: StepDecisionView {
                    logs: failure_lines(
                        step.exploded_name,
                        failure,
                        Some(retry_notice(attempt, step.max_retries, failure.message)),
                    ),
                    remove_container: failure.remove_container,
                    action: StepActionView::Backoff { attempt, seconds: backoff_of(attempt) },
                },
            }
        } else {
            Transition {
                phase: StepPhase::Failed,
                retries,
                decision: StepDecisionView {
                    logs: failure_lines(step.exploded_name, failure, None),
                    remove_container: failure.remove_container,
                    action: StepActionView::Finish {
                        report: report_of(step, StepStatus::Failed, retries, elapsed),
                        cancel_others: true,
                    },
                },
            }
        },
    }
}

/// What follows the end of a pause: the next attempt, or the end of the step
/// as cancelled if the run was cancelled during the pause.
pub open spec fn after_backoff(step: StepView, retries: u32, cancelled: bool, elapsed: u64)
    -> Transition {
    if cancelled {
        Transition {
            phase: StepPhase::Cancelled,
            retries,
            decision: StepDecisionView {
                logs: Seq::empty(),
                remove_container: false,
                action: StepActionView::Finish {
                    report: report_of(step, StepStatus::Cancelled, retries, elapsed),
                    cancel_others: false,
                },
            },
        }
    } else {
        Transition {
            phase: StepPhase::Attempting,
            retries,
            decision: StepDecisionView {
                logs: Seq::empty(),
                remove_container: false,
                action: StepActionView::Attempt,
            },
        }
    }
}

/// A step never reports more retries than it allows: the runner keeps its
/// count within the limit through every event, and a report carries the
/// count.
pub proof fn lemma_retries_bounded(
    step: StepView,
    retries: u32,
    outcome: AttemptOutcomeView,
    cancelled: bool,
    elapsed: u64,
)
    requires
        retries <= step.max_retries,
    ensures
        after_attempt(step, retries, outcome, cancelled, elapsed).retries <= step.max_retries,
        after_backoff(step, retries, cancelled, elapsed).retries <= step.max_retries,
        after_attempt(step, retries, outcome, cancelled, elapsed).decision.action matches StepActionView::Finish {
            report,
            ..
        } ==> report.retries <= step.max_retries,
        after_backoff(step, retries, cancelled, elapsed).decision.action matches StepActionView::Finish {
            report,
            ..
        } ==> report.retries <= step.max_retries,
{
}

/// A step is reported as a success only after an attempt whose container
/// exited with code 0 and was not killed for want of memory. The end of a
/// pause never reports a success.
pub proof fn lemma_success_means_clean_exit(
    step: StepView,
    retries: u32,
    outcome: AttemptOutcomeView,
    cancelled: bool,
    elapsed: u64,
)
    ensures
        after_attempt(step, retries, outcome, cancelled, elapsed).decision.action matches StepActionView::Finish {
            report,
            ..
        } && report.status == StepStatus::Success ==> (outcome matches AttemptOutcomeView::Exited(
            state,
        ) && state.exit_code == Some(0i64) && state.oom_killed != Some(true)),
        after_backoff(step, retries, cancelled, elapsed).decision.action matches StepActionView::Finish {
            report,
            ..
        } ==> report.status == StepStatus::Cancelled,
{
}

/// A step asks to cancel the run exactly when it reports a failure, and it
/// reports a failure only when no retry is left or the run is cancelled.
pub proof fn lemma_failure_cancels_run(
    step: StepView,
    retries: u32,
    outcome: AttemptOutcomeView,
    cancelled: bool,
    elapsed: u64,
)
    ensures
        after_attempt(step, retries, outcome, cancelled, elapsed).decision.action matches StepActionView::Finish {
            report,
            cancel_others,
        } ==> (cancel_others <==> report.status == StepStatus::Failed) && (report.status
            == StepStatus::Failed ==> retries >= step.max_retries || cancelled),
{
}

/// The pause before retry number `attempt`, in seconds: 2, 4, 8 and so on.
pub fn backoff_seconds(attempt: u32) -> (secs: Option<u64>)
    ensures
        secs == backoff_of(attempt),
{
    if attempt >= 64 {
        return None;
    }
    let mut secs: u64 = 1;
    let mut i: u32 = 0;
    proof {
        lemma2_to64();
    }
    while i < attempt
        invariant
            i <= attempt < 64,
            secs == pow2(i as nat),
        decreases attempt - i,
    {
        proof {
            lemma_pow2_unfold((i + 1) as nat);
            if i + 1 < 64 {
                lemma_pow2_strictly_increases((i + 1) as nat, 64);
            }
            lemma2_to64();
        }
        secs = secs * 2;
        i += 1;
    }
    Some(secs)
}

/// The failure of an attempt, with its texts written out.
struct FailureText {
    log: Option<String>,
    message: String,
    remove_container: bool,
}

/// What an attempt amounts to, with its texts written out.
enum VerdictText {
    Passed,
    Cancelled,
    Failed(FailureText),
}

impl View for VerdictText {
    type V = Verdict;

    closed spec fn view(&self) -> Verdict {
        match self {
            VerdictText::Passed => Verdict::Passed,
            VerdictText::Cancelled => Verdict::Cancelled,
            VerdictText::Failed(failure) => Verdict::Failed(
                Failure {
                    log: match failure.log {
                        Some(line) => Some(line@),
                        None => None,
                    },
                    message: failure.message@,
                    remove_container: failure.remove_container,
                },
            ),
        }
    }
}

/// Runs one step: decides, after each attempt and each pause, what comes next.
pub struct StepRunner {
    step: Step,
    phase: StepPhase,
    retries: u32,
}

impl StepRunner {
    /// The step that is run.
    pub closed spec fn step(&self) -> StepView {
        self.step@
    }

    /// Where the step stands.
    pub closed spec fn phase(&self) -> StepPhase {
        self.phase
    }

    /// The retries made so far.
    pub closed spec fn retries(&self) -> u32 {
        self.retries
    }

    /// A runner never makes more retries than its step allows.
    pub closed spec fn wf(&self) -> bool {
        self.retries <= self.step.max_retries
    }

    /// A runner for `step`, before its first attempt.
    pub fn new(step: Step) -> (out: Self)
        ensures
            out.wf(),
            out.step() == step@,
            out.phase() == StepPhase::Idle,
            out.retries() == 0,
    {
        StepRunner { step, phase: StepPhase::Idle, retries: 0 }
    }

    /// Where the step stands.
    pub fn current_phase(&self) -> (phase: StepPhase)
        ensures
            phase == self.phase(),
    {
        self.phase
    }

    /// The retries made so far.
    pub fn retries_used(&self) -> (retries: u32)
        ensures
            retries == self.retries(),
    {
        self.retries
    }

    /// The step that is run.
    pub fn step_ref(&self) -> (step: &Step)
        ensures
            step@ == self.step(),
    {
        &self.step
    }

    /// Whether the step is over.
    pub fn is_finished(&self) -> (done: bool)
        ensures
            done == (self.phase() == StepPhase::Success || self.phase() == StepPhase::Cancelled
                || self.phase() == StepPhase::Failed),
    {
        match self.phase {
            StepPhase::Success | StepPhase::Cancelled | StepPhase::Failed => true,
            _ => false,
        }
    }

    /// Starts the step: the first attempt is due.
    pub fn start(&mut self) -> (action: StepAction)
        requires
            old(self).wf(),
            old(self).phase() == StepPhase::Idle,
        ensures
            final(self).wf(),
            final(self).step() == old(self).step(),
            final(self).retries() == old(self).retries(),
            final(self).phase() == StepPhase::Attempting,
            action@ == StepActionView::Attempt,
    {
        self.phase = StepPhase::Attempting;
        StepAction::Attempt
    }

    /// What the attempt amounts to, with the texts it adds to the log.
    fn judge(&self, outcome: &AttemptOutcome) -> (out: VerdictText)
        ensures
            out@ == verdict_of(self.step(), outcome@),
    {
        match outcome {
            AttemptOutcome::Exited(state) => {
                let oom = match state.oom_killed {
                    Some(killed) => killed,
                    None => false,
                };
                let code: i64 = match state.exit_code {
                    Some(code) => code,
                    None => -1,
                };
                let clean = match state.exit_code {
                    Some(code) => code == 0,
                    None => false,
                };
                if oom {
                    let mut message = String::from_str("System ran out of memory (Step: ");
                    message.append(self.step.exploded_name.as_str());
                    message.append(")");
                    VerdictText::Failed(
                        FailureText {
                            log: Some(String::from_str("System ran out of memory")),
                            message,
                            remove_container: false,
                        },
                    )
                } else if !clean {
                    let mut log = String::from_str("Process exited with code ");
                    push_signed_decimal(&mut log, code);
                    let mut message = String::from_str("Non-zero exit code ");
                    push_signed_decimal(&mut message, code);
                    message.append(" (Step: ");
                    message.append(self.step.exploded_name.as_str());
                    message.append(")");
                    VerdictText::Failed(
                        FailureText { log: Some(log), message, remove_container: false },
                    )
                } else {
                    VerdictText::Passed
                }
            },
            AttemptOutcome::DriverError(message) => VerdictText::Failed(
                FailureText { log: None, message: message.clone(), remove_container: false },
            ),
            AttemptOutcome::TimedOut => {
                let mut log = String::from_str("⏳ Step timed out after ");
                push_decimal(&mut log, self.step.timeout_secs);
                log.append("s");
                VerdictText::Failed(
                    FailureText {
                        log: Some(log),
                        message: String::from_str("Timeout"),
                        remove_container: true,
                    },
                )
            },
            AttemptOutcome::Cancelled => VerdictText::Cancelled,
        }
    }

    /// Takes the end of an attempt and decides what follows: see
    /// `after_attempt`. `cancelled` tells whether the run is cancelled now,
    /// `elapsed` is the time since the step was started, in milliseconds.
    pub fn attempt_finished(&mut self, outcome: &AttemptOutcome, cancelled: bool, elapsed: u64) -> (decision:
        StepDecision)
        requires
            old(self).wf(),
            old(self).phase() == StepPhase::Attempting,
        ensures
            final(self).wf(),
            final(self).step() == old(self).step(),
            (Transition {
                phase: final(self).phase(),
                retries: final(self).retries(),
                decision: decision@,
            }) == after_attempt(old(self).step(), old(self).retries(), outcome@, cancelled, elapsed),
            final(self).retries() <= final(self).step().max_retries,
            final(self).phase() == StepPhase::Success <==> (outcome@ matches AttemptOutcomeView::Exited(
                state,
            ) && state.exit_code == Some(0i64) && state.oom_killed != Some(true)),
    {
        let name = self.step.exploded_name.as_str();
        match self.judge(outcome) {
            VerdictText::Passed => {
                self.phase = StepPhase::Success;
                let logs: Vec<LogMessage> = Vec::new();
                assert(messages_view(logs@) =~= Seq::<LogMessageView>::empty());
                StepDecision {
                    logs,
                    remove_container: false,
                    action: StepAction::Finish {
                        report: StepReport::success(name, self.retries, elapsed),
                        cancel_others: false,
                    },
                }
            },
            VerdictText::Cancelled => {
                self.phase = StepPhase::Cancelled;
                let logs: Vec<LogMessage> = Vec::new();
                assert(messages_view(logs@) =~= Seq::<LogMessageView>::empty());
                StepDecision {
                    logs,
                    remove_container: true,
                    action: StepAction::Finish {
                        report: StepReport::cancelled(name, self.retries, elapsed),
                        cancel_others: false,
                    },
                }
            },
            VerdictText::Failed(failure) => {
                let ghost spec_failure = verdict_of(self.step(), outcome@)->Failed_0;
                let mut logs: Vec<LogMessage> = Vec::new();
                match failure.log {
                    Some(line) => {
                        logs.push(LogMessage::error(name, line));
                    },
                    None => {},
                }
                if self.retries < self.step.max_retries && !cancelled {
                    let attempt: u32 = self.retries + 1;
                    let mut notice = String::from_str("Retrying step (");
                    push_decimal(&mut notice, attempt as u64);
                    notice.append("/");
                    push_decimal(&mut notice, self.step.max_retries as u64);
                    notice.append(") - Error: ");
                    notice.append(failure.message.as_str());
                    logs.push(LogMessage::error(name, notice));
                    assert(messages_view(logs@) =~= failure_lines(
                        self.step().exploded_name,
                        spec_failure,
                        Some(retry_notice(attempt, self.step().max_retries, spec_failure.message)),
                    ));
                    self.retries = attempt;
                    self.phase = StepPhase::RetryWait;
                    StepDecision {
                        logs,
                        remove_container: failure.remove_container,
                        action: StepAction::Backoff { attempt, seconds: backoff_seconds(attempt) },
                    }
                } else {
                    assert(messages_view(logs@) =~= failure_lines(
                        self.step().exploded_name,
                        spec_failure,
                        None,
                    ));
                    self.phase = StepPhase::Failed;
                    StepDecision {
                        logs,
                        remove_container: failure.remove_container,
                        action: StepAction::Finish {
                            report: StepReport::failed(name, self.retries, elapsed),
                            cancel_others: true,
                        },
                    }
                }
            },
        }
    }

    /// Takes the end of a pause and decides what follows: see
    /// `after_backoff`. `cancelled` tells whether the run was cancelled
    /// during the pause.
    pub fn backoff_finished(&mut self, cancelled: bool, elapsed: u64) -> (decision: StepDecision)
        requires
            old(self).wf(),
            old(self).phase() == StepPhase::RetryWait,
        ensures
            final(self).wf(),
            final(self).step() == old(self).step(),
            (Transition {
                phase: final(self).phase(),
                retries: final(self).retries(),
                decision: decision@,
            }) == after_backoff(old(self).step(), old(self).retries(), cancelled, elapsed),
            final(self).retries() <= final(self).step().max_retries,
    {
        let logs: Vec<LogMessage> = Vec::new();
        assert(messages_view(logs@) =~= Seq::<LogMessageView>::empty());
        if cancelled {
            self.phase = StepPhase::Cancelled;
            StepDecision {
                logs,
                remove_container: false,
                action: StepAction::Finish {
                    report: StepReport::cancelled(
                        self.step.exploded_name.as_str(),
                        self.retries,
                        elapsed,
                    ),
                    cancel_others: false,
                },
            }
        } else {
            self.phase = StepPhase::Attempting;
            StepDecision { logs, remove_container: false, action: StepAction::Attempt }
        }
    }
}

} // verus!
