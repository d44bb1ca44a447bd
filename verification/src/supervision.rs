//! The decisions of one provider execution, as a machine the host drives:
//! it performs each action (checking the executable, spawning, polling,
//! terminating, reading captures, validating outputs) and hands back what it
//! observed. The report's outcome, termination reason, failure, and events
//! are decided here.
use vstd::prelude::*;

use crate::execution::{
    ProviderEventKind, ProviderExecutionFailure, ProviderExecutionFailureCode, ProviderExecutionOutcome,
    ProviderTermination, StopTrigger, TerminationReason, invalid_output_code, terminal_evidence_consistent,
    decide_stop, final_stop, output_failure_evidence, output_failure_outcome, settle_stop, stop_decision,
    stop_evidence, ArtifactObservation, CapturedDiagnostic, ProviderEvent, ProviderExecutionBounds,
    ProviderExecutionReport, ProviderExecutionReportPayload,
};
use crate::error::Error;
use crate::provider_runtime::ProviderLock;

verus! {

/// Where an execution stands.
#[derive(Debug, Clone, Copy, PartialEq, Eq)]
pub enum ExecutionState {
    /// The lock and the cancellation flag are still to be checked.
    Preflight,
    /// `ExecutionStarted` was emitted and the process is being spawned.
    Launching,
    /// The process runs and is polled.
    Running,
    /// The process tree is being terminated for this trigger.
    Stopping(StopTrigger),
    /// The process exited on its own; its captures are being read.
    Exited,
    /// Output validation is under way.
    Validating,
    /// The report has been decided.
    Done,
}

/// What the host observed while performing the last action.
#[derive(Debug, Clone, Copy, PartialEq, Eq)]
pub enum ExecutionEvent {
    /// Whether the registered executable still has the locked digest, and
    /// whether cancellation was already requested.
    Preflight { executable_matches_lock: bool, cancelled: bool },
    /// Whether the process could be spawned.
    Spawned { started: bool },
    /// One poll of the running process: the stop conditions in precedence
    /// order, and whether the process has exited.
    Polled {
        cancelled: bool,
        timed_out: bool,
        stdout_exceeded: bool,
        stderr_exceeded: bool,
        artifact_limit: Option<StopTrigger>,
        exited: bool,
    },
    /// The captures were read after the process ended: whether either was
    /// truncated or failed to read, and the exit status if there is one.
    Ended { stdout_truncated: bool, stderr_truncated: bool, read_failed: bool, status: Option<bool> },
    /// Output validation finished, with the failure it found if any.
    Validated { failure: Option<ProviderExecutionFailureCode> },
}

/// What the host does next.
#[derive(Debug, Clone, Copy, PartialEq, Eq)]
pub enum ExecutionAction {
    /// Emit `ExecutionStarted`, then spawn the process.
    Spawn,
    /// Wait briefly and poll the process again.
    Poll,
    /// Terminate the process tree, then read the captures.
    Terminate,
    /// Read the captures of the exited process.
    Collect,
    /// Emit `ProcessExited` and `OutputValidationStarted`, then validate the
    /// outputs.
    ValidateOutputs,
    /// Emit `first` and then `then`, clean the output directory when
    /// `cleanup`, and build the report with this outcome, termination
    /// reason, and failure code.
    Finish {
        first: ProviderEventKind,
        then: Option<ProviderEventKind>,
        outcome: ProviderExecutionOutcome,
        reason: TerminationReason,
        failure: Option<ProviderExecutionFailureCode>,
        cleanup: bool,
    },
    /// Clean the output directory and fail internally: the process ended
    /// without a termination status.
    MissingStatus,
    /// The event does not belong to the state; nothing changes.
    Unexpected,
}

/// The report of a failed execution: emit `event`, then `ExecutionFailed`.
pub open spec fn failed_with(
    event: ProviderEventKind,
    outcome: ProviderExecutionOutcome,
    reason: TerminationReason,
    code: ProviderExecutionFailureCode,
    cleanup: bool,
) -> ExecutionAction {
    if event == ProviderEventKind::ExecutionFailed {
        ExecutionAction::Finish { first: event, then: None, outcome, reason, failure: Some(code), cleanup }
    } else {
        ExecutionAction::Finish {
            first: event,
            then: Some(ProviderEventKind::ExecutionFailed),
            outcome,
            reason,
            failure: Some(code),
            cleanup,
        }
    }
}

fn finish_failed(
    event: ProviderEventKind,
    outcome: ProviderExecutionOutcome,
    reason: TerminationReason,
    code: ProviderExecutionFailureCode,
    cleanup: bool,
) -> (r: ExecutionAction)
    ensures
        r == failed_with(event, outcome, reason, code, cleanup),
{
    match event {
        ProviderEventKind::ExecutionFailed => ExecutionAction::Finish {
            first: event,
            then: None,
            outcome,
            reason,
            failure: Some(code),
            cleanup,
        },
        _ => ExecutionAction::Finish {
            first: event,
            then: Some(ProviderEventKind::ExecutionFailed),
            outcome,
            reason,
            failure: Some(code),
            cleanup,
        },
    }
}

/// The next state and action of an execution after an event, one arm per
/// decision.
pub open spec fn execution_step(state: ExecutionState, event: ExecutionEvent) -> (ExecutionState, ExecutionAction) {
    match (state, event) {
        // A changed executable is rejected before anything runs; a
        // cancellation already requested is reported without a start.
        (ExecutionState::Preflight, ExecutionEvent::Preflight { executable_matches_lock, cancelled }) => if !executable_matches_lock {
            (ExecutionState::Done, failed_with(
                ProviderEventKind::ExecutionFailed,
                ProviderExecutionOutcome::Failed,
                TerminationReason::PreflightRejected,
                ProviderExecutionFailureCode::ImplementationChanged,
                false,
            ))
        } else if cancelled {
            (ExecutionState::Done, failed_with(
                ProviderEventKind::CancellationObserved,
                ProviderExecutionOutcome::Cancelled,
                TerminationReason::Cancelled,
                ProviderExecutionFailureCode::Cancelled,
                false,
            ))
        } else {
            (ExecutionState::Launching, ExecutionAction::Spawn)
        },
        // A process that cannot be spawned fails the execution.
        (ExecutionState::Launching, ExecutionEvent::Spawned { started }) => if started {
            (ExecutionState::Running, ExecutionAction::Poll)
        } else {
            (ExecutionState::Done, failed_with(
                ProviderEventKind::ExecutionFailed,
                ProviderExecutionOutcome::Failed,
                TerminationReason::SpawnFailed,
                ProviderExecutionFailureCode::SpawnFailed,
                false,
            ))
        },
        // While running: the first stop condition in precedence order stops
        // the process; otherwise an exit is collected, or polling goes on.
        (
            ExecutionState::Running,
            ExecutionEvent::Polled { cancelled, timed_out, stdout_exceeded, stderr_exceeded, artifact_limit, exited },
        ) => match stop_decision(cancelled, timed_out, stdout_exceeded, stderr_exceeded, artifact_limit) {
            Some(t) => (ExecutionState::Stopping(t), ExecutionAction::Terminate),
            None => if exited {
                (ExecutionState::Exited, ExecutionAction::Collect)
            } else {
                (ExecutionState::Running, ExecutionAction::Poll)
            },
        },
        // After the process ended: a stop, or else a truncated capture,
        // decides the report; then a missing status, a capture read
        // failure, a failed exit; else the outputs are validated.
        (ExecutionState::Stopping(_), ExecutionEvent::Ended { stdout_truncated, stderr_truncated, read_failed, status })
        | (ExecutionState::Exited, ExecutionEvent::Ended { stdout_truncated, stderr_truncated, read_failed, status }) => match final_stop(
            match state {
                ExecutionState::Stopping(t) => Some(t),
                _ => None,
            },
            stdout_truncated,
            stderr_truncated,
        ) {
            Some(t) => (ExecutionState::Done, failed_with(
                stop_evidence(t).0,
                stop_evidence(t).1,
                stop_evidence(t).2,
                stop_evidence(t).3,
                true,
            )),
            None => match status {
                None => (ExecutionState::Done, ExecutionAction::MissingStatus),
                Some(success) => if read_failed {
                    (ExecutionState::Done, ExecutionAction::Finish {
                        first: ProviderEventKind::ProcessExited,
                        then: Some(ProviderEventKind::ExecutionFailed),
                        outcome: ProviderExecutionOutcome::Failed,
                        reason: TerminationReason::NaturalExit,
                        failure: Some(ProviderExecutionFailureCode::CaptureReadFailed),
                        cleanup: true,
                    })
                } else if !success {
                    (ExecutionState::Done, ExecutionAction::Finish {
                        first: ProviderEventKind::ProcessExited,
                        then: Some(ProviderEventKind::ExecutionFailed),
                        outcome: ProviderExecutionOutcome::Failed,
                        reason: TerminationReason::NaturalExit,
                        failure: Some(ProviderExecutionFailureCode::ExitFailure),
                        cleanup: true,
                    })
                } else {
                    (ExecutionState::Validating, ExecutionAction::ValidateOutputs)
                },
            },
        },
        // Output validation decides success, or the failure's outcome.
        (ExecutionState::Validating, ExecutionEvent::Validated { failure }) => match failure {
            Some(code) => (ExecutionState::Done, failed_with(
                output_failure_evidence(code).1,
                output_failure_evidence(code).0,
                TerminationReason::NaturalExit,
                code,
                true,
            )),
            None => (ExecutionState::Done, ExecutionAction::Finish {
                first: ProviderEventKind::OutputValidated,
                then: Some(ProviderEventKind::ExecutionSucceeded),
                outcome: ProviderExecutionOutcome::Succeeded,
                reason: TerminationReason::NaturalExit,
                failure: None,
                cleanup: false,
            }),
        },
        // Any other pairing changes nothing.
        _ => (state, ExecutionAction::Unexpected),
    }
}

/// The next state and action of an execution after an event.
pub fn next_step(state: ExecutionState, event: ExecutionEvent) -> (r: (ExecutionState, ExecutionAction))
    ensures
        r == execution_step(state, event),
        !step_fits(state, event) ==> r == (state, ExecutionAction::Unexpected),
{
    match (state, event) {
        (ExecutionState::Preflight, ExecutionEvent::Preflight { executable_matches_lock, cancelled }) => {
            if !executable_matches_lock {
                (ExecutionState::Done, finish_failed(
                    ProviderEventKind::ExecutionFailed,
                    ProviderExecutionOutcome::Failed,
                    TerminationReason::PreflightRejected,
                    ProviderExecutionFailureCode::ImplementationChanged,
                    false,
                ))
            } else if cancelled {
                (ExecutionState::Done, finish_failed(
                    ProviderEventKind::CancellationObserved,
                    ProviderExecutionOutcome::Cancelled,
                    TerminationReason::Cancelled,
                    ProviderExecutionFailureCode::Cancelled,
                    false,
                ))
            } else {
                (ExecutionState::Launching, ExecutionAction::Spawn)
            }
        },
        (ExecutionState::Launching, ExecutionEvent::Spawned { started }) => {
            if started {
                (ExecutionState::Running, ExecutionAction::Poll)
            } else {
                (ExecutionState::Done, finish_failed(
                    ProviderEventKind::ExecutionFailed,
                    ProviderExecutionOutcome::Failed,
                    TerminationReason::SpawnFailed,
                    ProviderExecutionFailureCode::SpawnFailed,
                    false,
                ))
            }
        },
        (
            ExecutionState::Running,
            ExecutionEvent::Polled { cancelled, timed_out, stdout_exceeded, stderr_exceeded, artifact_limit, exited },
        ) => match decide_stop(cancelled, timed_out, stdout_exceeded, stderr_exceeded, artifact_limit) {
            Some(t) => (ExecutionState::Stopping(t), ExecutionAction::Terminate),
            None => if exited {
                (ExecutionState::Exited, ExecutionAction::Collect)
            } else {
                (ExecutionState::Running, ExecutionAction::Poll)
            },
        },
        (ExecutionState::Stopping(_), ExecutionEvent::Ended { stdout_truncated, stderr_truncated, read_failed, status })
        | (ExecutionState::Exited, ExecutionEvent::Ended { stdout_truncated, stderr_truncated, read_failed, status }) => {
            let stop = match state {
                ExecutionState::Stopping(t) => Some(t),
                _ => None,
            };
            match settle_stop(stop, stdout_truncated, stderr_truncated) {
                Some(t) => {
                    let (event_kind, outcome, reason, code, _detail) = t.evidence();
                    (ExecutionState::Done, finish_failed(event_kind, outcome, reason, code, true))
                },
                None => match status {
                    None => (ExecutionState::Done, ExecutionAction::MissingStatus),
                    Some(success) => if read_failed {
                        (ExecutionState::Done, ExecutionAction::Finish {
                            first: ProviderEventKind::ProcessExited,
                            then: Some(ProviderEventKind::ExecutionFailed),
                            outcome: ProviderExecutionOutcome::Failed,
                            reason: TerminationReason::NaturalExit,
                            failure: Some(ProviderExecutionFailureCode::CaptureReadFailed),
                            cleanup: true,
                        })
                    } else if !success {
                        (ExecutionState::Done, ExecutionAction::Finish {
                            first: ProviderEventKind::ProcessExited,
                            then: Some(ProviderEventKind::ExecutionFailed),
                            outcome: ProviderExecutionOutcome::Failed,
                            reason: TerminationReason::NaturalExit,
                            failure: Some(ProviderExecutionFailureCode::ExitFailure),
                            cleanup: true,
                        })
                    } else {
                        (ExecutionState::Validating, ExecutionAction::ValidateOutputs)
                    },
                },
            }
        },
        (ExecutionState::Validating, ExecutionEvent::Validated { failure }) => match failure {
            Some(code) => {
                let (outcome, event_kind) = output_failure_outcome(code);
                (ExecutionState::Done, finish_failed(event_kind, outcome, TerminationReason::NaturalExit, code, true))
            },
            None => (ExecutionState::Done, ExecutionAction::Finish {
                first: ProviderEventKind::OutputValidated,
                then: Some(ProviderEventKind::ExecutionSucceeded),
                outcome: ProviderExecutionOutcome::Succeeded,
                reason: TerminationReason::NaturalExit,
                failure: None,
                cleanup: false,
            }),
        },
        _ => (state, ExecutionAction::Unexpected),
    }
}

/// The event is the one the state waits for.
pub open spec fn step_fits(state: ExecutionState, event: ExecutionEvent) -> bool {
    match state {
        ExecutionState::Preflight => event is Preflight,
        ExecutionState::Launching => event is Spawned,
        ExecutionState::Running => event is Polled,
        ExecutionState::Stopping(_) => event is Ended,
        ExecutionState::Exited => event is Ended,
        ExecutionState::Validating => event is Validated,
        ExecutionState::Done => false,
    }
}

/// Once decided, an execution stays decided: no event moves it on.
pub proof fn lemma_done_is_final(event: ExecutionEvent)
    ensures
        !step_fits(ExecutionState::Done, event),
{
}

/// The event a finished execution's events end with.
pub open spec fn final_event(first: ProviderEventKind, then: Option<ProviderEventKind>) -> ProviderEventKind {
    match then {
        Some(k) => k,
        None => first,
    }
}

/// A finished execution decided here yields report evidence that report
/// validation accepts: its outcome agrees with the termination reason, the
/// failure, and the final event. This holds whenever a failure the host
/// reports from output validation is an output-validation or artifact-limit
/// failure, and a process that reached output validation is recorded with
/// exit code 0.
pub proof fn lemma_finished_execution_is_consistent(
    state: ExecutionState,
    event: ExecutionEvent,
    exit_code: Option<i32>,
    signal: Option<i32>,
    detail: String,
)
    requires
        event matches ExecutionEvent::Validated { failure: Some(c) } ==> invalid_output_code(c) || c
            == ProviderExecutionFailureCode::ArtifactFileLimit || c == ProviderExecutionFailureCode::ArtifactByteLimit,
        state == ExecutionState::Validating ==> exit_code == Some(0i32),
    ensures
        execution_step(state, event).1 matches ExecutionAction::Finish { first, then, outcome, reason, failure, .. }
            ==> terminal_evidence_consistent(
            outcome,
            ProviderTermination { reason, exit_code, signal },
            match failure {
                Some(code) => Some(ProviderExecutionFailure { code, detail }),
                None => None,
            },
            final_event(first, then),
        ),
{
}


// ---------------------------------------------------------------------------
// The report
// ---------------------------------------------------------------------------

/// The milliseconds a report records for an execution that took this many
/// nanoseconds: none for no time at all, else at least one, and at most
/// what a `u64` holds.
pub open spec fn report_duration(nanoseconds: int) -> int {
    if nanoseconds == 0 {
        0
    } else if nanoseconds / 1_000_000 > u64::MAX {
        u64::MAX as int
    } else if nanoseconds / 1_000_000 < 1 {
        1
    } else {
        nanoseconds / 1_000_000
    }
}

/// The milliseconds a report records for an elapsed time in nanoseconds.
pub fn report_duration_milliseconds(nanoseconds: u128) -> (r: u64)
    ensures
        r == report_duration(nanoseconds as int),
{
    if nanoseconds == 0 {
        return 0;
    }
    let milliseconds = nanoseconds / 1_000_000;
    if milliseconds > u64::MAX as u128 {
        u64::MAX
    } else if milliseconds < 1 {
        1
    } else {
        milliseconds as u64
    }
}

/// The payload a finished execution records: the provider's own lock, the
/// decided outcome and termination, the host's timestamps and captures, the
/// emitted events, the failure, and the observed outputs only when the
/// execution succeeded.
pub open spec fn finished_payload(
    p: ProviderExecutionReportPayload,
    lock: ProviderLock,
    outcome: ProviderExecutionOutcome,
    started_at: Seq<char>,
    finished_at: Seq<char>,
    nanoseconds: int,
    bounds: ProviderExecutionBounds,
    termination: ProviderTermination,
    stdout: CapturedDiagnostic,
    stderr: CapturedDiagnostic,
    outputs: Seq<ArtifactObservation>,
    events: Seq<ProviderEvent>,
    failure: Option<ProviderExecutionFailure>,
) -> bool {
    &&& p.provider_lock == lock
    &&& p.outcome == outcome
    &&& p.started_at@ == started_at
    &&& p.finished_at@ == finished_at
    &&& p.duration_milliseconds == report_duration(nanoseconds)
    &&& p.bounds == bounds
    &&& p.termination == termination
    &&& p.stdout == stdout
    &&& p.stderr == stderr
    &&& p.outputs@ == (if outcome == ProviderExecutionOutcome::Succeeded {
        outputs
    } else {
        Seq::<ArtifactObservation>::empty()
    })
    &&& p.events@ == events
    &&& p.failure == failure
}

/// Assemble and seal the report of a finished execution. Refused exactly
/// when the assembled payload does not pass report validation.
pub fn finish_report(
    lock: ProviderLock,
    outcome: ProviderExecutionOutcome,
    started_at: String,
    finished_at: String,
    elapsed_nanoseconds: u128,
    bounds: ProviderExecutionBounds,
    termination: ProviderTermination,
    stdout: CapturedDiagnostic,
    stderr: CapturedDiagnostic,
    outputs: Vec<ArtifactObservation>,
    events: Vec<ProviderEvent>,
    failure: Option<ProviderExecutionFailure>,
) -> (r: Result<ProviderExecutionReport, Error>)
    ensures
        r matches Ok(report) ==> report.spec_valid() && finished_payload(
            report.payload,
            lock,
            outcome,
            started_at@,
            finished_at@,
            elapsed_nanoseconds as int,
            bounds,
            termination,
            stdout,
            stderr,
            outputs@,
            events@,
            failure,
        ),
        r is Err ==> exists|p: ProviderExecutionReportPayload| #[trigger] finished_payload(
            p,
            lock,
            outcome,
            started_at@,
            finished_at@,
            elapsed_nanoseconds as int,
            bounds,
            termination,
            stdout,
            stderr,
            outputs@,
            events@,
            failure,
        ) && !p.spec_valid(),
        (forall|p: ProviderExecutionReportPayload| #[trigger] finished_payload(
            p,
            lock,
            outcome,
            started_at@,
            finished_at@,
            elapsed_nanoseconds as int,
            bounds,
            termination,
            stdout,
            stderr,
            outputs@,
            events@,
            failure,
        ) ==> p.spec_valid()) ==> r is Ok,
{
    let ghost observed = outputs@;
    let kept = match outcome {
        ProviderExecutionOutcome::Succeeded => outputs,
        _ => Vec::new(),
    };
    assert(kept@ =~= (if outcome == ProviderExecutionOutcome::Succeeded {
        observed
    } else {
        Seq::<ArtifactObservation>::empty()
    }));
    let payload = ProviderExecutionReportPayload {
        provider_lock: lock,
        outcome,
        started_at,
        finished_at,
        duration_milliseconds: report_duration_milliseconds(elapsed_nanoseconds),
        bounds,
        termination,
        stdout,
        stderr,
        outputs: kept,
        events,
        failure,
    };
    assert(finished_payload(
        payload,
        lock,
        outcome,
        started_at@,
        finished_at@,
        elapsed_nanoseconds as int,
        bounds,
        termination,
        stdout,
        stderr,
        outputs@,
        events@,
        failure,
    ));
    ProviderExecutionReport::new(payload)
}

} // verus!
