use aniflow::acceptance::{check_candidate_output, file_content_identity, ArtifactContentObservation};
use aniflow::error::ErrorCategory;
use aniflow::execution::{
    ArtifactKind, ArtifactObservation, ProviderEventKind, ProviderExecutionFailureCode, ProviderExecutionOutcome,
    StopTrigger, TerminationReason,
};
use aniflow::planning::PlannedExpectedArtifact;
use aniflow::provider::ArtifactRole;
use aniflow::run_steps::{next_run_step, RunAction, RunEvent, RunStep, StagePhase};
use aniflow::run_v3::PipelineV3ProgressState;
use aniflow::supervision::{next_step, ExecutionAction, ExecutionEvent, ExecutionState};

const ABC_SHA256: &str = "ba7816bf8f01cfea414140de5dae2223b00361a396177a9cb410ff61f20015ad";

fn expected() -> PlannedExpectedArtifact {
    PlannedExpectedArtifact {
        id: "enhanced".to_owned(),
        relative_path: "artifacts/enhanced".to_owned(),
        artifact_type: "image/png".to_owned(),
        artifact_role: ArtifactRole::Intermediate,
        stream_role: None,
    }
}

fn observed() -> ArtifactContentObservation {
    ArtifactContentObservation { file_count: 1, byte_count: 3, sha256: ABC_SHA256.to_owned() }
}

fn reported(port: &str, sha256: &str) -> ArtifactObservation {
    ArtifactObservation {
        port: port.to_owned(),
        relative_path: "artifacts/enhanced".to_owned(),
        kind: ArtifactKind::File,
        file_count: 1,
        byte_count: 3,
        sha256: sha256.to_owned(),
    }
}

#[test]
fn file_content_identity_counts_and_digests_the_bytes() {
    assert_eq!(file_content_identity(b"abc"), (3, ABC_SHA256.to_owned()));
    let (count, digest) = file_content_identity(b"");
    assert_eq!(count, 0);
    assert_eq!(digest, "e3b0c44298fc1c149afbf4c8996fb92427ae41e4649b934ca495991b7852b855");
}

#[test]
fn a_candidate_that_matches_its_report_is_accepted() {
    let report = vec![reported("other", &"0".repeat(64)), reported("frames", ABC_SHA256)];
    assert!(check_candidate_output("enhance", "frames", &expected(), ArtifactKind::File, &observed(), &report).is_ok());
}

#[test]
fn a_candidate_that_changed_since_its_report_is_refused() {
    let report = vec![reported("frames", &"0".repeat(64)), reported("frames", ABC_SHA256)];
    let error = check_candidate_output("enhance", "frames", &expected(), ArtifactKind::File, &observed(), &report)
        .expect_err("the first entry for the port decides");
    assert_eq!(error.category(), ErrorCategory::Execution);
    assert_eq!(error.message(), "stage enhance candidate output enhanced no longer matches its execution report");

    let report = vec![reported("frames", ABC_SHA256)];
    let error = check_candidate_output("enhance", "frames", &expected(), ArtifactKind::Directory, &observed(), &report)
        .expect_err("the kind must match");
    assert_eq!(error.category(), ErrorCategory::Execution);
}

#[test]
fn a_report_without_the_port_is_refused() {
    let report = vec![reported("other", ABC_SHA256)];
    let error = check_candidate_output("enhance", "frames", &expected(), ArtifactKind::File, &observed(), &report)
        .expect_err("the report must name the port");
    assert_eq!(error.category(), ErrorCategory::Execution);
    assert_eq!(error.message(), "stage enhance execution report omitted output port frames");
}

fn polled(cancelled: bool, timed_out: bool, exited: bool) -> ExecutionEvent {
    ExecutionEvent::Polled {
        cancelled,
        timed_out,
        stdout_exceeded: false,
        stderr_exceeded: false,
        artifact_limit: None,
        exited,
    }
}

#[test]
fn a_successful_execution_runs_through_every_phase() {
    let (state, action) =
        next_step(ExecutionState::Preflight, ExecutionEvent::Preflight { executable_matches_lock: true, cancelled: false });
    assert_eq!((state, action), (ExecutionState::Launching, ExecutionAction::Spawn));
    let (state, action) = next_step(state, ExecutionEvent::Spawned { started: true });
    assert_eq!((state, action), (ExecutionState::Running, ExecutionAction::Poll));
    let (state, action) = next_step(state, polled(false, false, false));
    assert_eq!((state, action), (ExecutionState::Running, ExecutionAction::Poll));
    let (state, action) = next_step(state, polled(false, false, true));
    assert_eq!((state, action), (ExecutionState::Exited, ExecutionAction::Collect));
    let ended = ExecutionEvent::Ended { stdout_truncated: false, stderr_truncated: false, read_failed: false, status: Some(true) };
    let (state, action) = next_step(state, ended);
    assert_eq!((state, action), (ExecutionState::Validating, ExecutionAction::ValidateOutputs));
    let (state, action) = next_step(state, ExecutionEvent::Validated { failure: None });
    assert_eq!(state, ExecutionState::Done);
    assert_eq!(
        action,
        ExecutionAction::Finish {
            first: ProviderEventKind::OutputValidated,
            then: Some(ProviderEventKind::ExecutionSucceeded),
            outcome: ProviderExecutionOutcome::Succeeded,
            reason: TerminationReason::NaturalExit,
            failure: None,
            cleanup: false,
        }
    );
    assert_eq!(next_step(state, polled(false, false, true)), (ExecutionState::Done, ExecutionAction::Unexpected));
}

#[test]
fn preflight_rejects_a_changed_executable_before_a_cancellation() {
    let (state, action) =
        next_step(ExecutionState::Preflight, ExecutionEvent::Preflight { executable_matches_lock: false, cancelled: true });
    assert_eq!(state, ExecutionState::Done);
    assert_eq!(
        action,
        ExecutionAction::Finish {
            first: ProviderEventKind::ExecutionFailed,
            then: None,
            outcome: ProviderExecutionOutcome::Failed,
            reason: TerminationReason::PreflightRejected,
            failure: Some(ProviderExecutionFailureCode::ImplementationChanged),
            cleanup: false,
        }
    );
    let (_, action) =
        next_step(ExecutionState::Preflight, ExecutionEvent::Preflight { executable_matches_lock: true, cancelled: true });
    assert_eq!(
        action,
        ExecutionAction::Finish {
            first: ProviderEventKind::CancellationObserved,
            then: Some(ProviderEventKind::ExecutionFailed),
            outcome: ProviderExecutionOutcome::Cancelled,
            reason: TerminationReason::Cancelled,
            failure: Some(ProviderExecutionFailureCode::Cancelled),
            cleanup: false,
        }
    );
}

#[test]
fn a_stop_decides_the_report_after_the_captures_are_read() {
    let (state, action) = next_step(ExecutionState::Running, polled(true, true, true));
    assert_eq!((state, action), (ExecutionState::Stopping(StopTrigger::Cancelled), ExecutionAction::Terminate));
    let ended = ExecutionEvent::Ended { stdout_truncated: true, stderr_truncated: false, read_failed: true, status: None };
    let (state, action) = next_step(state, ended);
    assert_eq!(state, ExecutionState::Done);
    assert_eq!(
        action,
        ExecutionAction::Finish {
            first: ProviderEventKind::CancellationObserved,
            then: Some(ProviderEventKind::ExecutionFailed),
            outcome: ProviderExecutionOutcome::Cancelled,
            reason: TerminationReason::Cancelled,
            failure: Some(ProviderExecutionFailureCode::Cancelled),
            cleanup: true,
        }
    );
}

#[test]
fn an_exited_process_is_judged_by_its_captures_and_status() {
    let truncated = ExecutionEvent::Ended { stdout_truncated: false, stderr_truncated: true, read_failed: false, status: Some(true) };
    let (_, action) = next_step(ExecutionState::Exited, truncated);
    assert_eq!(
        action,
        ExecutionAction::Finish {
            first: ProviderEventKind::CaptureLimitExceeded,
            then: Some(ProviderEventKind::ExecutionFailed),
            outcome: ProviderExecutionOutcome::CaptureLimitExceeded,
            reason: TerminationReason::CaptureLimitExceeded,
            failure: Some(ProviderExecutionFailureCode::StderrLimit),
            cleanup: true,
        }
    );
    let failed = ExecutionEvent::Ended { stdout_truncated: false, stderr_truncated: false, read_failed: false, status: Some(false) };
    let (_, action) = next_step(ExecutionState::Exited, failed);
    assert_eq!(
        action,
        ExecutionAction::Finish {
            first: ProviderEventKind::ProcessExited,
            then: Some(ProviderEventKind::ExecutionFailed),
            outcome: ProviderExecutionOutcome::Failed,
            reason: TerminationReason::NaturalExit,
            failure: Some(ProviderExecutionFailureCode::ExitFailure),
            cleanup: true,
        }
    );
    let silent = ExecutionEvent::Ended { stdout_truncated: false, stderr_truncated: false, read_failed: false, status: None };
    assert_eq!(next_step(ExecutionState::Exited, silent), (ExecutionState::Done, ExecutionAction::MissingStatus));
}

#[test]
fn an_artifact_limit_found_by_validation_is_reported_as_such() {
    let (_, action) = next_step(
        ExecutionState::Validating,
        ExecutionEvent::Validated { failure: Some(ProviderExecutionFailureCode::ArtifactByteLimit) },
    );
    assert_eq!(
        action,
        ExecutionAction::Finish {
            first: ProviderEventKind::ArtifactLimitExceeded,
            then: Some(ProviderEventKind::ExecutionFailed),
            outcome: ProviderExecutionOutcome::ArtifactLimitExceeded,
            reason: TerminationReason::NaturalExit,
            failure: Some(ProviderExecutionFailureCode::ArtifactByteLimit),
            cleanup: true,
        }
    );
    let (_, action) = next_step(
        ExecutionState::Validating,
        ExecutionEvent::Validated { failure: Some(ProviderExecutionFailureCode::MissingOutput) },
    );
    assert_eq!(
        action,
        ExecutionAction::Finish {
            first: ProviderEventKind::ExecutionFailed,
            then: None,
            outcome: ProviderExecutionOutcome::InvalidOutput,
            reason: TerminationReason::NaturalExit,
            failure: Some(ProviderExecutionFailureCode::MissingOutput),
            cleanup: true,
        }
    );
}

#[test]
fn sensitive_values_are_redacted_longest_first_and_once() {
    let values = vec!["b", "", "abc", "a", "b", "é", "ab"].into_iter().map(str::to_owned).collect();
    let ordered = aniflow::sensitive::order_sensitive_values(values);
    assert_eq!(ordered, vec!["abc", "ab", "é", "a", "b"]);
    assert_eq!(aniflow::sensitive::text_utf8_length("aé€😀"), 1 + 2 + 3 + 4);
}

#[test]
fn a_run_executes_a_stage_then_validates_final_outputs() {
    let ready = RunEvent::StageReady { has_stage: true, cancelled: false, resume: false, invalidated: false };
    let (step, action) = next_run_step(RunStep::StageStart(0), ready);
    assert_eq!((step, action), (RunStep::VerifyingInputs(0), RunAction::VerifyInputs));
    let (step, action) = next_run_step(step, RunEvent::InputsVerified { verified: true, cancelled: false });
    assert_eq!((step, action), (RunStep::Executing(0), RunAction::ExecuteProvider));
    let ended = RunEvent::AttemptEnded { reported: true, outcome: ProviderExecutionOutcome::Succeeded, cancelled: false };
    let (step, action) = next_run_step(step, ended);
    assert_eq!((step, action), (RunStep::MarkingValidating(0), RunAction::RecordValidating));
    let (step, _) = next_run_step(step, RunEvent::ValidatingRecorded { cancelled: false });
    let (step, _) = next_run_step(step, RunEvent::OutputsAccepted { accepted: true, cancelled: false });
    let (step, _) = next_run_step(step, RunEvent::CheckpointPublished { published: true, cancelled: false });
    let (step, _) = next_run_step(step, RunEvent::CompletionRecorded { cancelled: false });
    let (step, action) = next_run_step(step, RunEvent::StageCommitted { cancelled: false });
    assert_eq!((step, action), (RunStep::StageStart(1), RunAction::NextStage));
    let done = RunEvent::StageReady { has_stage: false, cancelled: false, resume: false, invalidated: false };
    let (step, action) = next_run_step(step, done);
    assert_eq!((step, action), (RunStep::Finalizing, RunAction::ValidateFinalOutputs));
    let (step, _) = next_run_step(step, RunEvent::FinalOutputsValidated { validated: true, cancelled: false });
    assert_eq!(next_run_step(step, RunEvent::RunCompleted { cancelled: false }), (RunStep::Finished, RunAction::Succeed));
}

#[test]
fn a_resumed_run_reuses_or_invalidates_checkpoints() {
    let ready = RunEvent::StageReady { has_stage: true, cancelled: false, resume: true, invalidated: false };
    let (step, action) = next_run_step(RunStep::StageStart(2), ready);
    assert_eq!((step, action), (RunStep::Assessing(2), RunAction::AssessCheckpoint));
    assert_eq!(next_run_step(step, RunEvent::Assessed { reusable: true }), (RunStep::StageStart(3), RunAction::ReuseCheckpoint));
    assert_eq!(
        next_run_step(step, RunEvent::Assessed { reusable: false }),
        (RunStep::VerifyingInputs(2), RunAction::InvalidateAndVerify)
    );
    let invalidated = RunEvent::StageReady { has_stage: true, cancelled: false, resume: true, invalidated: true };
    assert_eq!(next_run_step(RunStep::StageStart(3), invalidated), (RunStep::VerifyingInputs(3), RunAction::VerifyInputs));
    let cancelled = RunEvent::AttemptEnded { reported: true, outcome: ProviderExecutionOutcome::Cancelled, cancelled: true };
    assert_eq!(
        next_run_step(RunStep::Executing(3), cancelled),
        (RunStep::Finished, RunAction::FailStage { state: PipelineV3ProgressState::Cancelled, provider_failed: true })
    );
    assert_eq!(
        next_run_step(RunStep::Accepting(3), RunEvent::OutputsAccepted { accepted: false, cancelled: true }),
        (RunStep::Finished, RunAction::CancelStage(StagePhase::DuringOutputValidationOrPublication))
    );
}
