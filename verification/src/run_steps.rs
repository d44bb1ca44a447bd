//! The decisions of a Pipeline v3 run, stage by stage in plan order, as a
//! machine the host drives: it performs each action (assessing a checkpoint,
//! verifying inputs, executing the provider, accepting outputs, publishing
//! the checkpoint, committing the stage, validating final outputs) and hands
//! back what happened, including whether cancellation had been requested.
use vstd::prelude::*;

use crate::execution::ProviderExecutionOutcome;
use crate::run_v3::PipelineV3ProgressState;

verus! {

/// Where a run stands; the number is the index of the current stage.
#[derive(Debug, Clone, Copy, PartialEq, Eq)]
pub enum RunStep {
    StageStart(usize),
    Assessing(usize),
    VerifyingInputs(usize),
    Executing(usize),
    MarkingValidating(usize),
    Accepting(usize),
    Publishing(usize),
    Recording(usize),
    Committing(usize),
    Finalizing,
    Completing,
    Finished,
}

/// Where a stage was when cancellation was found.
#[derive(Debug, Clone, Copy, PartialEq, Eq)]
pub enum StagePhase {
    DuringInputValidation,
    AfterProviderExecution,
    BeforeOutputAcceptance,
    DuringOutputValidation,
    DuringOutputValidationOrPublication,
    BeforeCheckpointPublication,
    DuringCheckpointPublication,
    BeforeDurableStageCompletion,
}

/// Where the run was when cancellation was found outside a stage.
#[derive(Debug, Clone, Copy, PartialEq, Eq)]
pub enum RunPhase {
    AfterStageCompleted,
    BeforeFinalOutputValidation,
    DuringFinalOutputValidation,
    BeforeFinalCompletion,
    DuringFinalCompletion,
}

/// What the host observed while performing the last action; `cancelled` is
/// the cancellation flag read right after it.
#[derive(Debug, Clone, Copy, PartialEq, Eq)]
pub enum RunEvent {
    /// Whether a stage remains, and for it whether the run resumes and the
    /// stage was invalidated earlier in this resume.
    StageReady { has_stage: bool, cancelled: bool, resume: bool, invalidated: bool },
    /// Whether the stage's checkpoint can be reused.
    Assessed { reusable: bool },
    InputsVerified { verified: bool, cancelled: bool },
    /// Whether the provider attempt produced a report, and its outcome.
    AttemptEnded { reported: bool, outcome: ProviderExecutionOutcome, cancelled: bool },
    ValidatingRecorded { cancelled: bool },
    OutputsAccepted { accepted: bool, cancelled: bool },
    CheckpointPublished { published: bool, cancelled: bool },
    CompletionRecorded { cancelled: bool },
    StageCommitted { cancelled: bool },
    FinalOutputsValidated { validated: bool, cancelled: bool },
    RunCompleted { cancelled: bool },
}

/// What the host does next.
#[derive(Debug, Clone, Copy, PartialEq, Eq)]
pub enum RunAction {
    /// Assess the stage's recorded checkpoint for reuse.
    AssessCheckpoint,
    /// Record the stage complete from its checkpoint and report it reused.
    ReuseCheckpoint,
    /// Invalidate the stage and every stage that depends on it, then verify
    /// the stage's inputs.
    InvalidateAndVerify,
    VerifyInputs,
    /// Record the stage running, report it, and execute its provider.
    ExecuteProvider,
    /// Record the stage validating and report it.
    RecordValidating,
    AcceptOutputs,
    PublishCheckpoint,
    /// Record the stage complete with its checkpoint.
    RecordComplete,
    /// Append the stage's completion and report it complete.
    CommitStage,
    /// Move on to the next stage, or to the final outputs when none remains.
    NextStage,
    ValidateFinalOutputs,
    /// Append the run's completion with the final output evidence.
    CompleteRun,
    /// Return the run's outcome.
    Succeed,
    /// Record the run cancelled before the stage started and report the
    /// stage cancelled.
    CancelBeforeStage,
    /// Record the stage cancelled in this phase and report it.
    CancelStage(StagePhase),
    /// Record the stage in this state with the failure's message and report
    /// it; the failure is the provider's when `provider_failed`.
    FailStage { state: PipelineV3ProgressState, provider_failed: bool },
    /// Record the run cancelled in this phase.
    CancelRun(RunPhase),
    /// Record the run failed with the final output failure.
    FailRun,
    /// The event does not belong to the state; nothing changes.
    Unexpected,
}

/// The event is the one the step waits for.
pub open spec fn run_step_fits(step: RunStep, event: RunEvent) -> bool {
    match step {
        RunStep::StageStart(_) => event is StageReady,
        RunStep::Assessing(_) => event is Assessed,
        RunStep::VerifyingInputs(_) => event is InputsVerified,
        RunStep::Executing(_) => event is AttemptEnded,
        RunStep::MarkingValidating(_) => event is ValidatingRecorded,
        RunStep::Accepting(_) => event is OutputsAccepted,
        RunStep::Publishing(_) => event is CheckpointPublished,
        RunStep::Recording(_) => event is CompletionRecorded,
        RunStep::Committing(_) => event is StageCommitted,
        RunStep::Finalizing => event is FinalOutputsValidated,
        RunStep::Completing => event is RunCompleted,
        RunStep::Finished => false,
    }
}

/// A stage failed, or was cancelled, through no fault of the run's state.
pub open spec fn failed_stage() -> RunAction {
    RunAction::FailStage { state: PipelineV3ProgressState::Failed, provider_failed: false }
}

/// The next step and action of a run after an event.
pub fn next_run_step(step: RunStep, event: RunEvent) -> (r: (RunStep, RunAction))
    requires
        step matches RunStep::Committing(k) ==> k < usize::MAX,
        step matches RunStep::Assessing(k) ==> k < usize::MAX,
    ensures
        // Before each stage: cancellation stops the run; a resumed run
        // assesses the checkpoint of a stage not yet invalidated; otherwise
        // the inputs are verified. Without a stage, final outputs follow.
        step matches RunStep::StageStart(k) ==> (event matches RunEvent::StageReady {
            has_stage,
            cancelled,
            resume,
            invalidated,
        } ==> r == if !has_stage {
            if cancelled {
                (RunStep::Finished, RunAction::CancelRun(RunPhase::BeforeFinalOutputValidation))
            } else {
                (RunStep::Finalizing, RunAction::ValidateFinalOutputs)
            }
        } else if cancelled {
            (RunStep::Finished, RunAction::CancelBeforeStage)
        } else if resume && !invalidated {
            (RunStep::Assessing(k), RunAction::AssessCheckpoint)
        } else {
            (RunStep::VerifyingInputs(k), RunAction::VerifyInputs)
        }),
        // A reusable checkpoint completes the stage; otherwise its frontier
        // is invalidated and the stage runs.
        step matches RunStep::Assessing(k) ==> (event matches RunEvent::Assessed { reusable } ==> r == if reusable {
            (RunStep::StageStart((k + 1) as usize), RunAction::ReuseCheckpoint)
        } else {
            (RunStep::VerifyingInputs(k), RunAction::InvalidateAndVerify)
        }),
        step matches RunStep::VerifyingInputs(k) ==> (event matches RunEvent::InputsVerified { verified, cancelled }
            ==> r == if verified {
            (RunStep::Executing(k), RunAction::ExecuteProvider)
        } else if cancelled {
            (RunStep::Finished, RunAction::CancelStage(StagePhase::DuringInputValidation))
        } else {
            (RunStep::Finished, failed_stage())
        }),
        // A provider that did not report, or did not succeed, ends the run.
        step matches RunStep::Executing(k) ==> (event matches RunEvent::AttemptEnded { reported, outcome, cancelled }
            ==> r == if !reported {
            if cancelled {
                (RunStep::Finished, RunAction::CancelStage(StagePhase::AfterProviderExecution))
            } else {
                (RunStep::Finished, failed_stage())
            }
        } else if outcome != ProviderExecutionOutcome::Succeeded {
            (RunStep::Finished, RunAction::FailStage {
                state: if outcome == ProviderExecutionOutcome::Cancelled {
                    PipelineV3ProgressState::Cancelled
                } else {
                    PipelineV3ProgressState::Failed
                },
                provider_failed: true,
            })
        } else if cancelled {
            (RunStep::Finished, RunAction::CancelStage(StagePhase::BeforeOutputAcceptance))
        } else {
            (RunStep::MarkingValidating(k), RunAction::RecordValidating)
        }),
        step matches RunStep::MarkingValidating(k) ==> (event matches RunEvent::ValidatingRecorded { cancelled } ==> r
            == if cancelled {
            (RunStep::Finished, RunAction::CancelStage(StagePhase::DuringOutputValidation))
        } else {
            (RunStep::Accepting(k), RunAction::AcceptOutputs)
        }),
        step matches RunStep::Accepting(k) ==> (event matches RunEvent::OutputsAccepted { accepted, cancelled } ==> r
            == if !accepted {
            if cancelled {
                (RunStep::Finished, RunAction::CancelStage(StagePhase::DuringOutputValidationOrPublication))
            } else {
                (RunStep::Finished, failed_stage())
            }
        } else if cancelled {
            (RunStep::Finished, RunAction::CancelStage(StagePhase::BeforeCheckpointPublication))
        } else {
            (RunStep::Publishing(k), RunAction::PublishCheckpoint)
        }),
        step matches RunStep::Publishing(k) ==> (event matches RunEvent::CheckpointPublished { published, cancelled }
            ==> r == if cancelled {
            (RunStep::Finished, RunAction::CancelStage(StagePhase::DuringCheckpointPublication))
        } else if !published {
            (RunStep::Finished, failed_stage())
        } else {
            (RunStep::Recording(k), RunAction::RecordComplete)
        }),
        step matches RunStep::Recording(k) ==> (event matches RunEvent::CompletionRecorded { cancelled } ==> r
            == if cancelled {
            (RunStep::Finished, RunAction::CancelStage(StagePhase::BeforeDurableStageCompletion))
        } else {
            (RunStep::Committing(k), RunAction::CommitStage)
        }),
        // A committed stage hands over to the next one.
        step matches RunStep::Committing(k) ==> (event matches RunEvent::StageCommitted { cancelled } ==> r
            == if cancelled {
            (RunStep::Finished, RunAction::CancelRun(RunPhase::AfterStageCompleted))
        } else {
            (RunStep::StageStart((k + 1) as usize), RunAction::NextStage)
        }),
        step == RunStep::Finalizing ==> (event matches RunEvent::FinalOutputsValidated { validated, cancelled } ==> r
            == if !validated {
            if cancelled {
                (RunStep::Finished, RunAction::CancelRun(RunPhase::DuringFinalOutputValidation))
            } else {
                (RunStep::Finished, RunAction::FailRun)
            }
        } else if cancelled {
            (RunStep::Finished, RunAction::CancelRun(RunPhase::BeforeFinalCompletion))
        } else {
            (RunStep::Completing, RunAction::CompleteRun)
        }),
        step == RunStep::Completing ==> (event matches RunEvent::RunCompleted { cancelled } ==> r == if cancelled {
            (RunStep::Finished, RunAction::CancelRun(RunPhase::DuringFinalCompletion))
        } else {
            (RunStep::Finished, RunAction::Succeed)
        }),
        !run_step_fits(step, event) ==> r == (step, RunAction::Unexpected),
{
    match (step, event) {
        (RunStep::StageStart(k), RunEvent::StageReady { has_stage, cancelled, resume, invalidated }) => {
            if !has_stage {
                if cancelled {
                    (RunStep::Finished, RunAction::CancelRun(RunPhase::BeforeFinalOutputValidation))
                } else {
                    (RunStep::Finalizing, RunAction::ValidateFinalOutputs)
                }
            } else if cancelled {
                (RunStep::Finished, RunAction::CancelBeforeStage)
            } else if resume && !invalidated {
                (RunStep::Assessing(k), RunAction::AssessCheckpoint)
            } else {
                (RunStep::VerifyingInputs(k), RunAction::VerifyInputs)
            }
        },
        (RunStep::Assessing(k), RunEvent::Assessed { reusable }) => {
            if reusable {
                (RunStep::StageStart(k + 1), RunAction::ReuseCheckpoint)
            } else {
                (RunStep::VerifyingInputs(k), RunAction::InvalidateAndVerify)
            }
        },
        (RunStep::VerifyingInputs(k), RunEvent::InputsVerified { verified, cancelled }) => {
            if verified {
                (RunStep::Executing(k), RunAction::ExecuteProvider)
            } else if cancelled {
                (RunStep::Finished, RunAction::CancelStage(StagePhase::DuringInputValidation))
            } else {
                (RunStep::Finished, RunAction::FailStage { state: PipelineV3ProgressState::Failed, provider_failed: false })
            }
        },
        (RunStep::Executing(k), RunEvent::AttemptEnded { reported, outcome, cancelled }) => {
            if !reported {
                if cancelled {
                    (RunStep::Finished, RunAction::CancelStage(StagePhase::AfterProviderExecution))
                } else {
                    (RunStep::Finished, RunAction::FailStage { state: PipelineV3ProgressState::Failed, provider_failed: false })
                }
            } else if outcome != ProviderExecutionOutcome::Succeeded {
                let state = if outcome == ProviderExecutionOutcome::Cancelled {
                    PipelineV3ProgressState::Cancelled
                } else {
                    PipelineV3ProgressState::Failed
                };
                (RunStep::Finished, RunAction::FailStage { state, provider_failed: true })
            } else if cancelled {
                (RunStep::Finished, RunAction::CancelStage(StagePhase::BeforeOutputAcceptance))
            } else {
                (RunStep::MarkingValidating(k), RunAction::RecordValidating)
            }
        },
        (RunStep::MarkingValidating(k), RunEvent::ValidatingRecorded { cancelled }) => {
            if cancelled {
                (RunStep::Finished, RunAction::CancelStage(StagePhase::DuringOutputValidation))
            } else {
                (RunStep::Accepting(k), RunAction::AcceptOutputs)
            }
        },
        (RunStep::Accepting(k), RunEvent::OutputsAccepted { accepted, cancelled }) => {
            if !accepted {
                if cancelled {
                    (RunStep::Finished, RunAction::CancelStage(StagePhase::DuringOutputValidationOrPublication))
                } else {
                    (RunStep::Finished, RunAction::FailStage { state: PipelineV3ProgressState::Failed, provider_failed: false })
                }
            } else if cancelled {
                (RunStep::Finished, RunAction::CancelStage(StagePhase::BeforeCheckpointPublication))
            } else {
                (RunStep::Publishing(k), RunAction::PublishCheckpoint)
            }
        },
        (RunStep::Publishing(k), RunEvent::CheckpointPublished { published, cancelled }) => {
            if cancelled {
                (RunStep::Finished, RunAction::CancelStage(StagePhase::DuringCheckpointPublication))
            } else if !published {
                (RunStep::Finished, RunAction::FailStage { state: PipelineV3ProgressState::Failed, provider_failed: false })
            } else {
                (RunStep::Recording(k), RunAction::RecordComplete)
            }
        },
        (RunStep::Recording(k), RunEvent::CompletionRecorded { cancelled }) => {
            if cancelled {
                (RunStep::Finished, RunAction::CancelStage(StagePhase::BeforeDurableStageCompletion))
            } else {
                (RunStep::Committing(k), RunAction::CommitStage)
            }
        },
        (RunStep::Committing(k), RunEvent::StageCommitted { cancelled }) => {
            if cancelled {
                (RunStep::Finished, RunAction::CancelRun(RunPhase::AfterStageCompleted))
            } else {
                (RunStep::StageStart(k + 1), RunAction::NextStage)
            }
        },
        (RunStep::Finalizing, RunEvent::FinalOutputsValidated { validated, cancelled }) => {
            if !validated {
                if cancelled {
                    (RunStep::Finished, RunAction::CancelRun(RunPhase::DuringFinalOutputValidation))
                } else {
                    (RunStep::Finished, RunAction::FailRun)
                }
            } else if cancelled {
                (RunStep::Finished, RunAction::CancelRun(RunPhase::BeforeFinalCompletion))
            } else {
                (RunStep::Completing, RunAction::CompleteRun)
            }
        },
        (RunStep::Completing, RunEvent::RunCompleted { cancelled }) => {
            if cancelled {
                (RunStep::Finished, RunAction::CancelRun(RunPhase::DuringFinalCompletion))
            } else {
                (RunStep::Finished, RunAction::Succeed)
            }
        },
        _ => (step, RunAction::Unexpected),
    }
}

} // verus!
