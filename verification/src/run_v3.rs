//! The public results and progress vocabulary of a Pipeline v3 run.
use vstd::prelude::*;

verus! {

/// Schema of a Pipeline v3 run outcome.
pub const PIPELINE_V3_RUN_OUTCOME_SCHEMA_V1: &'static str = "aniflow.pipeline-run-outcome/v1";
/// Schema of the recovery locators of a failed Pipeline v3 run.
pub const PIPELINE_V3_RUN_RECOVERY_SCHEMA_V1: &'static str = "aniflow.pipeline-run-recovery/v1";

/// One validated public output from a completed Pipeline v3 run.
#[derive(Debug, Clone)]
pub struct PipelineV3Output {
    pub id: String,
    pub artifact: String,
    pub path: String,
    pub sha256: String,
}

/// Stable result shared by the library and machine CLI modes.
#[derive(Debug, Clone)]
pub struct PipelineV3RunOutcome {
    pub schema: String,
    pub run_directory: String,
    pub plan_sha256: String,
    pub run_manifest: String,
    pub outputs: Vec<PipelineV3Output>,
    pub executed_stages: Vec<String>,
    pub reused_stages: Vec<String>,
}

/// Durable state locators retained when execution fails after startup;
/// the run manifest is named only when it could be validated.
#[derive(Debug, Clone)]
pub struct PipelineV3RunRecovery {
    pub schema: String,
    pub run_directory: String,
    pub run_manifest: Option<String>,
}

/// Operation represented by a Pipeline v3 progress observation.
#[derive(Debug, Clone, Copy, PartialEq, Eq, Structural)]
pub enum PipelineV3RunOperation {
    Run,
    Resume,
}

/// Non-authoritative lifecycle observation for an embedding application.
#[derive(Debug, Clone, Copy, PartialEq, Eq, Structural)]
pub enum PipelineV3ProgressState {
    Running,
    Validating,
    Complete,
    Reused,
    Invalidated,
    Failed,
    Cancelled,
}

/// Progress emitted after the durable state transition it describes.
#[derive(Debug, Clone)]
pub enum PipelineV3RunProgress {
    Started { operation: PipelineV3RunOperation, run_directory: String, pipeline_name: String },
    Stage { stage_id: String, state: PipelineV3ProgressState },
}

} // verus!
