//! Deterministic, read-only planning for the Pipeline v3 contract: the
//! authored configuration, typed planning failures, and the rules that a
//! configuration and its resolution evidence must satisfy.
use vstd::prelude::*;

use crate::error::{Error, ErrorCategory};
use crate::provider::{
    ArtifactCardinality, ArtifactPort, ArtifactRole, CapabilityDeclaration, SideEffect, StreamRole,
    distinct_effects, require_schema, require_token,
};
use crate::provider_runtime::{
    AvailabilityCode, AvailabilityReason, ComponentInventory, HostResources, ProviderCandidate,
    ProviderLock, ProviderResolutionAttempt, ProviderSelection, ProviderSelectionSource, effects_ascending,
};
use crate::text::{
    has_control, is_blank, is_local_id, is_printable_text, is_token, join2, join3, owned, text_eq,
    text_is_printable,
};

verus! {

broadcast use vstd::seq_lib::group_seq_properties;

/// Authored Pipeline v3 configuration contract.
pub const PIPELINE_V3_SCHEMA: &'static str = "aniflow.pipeline/v3";

/// The largest manifest or configuration document a registration may
/// point at, in bytes.
pub const MAXIMUM_REGISTRATION_JSON_BYTES: u64 = 8388608;
/// Resolved deterministic plan contract.
pub const PIPELINE_PLAN_SCHEMA_V1: &'static str = "aniflow.pipeline-plan/v1";
/// Typed planning failure contract.
pub const PIPELINE_PLANNING_FAILURE_SCHEMA_V1: &'static str = "aniflow.pipeline-planning-failure/v1";
/// Portable provider registration document contract.
pub const PROVIDER_REGISTRATION_SCHEMA_V1: &'static str = "aniflow.provider-registration/v1";
/// Canonical JSON algorithm identity used by digested v3 contracts.
pub const CANONICAL_JSON_SCHEMA_V1: &'static str = "aniflow.canonical-json/v1";
/// Alias spelling for callers that name the configuration contract explicitly.
pub const PIPELINE_V3_CONFIGURATION_SCHEMA: &'static str = "aniflow.pipeline/v3";
/// Alias spelling for callers that name the plan contract explicitly.
pub const PIPELINE_V3_PLAN_SCHEMA_V1: &'static str = "aniflow.pipeline-plan/v1";

/// One immutable source artifact declared by a Pipeline v3 configuration.
#[derive(Debug, Clone)]
pub struct AuthoredPipelineInput {
    pub id: String,
    pub artifact_type: String,
    pub artifact_role: ArtifactRole,
    pub stream_role: Option<StreamRole>,
}

/// Capability identity and acceptable semantic versions for one stage.
#[derive(Debug, Clone)]
pub struct CapabilityRequirement {
    pub id: String,
    pub version_requirement: String,
}

/// Explicit replacement, primary, and ordered fallback provider policy.
#[derive(Debug, Clone)]
pub struct ProviderSelectionIntent {
    pub replacement: Option<ProviderCandidate>,
    pub primary: ProviderCandidate,
    pub fallbacks: Vec<ProviderCandidate>,
}

/// Artifact ids assigned to one declared capability input port.
#[derive(Debug, Clone)]
pub struct AuthoredInputBinding {
    pub port: String,
    pub artifacts: Vec<String>,
}

/// One future immutable artifact and its workspace-confined destination.
#[derive(Debug, Clone)]
pub struct ExpectedArtifact {
    pub id: String,
    pub relative_path: String,
}

/// Expected artifacts assigned to one declared capability output port.
#[derive(Debug, Clone)]
pub struct AuthoredOutputBinding {
    pub port: String,
    pub artifacts: Vec<ExpectedArtifact>,
}

/// Named validation that must accept an immutable artifact.
#[derive(Debug, Clone)]
pub struct ArtifactValidation {
    pub id: String,
    pub artifact: String,
    pub contract: String,
}

/// One ordered, dependency-aware Pipeline v3 stage.
#[derive(Debug, Clone)]
pub struct AuthoredPipelineStage {
    pub id: String,
    pub depends_on: Vec<String>,
    pub capability: CapabilityRequirement,
    pub provider: ProviderSelectionIntent,
    pub inputs: Vec<AuthoredInputBinding>,
    pub outputs: Vec<AuthoredOutputBinding>,
    pub validations: Vec<ArtifactValidation>,
}

/// A named public output and the validations required before it is usable.
#[derive(Debug, Clone)]
pub struct FinalOutputRequirement {
    pub id: String,
    pub artifact: String,
    pub required_validations: Vec<String>,
}

/// Closed authored configuration for deterministic Pipeline v3 planning.
#[derive(Debug, Clone)]
pub struct PipelineV3Configuration {
    pub schema: String,
    pub name: String,
    pub description: String,
    pub inputs: Vec<AuthoredPipelineInput>,
    pub stages: Vec<AuthoredPipelineStage>,
    pub outputs: Vec<FinalOutputRequirement>,
}

/// Runtime source binding. The host path is read during planning but is never
/// serialized into the resolved plan.
#[derive(Debug, Clone)]
pub struct PipelineInputBinding {
    pub artifact_id: String,
    pub path: String,
}

impl PipelineInputBinding {
    pub fn new(artifact_id: String, path: String) -> (r: Self)
        ensures
            r.artifact_id == artifact_id,
            r.path == path,
    {
        PipelineInputBinding { artifact_id, path }
    }
}

/// Explicit host observation and authorization policy used for every stage.
#[derive(Debug, Clone)]
pub struct PipelinePlanningContext {
    pub host: HostResources,
    pub allowed_side_effects: Vec<SideEffect>,
    pub offline: bool,
}

/// Stable reason code for a failed planning precondition.
#[derive(Debug, Clone, Copy, PartialEq, Eq, Structural)]
#[non_exhaustive]
pub enum PipelinePlanningDiagnosticCode {
    InvalidYaml,
    InvalidJson,
    InvalidSchema,
    UnsupportedVersion,
    LegacyPipelineV2,
    RenderflowRemoved,
    InvalidConfiguration,
    InvalidIdentifier,
    DuplicateIdentifier,
    InvalidDependency,
    UnknownDependency,
    ForwardDependency,
    UnknownArtifact,
    InvalidBinding,
    UnknownPort,
    CardinalityMismatch,
    ArtifactTypeMismatch,
    StreamRoleMismatch,
    UnsafeArtifactPath,
    ArtifactPathOverlap,
    InvalidValidation,
    InvalidFinalOutput,
    MissingInputBinding,
    UnexpectedInputBinding,
    InputUnavailable,
    UnsupportedInputKind,
    SymlinkInput,
    InvalidPolicy,
    ProviderUnavailable,
    InvalidProviderRegistration,
    InvalidResolvedPlan,
    DigestMismatch,
    Io,
}

/// One structured, non-secret planning diagnostic.
#[derive(Debug, Clone)]
pub struct PipelinePlanningDiagnostic {
    pub code: PipelinePlanningDiagnosticCode,
    pub category: ErrorCategory,
    pub message: String,
    pub stage: Option<String>,
    pub field: Option<String>,
    pub attempts: Vec<ProviderResolutionAttempt>,
}

/// Serializable typed failure returned before execution can start.
#[derive(Debug, Clone)]
pub struct PipelinePlanningFailure {
    pub schema: String,
    pub category: ErrorCategory,
    pub message: String,
    pub diagnostics: Vec<PipelinePlanningDiagnostic>,
}

/// Serializable locator document for one explicit provider registration.
#[derive(Debug, Clone)]
pub struct ProviderRegistrationDocument {
    pub schema: String,
    pub registration_id: String,
    pub manifest: String,
    pub configuration: String,
    pub executable: String,
    pub implementation_id: String,
    pub components: ComponentInventory,
}

/// Filesystem shape covered by a source content identity.
#[derive(Debug, Clone, Copy, PartialEq, Eq, Structural)]
pub enum PipelineInputKind {
    File,
    Directory,
}

/// Portable content identity for one runtime-bound source artifact.
#[derive(Debug, Clone)]
pub struct PipelineInputIdentity {
    pub id: String,
    pub artifact_type: String,
    pub artifact_role: ArtifactRole,
    pub stream_role: Option<StreamRole>,
    pub kind: PipelineInputKind,
    pub file_count: u64,
    pub byte_count: u64,
    pub content_sha256: String,
}

/// Sorted authorization policy and exact host observation bound to a plan.
#[derive(Debug, Clone)]
pub struct NormalizedPlanningPolicy {
    pub host: HostResources,
    pub allowed_side_effects: Vec<SideEffect>,
    pub offline: bool,
}

/// Output artifact enriched with the exact selected capability port contract.
#[derive(Debug, Clone)]
pub struct PlannedExpectedArtifact {
    pub id: String,
    pub relative_path: String,
    pub artifact_type: String,
    pub artifact_role: ArtifactRole,
    pub stream_role: Option<StreamRole>,
}

/// Resolved expected artifacts assigned to a selected output port.
#[derive(Debug, Clone)]
pub struct PlannedOutputBinding {
    pub port: String,
    pub artifacts: Vec<PlannedExpectedArtifact>,
}

/// Stable, prose-free resolution evidence retained in a plan digest.
#[derive(Debug, Clone)]
pub struct PlannedProviderResolutionAttempt {
    pub candidate: ProviderCandidate,
    pub selection: ProviderSelection,
    pub available: bool,
    pub reason_codes: Vec<AvailabilityCode>,
}

/// One stage after deterministic capability and provider resolution.
#[derive(Debug, Clone)]
pub struct ResolvedPipelineStage {
    pub id: String,
    pub depends_on: Vec<String>,
    pub capability_requirement: CapabilityRequirement,
    pub capability: CapabilityDeclaration,
    pub provider_selection: ProviderSelectionIntent,
    pub resolution_attempts: Vec<PlannedProviderResolutionAttempt>,
    pub provider_lock: ProviderLock,
    pub inputs: Vec<AuthoredInputBinding>,
    pub outputs: Vec<PlannedOutputBinding>,
    pub validations: Vec<ArtifactValidation>,
}

/// Canonical semantic payload covered by `plan_sha256`.
#[derive(Debug, Clone)]
pub struct PipelineV3PlanPayload {
    pub pipeline_schema: String,
    pub pipeline_name: String,
    pub configuration_sha256: String,
    pub policy: NormalizedPlanningPolicy,
    pub inputs: Vec<PipelineInputIdentity>,
    pub stages: Vec<ResolvedPipelineStage>,
    pub outputs: Vec<FinalOutputRequirement>,
}

/// Self-validating deterministic Pipeline v3 resolved plan.
#[derive(Debug, Clone)]
pub struct PipelineV3Plan {
    pub schema: String,
    pub algorithm: String,
    pub canonicalization: String,
    pub plan_sha256: String,
    pub payload: PipelineV3PlanPayload,
}

// ---------------------------------------------------------------------------
// Typed planning failures
// ---------------------------------------------------------------------------

/// A failure with exactly one diagnostic.
pub fn planning_failure(
    category: ErrorCategory,
    code: PipelinePlanningDiagnosticCode,
    message: String,
    stage: Option<String>,
    field: Option<String>,
    attempts: Vec<ProviderResolutionAttempt>,
) -> (r: PipelinePlanningFailure)
    ensures
        r.schema@ == PIPELINE_PLANNING_FAILURE_SCHEMA_V1@,
        r.category == category,
        r.message@ == message@,
        r.diagnostics@.len() == 1,
        r.diagnostics@[0].code == code,
        r.diagnostics@[0].category == category,
        r.diagnostics@[0].message@ == message@,
        r.diagnostics@[0].stage == stage,
        r.diagnostics@[0].field == field,
        r.diagnostics@[0].attempts@ == attempts@,
{
    let copy = message.clone();
    let mut diagnostics: Vec<PipelinePlanningDiagnostic> = Vec::new();
    diagnostics.push(PipelinePlanningDiagnostic { code, category, message: copy, stage, field, attempts });
    PipelinePlanningFailure {
        schema: owned(PIPELINE_PLANNING_FAILURE_SCHEMA_V1),
        category,
        message,
        diagnostics,
    }
}

/// Optional text by value.
pub open spec fn optional_text(o: Option<String>) -> Option<Seq<char>> {
    match o {
        Some(s) => Some(s@),
        None => None,
    }
}

/// Optional borrowed text by value.
pub open spec fn optional_str(o: Option<&str>) -> Option<Seq<char>> {
    match o {
        Some(s) => Some(s@),
        None => None,
    }
}

/// A planning failure with one diagnostic and no resolution attempts: its
/// category, code, message, stage, and field.
pub open spec fn single_failure(
    f: PipelinePlanningFailure,
    category: ErrorCategory,
    code: PipelinePlanningDiagnosticCode,
    message: Seq<char>,
    stage: Option<Seq<char>>,
    field: Option<Seq<char>>,
) -> bool {
    &&& f.schema@ == PIPELINE_PLANNING_FAILURE_SCHEMA_V1@
    &&& f.category == category
    &&& f.message@ == message
    &&& f.diagnostics@.len() == 1
    &&& f.diagnostics@[0].code == code
    &&& f.diagnostics@[0].category == category
    &&& f.diagnostics@[0].message@ == message
    &&& optional_text(f.diagnostics@[0].stage) == stage
    &&& optional_text(f.diagnostics@[0].field) == field
    &&& f.diagnostics@[0].attempts@.len() == 0
}

/// A configuration refusal that carries exactly one diagnostic.
pub open spec fn one_refusal(f: PipelinePlanningFailure) -> bool {
    f.category == ErrorCategory::Configuration && f.diagnostics@.len() == 1
}

/// A configuration refusal whose one diagnostic has this code, stage, and
/// field.
pub open spec fn refusal_at(
    f: PipelinePlanningFailure,
    code: PipelinePlanningDiagnosticCode,
    stage: Option<Seq<char>>,
    field: Seq<char>,
) -> bool {
    &&& one_refusal(f)
    &&& f.diagnostics@[0].code == code
    &&& optional_text(f.diagnostics@[0].stage) == stage
    &&& optional_text(f.diagnostics@[0].field) == Some(field)
}

/// A configuration failure about `field`, optionally within `stage`.
pub fn configuration_failure(
    code: PipelinePlanningDiagnosticCode,
    message: String,
    stage: Option<&str>,
    field: &str,
) -> (r: PipelinePlanningFailure)
    ensures
        r.category == ErrorCategory::Configuration,
        r.message@ == message@,
        r.diagnostics@.len() == 1,
        r.diagnostics@[0].code == code,
        single_failure(r, ErrorCategory::Configuration, code, message@, optional_str(stage), Some(field@)),
{
    let stage = match stage {
        Some(s) => Some(owned(s)),
        None => None,
    };
    planning_failure(ErrorCategory::Configuration, code, message, stage, Some(owned(field)), Vec::new())
}

/// A detail text is non-empty after trimming and free of control characters.
pub open spec fn reason_detail_valid(reason: AvailabilityReason) -> bool {
    is_printable_text(reason.detail@)
}

/// A reason code that describes the executable's state.
pub open spec fn is_executable_state(code: AvailabilityCode) -> bool {
    code == AvailabilityCode::ExecutableUnavailable || code == AvailabilityCode::ExecutableNotRegularFile || code
        == AvailabilityCode::ExecutableNotRunnable
}

/// `not_registered` stands alone, and at most one executable state occurs.
pub open spec fn availability_codes_consistent(codes: Seq<AvailabilityCode>) -> bool {
    &&& codes.contains(AvailabilityCode::NotRegistered) ==> codes.len() == 1
    &&& forall|i: int, j: int|
        0 <= i < j < codes.len() ==> !(is_executable_state(#[trigger] codes[i]) && is_executable_state(
            #[trigger] codes[j],
        ))
}

pub fn validate_availability_code_combination(codes: &Vec<AvailabilityCode>, stage: Option<&str>) -> (r: Result<
    (),
    PipelinePlanningFailure,
>)
    ensures
        r is Ok <==> availability_codes_consistent(codes@),
        r matches Err(f) ==> one_refusal(f),
{
    let mut has_not_registered = false;
    let mut executable_states: usize = 0;
    let mut first_state: usize = 0;
    let mut i: usize = 0;
    while i < codes.len()
        invariant
            i <= codes.len(),
            has_not_registered == codes@.take(i as int).contains(AvailabilityCode::NotRegistered),
            executable_states <= 1,
            executable_states == 0 ==> forall|k: int| 0 <= k < i ==> !is_executable_state(#[trigger] codes@[k]),
            executable_states == 1 ==> first_state < i && is_executable_state(codes@[first_state as int]) && forall|
                k: int,
            | 0 <= k < i && k != first_state ==> !is_executable_state(#[trigger] codes@[k]),
        decreases codes.len() - i,
    {
        assert(codes@.take(i + 1) =~= codes@.take(i as int).push(codes@[i as int]));
        if codes[i] == AvailabilityCode::NotRegistered {
            has_not_registered = true;
        }
        let state = codes[i] == AvailabilityCode::ExecutableUnavailable || codes[i]
            == AvailabilityCode::ExecutableNotRegularFile || codes[i] == AvailabilityCode::ExecutableNotRunnable;
        if state {
            if executable_states == 1 {
                assert(is_executable_state(codes@[first_state as int]) && is_executable_state(codes@[i as int]));
                return Err(configuration_failure(
                    PipelinePlanningDiagnosticCode::InvalidResolvedPlan,
                    owned("provider availability evidence contains mutually exclusive executable states"),
                    stage,
                    "resolution_attempts.reason_codes",
                ));
            }
            executable_states = 1;
            first_state = i;
        }
        i = i + 1;
    }
    assert(codes@.take(codes.len() as int) =~= codes@);
    if has_not_registered && codes.len() != 1 {
        return Err(configuration_failure(
            PipelinePlanningDiagnosticCode::InvalidResolvedPlan,
            owned("not_registered cannot be combined with other provider availability reasons"),
            stage,
            "resolution_attempts.reason_codes",
        ));
    }
    Ok(())
}

/// The codes of some reasons.
pub open spec fn reason_codes(reasons: Seq<AvailabilityReason>) -> Seq<AvailabilityCode> {
    reasons.map_values(|r: AvailabilityReason| r.code)
}

/// Attempt `i` sits in the precedence slot its position allows: an optional
/// replacement first, the primary at `r`, then fallbacks numbered from zero.
pub open spec fn attempt_slot_ok(attempts: Seq<ProviderResolutionAttempt>, r: int, i: int) -> bool {
    let selection = attempts[i].selection;
    if i < r {
        selection == (ProviderSelection { source: ProviderSelectionSource::Replacement, fallback_index: None })
    } else if i == r {
        selection == (ProviderSelection { source: ProviderSelectionSource::Primary, fallback_index: None })
    } else {
        selection.source == ProviderSelectionSource::Fallback && (selection.fallback_index matches Some(n) && n == i
            - r - 1)
    }
}

/// Where the primary must stand: after a leading replacement, if any.
pub open spec fn primary_position(attempts: Seq<ProviderResolutionAttempt>) -> int {
    if attempts[0].selection.source == ProviderSelectionSource::Replacement {
        1
    } else {
        0
    }
}

/// The evidence of a resolution in which every candidate was unavailable.
pub open spec fn failed_attempts_valid(attempts: Seq<ProviderResolutionAttempt>) -> bool {
    &&& attempts.len() > primary_position(attempts)
    &&& forall|i: int| 0 <= i < attempts.len() ==> #[trigger] attempt_slot_ok(attempts, primary_position(attempts), i)
    &&& forall|i: int| 0 <= i < attempts.len() ==> is_token((#[trigger] attempts[i]).candidate.registration_id@)
    &&& forall|i: int, j: int|
        0 <= i < j < attempts.len() ==> (#[trigger] attempts[i]).candidate.registration_id@ != (
        #[trigger] attempts[j]).candidate.registration_id@
    &&& forall|i: int| 0 <= i < attempts.len() ==> !(#[trigger] attempts[i]).available && attempts[i].reasons@.len() > 0
    &&& forall|i: int, j: int|
        0 <= i < attempts.len() && 0 <= j < attempts[i].reasons@.len() ==> reason_detail_valid(
            #[trigger] attempts[i].reasons@[j],
        )
    &&& forall|i: int| 0 <= i < attempts.len() ==> availability_codes_consistent(reason_codes((#[trigger] attempts[i]).reasons@))
}

fn codes_of(reasons: &Vec<AvailabilityReason>) -> (r: Vec<AvailabilityCode>)
    ensures
        r@ == reason_codes(reasons@),
{
    let mut codes: Vec<AvailabilityCode> = Vec::new();
    let mut i: usize = 0;
    while i < reasons.len()
        invariant
            i <= reasons.len(),
            codes@ == reason_codes(reasons@.take(i as int)),
        decreases reasons.len() - i,
    {
        codes.push(reasons[i].code);
        assert(reason_codes(reasons@.take(i + 1)) =~= reason_codes(reasons@.take(i as int)).push(reasons@[i as int].code));
        i = i + 1;
    }
    assert(reasons@.take(reasons.len() as int) =~= reasons@);
    codes
}

fn check_attempt(attempt: &ProviderResolutionAttempt) -> (r: Result<(), PipelinePlanningFailure>)
    ensures
        r is Ok <==> (is_token(attempt.candidate.registration_id@) && !attempt.available && attempt.reasons@.len() > 0
            && (forall|j: int| 0 <= j < attempt.reasons@.len() ==> reason_detail_valid(#[trigger] attempt.reasons@[j]))
            && availability_codes_consistent(reason_codes(attempt.reasons@))),
        r matches Err(f) ==> one_refusal(f),
{
    if !crate::text::text_is_token(attempt.candidate.registration_id.as_str()) {
        return Err(configuration_failure(
            PipelinePlanningDiagnosticCode::InvalidConfiguration,
            owned("candidate registration_id must be a non-empty token"),
            None,
            "diagnostics.attempts.candidate.registration_id",
        ));
    }
    if attempt.available || attempt.reasons.len() == 0 {
        return Err(configuration_failure(
            PipelinePlanningDiagnosticCode::InvalidConfiguration,
            owned("provider_unavailable attempts must all be unavailable with at least one reason"),
            None,
            "diagnostics.attempts",
        ));
    }
    let mut j: usize = 0;
    while j < attempt.reasons.len()
        invariant
            j <= attempt.reasons.len(),
            forall|k: int| 0 <= k < j ==> reason_detail_valid(#[trigger] attempt.reasons@[k]),
        decreases attempt.reasons.len() - j,
    {
        if !text_is_printable(attempt.reasons[j].detail.as_str()) {
            return Err(configuration_failure(
                PipelinePlanningDiagnosticCode::InvalidConfiguration,
                owned("provider availability reason detail must be non-empty and printable"),
                None,
                "diagnostics.attempts.reasons.detail",
            ));
        }
        j = j + 1;
    }
    let codes = codes_of(&attempt.reasons);
    match validate_availability_code_combination(&codes, None) {
        Ok(()) => Ok(()),
        Err(failure) => Err(configuration_failure(
            PipelinePlanningDiagnosticCode::InvalidConfiguration,
            failure.message,
            None,
            "diagnostics.attempts.reasons.code",
        )),
    }
}

/// Check the evidence of a resolution in which no candidate was available.
pub fn validate_failed_resolution_attempts(attempts: &Vec<ProviderResolutionAttempt>) -> (r: Result<
    (),
    PipelinePlanningFailure,
>)
    ensures
        r is Ok <==> attempts@.len() > 0 && failed_attempts_valid(attempts@),
        r matches Err(f) ==> one_refusal(f),
{
    if attempts.len() == 0 {
        return Err(configuration_failure(
            PipelinePlanningDiagnosticCode::InvalidConfiguration,
            owned("provider_unavailable diagnostic must retain every failed resolution attempt"),
            None,
            "diagnostics.attempts",
        ));
    }
    let ghost r: int = primary_position(attempts@);
    let mut saw_primary = false;
    let mut next_fallback: u64 = 0;
    let mut i: usize = 0;
    while i < attempts.len()
        invariant
            0 < attempts@.len(),
            i <= attempts.len(),
            r == primary_position(attempts@),
            saw_primary <==> i > r,
            saw_primary ==> next_fallback == i - r - 1,
            !saw_primary ==> i <= r && next_fallback == 0,
            forall|k: int| 0 <= k < i ==> attempt_slot_ok(attempts@, r, k),
            forall|k: int| 0 <= k < i ==> is_token((#[trigger] attempts@[k]).candidate.registration_id@),
            forall|k: int, l: int|
                0 <= k < l < i ==> (#[trigger] attempts@[k]).candidate.registration_id@ != (
                #[trigger] attempts@[l]).candidate.registration_id@,
            forall|k: int| 0 <= k < i ==> !(#[trigger] attempts@[k]).available && attempts@[k].reasons@.len() > 0,
            forall|k: int, j: int|
                0 <= k < i && 0 <= j < attempts@[k].reasons@.len() ==> reason_detail_valid(
                    #[trigger] attempts@[k].reasons@[j],
                ),
            forall|k: int| 0 <= k < i ==> availability_codes_consistent(reason_codes((#[trigger] attempts@[k]).reasons@)),
        decreases attempts.len() - i,
    {
        let attempt = &attempts[i];
        let checked = check_attempt(attempt);
        if checked.is_err() {
            return checked;
        }
        let mut j: usize = 0;
        while j < i
            invariant
                j <= i < attempts.len(),
                forall|k: int| 0 <= k < j ==> (#[trigger] attempts@[k]).candidate.registration_id@
                    != attempts@[i as int].candidate.registration_id@,
            decreases i - j,
        {
            if text_eq(attempts[j].candidate.registration_id.as_str(), attempts[i].candidate.registration_id.as_str()) {
                return Err(configuration_failure(
                    PipelinePlanningDiagnosticCode::InvalidConfiguration,
                    owned("provider resolution failure repeats a candidate registration"),
                    None,
                    "diagnostics.attempts",
                ));
            }
            j = j + 1;
        }
        let selection = attempt.selection;
        let ok = match selection.source {
            ProviderSelectionSource::Replacement => i == 0 && selection.fallback_index.is_none() && !saw_primary,
            ProviderSelectionSource::Primary => !saw_primary && selection.fallback_index.is_none(),
            ProviderSelectionSource::Fallback => saw_primary && match selection.fallback_index {
                Some(n) => n as u64 == next_fallback,
                None => false,
            },
        };
        if !ok {
            proof {
                assert(!attempt_slot_ok(attempts@, r, i as int));
            }
            return Err(configuration_failure(
                PipelinePlanningDiagnosticCode::InvalidConfiguration,
                owned("provider resolution failure attempts violate replacement, primary, fallback order"),
                None,
                "diagnostics.attempts.selection",
            ));
        }
        if selection.source == ProviderSelectionSource::Primary {
            saw_primary = true;
        } else if selection.source == ProviderSelectionSource::Fallback {
            next_fallback = next_fallback + 1;
        }
        i = i + 1;
    }
    if !saw_primary {
        return Err(configuration_failure(
            PipelinePlanningDiagnosticCode::InvalidConfiguration,
            owned("provider resolution failure attempts must include the primary candidate"),
            None,
            "diagnostics.attempts",
        ));
    }
    Ok(())
}

/// One valid diagnostic: printable texts, and attempts exactly when a
/// provider was unavailable.
pub open spec fn diagnostic_valid(diagnostic: PipelinePlanningDiagnostic) -> bool {
    &&& is_printable_text(diagnostic.message@)
    &&& (diagnostic.stage matches Some(s) ==> is_printable_text(s@))
    &&& (diagnostic.field matches Some(f) ==> is_printable_text(f@))
    &&& if diagnostic.code == PipelinePlanningDiagnosticCode::ProviderUnavailable {
        diagnostic.category == ErrorCategory::Dependency && diagnostic.attempts@.len() > 0 && failed_attempts_valid(
            diagnostic.attempts@,
        )
    } else {
        diagnostic.attempts@.len() == 0
    }
}

fn check_diagnostic(diagnostic: &PipelinePlanningDiagnostic) -> (r: Result<(), PipelinePlanningFailure>)
    ensures
        r is Ok <==> diagnostic_valid(*diagnostic),
        r matches Err(f) ==> one_refusal(f),
{
    if !text_is_printable(diagnostic.message.as_str()) {
        return Err(configuration_failure(
            PipelinePlanningDiagnosticCode::InvalidConfiguration,
            owned("planning diagnostic message must be non-empty and printable"),
            None,
            "diagnostics",
        ));
    }
    if let Some(stage) = &diagnostic.stage {
        if !text_is_printable(stage.as_str()) {
            return Err(configuration_failure(
                PipelinePlanningDiagnosticCode::InvalidConfiguration,
                owned("planning diagnostic stage must be non-empty and printable"),
                None,
                "diagnostics",
            ));
        }
    }
    if let Some(field) = &diagnostic.field {
        if !text_is_printable(field.as_str()) {
            return Err(configuration_failure(
                PipelinePlanningDiagnosticCode::InvalidConfiguration,
                owned("planning diagnostic field must be non-empty and printable"),
                None,
                "diagnostics",
            ));
        }
    }
    if diagnostic.code == PipelinePlanningDiagnosticCode::ProviderUnavailable {
        if diagnostic.category != ErrorCategory::Dependency {
            return Err(configuration_failure(
                PipelinePlanningDiagnosticCode::InvalidConfiguration,
                owned("provider_unavailable diagnostic must use the dependency category"),
                None,
                "diagnostics",
            ));
        }
        validate_failed_resolution_attempts(&diagnostic.attempts)
    } else if diagnostic.attempts.len() != 0 {
        Err(configuration_failure(
            PipelinePlanningDiagnosticCode::InvalidConfiguration,
            owned("planning diagnostic retains provider attempts without a provider_unavailable code"),
            None,
            "diagnostics",
        ))
    } else {
        Ok(())
    }
}

impl PipelinePlanningFailure {
    pub fn category(&self) -> (r: ErrorCategory)
        ensures
            r == self.category,
    {
        self.category
    }

    pub fn diagnostics(&self) -> (r: &Vec<PipelinePlanningDiagnostic>)
        ensures
            r@ == self.diagnostics@,
    {
        &self.diagnostics
    }

    /// The failure envelope's rules: schema, a printable message matching
    /// the first diagnostic, and every diagnostic valid.
    pub open spec fn spec_valid(&self) -> bool {
        &&& self.schema@ == PIPELINE_PLANNING_FAILURE_SCHEMA_V1@
        &&& is_printable_text(self.message@)
        &&& self.diagnostics@.len() > 0
        &&& self.diagnostics@[0].category == self.category
        &&& self.diagnostics@[0].message@ == self.message@
        &&& forall|i: int| 0 <= i < self.diagnostics@.len() ==> diagnostic_valid(#[trigger] self.diagnostics@[i])
    }

    /// Validate the failure envelope and its primary diagnostic consistency.
    pub fn validate(&self) -> (r: Result<(), PipelinePlanningFailure>)
        ensures
            r is Ok <==> self.spec_valid(),
            r matches Err(f) ==> one_refusal(f),
    {
        if !text_eq(self.schema.as_str(), PIPELINE_PLANNING_FAILURE_SCHEMA_V1) {
            return Err(planning_failure(
                ErrorCategory::Configuration,
                PipelinePlanningDiagnosticCode::InvalidSchema,
                join2("unsupported planning failure schema; expected ", PIPELINE_PLANNING_FAILURE_SCHEMA_V1),
                None,
                Some(owned("schema")),
                Vec::new(),
            ));
        }
        if !text_is_printable(self.message.as_str()) || self.diagnostics.len() == 0 {
            return Err(planning_failure(
                ErrorCategory::Configuration,
                PipelinePlanningDiagnosticCode::InvalidConfiguration,
                owned("planning failure must contain a message and at least one diagnostic"),
                None,
                Some(owned("diagnostics")),
                Vec::new(),
            ));
        }
        let first = &self.diagnostics[0];
        if first.category != self.category || !text_eq(first.message.as_str(), self.message.as_str()) {
            return Err(planning_failure(
                ErrorCategory::Configuration,
                PipelinePlanningDiagnosticCode::InvalidConfiguration,
                owned("planning failure category and message must match its first diagnostic"),
                None,
                Some(owned("diagnostics[0]")),
                Vec::new(),
            ));
        }
        let mut i: usize = 0;
        while i < self.diagnostics.len()
            invariant
                i <= self.diagnostics.len(),
                forall|k: int| 0 <= k < i ==> diagnostic_valid(#[trigger] self.diagnostics@[k]),
            decreases self.diagnostics.len() - i,
        {
            let checked = check_diagnostic(&self.diagnostics[i]);
            if checked.is_err() {
                return checked;
            }
            i = i + 1;
        }
        Ok(())
    }
}

// ---------------------------------------------------------------------------
// Identifiers and portable paths
// ---------------------------------------------------------------------------

pub fn validate_local_id(value: &str, label: &str, stage: Option<&str>, field: &str) -> (r: Result<
    (),
    PipelinePlanningFailure,
>)
    ensures
        r is Ok <==> is_local_id(value@),
        r matches Err(f) ==> refusal_at(f, PipelinePlanningDiagnosticCode::InvalidIdentifier, optional_str(stage), field@),
{
    if crate::text::text_is_local_id(value) {
        Ok(())
    } else {
        Err(configuration_failure(
            PipelinePlanningDiagnosticCode::InvalidIdentifier,
            join2(
                label,
                " must start with a lowercase letter and contain only lowercase letters, numbers, hyphens, or underscores",
            ),
            stage,
            field,
        ))
    }
}

/// A non-blank artifact type without whitespace or control characters.
pub open spec fn artifact_type_valid(value: Seq<char>) -> bool {
    !is_blank(value) && !crate::text::has_space(value) && !has_control(value)
}

pub fn validate_artifact_type(value: &str, stage: Option<&str>, field: &str) -> (r: Result<(), PipelinePlanningFailure>)
    ensures
        r is Ok <==> artifact_type_valid(value@),
        r matches Err(f) ==> one_refusal(f) && optional_text(f.diagnostics@[0].stage) == optional_str(stage)
            && optional_text(f.diagnostics@[0].field) == Some(field@),
{
    if crate::text::text_is_blank(value) {
        return Err(configuration_failure(
            PipelinePlanningDiagnosticCode::InvalidConfiguration,
            owned("artifact_type cannot be empty"),
            stage,
            field,
        ));
    }
    if crate::text::text_has_space(value) || crate::text::text_has_control(value) {
        return Err(configuration_failure(
            PipelinePlanningDiagnosticCode::InvalidConfiguration,
            owned("artifact_type must be a printable token"),
            stage,
            field,
        ));
    }
    Ok(())
}

/// A character that a portable path segment may not contain.
pub open spec fn is_reserved_path_char(c: char) -> bool {
    crate::text::is_control(c) || c == '\\' || c == ':' || c == '<' || c == '>' || c == '"' || c == '|' || c
        == '?' || c == '*'
}

/// The part of a segment before its first `.`.
pub open spec fn segment_basename(segment: Seq<char>) -> Seq<char>
    decreases segment.len(),
{
    if segment.len() == 0 || segment[0] == '.' {
        Seq::empty()
    } else {
        seq![segment[0]] + segment_basename(segment.drop_first())
    }
}

/// A Windows device name: CON, PRN, AUX, NUL, or COM/LPT with a digit 1-9,
/// in any ASCII case.
pub open spec fn is_device_name(basename: Seq<char>) -> bool {
    let upper = basename.map_values(|c: char| crate::text::ascii_upper(c));
    ||| upper == "CON"@
    ||| upper == "PRN"@
    ||| upper == "AUX"@
    ||| upper == "NUL"@
    ||| upper.len() == 4 && (upper.take(3) == "COM"@ || upper.take(3) == "LPT"@) && '1' <= upper[3] && upper[3] <= '9'
}

/// A path segment that is valid on every supported filesystem.
pub open spec fn is_portable_path_segment(segment: Seq<char>) -> bool {
    &&& segment.len() > 0
    &&& segment != "."@
    &&& segment != ".."@
    &&& segment.last() != '.'
    &&& segment.last() != ' '
    &&& forall|i: int| 0 <= i < segment.len() ==> !is_reserved_path_char(#[trigger] segment[i])
    &&& !is_device_name(segment_basename(segment))
}

fn basename_of(segment: &[char]) -> (r: Vec<char>)
    ensures
        r@ == segment_basename(segment@),
{
    let mut r: Vec<char> = Vec::new();
    let mut i: usize = 0;
    while i < segment.len() && segment[i] != '.'
        invariant
            i <= segment.len(),
            forall|k: int| 0 <= k < i ==> segment@[k] != '.',
            segment_basename(segment@) == r@ + segment_basename(segment@.skip(i as int)),
        decreases segment.len() - i,
    {
        assert(segment@.skip(i as int).drop_first() =~= segment@.skip(i + 1));
        assert(segment@.skip(i as int)[0] == segment@[i as int]);
        r.push(segment[i]);
        assert(seq![segment@[i as int]] + segment_basename(segment@.skip(i + 1)) == segment_basename(
            segment@.skip(i as int),
        ));
        assert(r@ + segment_basename(segment@.skip(i + 1)) =~= (r@.drop_last() + seq![segment@[i as int]])
            + segment_basename(segment@.skip(i + 1)));
        i = i + 1;
    }
    assert(segment_basename(segment@.skip(i as int)) =~= Seq::<char>::empty());
    assert(r@ =~= r@ + Seq::<char>::empty());
    r
}

fn device_name(basename: &Vec<char>) -> (r: bool)
    ensures
        r == is_device_name(basename@),
{
    let mut upper: Vec<char> = Vec::new();
    let mut i: usize = 0;
    while i < basename.len()
        invariant
            i <= basename.len(),
            upper@ == basename@.take(i as int).map_values(|c: char| crate::text::ascii_upper(c)),
        decreases basename.len() - i,
    {
        upper.push(crate::text::char_ascii_upper(basename[i]));
        assert(basename@.take(i + 1).map_values(|c: char| crate::text::ascii_upper(c)) =~= basename@.take(
            i as int,
        ).map_values(|c: char| crate::text::ascii_upper(c)).push(crate::text::ascii_upper(basename@[i as int])));
        i = i + 1;
    }
    assert(basename@.take(basename.len() as int) =~= basename@);
    proof {
        reveal_strlit("CON");
        reveal_strlit("PRN");
        reveal_strlit("AUX");
        reveal_strlit("NUL");
        reveal_strlit("COM");
        reveal_strlit("LPT");
    }
    let u = upper.as_slice();
    if u.len() == 3 {
        let con = u[0] == 'C' && u[1] == 'O' && u[2] == 'N';
        let prn = u[0] == 'P' && u[1] == 'R' && u[2] == 'N';
        let aux = u[0] == 'A' && u[1] == 'U' && u[2] == 'X';
        let nul = u[0] == 'N' && u[1] == 'U' && u[2] == 'L';
        proof {
            if !con {
                assert(upper@ != "CON"@ || upper@[0] == 'C' && upper@[1] == 'O' && upper@[2] == 'N');
            }
            if con {
                assert(upper@ =~= "CON"@);
            }
            if prn {
                assert(upper@ =~= "PRN"@);
            }
            if aux {
                assert(upper@ =~= "AUX"@);
            }
            if nul {
                assert(upper@ =~= "NUL"@);
            }
        }
        return con || prn || aux || nul;
    }
    if u.len() == 4 {
        let com = u[0] == 'C' && u[1] == 'O' && u[2] == 'M';
        let lpt = u[0] == 'L' && u[1] == 'P' && u[2] == 'T';
        proof {
            if com {
                assert(upper@.take(3) =~= "COM"@);
            }
            if lpt {
                assert(upper@.take(3) =~= "LPT"@);
            }
            if upper@.take(3) == "COM"@ {
                assert(upper@.take(3)[0] == 'C' && upper@.take(3)[1] == 'O' && upper@.take(3)[2] == 'M');
            }
            if upper@.take(3) == "LPT"@ {
                assert(upper@.take(3)[0] == 'L' && upper@.take(3)[1] == 'P' && upper@.take(3)[2] == 'T');
            }
        }
        return (com || lpt) && '1' <= u[3] && u[3] <= '9';
    }
    false
}

pub(crate) fn portable_segment(segment: &[char]) -> (r: bool)
    ensures
        r == is_portable_path_segment(segment@),
{
    proof {
        reveal_strlit(".");
        reveal_strlit("..");
    }
    let n = segment.len();
    if n == 0 {
        return false;
    }
    if n == 1 && segment[0] == '.' {
        assert(segment@ =~= "."@);
        return false;
    }
    if n == 2 && segment[0] == '.' && segment[1] == '.' {
        assert(segment@ =~= ".."@);
        return false;
    }
    if segment[n - 1] == '.' || segment[n - 1] == ' ' {
        return false;
    }
    let mut i: usize = 0;
    while i < n
        invariant
            n == segment@.len(),
            i <= n,
            forall|k: int| 0 <= k < i ==> !is_reserved_path_char(#[trigger] segment@[k]),
        decreases n - i,
    {
        let c = segment[i];
        if crate::text::char_is_control(c) || c == '\\' || c == ':' || c == '<' || c == '>' || c == '"' || c == '|'
            || c == '?' || c == '*' {
            assert(is_reserved_path_char(segment@[i as int]));
            return false;
        }
        i = i + 1;
    }
    let basename = basename_of(segment);
    !device_name(&basename)
}

/// The end of the segment that starts at `i`: the next `/`, or the end.
pub open spec fn segment_end(path: Seq<char>, i: int) -> int
    decreases path.len() - i,
{
    if i >= path.len() || i < 0 {
        path.len() as int
    } else if path[i] == '/' {
        i
    } else {
        segment_end(path, i + 1)
    }
}

/// A `/`-separated path segment starts at `i`.
pub open spec fn segment_starts_at(path: Seq<char>, i: int) -> bool {
    0 <= i <= path.len() && (i == 0 || path[i - 1] == '/')
}

/// A portable confined relative locator: no root, trailing or doubled
/// slash, backslash, colon, or control character, and every segment
/// portable.
pub open spec fn is_portable_locator(value: Seq<char>) -> bool {
    &&& value.len() > 0
    &&& value[0] != '/'
    &&& value.last() != '/'
    &&& forall|i: int| 0 <= i < value.len() ==> #[trigger] value[i] != '\\' && value[i] != ':' && !crate::text::is_control(value[i])
    &&& forall|i: int|
        #[trigger] segment_starts_at(value, i) ==> is_portable_path_segment(value.subrange(i, segment_end(value, i)))
}

proof fn lemma_segment_end_bounds(path: Seq<char>, i: int)
    requires
        0 <= i <= path.len(),
    ensures
        i <= segment_end(path, i) <= path.len(),
        segment_end(path, i) < path.len() ==> path[segment_end(path, i)] == '/',
        forall|k: int| i <= k < segment_end(path, i) ==> path[k] != '/',
    decreases path.len() - i,
{
    if i < path.len() && path[i] != '/' {
        lemma_segment_end_bounds(path, i + 1);
    }
}

fn chars_between(v: &Vec<char>, start: usize, end: usize) -> (r: Vec<char>)
    requires
        start <= end <= v@.len(),
    ensures
        r@ == v@.subrange(start as int, end as int),
{
    let mut r: Vec<char> = Vec::new();
    let mut i: usize = start;
    while i < end
        invariant
            start <= i <= end <= v@.len(),
            r@ == v@.subrange(start as int, i as int),
        decreases end - i,
    {
        r.push(v[i]);
        assert(r@ =~= v@.subrange(start as int, i + 1));
        i = i + 1;
    }
    r
}

pub fn portable_locator(value: &str) -> (r: bool)
    ensures
        r == is_portable_locator(value@),
{
    let v = crate::text::chars_of(value);
    let n = v.len();
    if n == 0 || v[0] == '/' || v[n - 1] == '/' {
        return false;
    }
    let mut i: usize = 0;
    while i < n
        invariant
            n == v@.len(),
            v@ == value@,
            i <= n,
            forall|k: int| 0 <= k < i ==> #[trigger] v@[k] != '\\' && v@[k] != ':' && !crate::text::is_control(v@[k]),
        decreases n - i,
    {
        if v[i] == '\\' || v[i] == ':' || crate::text::char_is_control(v[i]) {
            return false;
        }
        i = i + 1;
    }
    let mut start: usize = 0;
    let mut j: usize = 0;
    while j < n
        invariant
            n == v@.len(),
            v@ == value@,
            n > 0,
            start <= j <= n,
            segment_starts_at(v@, start as int),
            forall|k: int| start <= k < j ==> v@[k] != '/',
            forall|k: int| #[trigger] segment_starts_at(v@, k) && k < start ==> is_portable_path_segment(
                v@.subrange(k, segment_end(v@, k)),
            ),
        decreases n - j,
    {
        if v[j] == '/' {
            proof {
                lemma_segment_end_bounds(v@, start as int);
                if segment_end(v@, start as int) < j {
                    assert(v@[segment_end(v@, start as int)] == '/');
                }
                assert(segment_end(v@, start as int) == j);
            }
            let segment = chars_between(&v, start, j);
            if !portable_segment(segment.as_slice()) {
                return false;
            }
            proof {
                assert forall|k: int| #[trigger] segment_starts_at(v@, k) && k < j + 1 implies is_portable_path_segment(
                    v@.subrange(k, segment_end(v@, k)),
                ) by {
                    if start < k && k <= j {
                        assert(v@[k - 1] == '/');
                        assert(k - 1 >= start);
                    }
                }
            }
            start = j + 1;
        }
        j = j + 1;
    }
    proof {
        lemma_segment_end_bounds(v@, start as int);
        if segment_end(v@, start as int) < n {
            assert(v@[segment_end(v@, start as int)] == '/');
        }
        assert(segment_end(v@, start as int) == n);
    }
    let segment = chars_between(&v, start, n);
    if !portable_segment(segment.as_slice()) {
        return false;
    }
    proof {
        assert forall|k: int| #[trigger] segment_starts_at(v@, k) implies is_portable_path_segment(
            v@.subrange(k, segment_end(v@, k)),
        ) by {
            if start < k && k <= n {
                assert(v@[k - 1] == '/');
                assert(k - 1 >= start);
            }
        }
    }
    true
}

/// A portable path beneath `artifacts/`.
pub open spec fn artifact_path_valid(value: Seq<char>) -> bool {
    crate::text::starts_with(value, "artifacts/"@) && value.len() > 10 && is_portable_locator(value)
}

pub fn validate_artifact_relative_path(value: &str, stage: Option<&str>, field: &str) -> (r: Result<
    (),
    PipelinePlanningFailure,
>)
    ensures
        r is Ok <==> artifact_path_valid(value@),
        r matches Err(f) ==> one_refusal(f) && f.diagnostics@[0].code == PipelinePlanningDiagnosticCode::UnsafeArtifactPath,
{
    proof {
        reveal_strlit("artifacts/");
    }
    let safe = crate::text::text_starts_with(value, "artifacts/") && crate::text::chars_of(value).len() > 10
        && portable_locator(value);
    if safe {
        Ok(())
    } else {
        Err(configuration_failure(
            PipelinePlanningDiagnosticCode::UnsafeArtifactPath,
            owned("artifact path must be a portable slash-delimited relative path beneath artifacts/"),
            stage,
            field,
        ))
    }
}

pub fn validate_portable_locator(value: &str, field: &str) -> (r: Result<(), Error>)
    ensures
        r is Ok <==> is_portable_locator(value@),
        r matches Err(e) ==> e.spec_category() == ErrorCategory::Configuration,
{
    if portable_locator(value) {
        Ok(())
    } else {
        Err(crate::error::invalid(join3(
            "provider registration ",
            field,
            " must be a portable confined relative locator",
        )))
    }
}

/// The text `str::to_lowercase` returns: the Unicode lowercase mapping of
/// the text, where a capital sigma's lowercase depends on its place in a
/// word.
pub uninterp spec fn unicode_lowercase(text: Seq<char>) -> Seq<char>;

/// Calls `str::to_lowercase`.
#[verifier::external_body]
pub(crate) fn lowercase(text: &str) -> (r: String)
    ensures
        r@ == unicode_lowercase(text@),
{
    text.to_lowercase()
}

/// `outer` names a directory that contains `inner`.
pub open spec fn is_parent_path(outer: Seq<char>, inner: Seq<char>) -> bool {
    crate::text::starts_with(inner, outer) && inner.len() > outer.len() && inner[outer.len() as int] == '/'
}

/// Two paths, compared case-insensitively, are equal or one contains the
/// other.
pub open spec fn paths_overlap_spec(left: Seq<char>, right: Seq<char>) -> bool {
    let l = unicode_lowercase(left);
    let r = unicode_lowercase(right);
    l == r || is_parent_path(l, r) || is_parent_path(r, l)
}

fn parent_path(outer: &Vec<char>, inner: &Vec<char>) -> (r: bool)
    ensures
        r == is_parent_path(outer@, inner@),
{
    crate::text::seq_starts_with(inner.as_slice(), outer.as_slice()) && inner.len() > outer.len() && inner[outer.len()]
        == '/'
}

pub fn paths_overlap(left: &str, right: &str) -> (r: bool)
    ensures
        r == paths_overlap_spec(left@, right@),
{
    let l = crate::text::chars_of(lowercase(left).as_str());
    let r = crate::text::chars_of(lowercase(right).as_str());
    crate::text::seq_eq(l.as_slice(), r.as_slice()) || parent_path(&l, &r) || parent_path(&r, &l)
}

impl ProviderRegistrationDocument {
    pub open spec fn spec_valid(&self) -> bool {
        &&& self.schema@ == PROVIDER_REGISTRATION_SCHEMA_V1@
        &&& is_token(self.registration_id@)
        &&& is_token(self.implementation_id@)
        &&& is_portable_locator(self.manifest@)
        &&& is_portable_locator(self.configuration@)
        &&& is_portable_locator(self.executable@)
        &&& self.components.spec_valid()
    }

    pub fn validate(&self) -> (r: Result<(), Error>)
        ensures
            r is Ok <==> self.spec_valid(),
            r matches Err(e) ==> e.spec_category() == ErrorCategory::Configuration,
    {
        require_schema(self.schema.as_str(), PROVIDER_REGISTRATION_SCHEMA_V1)?;
        require_token(self.registration_id.as_str(), "registration_id")?;
        require_token(self.implementation_id.as_str(), "implementation_id")?;
        validate_portable_locator(self.manifest.as_str(), "manifest")?;
        validate_portable_locator(self.configuration.as_str(), "configuration")?;
        validate_portable_locator(self.executable.as_str(), "executable")?;
        self.components.validate()
    }
}

// ---------------------------------------------------------------------------
// Policy
// ---------------------------------------------------------------------------

impl NormalizedPlanningPolicy {
    /// A valid host, strictly ascending effects, and no network when offline.
    pub open spec fn spec_valid(&self) -> bool {
        &&& self.host.cpu_threads != 0
        &&& effects_ascending(self.allowed_side_effects@)
        &&& !(self.offline && self.allowed_side_effects@.contains(SideEffect::Network))
    }
}

/// The context's host and offline flag with its allowed effects sorted and
/// de-duplicated; refused when the host is invalid or an offline context
/// allows the network.
pub fn normalize_policy(context: &PipelinePlanningContext) -> (r: Result<NormalizedPlanningPolicy, PipelinePlanningFailure>)
    ensures
        r is Ok <==> context.host.cpu_threads != 0 && !(context.offline && context.allowed_side_effects@.contains(
            SideEffect::Network,
        )),
        r matches Ok(policy) ==> policy.spec_valid() && policy.host == context.host && policy.offline == context.offline
            && forall|e: SideEffect| #[trigger] policy.allowed_side_effects@.contains(e)
            <==> context.allowed_side_effects@.contains(e),
        r matches Err(f) ==> f.category == ErrorCategory::Configuration && f.diagnostics@[0].code
            == PipelinePlanningDiagnosticCode::InvalidPolicy,
{
    if let Err(error) = context.host.validate() {
        return Err(planning_failure(
            ErrorCategory::Configuration,
            PipelinePlanningDiagnosticCode::InvalidPolicy,
            error.to_text(),
            None,
            Some(owned("context.host")),
            Vec::new(),
        ));
    }
    let allowed_side_effects = crate::provider_runtime::sorted_effects(&context.allowed_side_effects);
    if context.offline && crate::provider::contains_effect(&allowed_side_effects, SideEffect::Network) {
        return Err(planning_failure(
            ErrorCategory::Configuration,
            PipelinePlanningDiagnosticCode::InvalidPolicy,
            owned("offline planning cannot authorize the network side effect"),
            None,
            Some(owned("context.allowed_side_effects")),
            Vec::new(),
        ));
    }
    Ok(NormalizedPlanningPolicy { host: context.host, allowed_side_effects, offline: context.offline })
}

pub fn validate_normalized_policy(policy: &NormalizedPlanningPolicy) -> (r: Result<(), PipelinePlanningFailure>)
    ensures
        r is Ok <==> policy.spec_valid(),
        r matches Err(f) ==> one_refusal(f) && f.diagnostics@[0].code == PipelinePlanningDiagnosticCode::InvalidPolicy,
{
    if let Err(error) = policy.host.validate() {
        return Err(planning_failure(
            ErrorCategory::Configuration,
            PipelinePlanningDiagnosticCode::InvalidPolicy,
            error.to_text(),
            None,
            Some(owned("payload.policy.host")),
            Vec::new(),
        ));
    }
    if !crate::provider_runtime::effects_strictly_ascending(&policy.allowed_side_effects) {
        return Err(configuration_failure(
            PipelinePlanningDiagnosticCode::InvalidPolicy,
            owned("resolved allowed_side_effects must be unique and sorted"),
            None,
            "payload.policy.allowed_side_effects",
        ));
    }
    if policy.offline && crate::provider::contains_effect(&policy.allowed_side_effects, SideEffect::Network) {
        return Err(configuration_failure(
            PipelinePlanningDiagnosticCode::InvalidPolicy,
            owned("offline planning cannot authorize the network side effect"),
            None,
            "payload.policy.allowed_side_effects",
        ));
    }
    Ok(())
}

/// A normalized policy always passes the plan's policy check.
pub proof fn lemma_normalized_policy_valid(context: PipelinePlanningContext, policy: NormalizedPlanningPolicy)
    requires
        policy.host == context.host,
        policy.offline == context.offline,
        effects_ascending(policy.allowed_side_effects@),
        forall|e: SideEffect| #[trigger] policy.allowed_side_effects@.contains(e) <==> context.allowed_side_effects@.contains(e),
        context.host.cpu_threads != 0,
        !(context.offline && context.allowed_side_effects@.contains(SideEffect::Network)),
    ensures
        policy.spec_valid(),
{
}

// ---------------------------------------------------------------------------
// Ports and cardinality
// ---------------------------------------------------------------------------

/// Whether `count` artifacts fit the port's cardinality.
pub open spec fn cardinality_accepts(cardinality: ArtifactCardinality, count: int) -> bool {
    match cardinality {
        ArtifactCardinality::One => count == 1,
        ArtifactCardinality::Optional => count <= 1,
        ArtifactCardinality::OneOrMore => count >= 1,
        ArtifactCardinality::Many => true,
    }
}

pub fn validate_cardinality(stage: &str, port: &ArtifactPort, count: usize, direction: &str) -> (r: Result<
    (),
    PipelinePlanningFailure,
>)
    ensures
        r is Ok <==> cardinality_accepts(port.cardinality, count as int),
        r matches Err(f) ==> one_refusal(f) && f.diagnostics@[0].code
            == PipelinePlanningDiagnosticCode::CardinalityMismatch,
{
    let valid = match port.cardinality {
        ArtifactCardinality::One => count == 1,
        ArtifactCardinality::Optional => count <= 1,
        ArtifactCardinality::OneOrMore => count >= 1,
        ArtifactCardinality::Many => true,
    };
    if valid {
        Ok(())
    } else {
        let mut message = join3("stage ", stage, " ");
        message.append(direction);
        message.append(" port ");
        message.append(port.name.as_str());
        message.append(" received ");
        message.append(crate::text::decimal_string(count as u64).as_str());
        message.append(" artifacts, outside its cardinality");
        Err(configuration_failure(PipelinePlanningDiagnosticCode::CardinalityMismatch, message, Some(stage), direction))
    }
}

/// The contract a known artifact carries: its type and stream role.
#[derive(Debug, Clone)]
pub struct ArtifactContract {
    pub artifact_type: String,
    pub stream_role: Option<StreamRole>,
    pub producer: Option<String>,
}

pub fn validate_artifact_against_port(
    stage: &str,
    artifact_id: &str,
    artifact: &ArtifactContract,
    port: &ArtifactPort,
    direction: &str,
) -> (r: Result<(), PipelinePlanningFailure>)
    ensures
        r is Ok <==> artifact.artifact_type@ == port.artifact_type@ && artifact.stream_role == port.stream_role,
        r matches Err(f) ==> f.category == ErrorCategory::Configuration && (f.diagnostics@[0].code
            == PipelinePlanningDiagnosticCode::ArtifactTypeMismatch || f.diagnostics@[0].code
            == PipelinePlanningDiagnosticCode::StreamRoleMismatch),
{
    if !text_eq(artifact.artifact_type.as_str(), port.artifact_type.as_str()) {
        let mut message = join3("stage ", stage, " ");
        message.append(direction);
        message.append(" port ");
        message.append(port.name.as_str());
        message.append(" requires artifact type ");
        message.append(port.artifact_type.as_str());
        message.append(", but ");
        message.append(artifact_id);
        message.append(" is ");
        message.append(artifact.artifact_type.as_str());
        return Err(configuration_failure(PipelinePlanningDiagnosticCode::ArtifactTypeMismatch, message, Some(stage), direction));
    }
    if artifact.stream_role != port.stream_role {
        let mut message = join3("stage ", stage, " ");
        message.append(direction);
        message.append(" port ");
        message.append(port.name.as_str());
        message.append(" requires a different stream role than ");
        message.append(artifact_id);
        return Err(configuration_failure(PipelinePlanningDiagnosticCode::StreamRoleMismatch, message, Some(stage), direction));
    }
    Ok(())
}

/// The prose-free evidence of one resolution attempt.
pub fn stable_resolution_attempt(attempt: &ProviderResolutionAttempt) -> (r: PlannedProviderResolutionAttempt)
    ensures
        r.candidate == attempt.candidate,
        r.selection == attempt.selection,
        r.available == attempt.available,
        r.reason_codes@ == reason_codes(attempt.reasons@),
{
    PlannedProviderResolutionAttempt {
        candidate: attempt.candidate.duplicate(),
        selection: attempt.selection,
        available: attempt.available,
        reason_codes: codes_of(&attempt.reasons),
    }
}

} // verus!
