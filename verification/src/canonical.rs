//! The serialized JSON form of aniflow's contract records, in the canonical
//! member order that their digests cover.
use vstd::prelude::*;

use crate::json::{
    Json, JsonValue, json_of, json_items, json_members, value_encodable, lemma_decimal_ascii,
    lemma_signed_decimal_ascii, lemma_object_push_encodable, lemma_items_push,
};
use crate::order::text_less;
use crate::provider::{
    ArtifactCardinality, ArtifactPort, ArtifactRole, BatchingMode, CancellationMode,
    CapabilityBehavior, CapabilityDeclaration, CapabilityKind, CapabilityReference,
    CompatibilityFingerprintPayload, ComponentIdentity, ComponentRequirement, ComputeRequirements,
    ConfigurationSchemaReference, DeterminismClass, FidelityClass, FingerprintArtifact,
    LifecycleSupport, ProgressMode, ProvenanceContract, ProvenanceField, ProviderIdentity,
    ProviderConfiguration, ProviderManifest, ProviderReference, ProviderRequirements, RequirementLevel, SideEffect,
    StreamRole, ValidatedOutputFingerprint,
};
use crate::provider_runtime::{
    AvailabilityCode, HostResources, ProviderCandidate, ProviderImplementationIdentity, ProviderLock,
    ProviderLockPayload, ProviderSelection, ProviderSelectionSource,
};
use crate::planning::{
    ArtifactValidation, AuthoredInputBinding, AuthoredOutputBinding, AuthoredPipelineInput,
    AuthoredPipelineStage, CapabilityRequirement, ExpectedArtifact, FinalOutputRequirement,
    NormalizedPlanningPolicy, PipelineInputIdentity, PipelineInputKind, PipelineV3Configuration,
    PipelineV3Plan, PipelineV3PlanPayload, PlannedExpectedArtifact, PlannedOutputBinding,
    PlannedProviderResolutionAttempt, ProviderSelectionIntent, ResolvedPipelineStage,
};
use crate::execution::{
    ArtifactKind, ArtifactObservation, CapturedDiagnostic, ProviderEvent, ProviderEventKind,
    ProviderExecutionBounds, ProviderExecutionFailure, ProviderExecutionFailureCode, ProviderExecutionOutcome,
    ProviderExecutionReportPayload, ProviderTermination, StreamKind, TerminationReason,
};
use crate::invocation::{ProviderInvocationArtifactBinding, ProviderInvocationRequest};
use crate::text::{decimal, decimal_string, owned, signed_decimal, signed_decimal_string};

verus! {

/// A JSON string holding the text.
pub fn jstr(s: &str) -> (v: JsonValue)
    ensures
        json_of(v) == Json::Str(s@),
{
    JsonValue::String(owned(s))
}

/// A JSON number holding the decimal digits of `n`.
pub fn jnum(n: u64) -> (v: JsonValue)
    ensures
        json_of(v) == Json::Number(decimal(n as nat)),
{
    JsonValue::Number(decimal_string(n))
}

/// A JSON number holding the signed decimal digits of `n`.
pub fn jint(n: i64) -> (v: JsonValue)
    ensures
        json_of(v) == Json::Number(signed_decimal(n as int)),
{
    JsonValue::Number(signed_decimal_string(n))
}

/// Appends one member to an object under construction.
pub fn member(members: &mut Vec<(String, JsonValue)>, key: &str, value: JsonValue)
    ensures
        json_members(final(members)@) == json_members(old(members)@).push((key@, json_of(value))),
{
    let ghost v = json_of(value);
    members.push((owned(key), value));
    assert(final(members)@.drop_last() =~= old(members)@);
}

/// Appends one item to an array under construction.
pub fn item(items: &mut Vec<JsonValue>, value: JsonValue)
    ensures
        json_items(final(items)@) == json_items(old(items)@).push(json_of(value)),
{
    items.push(value);
    assert(final(items)@.drop_last() =~= old(items)@);
}

/// The serialized name of a `SideEffect`.
pub open spec fn side_effect_name(value: SideEffect) -> Seq<char> {
    match value {
        SideEffect::FilesystemRead => "filesystem_read"@,
        SideEffect::FilesystemWrite => "filesystem_write"@,
        SideEffect::EnvironmentRead => "environment_read"@,
        SideEffect::Subprocess => "subprocess"@,
        SideEffect::Network => "network"@,
        SideEffect::Ai => "ai"@,
        SideEffect::Gpu => "gpu"@,
        SideEffect::Publish => "publish"@,
    }
}

pub fn side_effect_name_text(value: SideEffect) -> (r: &'static str)
    ensures
        r@ == side_effect_name(value),
{
    proof {
        reveal_strlit("filesystem_read");
        reveal_strlit("filesystem_write");
        reveal_strlit("environment_read");
        reveal_strlit("subprocess");
        reveal_strlit("network");
        reveal_strlit("ai");
        reveal_strlit("gpu");
        reveal_strlit("publish");
    }
    match value {
        SideEffect::FilesystemRead => "filesystem_read",
        SideEffect::FilesystemWrite => "filesystem_write",
        SideEffect::EnvironmentRead => "environment_read",
        SideEffect::Subprocess => "subprocess",
        SideEffect::Network => "network",
        SideEffect::Ai => "ai",
        SideEffect::Gpu => "gpu",
        SideEffect::Publish => "publish",
    }
}

/// The serialized name of a `ProviderSelectionSource`.
pub open spec fn provider_selection_source_name(value: ProviderSelectionSource) -> Seq<char> {
    match value {
        ProviderSelectionSource::Replacement => "replacement"@,
        ProviderSelectionSource::Primary => "primary"@,
        ProviderSelectionSource::Fallback => "fallback"@,
    }
}

pub fn provider_selection_source_name_text(value: ProviderSelectionSource) -> (r: &'static str)
    ensures
        r@ == provider_selection_source_name(value),
{
    proof {
        reveal_strlit("replacement");
        reveal_strlit("primary");
        reveal_strlit("fallback");
    }
    match value {
        ProviderSelectionSource::Replacement => "replacement",
        ProviderSelectionSource::Primary => "primary",
        ProviderSelectionSource::Fallback => "fallback",
    }
}

/// The serialized name of a `CapabilityKind`.
pub open spec fn capability_kind_name(value: CapabilityKind) -> Seq<char> {
    match value {
        CapabilityKind::FrameProcessor => "frame_processor"@,
        CapabilityKind::AudioProcessor => "audio_processor"@,
        CapabilityKind::TimedTextProcessor => "timed_text_processor"@,
        CapabilityKind::WholeVideoProcessor => "whole_video_processor"@,
        CapabilityKind::StreamInspector => "stream_inspector"@,
        CapabilityKind::TemporalValidator => "temporal_validator"@,
        CapabilityKind::ArtifactValidator => "artifact_validator"@,
        CapabilityKind::AssemblerEncoder => "assembler_encoder"@,
        CapabilityKind::DeliveryProvider => "delivery_provider"@,
        CapabilityKind::LifecycleObserver => "lifecycle_observer"@,
    }
}

pub fn capability_kind_name_text(value: CapabilityKind) -> (r: &'static str)
    ensures
        r@ == capability_kind_name(value),
{
    proof {
        reveal_strlit("frame_processor");
        reveal_strlit("audio_processor");
        reveal_strlit("timed_text_processor");
        reveal_strlit("whole_video_processor");
        reveal_strlit("stream_inspector");
        reveal_strlit("temporal_validator");
        reveal_strlit("artifact_validator");
        reveal_strlit("assembler_encoder");
        reveal_strlit("delivery_provider");
        reveal_strlit("lifecycle_observer");
    }
    match value {
        CapabilityKind::FrameProcessor => "frame_processor",
        CapabilityKind::AudioProcessor => "audio_processor",
        CapabilityKind::TimedTextProcessor => "timed_text_processor",
        CapabilityKind::WholeVideoProcessor => "whole_video_processor",
        CapabilityKind::StreamInspector => "stream_inspector",
        CapabilityKind::TemporalValidator => "temporal_validator",
        CapabilityKind::ArtifactValidator => "artifact_validator",
        CapabilityKind::AssemblerEncoder => "assembler_encoder",
        CapabilityKind::DeliveryProvider => "delivery_provider",
        CapabilityKind::LifecycleObserver => "lifecycle_observer",
    }
}

/// The serialized name of a `ArtifactRole`.
pub open spec fn artifact_role_name(value: ArtifactRole) -> Seq<char> {
    match value {
        ArtifactRole::TemporalSource => "temporal_source"@,
        ArtifactRole::TemporalComponent => "temporal_component"@,
        ArtifactRole::Intermediate => "intermediate"@,
        ArtifactRole::CandidateMaster => "candidate_master"@,
        ArtifactRole::ValidatedMaster => "validated_master"@,
        ArtifactRole::ValidationEvidence => "validation_evidence"@,
        ArtifactRole::RunEvidence => "run_evidence"@,
        ArtifactRole::DeliveryReceipt => "delivery_receipt"@,
    }
}

pub fn artifact_role_name_text(value: ArtifactRole) -> (r: &'static str)
    ensures
        r@ == artifact_role_name(value),
{
    proof {
        reveal_strlit("temporal_source");
        reveal_strlit("temporal_component");
        reveal_strlit("intermediate");
        reveal_strlit("candidate_master");
        reveal_strlit("validated_master");
        reveal_strlit("validation_evidence");
        reveal_strlit("run_evidence");
        reveal_strlit("delivery_receipt");
    }
    match value {
        ArtifactRole::TemporalSource => "temporal_source",
        ArtifactRole::TemporalComponent => "temporal_component",
        ArtifactRole::Intermediate => "intermediate",
        ArtifactRole::CandidateMaster => "candidate_master",
        ArtifactRole::ValidatedMaster => "validated_master",
        ArtifactRole::ValidationEvidence => "validation_evidence",
        ArtifactRole::RunEvidence => "run_evidence",
        ArtifactRole::DeliveryReceipt => "delivery_receipt",
    }
}

/// The serialized name of a `StreamRole`.
pub open spec fn stream_role_name(value: StreamRole) -> Seq<char> {
    match value {
        StreamRole::Video => "video"@,
        StreamRole::Audio => "audio"@,
        StreamRole::Subtitle => "subtitle"@,
        StreamRole::Transcript => "transcript"@,
        StreamRole::TimedMetadata => "timed_metadata"@,
        StreamRole::Attachment => "attachment"@,
    }
}

pub fn stream_role_name_text(value: StreamRole) -> (r: &'static str)
    ensures
        r@ == stream_role_name(value),
{
    proof {
        reveal_strlit("video");
        reveal_strlit("audio");
        reveal_strlit("subtitle");
        reveal_strlit("transcript");
        reveal_strlit("timed_metadata");
        reveal_strlit("attachment");
    }
    match value {
        StreamRole::Video => "video",
        StreamRole::Audio => "audio",
        StreamRole::Subtitle => "subtitle",
        StreamRole::Transcript => "transcript",
        StreamRole::TimedMetadata => "timed_metadata",
        StreamRole::Attachment => "attachment",
    }
}

/// The serialized name of a `ArtifactCardinality`.
pub open spec fn artifact_cardinality_name(value: ArtifactCardinality) -> Seq<char> {
    match value {
        ArtifactCardinality::One => "one"@,
        ArtifactCardinality::Optional => "optional"@,
        ArtifactCardinality::OneOrMore => "one_or_more"@,
        ArtifactCardinality::Many => "many"@,
    }
}

pub fn artifact_cardinality_name_text(value: ArtifactCardinality) -> (r: &'static str)
    ensures
        r@ == artifact_cardinality_name(value),
{
    proof {
        reveal_strlit("one");
        reveal_strlit("optional");
        reveal_strlit("one_or_more");
        reveal_strlit("many");
    }
    match value {
        ArtifactCardinality::One => "one",
        ArtifactCardinality::Optional => "optional",
        ArtifactCardinality::OneOrMore => "one_or_more",
        ArtifactCardinality::Many => "many",
    }
}

/// The serialized name of a `BatchingMode`.
pub open spec fn batching_mode_name(value: BatchingMode) -> Seq<char> {
    match value {
        BatchingMode::Unbatched => "none"@,
        BatchingMode::PerArtifact => "per_artifact"@,
        BatchingMode::DirectoryBatch => "directory_batch"@,
        BatchingMode::WholeArtifact => "whole_artifact"@,
        BatchingMode::Stream => "stream"@,
    }
}

pub fn batching_mode_name_text(value: BatchingMode) -> (r: &'static str)
    ensures
        r@ == batching_mode_name(value),
{
    proof {
        reveal_strlit("none");
        reveal_strlit("per_artifact");
        reveal_strlit("directory_batch");
        reveal_strlit("whole_artifact");
        reveal_strlit("stream");
    }
    match value {
        BatchingMode::Unbatched => "none",
        BatchingMode::PerArtifact => "per_artifact",
        BatchingMode::DirectoryBatch => "directory_batch",
        BatchingMode::WholeArtifact => "whole_artifact",
        BatchingMode::Stream => "stream",
    }
}

/// The serialized name of a `DeterminismClass`.
pub open spec fn determinism_class_name(value: DeterminismClass) -> Seq<char> {
    match value {
        DeterminismClass::Deterministic => "deterministic"@,
        DeterminismClass::ConfigurationDependent => "configuration_dependent"@,
        DeterminismClass::EnvironmentDependent => "environment_dependent"@,
        DeterminismClass::Nondeterministic => "nondeterministic"@,
    }
}

pub fn determinism_class_name_text(value: DeterminismClass) -> (r: &'static str)
    ensures
        r@ == determinism_class_name(value),
{
    proof {
        reveal_strlit("deterministic");
        reveal_strlit("configuration_dependent");
        reveal_strlit("environment_dependent");
        reveal_strlit("nondeterministic");
    }
    match value {
        DeterminismClass::Deterministic => "deterministic",
        DeterminismClass::ConfigurationDependent => "configuration_dependent",
        DeterminismClass::EnvironmentDependent => "environment_dependent",
        DeterminismClass::Nondeterministic => "nondeterministic",
    }
}

/// The serialized name of a `FidelityClass`.
pub open spec fn fidelity_class_name(value: FidelityClass) -> Seq<char> {
    match value {
        FidelityClass::Lossless => "lossless"@,
        FidelityClass::Lossy => "lossy"@,
        FidelityClass::Observational => "observational"@,
        FidelityClass::NotApplicable => "not_applicable"@,
    }
}

pub fn fidelity_class_name_text(value: FidelityClass) -> (r: &'static str)
    ensures
        r@ == fidelity_class_name(value),
{
    proof {
        reveal_strlit("lossless");
        reveal_strlit("lossy");
        reveal_strlit("observational");
        reveal_strlit("not_applicable");
    }
    match value {
        FidelityClass::Lossless => "lossless",
        FidelityClass::Lossy => "lossy",
        FidelityClass::Observational => "observational",
        FidelityClass::NotApplicable => "not_applicable",
    }
}

/// The serialized name of a `RequirementLevel`.
pub open spec fn requirement_level_name(value: RequirementLevel) -> Seq<char> {
    match value {
        RequirementLevel::Forbidden => "forbidden"@,
        RequirementLevel::Optional => "optional"@,
        RequirementLevel::Required => "required"@,
    }
}

pub fn requirement_level_name_text(value: RequirementLevel) -> (r: &'static str)
    ensures
        r@ == requirement_level_name(value),
{
    proof {
        reveal_strlit("forbidden");
        reveal_strlit("optional");
        reveal_strlit("required");
    }
    match value {
        RequirementLevel::Forbidden => "forbidden",
        RequirementLevel::Optional => "optional",
        RequirementLevel::Required => "required",
    }
}

/// The serialized name of a `ProgressMode`.
pub open spec fn progress_mode_name(value: ProgressMode) -> Seq<char> {
    match value {
        ProgressMode::Silent => "none"@,
        ProgressMode::LifecycleEvents => "lifecycle_events"@,
        ProgressMode::ItemCounts => "item_counts"@,
        ProgressMode::Fractional => "fractional"@,
    }
}

pub fn progress_mode_name_text(value: ProgressMode) -> (r: &'static str)
    ensures
        r@ == progress_mode_name(value),
{
    proof {
        reveal_strlit("none");
        reveal_strlit("lifecycle_events");
        reveal_strlit("item_counts");
        reveal_strlit("fractional");
    }
    match value {
        ProgressMode::Silent => "none",
        ProgressMode::LifecycleEvents => "lifecycle_events",
        ProgressMode::ItemCounts => "item_counts",
        ProgressMode::Fractional => "fractional",
    }
}

/// The serialized name of a `CancellationMode`.
pub open spec fn cancellation_mode_name(value: CancellationMode) -> Seq<char> {
    match value {
        CancellationMode::Unsupported => "unsupported"@,
        CancellationMode::Cooperative => "cooperative"@,
        CancellationMode::ProcessSignal => "process_signal"@,
    }
}

pub fn cancellation_mode_name_text(value: CancellationMode) -> (r: &'static str)
    ensures
        r@ == cancellation_mode_name(value),
{
    proof {
        reveal_strlit("unsupported");
        reveal_strlit("cooperative");
        reveal_strlit("process_signal");
    }
    match value {
        CancellationMode::Unsupported => "unsupported",
        CancellationMode::Cooperative => "cooperative",
        CancellationMode::ProcessSignal => "process_signal",
    }
}

/// The serialized name of a `ProvenanceField`.
pub open spec fn provenance_field_name(value: ProvenanceField) -> Seq<char> {
    match value {
        ProvenanceField::InputDigests => "input_digests"@,
        ProvenanceField::OutputDigests => "output_digests"@,
        ProvenanceField::PipelineConfiguration => "pipeline_configuration"@,
        ProvenanceField::EffectiveConfiguration => "effective_configuration"@,
        ProvenanceField::ProviderIdentity => "provider_identity"@,
        ProvenanceField::CapabilityIdentity => "capability_identity"@,
        ProvenanceField::ToolVersions => "tool_versions"@,
        ProvenanceField::CodecVersions => "codec_versions"@,
        ProvenanceField::ModelIdentities => "model_identities"@,
        ProvenanceField::ValidationEvidence => "validation_evidence"@,
    }
}

pub fn provenance_field_name_text(value: ProvenanceField) -> (r: &'static str)
    ensures
        r@ == provenance_field_name(value),
{
    proof {
        reveal_strlit("input_digests");
        reveal_strlit("output_digests");
        reveal_strlit("pipeline_configuration");
        reveal_strlit("effective_configuration");
        reveal_strlit("provider_identity");
        reveal_strlit("capability_identity");
        reveal_strlit("tool_versions");
        reveal_strlit("codec_versions");
        reveal_strlit("model_identities");
        reveal_strlit("validation_evidence");
    }
    match value {
        ProvenanceField::InputDigests => "input_digests",
        ProvenanceField::OutputDigests => "output_digests",
        ProvenanceField::PipelineConfiguration => "pipeline_configuration",
        ProvenanceField::EffectiveConfiguration => "effective_configuration",
        ProvenanceField::ProviderIdentity => "provider_identity",
        ProvenanceField::CapabilityIdentity => "capability_identity",
        ProvenanceField::ToolVersions => "tool_versions",
        ProvenanceField::CodecVersions => "codec_versions",
        ProvenanceField::ModelIdentities => "model_identities",
        ProvenanceField::ValidationEvidence => "validation_evidence",
    }
}

/// The serialized form of a `ProviderReference`, members in key order.
pub open spec fn provider_reference_json(value: ProviderReference) -> Json {
    Json::Object(seq![("id"@, Json::Str(value.id@)), ("version"@, Json::Str(value.version@))])
}

pub fn provider_reference_value(value: &ProviderReference) -> (v: JsonValue)
    ensures
        json_of(v) == provider_reference_json(*value),
{
    let mut m: Vec<(String, JsonValue)> = Vec::new();
    member(&mut m, "id", jstr(value.id.as_str()));
    member(&mut m, "version", jstr(value.version.as_str()));
    assert(json_members(m@) =~= match provider_reference_json(*value) { Json::Object(ms) => ms, _ => Seq::empty() });
    JsonValue::Object(m)
}

/// The serialized form of a `CapabilityReference`, members in key order.
pub open spec fn capability_reference_json(value: CapabilityReference) -> Json {
    Json::Object(seq![("id"@, Json::Str(value.id@)), ("version"@, Json::Str(value.version@))])
}

pub fn capability_reference_value(value: &CapabilityReference) -> (v: JsonValue)
    ensures
        json_of(v) == capability_reference_json(*value),
{
    let mut m: Vec<(String, JsonValue)> = Vec::new();
    member(&mut m, "id", jstr(value.id.as_str()));
    member(&mut m, "version", jstr(value.version.as_str()));
    assert(json_members(m@) =~= match capability_reference_json(*value) { Json::Object(ms) => ms, _ => Seq::empty() });
    JsonValue::Object(m)
}

/// The serialized form of a `ConfigurationSchemaReference`, members in key order.
pub open spec fn configuration_schema_reference_json(value: ConfigurationSchemaReference) -> Json {
    Json::Object(seq![("id"@, Json::Str(value.id@)), ("sha256"@, Json::Str(value.sha256@)), ("version"@, Json::Str(value.version@))])
}

pub fn configuration_schema_reference_value(value: &ConfigurationSchemaReference) -> (v: JsonValue)
    ensures
        json_of(v) == configuration_schema_reference_json(*value),
{
    let mut m: Vec<(String, JsonValue)> = Vec::new();
    member(&mut m, "id", jstr(value.id.as_str()));
    member(&mut m, "sha256", jstr(value.sha256.as_str()));
    member(&mut m, "version", jstr(value.version.as_str()));
    assert(json_members(m@) =~= match configuration_schema_reference_json(*value) { Json::Object(ms) => ms, _ => Seq::empty() });
    JsonValue::Object(m)
}

/// The serialized form of a `ComponentIdentity`, members in key order.
pub open spec fn component_identity_json(value: ComponentIdentity) -> Json {
    Json::Object(seq![("id"@, Json::Str(value.id@))] + (match value.sha256 { Some(x) => seq![("sha256"@, Json::Str(x@))], None => Seq::<(Seq<char>, Json)>::empty() }) + seq![("version"@, Json::Str(value.version@))])
}

pub fn component_identity_value(value: &ComponentIdentity) -> (v: JsonValue)
    ensures
        json_of(v) == component_identity_json(*value),
{
    let mut m: Vec<(String, JsonValue)> = Vec::new();
    member(&mut m, "id", jstr(value.id.as_str()));
    match &value.sha256 {
        Some(x) => {
            member(&mut m, "sha256", jstr(x.as_str()));
        },
        None => {},
    }
    member(&mut m, "version", jstr(value.version.as_str()));
    assert(json_members(m@) =~= match component_identity_json(*value) { Json::Object(ms) => ms, _ => Seq::empty() });
    JsonValue::Object(m)
}

pub open spec fn component_identities_json(values: Seq<ComponentIdentity>) -> Json {
    Json::Array(values.map_values(|e: ComponentIdentity| component_identity_json(e)))
}

pub fn component_identities_value(values: &Vec<ComponentIdentity>) -> (v: JsonValue)
    ensures
        json_of(v) == component_identities_json(values@),
{
    let mut items: Vec<JsonValue> = Vec::new();
    let mut i: usize = 0;
    while i < values.len()
        invariant
            i <= values.len(),
            json_items(items@) == values@.take(i as int).map_values(|e: ComponentIdentity| component_identity_json(e)),
        decreases values.len() - i,
    {
        item(&mut items, component_identity_value(&values[i]));
        assert(values@.take(i + 1).map_values(|e: ComponentIdentity| component_identity_json(e)) =~= values@.take(i as int).map_values(
            |e: ComponentIdentity| component_identity_json(e),
        ).push(component_identity_json(values@[i as int])));
        i = i + 1;
    }
    assert(values@.take(values.len() as int) =~= values@);
    JsonValue::Array(items)
}

pub open spec fn side_effects_json(values: Seq<SideEffect>) -> Json {
    Json::Array(values.map_values(|e: SideEffect| Json::Str(side_effect_name(e))))
}

pub fn side_effects_value(values: &Vec<SideEffect>) -> (v: JsonValue)
    ensures
        json_of(v) == side_effects_json(values@),
{
    let mut items: Vec<JsonValue> = Vec::new();
    let mut i: usize = 0;
    while i < values.len()
        invariant
            i <= values.len(),
            json_items(items@) == values@.take(i as int).map_values(|e: SideEffect| Json::Str(side_effect_name(e))),
        decreases values.len() - i,
    {
        item(&mut items, jstr(side_effect_name_text(values[i])));
        assert(values@.take(i + 1).map_values(|e: SideEffect| Json::Str(side_effect_name(e))) =~= values@.take(i as int).map_values(
            |e: SideEffect| Json::Str(side_effect_name(e)),
        ).push(Json::Str(side_effect_name(values@[i as int]))));
        i = i + 1;
    }
    assert(values@.take(values.len() as int) =~= values@);
    JsonValue::Array(items)
}

/// The serialized form of a `ProviderImplementationIdentity`, members in key order.
pub open spec fn provider_implementation_identity_json(value: ProviderImplementationIdentity) -> Json {
    Json::Object(seq![("executable_sha256"@, Json::Str(value.executable_sha256@)), ("id"@, Json::Str(value.id@))])
}

pub fn provider_implementation_identity_value(value: &ProviderImplementationIdentity) -> (v: JsonValue)
    ensures
        json_of(v) == provider_implementation_identity_json(*value),
{
    let mut m: Vec<(String, JsonValue)> = Vec::new();
    member(&mut m, "executable_sha256", jstr(value.executable_sha256.as_str()));
    member(&mut m, "id", jstr(value.id.as_str()));
    assert(json_members(m@) =~= match provider_implementation_identity_json(*value) { Json::Object(ms) => ms, _ => Seq::empty() });
    JsonValue::Object(m)
}

/// The serialized form of a `ProviderSelection`, members in key order.
pub open spec fn provider_selection_json(value: ProviderSelection) -> Json {
    Json::Object((match value.fallback_index { Some(x) => seq![("fallback_index"@, Json::Number(decimal(x as nat)))], None => Seq::<(Seq<char>, Json)>::empty() }) + seq![("source"@, Json::Str(provider_selection_source_name(value.source)))])
}

pub fn provider_selection_value(value: &ProviderSelection) -> (v: JsonValue)
    ensures
        json_of(v) == provider_selection_json(*value),
{
    let mut m: Vec<(String, JsonValue)> = Vec::new();
    match &value.fallback_index {
        Some(x) => {
            member(&mut m, "fallback_index", jnum(*x as u64));
        },
        None => {},
    }
    member(&mut m, "source", jstr(provider_selection_source_name_text(value.source)));
    assert(json_members(m@) =~= match provider_selection_json(*value) { Json::Object(ms) => ms, _ => Seq::empty() });
    JsonValue::Object(m)
}

/// The serialized form of a `ProviderLockPayload`, members in key order.
pub open spec fn provider_lock_payload_json(value: ProviderLockPayload) -> Json {
    Json::Object(seq![("authorized_side_effects"@, side_effects_json(value.authorized_side_effects@)), ("capability"@, capability_reference_json(value.capability)), ("codecs"@, component_identities_json(value.codecs@)), ("configuration_schema"@, configuration_schema_reference_json(value.configuration_schema)), ("effective_configuration_sha256"@, Json::Str(value.effective_configuration_sha256@)), ("implementation"@, provider_implementation_identity_json(value.implementation)), ("manifest_sha256"@, Json::Str(value.manifest_sha256@)), ("models"@, component_identities_json(value.models@)), ("offline"@, Json::Bool(value.offline)), ("provider"@, provider_reference_json(value.provider)), ("registration_id"@, Json::Str(value.registration_id@)), ("selection"@, provider_selection_json(value.selection)), ("tools"@, component_identities_json(value.tools@))])
}

pub fn provider_lock_payload_value(value: &ProviderLockPayload) -> (v: JsonValue)
    ensures
        json_of(v) == provider_lock_payload_json(*value),
{
    let mut m: Vec<(String, JsonValue)> = Vec::new();
    member(&mut m, "authorized_side_effects", side_effects_value(&value.authorized_side_effects));
    member(&mut m, "capability", capability_reference_value(&value.capability));
    member(&mut m, "codecs", component_identities_value(&value.codecs));
    member(&mut m, "configuration_schema", configuration_schema_reference_value(&value.configuration_schema));
    member(&mut m, "effective_configuration_sha256", jstr(value.effective_configuration_sha256.as_str()));
    member(&mut m, "implementation", provider_implementation_identity_value(&value.implementation));
    member(&mut m, "manifest_sha256", jstr(value.manifest_sha256.as_str()));
    member(&mut m, "models", component_identities_value(&value.models));
    member(&mut m, "offline", JsonValue::Bool(value.offline));
    member(&mut m, "provider", provider_reference_value(&value.provider));
    member(&mut m, "registration_id", jstr(value.registration_id.as_str()));
    member(&mut m, "selection", provider_selection_value(&value.selection));
    member(&mut m, "tools", component_identities_value(&value.tools));
    assert(json_members(m@) =~= match provider_lock_payload_json(*value) { Json::Object(ms) => ms, _ => Seq::empty() });
    JsonValue::Object(m)
}

/// The serialized form of a `ProviderLock`, members in key order.
pub open spec fn provider_lock_json(value: ProviderLock) -> Json {
    Json::Object(seq![("algorithm"@, Json::Str(value.algorithm@)), ("lock_sha256"@, Json::Str(value.lock_sha256@)), ("payload"@, provider_lock_payload_json(value.payload)), ("schema"@, Json::Str(value.schema@))])
}

pub fn provider_lock_value(value: &ProviderLock) -> (v: JsonValue)
    ensures
        json_of(v) == provider_lock_json(*value),
{
    let mut m: Vec<(String, JsonValue)> = Vec::new();
    member(&mut m, "algorithm", jstr(value.algorithm.as_str()));
    member(&mut m, "lock_sha256", jstr(value.lock_sha256.as_str()));
    member(&mut m, "payload", provider_lock_payload_value(&value.payload));
    member(&mut m, "schema", jstr(value.schema.as_str()));
    assert(json_members(m@) =~= match provider_lock_json(*value) { Json::Object(ms) => ms, _ => Seq::empty() });
    JsonValue::Object(m)
}

/// The serialized form of a `ProviderIdentity`, members in key order.
pub open spec fn provider_identity_json(value: ProviderIdentity) -> Json {
    Json::Object(seq![("display_name"@, Json::Str(value.display_name@)), ("id"@, Json::Str(value.id@)), ("version"@, Json::Str(value.version@))])
}

pub fn provider_identity_value(value: &ProviderIdentity) -> (v: JsonValue)
    ensures
        json_of(v) == provider_identity_json(*value),
{
    let mut m: Vec<(String, JsonValue)> = Vec::new();
    member(&mut m, "display_name", jstr(value.display_name.as_str()));
    member(&mut m, "id", jstr(value.id.as_str()));
    member(&mut m, "version", jstr(value.version.as_str()));
    assert(json_members(m@) =~= match provider_identity_json(*value) { Json::Object(ms) => ms, _ => Seq::empty() });
    JsonValue::Object(m)
}

pub open spec fn configuration_schemas_json(values: Seq<ConfigurationSchemaReference>) -> Json {
    Json::Array(values.map_values(|e: ConfigurationSchemaReference| configuration_schema_reference_json(e)))
}

pub fn configuration_schemas_value(values: &Vec<ConfigurationSchemaReference>) -> (v: JsonValue)
    ensures
        json_of(v) == configuration_schemas_json(values@),
{
    let mut items: Vec<JsonValue> = Vec::new();
    let mut i: usize = 0;
    while i < values.len()
        invariant
            i <= values.len(),
            json_items(items@) == values@.take(i as int).map_values(|e: ConfigurationSchemaReference| configuration_schema_reference_json(e)),
        decreases values.len() - i,
    {
        item(&mut items, configuration_schema_reference_value(&values[i]));
        assert(values@.take(i + 1).map_values(|e: ConfigurationSchemaReference| configuration_schema_reference_json(e)) =~= values@.take(i as int).map_values(
            |e: ConfigurationSchemaReference| configuration_schema_reference_json(e),
        ).push(configuration_schema_reference_json(values@[i as int])));
        i = i + 1;
    }
    assert(values@.take(values.len() as int) =~= values@);
    JsonValue::Array(items)
}

/// The serialized form of a `ArtifactPort`, members in key order.
pub open spec fn artifact_port_json(value: ArtifactPort) -> Json {
    Json::Object(seq![("artifact_role"@, Json::Str(artifact_role_name(value.artifact_role))), ("artifact_type"@, Json::Str(value.artifact_type@)), ("cardinality"@, Json::Str(artifact_cardinality_name(value.cardinality))), ("immutable"@, Json::Bool(value.immutable)), ("name"@, Json::Str(value.name@))] + (match value.stream_role { Some(x) => seq![("stream_role"@, Json::Str(stream_role_name(x)))], None => Seq::<(Seq<char>, Json)>::empty() }))
}

pub fn artifact_port_value(value: &ArtifactPort) -> (v: JsonValue)
    ensures
        json_of(v) == artifact_port_json(*value),
{
    let mut m: Vec<(String, JsonValue)> = Vec::new();
    member(&mut m, "artifact_role", jstr(artifact_role_name_text(value.artifact_role)));
    member(&mut m, "artifact_type", jstr(value.artifact_type.as_str()));
    member(&mut m, "cardinality", jstr(artifact_cardinality_name_text(value.cardinality)));
    member(&mut m, "immutable", JsonValue::Bool(value.immutable));
    member(&mut m, "name", jstr(value.name.as_str()));
    match &value.stream_role {
        Some(x) => {
            member(&mut m, "stream_role", jstr(stream_role_name_text(*x)));
        },
        None => {},
    }
    assert(json_members(m@) =~= match artifact_port_json(*value) { Json::Object(ms) => ms, _ => Seq::empty() });
    JsonValue::Object(m)
}

pub open spec fn artifact_ports_json(values: Seq<ArtifactPort>) -> Json {
    Json::Array(values.map_values(|e: ArtifactPort| artifact_port_json(e)))
}

pub fn artifact_ports_value(values: &Vec<ArtifactPort>) -> (v: JsonValue)
    ensures
        json_of(v) == artifact_ports_json(values@),
{
    let mut items: Vec<JsonValue> = Vec::new();
    let mut i: usize = 0;
    while i < values.len()
        invariant
            i <= values.len(),
            json_items(items@) == values@.take(i as int).map_values(|e: ArtifactPort| artifact_port_json(e)),
        decreases values.len() - i,
    {
        item(&mut items, artifact_port_value(&values[i]));
        assert(values@.take(i + 1).map_values(|e: ArtifactPort| artifact_port_json(e)) =~= values@.take(i as int).map_values(
            |e: ArtifactPort| artifact_port_json(e),
        ).push(artifact_port_json(values@[i as int])));
        i = i + 1;
    }
    assert(values@.take(values.len() as int) =~= values@);
    JsonValue::Array(items)
}

/// The serialized form of a `ComponentRequirement`, members in key order.
pub open spec fn component_requirement_json(value: ComponentRequirement) -> Json {
    Json::Object(seq![("id"@, Json::Str(value.id@))] + (match value.sha256 { Some(x) => seq![("sha256"@, Json::Str(x@))], None => Seq::<(Seq<char>, Json)>::empty() }) + seq![("version_requirement"@, Json::Str(value.version_requirement@))])
}

pub fn component_requirement_value(value: &ComponentRequirement) -> (v: JsonValue)
    ensures
        json_of(v) == component_requirement_json(*value),
{
    let mut m: Vec<(String, JsonValue)> = Vec::new();
    member(&mut m, "id", jstr(value.id.as_str()));
    match &value.sha256 {
        Some(x) => {
            member(&mut m, "sha256", jstr(x.as_str()));
        },
        None => {},
    }
    member(&mut m, "version_requirement", jstr(value.version_requirement.as_str()));
    assert(json_members(m@) =~= match component_requirement_json(*value) { Json::Object(ms) => ms, _ => Seq::empty() });
    JsonValue::Object(m)
}

pub open spec fn component_requirements_json(values: Seq<ComponentRequirement>) -> Json {
    Json::Array(values.map_values(|e: ComponentRequirement| component_requirement_json(e)))
}

pub fn component_requirements_value(values: &Vec<ComponentRequirement>) -> (v: JsonValue)
    ensures
        json_of(v) == component_requirements_json(values@),
{
    let mut items: Vec<JsonValue> = Vec::new();
    let mut i: usize = 0;
    while i < values.len()
        invariant
            i <= values.len(),
            json_items(items@) == values@.take(i as int).map_values(|e: ComponentRequirement| component_requirement_json(e)),
        decreases values.len() - i,
    {
        item(&mut items, component_requirement_value(&values[i]));
        assert(values@.take(i + 1).map_values(|e: ComponentRequirement| component_requirement_json(e)) =~= values@.take(i as int).map_values(
            |e: ComponentRequirement| component_requirement_json(e),
        ).push(component_requirement_json(values@[i as int])));
        i = i + 1;
    }
    assert(values@.take(values.len() as int) =~= values@);
    JsonValue::Array(items)
}

/// The serialized form of a `ComputeRequirements`, members in key order.
pub open spec fn compute_requirements_json(value: ComputeRequirements) -> Json {
    Json::Object(seq![("gpu"@, Json::Str(requirement_level_name(value.gpu))), ("minimum_cpu_threads"@, Json::Number(decimal(value.minimum_cpu_threads as nat))), ("minimum_memory_mib"@, Json::Number(decimal(value.minimum_memory_mib as nat))), ("minimum_storage_mib"@, Json::Number(decimal(value.minimum_storage_mib as nat))), ("network"@, Json::Str(requirement_level_name(value.network)))])
}

pub fn compute_requirements_value(value: &ComputeRequirements) -> (v: JsonValue)
    ensures
        json_of(v) == compute_requirements_json(*value),
{
    let mut m: Vec<(String, JsonValue)> = Vec::new();
    member(&mut m, "gpu", jstr(requirement_level_name_text(value.gpu)));
    member(&mut m, "minimum_cpu_threads", jnum(value.minimum_cpu_threads as u64));
    member(&mut m, "minimum_memory_mib", jnum(value.minimum_memory_mib as u64));
    member(&mut m, "minimum_storage_mib", jnum(value.minimum_storage_mib as u64));
    member(&mut m, "network", jstr(requirement_level_name_text(value.network)));
    assert(json_members(m@) =~= match compute_requirements_json(*value) { Json::Object(ms) => ms, _ => Seq::empty() });
    JsonValue::Object(m)
}

/// The serialized form of a `ProviderRequirements`, members in key order.
pub open spec fn provider_requirements_json(value: ProviderRequirements) -> Json {
    Json::Object(seq![("codecs"@, component_requirements_json(value.codecs@)), ("compute"@, compute_requirements_json(value.compute)), ("models"@, component_requirements_json(value.models@)), ("tools"@, component_requirements_json(value.tools@))])
}

pub fn provider_requirements_value(value: &ProviderRequirements) -> (v: JsonValue)
    ensures
        json_of(v) == provider_requirements_json(*value),
{
    let mut m: Vec<(String, JsonValue)> = Vec::new();
    member(&mut m, "codecs", component_requirements_value(&value.codecs));
    member(&mut m, "compute", compute_requirements_value(&value.compute));
    member(&mut m, "models", component_requirements_value(&value.models));
    member(&mut m, "tools", component_requirements_value(&value.tools));
    assert(json_members(m@) =~= match provider_requirements_json(*value) { Json::Object(ms) => ms, _ => Seq::empty() });
    JsonValue::Object(m)
}

/// The serialized form of a `CapabilityBehavior`, members in key order.
pub open spec fn capability_behavior_json(value: CapabilityBehavior) -> Json {
    Json::Object(seq![("cacheable"@, Json::Bool(value.cacheable)), ("content_changes"@, Json::Bool(value.content_changes)), ("determinism"@, Json::Str(determinism_class_name(value.determinism))), ("fidelity"@, Json::Str(fidelity_class_name(value.fidelity))), ("side_effects"@, side_effects_json(value.side_effects@))])
}

pub fn capability_behavior_value(value: &CapabilityBehavior) -> (v: JsonValue)
    ensures
        json_of(v) == capability_behavior_json(*value),
{
    let mut m: Vec<(String, JsonValue)> = Vec::new();
    member(&mut m, "cacheable", JsonValue::Bool(value.cacheable));
    member(&mut m, "content_changes", JsonValue::Bool(value.content_changes));
    member(&mut m, "determinism", jstr(determinism_class_name_text(value.determinism)));
    member(&mut m, "fidelity", jstr(fidelity_class_name_text(value.fidelity)));
    member(&mut m, "side_effects", side_effects_value(&value.side_effects));
    assert(json_members(m@) =~= match capability_behavior_json(*value) { Json::Object(ms) => ms, _ => Seq::empty() });
    JsonValue::Object(m)
}

/// The serialized form of a `LifecycleSupport`, members in key order.
pub open spec fn lifecycle_support_json(value: LifecycleSupport) -> Json {
    Json::Object(seq![("cancellation"@, Json::Str(cancellation_mode_name(value.cancellation))), ("progress"@, Json::Str(progress_mode_name(value.progress)))])
}

pub fn lifecycle_support_value(value: &LifecycleSupport) -> (v: JsonValue)
    ensures
        json_of(v) == lifecycle_support_json(*value),
{
    let mut m: Vec<(String, JsonValue)> = Vec::new();
    member(&mut m, "cancellation", jstr(cancellation_mode_name_text(value.cancellation)));
    member(&mut m, "progress", jstr(progress_mode_name_text(value.progress)));
    assert(json_members(m@) =~= match lifecycle_support_json(*value) { Json::Object(ms) => ms, _ => Seq::empty() });
    JsonValue::Object(m)
}

/// The serialized form of a `CapabilityDeclaration`, members in key order.
pub open spec fn capability_declaration_json(value: CapabilityDeclaration) -> Json {
    Json::Object(seq![("batching"@, Json::Str(batching_mode_name(value.batching))), ("behavior"@, capability_behavior_json(value.behavior)), ("configuration_schema"@, configuration_schema_reference_json(value.configuration_schema)), ("id"@, Json::Str(value.id@)), ("inputs"@, artifact_ports_json(value.inputs@)), ("kind"@, Json::Str(capability_kind_name(value.kind))), ("lifecycle"@, lifecycle_support_json(value.lifecycle)), ("max_concurrency"@, Json::Number(decimal(value.max_concurrency as nat))), ("outputs"@, artifact_ports_json(value.outputs@)), ("requirements"@, provider_requirements_json(value.requirements)), ("version"@, Json::Str(value.version@))])
}

pub fn capability_declaration_value(value: &CapabilityDeclaration) -> (v: JsonValue)
    ensures
        json_of(v) == capability_declaration_json(*value),
{
    let mut m: Vec<(String, JsonValue)> = Vec::new();
    member(&mut m, "batching", jstr(batching_mode_name_text(value.batching)));
    member(&mut m, "behavior", capability_behavior_value(&value.behavior));
    member(&mut m, "configuration_schema", configuration_schema_reference_value(&value.configuration_schema));
    member(&mut m, "id", jstr(value.id.as_str()));
    member(&mut m, "inputs", artifact_ports_value(&value.inputs));
    member(&mut m, "kind", jstr(capability_kind_name_text(value.kind)));
    member(&mut m, "lifecycle", lifecycle_support_value(&value.lifecycle));
    member(&mut m, "max_concurrency", jnum(value.max_concurrency as u64));
    member(&mut m, "outputs", artifact_ports_value(&value.outputs));
    member(&mut m, "requirements", provider_requirements_value(&value.requirements));
    member(&mut m, "version", jstr(value.version.as_str()));
    assert(json_members(m@) =~= match capability_declaration_json(*value) { Json::Object(ms) => ms, _ => Seq::empty() });
    JsonValue::Object(m)
}

pub open spec fn capabilities_json(values: Seq<CapabilityDeclaration>) -> Json {
    Json::Array(values.map_values(|e: CapabilityDeclaration| capability_declaration_json(e)))
}

pub fn capabilities_value(values: &Vec<CapabilityDeclaration>) -> (v: JsonValue)
    ensures
        json_of(v) == capabilities_json(values@),
{
    let mut items: Vec<JsonValue> = Vec::new();
    let mut i: usize = 0;
    while i < values.len()
        invariant
            i <= values.len(),
            json_items(items@) == values@.take(i as int).map_values(|e: CapabilityDeclaration| capability_declaration_json(e)),
        decreases values.len() - i,
    {
        item(&mut items, capability_declaration_value(&values[i]));
        assert(values@.take(i + 1).map_values(|e: CapabilityDeclaration| capability_declaration_json(e)) =~= values@.take(i as int).map_values(
            |e: CapabilityDeclaration| capability_declaration_json(e),
        ).push(capability_declaration_json(values@[i as int])));
        i = i + 1;
    }
    assert(values@.take(values.len() as int) =~= values@);
    JsonValue::Array(items)
}

pub open spec fn provenance_fields_json(values: Seq<ProvenanceField>) -> Json {
    Json::Array(values.map_values(|e: ProvenanceField| Json::Str(provenance_field_name(e))))
}

pub fn provenance_fields_value(values: &Vec<ProvenanceField>) -> (v: JsonValue)
    ensures
        json_of(v) == provenance_fields_json(values@),
{
    let mut items: Vec<JsonValue> = Vec::new();
    let mut i: usize = 0;
    while i < values.len()
        invariant
            i <= values.len(),
            json_items(items@) == values@.take(i as int).map_values(|e: ProvenanceField| Json::Str(provenance_field_name(e))),
        decreases values.len() - i,
    {
        item(&mut items, jstr(provenance_field_name_text(values[i])));
        assert(values@.take(i + 1).map_values(|e: ProvenanceField| Json::Str(provenance_field_name(e))) =~= values@.take(i as int).map_values(
            |e: ProvenanceField| Json::Str(provenance_field_name(e)),
        ).push(Json::Str(provenance_field_name(values@[i as int]))));
        i = i + 1;
    }
    assert(values@.take(values.len() as int) =~= values@);
    JsonValue::Array(items)
}

/// The serialized form of a `ProvenanceContract`, members in key order.
pub open spec fn provenance_contract_json(value: ProvenanceContract) -> Json {
    Json::Object(seq![("required"@, provenance_fields_json(value.required@))])
}

pub fn provenance_contract_value(value: &ProvenanceContract) -> (v: JsonValue)
    ensures
        json_of(v) == provenance_contract_json(*value),
{
    let mut m: Vec<(String, JsonValue)> = Vec::new();
    member(&mut m, "required", provenance_fields_value(&value.required));
    assert(json_members(m@) =~= match provenance_contract_json(*value) { Json::Object(ms) => ms, _ => Seq::empty() });
    JsonValue::Object(m)
}

/// The serialized form of a `ProviderManifest`, members in key order.
pub open spec fn provider_manifest_json(value: ProviderManifest) -> Json {
    Json::Object(seq![("capabilities"@, capabilities_json(value.capabilities@)), ("configuration_schemas"@, configuration_schemas_json(value.configuration_schemas@)), ("provenance"@, provenance_contract_json(value.provenance)), ("provider"@, provider_identity_json(value.provider)), ("schema"@, Json::Str(value.schema@))])
}

pub fn provider_manifest_value(value: &ProviderManifest) -> (v: JsonValue)
    ensures
        json_of(v) == provider_manifest_json(*value),
{
    let mut m: Vec<(String, JsonValue)> = Vec::new();
    member(&mut m, "capabilities", capabilities_value(&value.capabilities));
    member(&mut m, "configuration_schemas", configuration_schemas_value(&value.configuration_schemas));
    member(&mut m, "provenance", provenance_contract_value(&value.provenance));
    member(&mut m, "provider", provider_identity_value(&value.provider));
    member(&mut m, "schema", jstr(value.schema.as_str()));
    assert(json_members(m@) =~= match provider_manifest_json(*value) { Json::Object(ms) => ms, _ => Seq::empty() });
    JsonValue::Object(m)
}

/// The serialized form of a `FingerprintArtifact`, members in key order.
pub open spec fn fingerprint_artifact_json(value: FingerprintArtifact) -> Json {
    Json::Object(seq![("artifact_role"@, Json::Str(artifact_role_name(value.artifact_role))), ("artifact_type"@, Json::Str(value.artifact_type@)), ("sha256"@, Json::Str(value.sha256@))])
}

pub fn fingerprint_artifact_value(value: &FingerprintArtifact) -> (v: JsonValue)
    ensures
        json_of(v) == fingerprint_artifact_json(*value),
{
    let mut m: Vec<(String, JsonValue)> = Vec::new();
    member(&mut m, "artifact_role", jstr(artifact_role_name_text(value.artifact_role)));
    member(&mut m, "artifact_type", jstr(value.artifact_type.as_str()));
    member(&mut m, "sha256", jstr(value.sha256.as_str()));
    assert(json_members(m@) =~= match fingerprint_artifact_json(*value) { Json::Object(ms) => ms, _ => Seq::empty() });
    JsonValue::Object(m)
}

pub open spec fn fingerprint_artifacts_json(values: Seq<FingerprintArtifact>) -> Json {
    Json::Array(values.map_values(|e: FingerprintArtifact| fingerprint_artifact_json(e)))
}

pub fn fingerprint_artifacts_value(values: &Vec<FingerprintArtifact>) -> (v: JsonValue)
    ensures
        json_of(v) == fingerprint_artifacts_json(values@),
{
    let mut items: Vec<JsonValue> = Vec::new();
    let mut i: usize = 0;
    while i < values.len()
        invariant
            i <= values.len(),
            json_items(items@) == values@.take(i as int).map_values(|e: FingerprintArtifact| fingerprint_artifact_json(e)),
        decreases values.len() - i,
    {
        item(&mut items, fingerprint_artifact_value(&values[i]));
        assert(values@.take(i + 1).map_values(|e: FingerprintArtifact| fingerprint_artifact_json(e)) =~= values@.take(i as int).map_values(
            |e: FingerprintArtifact| fingerprint_artifact_json(e),
        ).push(fingerprint_artifact_json(values@[i as int])));
        i = i + 1;
    }
    assert(values@.take(values.len() as int) =~= values@);
    JsonValue::Array(items)
}

/// The serialized form of a `ValidatedOutputFingerprint`, members in key order.
pub open spec fn validated_output_fingerprint_json(value: ValidatedOutputFingerprint) -> Json {
    Json::Object(seq![("artifact"@, fingerprint_artifact_json(value.artifact)), ("validation_contract"@, Json::Str(value.validation_contract@)), ("validation_sha256"@, Json::Str(value.validation_sha256@))])
}

pub fn validated_output_fingerprint_value(value: &ValidatedOutputFingerprint) -> (v: JsonValue)
    ensures
        json_of(v) == validated_output_fingerprint_json(*value),
{
    let mut m: Vec<(String, JsonValue)> = Vec::new();
    member(&mut m, "artifact", fingerprint_artifact_value(&value.artifact));
    member(&mut m, "validation_contract", jstr(value.validation_contract.as_str()));
    member(&mut m, "validation_sha256", jstr(value.validation_sha256.as_str()));
    assert(json_members(m@) =~= match validated_output_fingerprint_json(*value) { Json::Object(ms) => ms, _ => Seq::empty() });
    JsonValue::Object(m)
}

pub open spec fn validated_outputs_json(values: Seq<ValidatedOutputFingerprint>) -> Json {
    Json::Array(values.map_values(|e: ValidatedOutputFingerprint| validated_output_fingerprint_json(e)))
}

pub fn validated_outputs_value(values: &Vec<ValidatedOutputFingerprint>) -> (v: JsonValue)
    ensures
        json_of(v) == validated_outputs_json(values@),
{
    let mut items: Vec<JsonValue> = Vec::new();
    let mut i: usize = 0;
    while i < values.len()
        invariant
            i <= values.len(),
            json_items(items@) == values@.take(i as int).map_values(|e: ValidatedOutputFingerprint| validated_output_fingerprint_json(e)),
        decreases values.len() - i,
    {
        item(&mut items, validated_output_fingerprint_value(&values[i]));
        assert(values@.take(i + 1).map_values(|e: ValidatedOutputFingerprint| validated_output_fingerprint_json(e)) =~= values@.take(i as int).map_values(
            |e: ValidatedOutputFingerprint| validated_output_fingerprint_json(e),
        ).push(validated_output_fingerprint_json(values@[i as int])));
        i = i + 1;
    }
    assert(values@.take(values.len() as int) =~= values@);
    JsonValue::Array(items)
}

/// The serialized form of a `CompatibilityFingerprintPayload`, members in key order.
pub open spec fn compatibility_fingerprint_payload_json(value: CompatibilityFingerprintPayload) -> Json {
    Json::Object(seq![("capability"@, capability_reference_json(value.capability)), ("codecs"@, component_identities_json(value.codecs@)), ("configuration_schema"@, configuration_schema_reference_json(value.configuration_schema)), ("effective_configuration_sha256"@, Json::Str(value.effective_configuration_sha256@)), ("input_artifacts"@, fingerprint_artifacts_json(value.input_artifacts@)), ("models"@, component_identities_json(value.models@)), ("pipeline_configuration_sha256"@, Json::Str(value.pipeline_configuration_sha256@)), ("provider"@, provider_reference_json(value.provider)), ("tools"@, component_identities_json(value.tools@)), ("validated_outputs"@, validated_outputs_json(value.validated_outputs@))])
}

pub fn compatibility_fingerprint_payload_value(value: &CompatibilityFingerprintPayload) -> (v: JsonValue)
    ensures
        json_of(v) == compatibility_fingerprint_payload_json(*value),
{
    let mut m: Vec<(String, JsonValue)> = Vec::new();
    member(&mut m, "capability", capability_reference_value(&value.capability));
    member(&mut m, "codecs", component_identities_value(&value.codecs));
    member(&mut m, "configuration_schema", configuration_schema_reference_value(&value.configuration_schema));
    member(&mut m, "effective_configuration_sha256", jstr(value.effective_configuration_sha256.as_str()));
    member(&mut m, "input_artifacts", fingerprint_artifacts_value(&value.input_artifacts));
    member(&mut m, "models", component_identities_value(&value.models));
    member(&mut m, "pipeline_configuration_sha256", jstr(value.pipeline_configuration_sha256.as_str()));
    member(&mut m, "provider", provider_reference_value(&value.provider));
    member(&mut m, "tools", component_identities_value(&value.tools));
    member(&mut m, "validated_outputs", validated_outputs_value(&value.validated_outputs));
    assert(json_members(m@) =~= match compatibility_fingerprint_payload_json(*value) { Json::Object(ms) => ms, _ => Seq::empty() });
    JsonValue::Object(m)
}

/// The serialized name of a `ArtifactKind`.
pub open spec fn artifact_kind_name(value: ArtifactKind) -> Seq<char> {
    match value {
        ArtifactKind::File => "file"@,
        ArtifactKind::Directory => "directory"@,
    }
}

pub fn artifact_kind_name_text(value: ArtifactKind) -> (r: &'static str)
    ensures
        r@ == artifact_kind_name(value),
{
    proof {
        reveal_strlit("file");
        reveal_strlit("directory");
    }
    match value {
        ArtifactKind::File => "file",
        ArtifactKind::Directory => "directory",
    }
}

/// The serialized name of a `StreamKind`.
pub open spec fn stream_kind_name(value: StreamKind) -> Seq<char> {
    match value {
        StreamKind::Stdout => "stdout"@,
        StreamKind::Stderr => "stderr"@,
    }
}

pub fn stream_kind_name_text(value: StreamKind) -> (r: &'static str)
    ensures
        r@ == stream_kind_name(value),
{
    proof {
        reveal_strlit("stdout");
        reveal_strlit("stderr");
    }
    match value {
        StreamKind::Stdout => "stdout",
        StreamKind::Stderr => "stderr",
    }
}

/// The serialized name of a `ProviderEventKind`.
pub open spec fn provider_event_kind_name(value: ProviderEventKind) -> Seq<char> {
    match value {
        ProviderEventKind::ExecutionStarted => "execution_started"@,
        ProviderEventKind::CancellationObserved => "cancellation_observed"@,
        ProviderEventKind::TimeoutExceeded => "timeout_exceeded"@,
        ProviderEventKind::CaptureLimitExceeded => "capture_limit_exceeded"@,
        ProviderEventKind::ArtifactLimitExceeded => "artifact_limit_exceeded"@,
        ProviderEventKind::ProcessExited => "process_exited"@,
        ProviderEventKind::OutputValidationStarted => "output_validation_started"@,
        ProviderEventKind::OutputValidated => "output_validated"@,
        ProviderEventKind::ExecutionSucceeded => "execution_succeeded"@,
        ProviderEventKind::ExecutionFailed => "execution_failed"@,
    }
}

pub fn provider_event_kind_name_text(value: ProviderEventKind) -> (r: &'static str)
    ensures
        r@ == provider_event_kind_name(value),
{
    proof {
        reveal_strlit("execution_started");
        reveal_strlit("cancellation_observed");
        reveal_strlit("timeout_exceeded");
        reveal_strlit("capture_limit_exceeded");
        reveal_strlit("artifact_limit_exceeded");
        reveal_strlit("process_exited");
        reveal_strlit("output_validation_started");
        reveal_strlit("output_validated");
        reveal_strlit("execution_succeeded");
        reveal_strlit("execution_failed");
    }
    match value {
        ProviderEventKind::ExecutionStarted => "execution_started",
        ProviderEventKind::CancellationObserved => "cancellation_observed",
        ProviderEventKind::TimeoutExceeded => "timeout_exceeded",
        ProviderEventKind::CaptureLimitExceeded => "capture_limit_exceeded",
        ProviderEventKind::ArtifactLimitExceeded => "artifact_limit_exceeded",
        ProviderEventKind::ProcessExited => "process_exited",
        ProviderEventKind::OutputValidationStarted => "output_validation_started",
        ProviderEventKind::OutputValidated => "output_validated",
        ProviderEventKind::ExecutionSucceeded => "execution_succeeded",
        ProviderEventKind::ExecutionFailed => "execution_failed",
    }
}

/// The serialized name of a `TerminationReason`.
pub open spec fn termination_reason_name(value: TerminationReason) -> Seq<char> {
    match value {
        TerminationReason::NaturalExit => "natural_exit"@,
        TerminationReason::PreflightRejected => "preflight_rejected"@,
        TerminationReason::SpawnFailed => "spawn_failed"@,
        TerminationReason::Cancelled => "cancelled"@,
        TerminationReason::TimedOut => "timed_out"@,
        TerminationReason::CaptureLimitExceeded => "capture_limit_exceeded"@,
        TerminationReason::ArtifactLimitExceeded => "artifact_limit_exceeded"@,
    }
}

pub fn termination_reason_name_text(value: TerminationReason) -> (r: &'static str)
    ensures
        r@ == termination_reason_name(value),
{
    proof {
        reveal_strlit("natural_exit");
        reveal_strlit("preflight_rejected");
        reveal_strlit("spawn_failed");
        reveal_strlit("cancelled");
        reveal_strlit("timed_out");
        reveal_strlit("capture_limit_exceeded");
        reveal_strlit("artifact_limit_exceeded");
    }
    match value {
        TerminationReason::NaturalExit => "natural_exit",
        TerminationReason::PreflightRejected => "preflight_rejected",
        TerminationReason::SpawnFailed => "spawn_failed",
        TerminationReason::Cancelled => "cancelled",
        TerminationReason::TimedOut => "timed_out",
        TerminationReason::CaptureLimitExceeded => "capture_limit_exceeded",
        TerminationReason::ArtifactLimitExceeded => "artifact_limit_exceeded",
    }
}

/// The serialized name of a `ProviderExecutionOutcome`.
pub open spec fn provider_execution_outcome_name(value: ProviderExecutionOutcome) -> Seq<char> {
    match value {
        ProviderExecutionOutcome::Succeeded => "succeeded"@,
        ProviderExecutionOutcome::Failed => "failed"@,
        ProviderExecutionOutcome::Cancelled => "cancelled"@,
        ProviderExecutionOutcome::TimedOut => "timed_out"@,
        ProviderExecutionOutcome::CaptureLimitExceeded => "capture_limit_exceeded"@,
        ProviderExecutionOutcome::ArtifactLimitExceeded => "artifact_limit_exceeded"@,
        ProviderExecutionOutcome::InvalidOutput => "invalid_output"@,
    }
}

pub fn provider_execution_outcome_name_text(value: ProviderExecutionOutcome) -> (r: &'static str)
    ensures
        r@ == provider_execution_outcome_name(value),
{
    proof {
        reveal_strlit("succeeded");
        reveal_strlit("failed");
        reveal_strlit("cancelled");
        reveal_strlit("timed_out");
        reveal_strlit("capture_limit_exceeded");
        reveal_strlit("artifact_limit_exceeded");
        reveal_strlit("invalid_output");
    }
    match value {
        ProviderExecutionOutcome::Succeeded => "succeeded",
        ProviderExecutionOutcome::Failed => "failed",
        ProviderExecutionOutcome::Cancelled => "cancelled",
        ProviderExecutionOutcome::TimedOut => "timed_out",
        ProviderExecutionOutcome::CaptureLimitExceeded => "capture_limit_exceeded",
        ProviderExecutionOutcome::ArtifactLimitExceeded => "artifact_limit_exceeded",
        ProviderExecutionOutcome::InvalidOutput => "invalid_output",
    }
}

/// The serialized name of a `ProviderExecutionFailureCode`.
pub open spec fn provider_execution_failure_code_name(value: ProviderExecutionFailureCode) -> Seq<char> {
    match value {
        ProviderExecutionFailureCode::ImplementationChanged => "implementation_changed"@,
        ProviderExecutionFailureCode::SpawnFailed => "spawn_failed"@,
        ProviderExecutionFailureCode::ExitFailure => "exit_failure"@,
        ProviderExecutionFailureCode::Cancelled => "cancelled"@,
        ProviderExecutionFailureCode::Timeout => "timeout"@,
        ProviderExecutionFailureCode::StdoutLimit => "stdout_limit"@,
        ProviderExecutionFailureCode::StderrLimit => "stderr_limit"@,
        ProviderExecutionFailureCode::ArtifactFileLimit => "artifact_file_limit"@,
        ProviderExecutionFailureCode::ArtifactByteLimit => "artifact_byte_limit"@,
        ProviderExecutionFailureCode::CaptureReadFailed => "capture_read_failed"@,
        ProviderExecutionFailureCode::MissingOutput => "missing_output"@,
        ProviderExecutionFailureCode::UnexpectedOutput => "unexpected_output"@,
        ProviderExecutionFailureCode::InvalidOutputType => "invalid_output_type"@,
        ProviderExecutionFailureCode::EmptyOutput => "empty_output"@,
        ProviderExecutionFailureCode::SymlinkOutput => "symlink_output"@,
        ProviderExecutionFailureCode::OutputReadFailed => "output_read_failed"@,
    }
}

pub fn provider_execution_failure_code_name_text(value: ProviderExecutionFailureCode) -> (r: &'static str)
    ensures
        r@ == provider_execution_failure_code_name(value),
{
    proof {
        reveal_strlit("implementation_changed");
        reveal_strlit("spawn_failed");
        reveal_strlit("exit_failure");
        reveal_strlit("cancelled");
        reveal_strlit("timeout");
        reveal_strlit("stdout_limit");
        reveal_strlit("stderr_limit");
        reveal_strlit("artifact_file_limit");
        reveal_strlit("artifact_byte_limit");
        reveal_strlit("capture_read_failed");
        reveal_strlit("missing_output");
        reveal_strlit("unexpected_output");
        reveal_strlit("invalid_output_type");
        reveal_strlit("empty_output");
        reveal_strlit("symlink_output");
        reveal_strlit("output_read_failed");
    }
    match value {
        ProviderExecutionFailureCode::ImplementationChanged => "implementation_changed",
        ProviderExecutionFailureCode::SpawnFailed => "spawn_failed",
        ProviderExecutionFailureCode::ExitFailure => "exit_failure",
        ProviderExecutionFailureCode::Cancelled => "cancelled",
        ProviderExecutionFailureCode::Timeout => "timeout",
        ProviderExecutionFailureCode::StdoutLimit => "stdout_limit",
        ProviderExecutionFailureCode::StderrLimit => "stderr_limit",
        ProviderExecutionFailureCode::ArtifactFileLimit => "artifact_file_limit",
        ProviderExecutionFailureCode::ArtifactByteLimit => "artifact_byte_limit",
        ProviderExecutionFailureCode::CaptureReadFailed => "capture_read_failed",
        ProviderExecutionFailureCode::MissingOutput => "missing_output",
        ProviderExecutionFailureCode::UnexpectedOutput => "unexpected_output",
        ProviderExecutionFailureCode::InvalidOutputType => "invalid_output_type",
        ProviderExecutionFailureCode::EmptyOutput => "empty_output",
        ProviderExecutionFailureCode::SymlinkOutput => "symlink_output",
        ProviderExecutionFailureCode::OutputReadFailed => "output_read_failed",
    }
}

/// The serialized form of a `ProviderExecutionBounds`, members in key order.
pub open spec fn provider_execution_bounds_json(value: ProviderExecutionBounds) -> Json {
    Json::Object(seq![("maximum_artifact_bytes"@, Json::Number(decimal(value.maximum_artifact_bytes as nat))), ("maximum_artifact_files"@, Json::Number(decimal(value.maximum_artifact_files as nat))), ("maximum_stderr_bytes"@, Json::Number(decimal(value.maximum_stderr_bytes as nat))), ("maximum_stdout_bytes"@, Json::Number(decimal(value.maximum_stdout_bytes as nat))), ("termination_grace_milliseconds"@, Json::Number(decimal(value.termination_grace_milliseconds as nat))), ("timeout_milliseconds"@, Json::Number(decimal(value.timeout_milliseconds as nat)))])
}

pub fn provider_execution_bounds_value(value: &ProviderExecutionBounds) -> (v: JsonValue)
    ensures
        json_of(v) == provider_execution_bounds_json(*value),
{
    let mut m: Vec<(String, JsonValue)> = Vec::new();
    member(&mut m, "maximum_artifact_bytes", jnum(value.maximum_artifact_bytes as u64));
    member(&mut m, "maximum_artifact_files", jnum(value.maximum_artifact_files as u64));
    member(&mut m, "maximum_stderr_bytes", jnum(value.maximum_stderr_bytes as u64));
    member(&mut m, "maximum_stdout_bytes", jnum(value.maximum_stdout_bytes as u64));
    member(&mut m, "termination_grace_milliseconds", jnum(value.termination_grace_milliseconds as u64));
    member(&mut m, "timeout_milliseconds", jnum(value.timeout_milliseconds as u64));
    assert(json_members(m@) =~= match provider_execution_bounds_json(*value) { Json::Object(ms) => ms, _ => Seq::empty() });
    JsonValue::Object(m)
}

/// The serialized form of a `ProviderEvent`, members in key order.
pub open spec fn provider_event_json(value: ProviderEvent) -> Json {
    Json::Object(seq![("kind"@, Json::Str(provider_event_kind_name(value.kind))), ("observed_at"@, Json::Str(value.observed_at@)), ("provider_lock_sha256"@, Json::Str(value.provider_lock_sha256@)), ("schema"@, Json::Str(value.schema@)), ("sequence"@, Json::Number(decimal(value.sequence as nat)))])
}

pub fn provider_event_value(value: &ProviderEvent) -> (v: JsonValue)
    ensures
        json_of(v) == provider_event_json(*value),
{
    let mut m: Vec<(String, JsonValue)> = Vec::new();
    member(&mut m, "kind", jstr(provider_event_kind_name_text(value.kind)));
    member(&mut m, "observed_at", jstr(value.observed_at.as_str()));
    member(&mut m, "provider_lock_sha256", jstr(value.provider_lock_sha256.as_str()));
    member(&mut m, "schema", jstr(value.schema.as_str()));
    member(&mut m, "sequence", jnum(value.sequence as u64));
    assert(json_members(m@) =~= match provider_event_json(*value) { Json::Object(ms) => ms, _ => Seq::empty() });
    JsonValue::Object(m)
}

pub open spec fn provider_events_json(values: Seq<ProviderEvent>) -> Json {
    Json::Array(values.map_values(|e: ProviderEvent| provider_event_json(e)))
}

pub fn provider_events_value(values: &Vec<ProviderEvent>) -> (v: JsonValue)
    ensures
        json_of(v) == provider_events_json(values@),
{
    let mut items: Vec<JsonValue> = Vec::new();
    let mut i: usize = 0;
    while i < values.len()
        invariant
            i <= values.len(),
            json_items(items@) == values@.take(i as int).map_values(|e: ProviderEvent| provider_event_json(e)),
        decreases values.len() - i,
    {
        item(&mut items, provider_event_value(&values[i]));
        assert(values@.take(i + 1).map_values(|e: ProviderEvent| provider_event_json(e)) =~= values@.take(i as int).map_values(
            |e: ProviderEvent| provider_event_json(e),
        ).push(provider_event_json(values@[i as int])));
        i = i + 1;
    }
    assert(values@.take(values.len() as int) =~= values@);
    JsonValue::Array(items)
}

/// The serialized form of a `CapturedDiagnostic`, members in key order.
pub open spec fn captured_diagnostic_json(value: CapturedDiagnostic) -> Json {
    Json::Object(seq![("redacted"@, Json::Bool(value.redacted)), ("retained_text"@, Json::Str(value.retained_text@)), ("stream"@, Json::Str(stream_kind_name(value.stream))), ("total_bytes"@, Json::Number(decimal(value.total_bytes as nat))), ("truncated"@, Json::Bool(value.truncated))])
}

pub fn captured_diagnostic_value(value: &CapturedDiagnostic) -> (v: JsonValue)
    ensures
        json_of(v) == captured_diagnostic_json(*value),
{
    let mut m: Vec<(String, JsonValue)> = Vec::new();
    member(&mut m, "redacted", JsonValue::Bool(value.redacted));
    member(&mut m, "retained_text", jstr(value.retained_text.as_str()));
    member(&mut m, "stream", jstr(stream_kind_name_text(value.stream)));
    member(&mut m, "total_bytes", jnum(value.total_bytes as u64));
    member(&mut m, "truncated", JsonValue::Bool(value.truncated));
    assert(json_members(m@) =~= match captured_diagnostic_json(*value) { Json::Object(ms) => ms, _ => Seq::empty() });
    JsonValue::Object(m)
}

/// The serialized form of a `ArtifactObservation`, members in key order.
pub open spec fn artifact_observation_json(value: ArtifactObservation) -> Json {
    Json::Object(seq![("byte_count"@, Json::Number(decimal(value.byte_count as nat))), ("file_count"@, Json::Number(decimal(value.file_count as nat))), ("kind"@, Json::Str(artifact_kind_name(value.kind))), ("port"@, Json::Str(value.port@)), ("relative_path"@, Json::Str(value.relative_path@)), ("sha256"@, Json::Str(value.sha256@))])
}

pub fn artifact_observation_value(value: &ArtifactObservation) -> (v: JsonValue)
    ensures
        json_of(v) == artifact_observation_json(*value),
{
    let mut m: Vec<(String, JsonValue)> = Vec::new();
    member(&mut m, "byte_count", jnum(value.byte_count as u64));
    member(&mut m, "file_count", jnum(value.file_count as u64));
    member(&mut m, "kind", jstr(artifact_kind_name_text(value.kind)));
    member(&mut m, "port", jstr(value.port.as_str()));
    member(&mut m, "relative_path", jstr(value.relative_path.as_str()));
    member(&mut m, "sha256", jstr(value.sha256.as_str()));
    assert(json_members(m@) =~= match artifact_observation_json(*value) { Json::Object(ms) => ms, _ => Seq::empty() });
    JsonValue::Object(m)
}

pub open spec fn artifact_observations_json(values: Seq<ArtifactObservation>) -> Json {
    Json::Array(values.map_values(|e: ArtifactObservation| artifact_observation_json(e)))
}

pub fn artifact_observations_value(values: &Vec<ArtifactObservation>) -> (v: JsonValue)
    ensures
        json_of(v) == artifact_observations_json(values@),
{
    let mut items: Vec<JsonValue> = Vec::new();
    let mut i: usize = 0;
    while i < values.len()
        invariant
            i <= values.len(),
            json_items(items@) == values@.take(i as int).map_values(|e: ArtifactObservation| artifact_observation_json(e)),
        decreases values.len() - i,
    {
        item(&mut items, artifact_observation_value(&values[i]));
        assert(values@.take(i + 1).map_values(|e: ArtifactObservation| artifact_observation_json(e)) =~= values@.take(i as int).map_values(
            |e: ArtifactObservation| artifact_observation_json(e),
        ).push(artifact_observation_json(values@[i as int])));
        i = i + 1;
    }
    assert(values@.take(values.len() as int) =~= values@);
    JsonValue::Array(items)
}

/// The serialized form of a `ProviderExecutionFailure`, members in key order.
pub open spec fn provider_execution_failure_json(value: ProviderExecutionFailure) -> Json {
    Json::Object(seq![("code"@, Json::Str(provider_execution_failure_code_name(value.code))), ("detail"@, Json::Str(value.detail@))])
}

pub fn provider_execution_failure_value(value: &ProviderExecutionFailure) -> (v: JsonValue)
    ensures
        json_of(v) == provider_execution_failure_json(*value),
{
    let mut m: Vec<(String, JsonValue)> = Vec::new();
    member(&mut m, "code", jstr(provider_execution_failure_code_name_text(value.code)));
    member(&mut m, "detail", jstr(value.detail.as_str()));
    assert(json_members(m@) =~= match provider_execution_failure_json(*value) { Json::Object(ms) => ms, _ => Seq::empty() });
    JsonValue::Object(m)
}

/// The serialized form of a `ProviderTermination`, members in key order.
pub open spec fn provider_termination_json(value: ProviderTermination) -> Json {
    Json::Object((match value.exit_code { Some(x) => seq![("exit_code"@, Json::Number(signed_decimal(x as int)))], None => Seq::<(Seq<char>, Json)>::empty() }) + seq![("reason"@, Json::Str(termination_reason_name(value.reason)))] + (match value.signal { Some(x) => seq![("signal"@, Json::Number(signed_decimal(x as int)))], None => Seq::<(Seq<char>, Json)>::empty() }))
}

pub fn provider_termination_value(value: &ProviderTermination) -> (v: JsonValue)
    ensures
        json_of(v) == provider_termination_json(*value),
{
    let mut m: Vec<(String, JsonValue)> = Vec::new();
    match &value.exit_code {
        Some(x) => {
            member(&mut m, "exit_code", jint(*x as i64));
        },
        None => {},
    }
    member(&mut m, "reason", jstr(termination_reason_name_text(value.reason)));
    match &value.signal {
        Some(x) => {
            member(&mut m, "signal", jint(*x as i64));
        },
        None => {},
    }
    assert(json_members(m@) =~= match provider_termination_json(*value) { Json::Object(ms) => ms, _ => Seq::empty() });
    JsonValue::Object(m)
}

/// The serialized form of a `ProviderExecutionReportPayload`, members in key order.
pub open spec fn provider_execution_report_payload_json(value: ProviderExecutionReportPayload) -> Json {
    Json::Object(seq![("bounds"@, provider_execution_bounds_json(value.bounds)), ("duration_milliseconds"@, Json::Number(decimal(value.duration_milliseconds as nat))), ("events"@, provider_events_json(value.events@))] + (match value.failure { Some(x) => seq![("failure"@, provider_execution_failure_json(x))], None => Seq::<(Seq<char>, Json)>::empty() }) + seq![("finished_at"@, Json::Str(value.finished_at@)), ("outcome"@, Json::Str(provider_execution_outcome_name(value.outcome))), ("outputs"@, artifact_observations_json(value.outputs@)), ("provider_lock"@, provider_lock_json(value.provider_lock)), ("started_at"@, Json::Str(value.started_at@)), ("stderr"@, captured_diagnostic_json(value.stderr)), ("stdout"@, captured_diagnostic_json(value.stdout)), ("termination"@, provider_termination_json(value.termination))])
}

pub fn provider_execution_report_payload_value(value: &ProviderExecutionReportPayload) -> (v: JsonValue)
    ensures
        json_of(v) == provider_execution_report_payload_json(*value),
{
    let mut m: Vec<(String, JsonValue)> = Vec::new();
    member(&mut m, "bounds", provider_execution_bounds_value(&value.bounds));
    member(&mut m, "duration_milliseconds", jnum(value.duration_milliseconds as u64));
    member(&mut m, "events", provider_events_value(&value.events));
    match &value.failure {
        Some(x) => {
            member(&mut m, "failure", provider_execution_failure_value(x));
        },
        None => {},
    }
    member(&mut m, "finished_at", jstr(value.finished_at.as_str()));
    member(&mut m, "outcome", jstr(provider_execution_outcome_name_text(value.outcome)));
    member(&mut m, "outputs", artifact_observations_value(&value.outputs));
    member(&mut m, "provider_lock", provider_lock_value(&value.provider_lock));
    member(&mut m, "started_at", jstr(value.started_at.as_str()));
    member(&mut m, "stderr", captured_diagnostic_value(&value.stderr));
    member(&mut m, "stdout", captured_diagnostic_value(&value.stdout));
    member(&mut m, "termination", provider_termination_value(&value.termination));
    assert(json_members(m@) =~= match provider_execution_report_payload_json(*value) { Json::Object(ms) => ms, _ => Seq::empty() });
    JsonValue::Object(m)
}


// Every record encodes canonically: its keys ascend and its numbers are
// decimal digits.

pub proof fn lemma_provider_reference_encodable(value: ProviderReference)
    ensures
        value_encodable(provider_reference_json(value)),
{
    reveal_strlit("id");
    reveal_strlit("version");
    reveal_with_fuel(text_less, 2);
    let m0 = Seq::<(Seq<char>, Json)>::empty();
    lemma_object_push_encodable(m0, "id"@, Json::Str(value.id@));
    let m1 = m0.push(("id"@, Json::Str(value.id@)));
    assert(text_less("id"@, "version"@));
    lemma_object_push_encodable(m1, "version"@, Json::Str(value.version@));
    let m2 = m1.push(("version"@, Json::Str(value.version@)));
    assert(match provider_reference_json(value) { Json::Object(ms) => ms, _ => Seq::empty() } =~= m2);
}

pub proof fn lemma_capability_reference_encodable(value: CapabilityReference)
    ensures
        value_encodable(capability_reference_json(value)),
{
    reveal_strlit("id");
    reveal_strlit("version");
    reveal_with_fuel(text_less, 2);
    let m0 = Seq::<(Seq<char>, Json)>::empty();
    lemma_object_push_encodable(m0, "id"@, Json::Str(value.id@));
    let m1 = m0.push(("id"@, Json::Str(value.id@)));
    assert(text_less("id"@, "version"@));
    lemma_object_push_encodable(m1, "version"@, Json::Str(value.version@));
    let m2 = m1.push(("version"@, Json::Str(value.version@)));
    assert(match capability_reference_json(value) { Json::Object(ms) => ms, _ => Seq::empty() } =~= m2);
}

pub proof fn lemma_configuration_schema_reference_encodable(value: ConfigurationSchemaReference)
    ensures
        value_encodable(configuration_schema_reference_json(value)),
{
    reveal_strlit("id");
    reveal_strlit("sha256");
    reveal_strlit("version");
    reveal_with_fuel(text_less, 2);
    let m0 = Seq::<(Seq<char>, Json)>::empty();
    lemma_object_push_encodable(m0, "id"@, Json::Str(value.id@));
    let m1 = m0.push(("id"@, Json::Str(value.id@)));
    assert(text_less("id"@, "sha256"@));
    lemma_object_push_encodable(m1, "sha256"@, Json::Str(value.sha256@));
    let m2 = m1.push(("sha256"@, Json::Str(value.sha256@)));
    assert(text_less("sha256"@, "version"@));
    lemma_object_push_encodable(m2, "version"@, Json::Str(value.version@));
    let m3 = m2.push(("version"@, Json::Str(value.version@)));
    assert(match configuration_schema_reference_json(value) { Json::Object(ms) => ms, _ => Seq::empty() } =~= m3);
}

pub proof fn lemma_component_identity_encodable(value: ComponentIdentity)
    ensures
        value_encodable(component_identity_json(value)),
{
    reveal_strlit("id");
    reveal_strlit("sha256");
    reveal_strlit("version");
    reveal_with_fuel(text_less, 2);
    match value.sha256 {
        Some(x_sha256) => {
            let m0 = Seq::<(Seq<char>, Json)>::empty();
            lemma_object_push_encodable(m0, "id"@, Json::Str(value.id@));
            let m1 = m0.push(("id"@, Json::Str(value.id@)));
            assert(text_less("id"@, "sha256"@));
            lemma_object_push_encodable(m1, "sha256"@, Json::Str(x_sha256@));
            let m2 = m1.push(("sha256"@, Json::Str(x_sha256@)));
            assert(text_less("sha256"@, "version"@));
            lemma_object_push_encodable(m2, "version"@, Json::Str(value.version@));
            let m3 = m2.push(("version"@, Json::Str(value.version@)));
            assert(match component_identity_json(value) { Json::Object(ms) => ms, _ => Seq::empty() } =~= m3);
        },
        None => {
            let m0 = Seq::<(Seq<char>, Json)>::empty();
            lemma_object_push_encodable(m0, "id"@, Json::Str(value.id@));
            let m1 = m0.push(("id"@, Json::Str(value.id@)));
            assert(text_less("id"@, "version"@));
            lemma_object_push_encodable(m1, "version"@, Json::Str(value.version@));
            let m2 = m1.push(("version"@, Json::Str(value.version@)));
            assert(match component_identity_json(value) { Json::Object(ms) => ms, _ => Seq::empty() } =~= m2);
        },
    }
}

pub proof fn lemma_component_identities_encodable(values: Seq<ComponentIdentity>)
    ensures
        value_encodable(component_identities_json(values)),
    decreases values.len(),
{
    let items = values.map_values(|e: ComponentIdentity| component_identity_json(e));
    if values.len() > 0 {
        lemma_component_identities_encodable(values.drop_last());
        lemma_component_identity_encodable(values.last());
        assert(values.drop_last().map_values(|e: ComponentIdentity| component_identity_json(e)) =~= items.drop_last());
        lemma_items_push(items.drop_last(), items.last());
        assert(items.drop_last().push(items.last()) =~= items);
    }
}

pub proof fn lemma_side_effects_encodable(values: Seq<SideEffect>)
    ensures
        value_encodable(side_effects_json(values)),
    decreases values.len(),
{
    let items = values.map_values(|e: SideEffect| Json::Str(side_effect_name(e)));
    if values.len() > 0 {
        lemma_side_effects_encodable(values.drop_last());
        
        assert(values.drop_last().map_values(|e: SideEffect| Json::Str(side_effect_name(e))) =~= items.drop_last());
        lemma_items_push(items.drop_last(), items.last());
        assert(items.drop_last().push(items.last()) =~= items);
    }
}

pub proof fn lemma_provider_implementation_identity_encodable(value: ProviderImplementationIdentity)
    ensures
        value_encodable(provider_implementation_identity_json(value)),
{
    reveal_strlit("executable_sha256");
    reveal_strlit("id");
    reveal_with_fuel(text_less, 2);
    let m0 = Seq::<(Seq<char>, Json)>::empty();
    lemma_object_push_encodable(m0, "executable_sha256"@, Json::Str(value.executable_sha256@));
    let m1 = m0.push(("executable_sha256"@, Json::Str(value.executable_sha256@)));
    assert(text_less("executable_sha256"@, "id"@));
    lemma_object_push_encodable(m1, "id"@, Json::Str(value.id@));
    let m2 = m1.push(("id"@, Json::Str(value.id@)));
    assert(match provider_implementation_identity_json(value) { Json::Object(ms) => ms, _ => Seq::empty() } =~= m2);
}

pub proof fn lemma_provider_selection_encodable(value: ProviderSelection)
    ensures
        value_encodable(provider_selection_json(value)),
{
    reveal_strlit("fallback_index");
    reveal_strlit("source");
    reveal_with_fuel(text_less, 2);
    match value.fallback_index {
        Some(x_fallback_index) => {
            lemma_decimal_ascii(x_fallback_index as nat);
            let m0 = Seq::<(Seq<char>, Json)>::empty();
            lemma_object_push_encodable(m0, "fallback_index"@, Json::Number(decimal(x_fallback_index as nat)));
            let m1 = m0.push(("fallback_index"@, Json::Number(decimal(x_fallback_index as nat))));
            assert(text_less("fallback_index"@, "source"@));
            lemma_object_push_encodable(m1, "source"@, Json::Str(provider_selection_source_name(value.source)));
            let m2 = m1.push(("source"@, Json::Str(provider_selection_source_name(value.source))));
            assert(match provider_selection_json(value) { Json::Object(ms) => ms, _ => Seq::empty() } =~= m2);
        },
        None => {
            let m0 = Seq::<(Seq<char>, Json)>::empty();
            lemma_object_push_encodable(m0, "source"@, Json::Str(provider_selection_source_name(value.source)));
            let m1 = m0.push(("source"@, Json::Str(provider_selection_source_name(value.source))));
            assert(match provider_selection_json(value) { Json::Object(ms) => ms, _ => Seq::empty() } =~= m1);
        },
    }
}

pub proof fn lemma_provider_lock_payload_encodable(value: ProviderLockPayload)
    ensures
        value_encodable(provider_lock_payload_json(value)),
{
    lemma_side_effects_encodable(value.authorized_side_effects@);
    lemma_capability_reference_encodable(value.capability);
    lemma_component_identities_encodable(value.codecs@);
    lemma_configuration_schema_reference_encodable(value.configuration_schema);
    lemma_provider_implementation_identity_encodable(value.implementation);
    lemma_component_identities_encodable(value.models@);
    lemma_provider_reference_encodable(value.provider);
    lemma_provider_selection_encodable(value.selection);
    lemma_component_identities_encodable(value.tools@);
    reveal_strlit("authorized_side_effects");
    reveal_strlit("capability");
    reveal_strlit("codecs");
    reveal_strlit("configuration_schema");
    reveal_strlit("effective_configuration_sha256");
    reveal_strlit("implementation");
    reveal_strlit("manifest_sha256");
    reveal_strlit("models");
    reveal_strlit("offline");
    reveal_strlit("provider");
    reveal_strlit("registration_id");
    reveal_strlit("selection");
    reveal_strlit("tools");
    reveal_with_fuel(text_less, 4);
    let m0 = Seq::<(Seq<char>, Json)>::empty();
    lemma_object_push_encodable(m0, "authorized_side_effects"@, side_effects_json(value.authorized_side_effects@));
    let m1 = m0.push(("authorized_side_effects"@, side_effects_json(value.authorized_side_effects@)));
    assert(text_less("authorized_side_effects"@, "capability"@));
    lemma_object_push_encodable(m1, "capability"@, capability_reference_json(value.capability));
    let m2 = m1.push(("capability"@, capability_reference_json(value.capability)));
    assert(text_less("capability"@, "codecs"@));
    lemma_object_push_encodable(m2, "codecs"@, component_identities_json(value.codecs@));
    let m3 = m2.push(("codecs"@, component_identities_json(value.codecs@)));
    assert(text_less("codecs"@, "configuration_schema"@));
    lemma_object_push_encodable(m3, "configuration_schema"@, configuration_schema_reference_json(value.configuration_schema));
    let m4 = m3.push(("configuration_schema"@, configuration_schema_reference_json(value.configuration_schema)));
    assert(text_less("configuration_schema"@, "effective_configuration_sha256"@));
    lemma_object_push_encodable(m4, "effective_configuration_sha256"@, Json::Str(value.effective_configuration_sha256@));
    let m5 = m4.push(("effective_configuration_sha256"@, Json::Str(value.effective_configuration_sha256@)));
    assert(text_less("effective_configuration_sha256"@, "implementation"@));
    lemma_object_push_encodable(m5, "implementation"@, provider_implementation_identity_json(value.implementation));
    let m6 = m5.push(("implementation"@, provider_implementation_identity_json(value.implementation)));
    assert(text_less("implementation"@, "manifest_sha256"@));
    lemma_object_push_encodable(m6, "manifest_sha256"@, Json::Str(value.manifest_sha256@));
    let m7 = m6.push(("manifest_sha256"@, Json::Str(value.manifest_sha256@)));
    assert(text_less("manifest_sha256"@, "models"@));
    lemma_object_push_encodable(m7, "models"@, component_identities_json(value.models@));
    let m8 = m7.push(("models"@, component_identities_json(value.models@)));
    assert(text_less("models"@, "offline"@));
    lemma_object_push_encodable(m8, "offline"@, Json::Bool(value.offline));
    let m9 = m8.push(("offline"@, Json::Bool(value.offline)));
    assert(text_less("offline"@, "provider"@));
    lemma_object_push_encodable(m9, "provider"@, provider_reference_json(value.provider));
    let m10 = m9.push(("provider"@, provider_reference_json(value.provider)));
    assert(text_less("provider"@, "registration_id"@));
    lemma_object_push_encodable(m10, "registration_id"@, Json::Str(value.registration_id@));
    let m11 = m10.push(("registration_id"@, Json::Str(value.registration_id@)));
    assert(text_less("registration_id"@, "selection"@));
    lemma_object_push_encodable(m11, "selection"@, provider_selection_json(value.selection));
    let m12 = m11.push(("selection"@, provider_selection_json(value.selection)));
    assert(text_less("selection"@, "tools"@));
    lemma_object_push_encodable(m12, "tools"@, component_identities_json(value.tools@));
    let m13 = m12.push(("tools"@, component_identities_json(value.tools@)));
    assert(match provider_lock_payload_json(value) { Json::Object(ms) => ms, _ => Seq::empty() } =~= m13);
}

pub proof fn lemma_provider_lock_encodable(value: ProviderLock)
    ensures
        value_encodable(provider_lock_json(value)),
{
    lemma_provider_lock_payload_encodable(value.payload);
    reveal_strlit("algorithm");
    reveal_strlit("lock_sha256");
    reveal_strlit("payload");
    reveal_strlit("schema");
    reveal_with_fuel(text_less, 2);
    let m0 = Seq::<(Seq<char>, Json)>::empty();
    lemma_object_push_encodable(m0, "algorithm"@, Json::Str(value.algorithm@));
    let m1 = m0.push(("algorithm"@, Json::Str(value.algorithm@)));
    assert(text_less("algorithm"@, "lock_sha256"@));
    lemma_object_push_encodable(m1, "lock_sha256"@, Json::Str(value.lock_sha256@));
    let m2 = m1.push(("lock_sha256"@, Json::Str(value.lock_sha256@)));
    assert(text_less("lock_sha256"@, "payload"@));
    lemma_object_push_encodable(m2, "payload"@, provider_lock_payload_json(value.payload));
    let m3 = m2.push(("payload"@, provider_lock_payload_json(value.payload)));
    assert(text_less("payload"@, "schema"@));
    lemma_object_push_encodable(m3, "schema"@, Json::Str(value.schema@));
    let m4 = m3.push(("schema"@, Json::Str(value.schema@)));
    assert(match provider_lock_json(value) { Json::Object(ms) => ms, _ => Seq::empty() } =~= m4);
}

pub proof fn lemma_provider_identity_encodable(value: ProviderIdentity)
    ensures
        value_encodable(provider_identity_json(value)),
{
    reveal_strlit("display_name");
    reveal_strlit("id");
    reveal_strlit("version");
    reveal_with_fuel(text_less, 2);
    let m0 = Seq::<(Seq<char>, Json)>::empty();
    lemma_object_push_encodable(m0, "display_name"@, Json::Str(value.display_name@));
    let m1 = m0.push(("display_name"@, Json::Str(value.display_name@)));
    assert(text_less("display_name"@, "id"@));
    lemma_object_push_encodable(m1, "id"@, Json::Str(value.id@));
    let m2 = m1.push(("id"@, Json::Str(value.id@)));
    assert(text_less("id"@, "version"@));
    lemma_object_push_encodable(m2, "version"@, Json::Str(value.version@));
    let m3 = m2.push(("version"@, Json::Str(value.version@)));
    assert(match provider_identity_json(value) { Json::Object(ms) => ms, _ => Seq::empty() } =~= m3);
}

pub proof fn lemma_configuration_schemas_encodable(values: Seq<ConfigurationSchemaReference>)
    ensures
        value_encodable(configuration_schemas_json(values)),
    decreases values.len(),
{
    let items = values.map_values(|e: ConfigurationSchemaReference| configuration_schema_reference_json(e));
    if values.len() > 0 {
        lemma_configuration_schemas_encodable(values.drop_last());
        lemma_configuration_schema_reference_encodable(values.last());
        assert(values.drop_last().map_values(|e: ConfigurationSchemaReference| configuration_schema_reference_json(e)) =~= items.drop_last());
        lemma_items_push(items.drop_last(), items.last());
        assert(items.drop_last().push(items.last()) =~= items);
    }
}

pub proof fn lemma_artifact_port_encodable(value: ArtifactPort)
    ensures
        value_encodable(artifact_port_json(value)),
{
    reveal_strlit("artifact_role");
    reveal_strlit("artifact_type");
    reveal_strlit("cardinality");
    reveal_strlit("immutable");
    reveal_strlit("name");
    reveal_strlit("stream_role");
    reveal_with_fuel(text_less, 11);
    match value.stream_role {
        Some(x_stream_role) => {
            let m0 = Seq::<(Seq<char>, Json)>::empty();
            lemma_object_push_encodable(m0, "artifact_role"@, Json::Str(artifact_role_name(value.artifact_role)));
            let m1 = m0.push(("artifact_role"@, Json::Str(artifact_role_name(value.artifact_role))));
            assert(text_less("artifact_role"@, "artifact_type"@));
            lemma_object_push_encodable(m1, "artifact_type"@, Json::Str(value.artifact_type@));
            let m2 = m1.push(("artifact_type"@, Json::Str(value.artifact_type@)));
            assert(text_less("artifact_type"@, "cardinality"@));
            lemma_object_push_encodable(m2, "cardinality"@, Json::Str(artifact_cardinality_name(value.cardinality)));
            let m3 = m2.push(("cardinality"@, Json::Str(artifact_cardinality_name(value.cardinality))));
            assert(text_less("cardinality"@, "immutable"@));
            lemma_object_push_encodable(m3, "immutable"@, Json::Bool(value.immutable));
            let m4 = m3.push(("immutable"@, Json::Bool(value.immutable)));
            assert(text_less("immutable"@, "name"@));
            lemma_object_push_encodable(m4, "name"@, Json::Str(value.name@));
            let m5 = m4.push(("name"@, Json::Str(value.name@)));
            assert(text_less("name"@, "stream_role"@));
            lemma_object_push_encodable(m5, "stream_role"@, Json::Str(stream_role_name(x_stream_role)));
            let m6 = m5.push(("stream_role"@, Json::Str(stream_role_name(x_stream_role))));
            assert(match artifact_port_json(value) { Json::Object(ms) => ms, _ => Seq::empty() } =~= m6);
        },
        None => {
            let m0 = Seq::<(Seq<char>, Json)>::empty();
            lemma_object_push_encodable(m0, "artifact_role"@, Json::Str(artifact_role_name(value.artifact_role)));
            let m1 = m0.push(("artifact_role"@, Json::Str(artifact_role_name(value.artifact_role))));
            assert(text_less("artifact_role"@, "artifact_type"@));
            lemma_object_push_encodable(m1, "artifact_type"@, Json::Str(value.artifact_type@));
            let m2 = m1.push(("artifact_type"@, Json::Str(value.artifact_type@)));
            assert(text_less("artifact_type"@, "cardinality"@));
            lemma_object_push_encodable(m2, "cardinality"@, Json::Str(artifact_cardinality_name(value.cardinality)));
            let m3 = m2.push(("cardinality"@, Json::Str(artifact_cardinality_name(value.cardinality))));
            assert(text_less("cardinality"@, "immutable"@));
            lemma_object_push_encodable(m3, "immutable"@, Json::Bool(value.immutable));
            let m4 = m3.push(("immutable"@, Json::Bool(value.immutable)));
            assert(text_less("immutable"@, "name"@));
            lemma_object_push_encodable(m4, "name"@, Json::Str(value.name@));
            let m5 = m4.push(("name"@, Json::Str(value.name@)));
            assert(match artifact_port_json(value) { Json::Object(ms) => ms, _ => Seq::empty() } =~= m5);
        },
    }
}

pub proof fn lemma_artifact_ports_encodable(values: Seq<ArtifactPort>)
    ensures
        value_encodable(artifact_ports_json(values)),
    decreases values.len(),
{
    let items = values.map_values(|e: ArtifactPort| artifact_port_json(e));
    if values.len() > 0 {
        lemma_artifact_ports_encodable(values.drop_last());
        lemma_artifact_port_encodable(values.last());
        assert(values.drop_last().map_values(|e: ArtifactPort| artifact_port_json(e)) =~= items.drop_last());
        lemma_items_push(items.drop_last(), items.last());
        assert(items.drop_last().push(items.last()) =~= items);
    }
}

pub proof fn lemma_component_requirement_encodable(value: ComponentRequirement)
    ensures
        value_encodable(component_requirement_json(value)),
{
    reveal_strlit("id");
    reveal_strlit("sha256");
    reveal_strlit("version_requirement");
    reveal_with_fuel(text_less, 2);
    match value.sha256 {
        Some(x_sha256) => {
            let m0 = Seq::<(Seq<char>, Json)>::empty();
            lemma_object_push_encodable(m0, "id"@, Json::Str(value.id@));
            let m1 = m0.push(("id"@, Json::Str(value.id@)));
            assert(text_less("id"@, "sha256"@));
            lemma_object_push_encodable(m1, "sha256"@, Json::Str(x_sha256@));
            let m2 = m1.push(("sha256"@, Json::Str(x_sha256@)));
            assert(text_less("sha256"@, "version_requirement"@));
            lemma_object_push_encodable(m2, "version_requirement"@, Json::Str(value.version_requirement@));
            let m3 = m2.push(("version_requirement"@, Json::Str(value.version_requirement@)));
            assert(match component_requirement_json(value) { Json::Object(ms) => ms, _ => Seq::empty() } =~= m3);
        },
        None => {
            let m0 = Seq::<(Seq<char>, Json)>::empty();
            lemma_object_push_encodable(m0, "id"@, Json::Str(value.id@));
            let m1 = m0.push(("id"@, Json::Str(value.id@)));
            assert(text_less("id"@, "version_requirement"@));
            lemma_object_push_encodable(m1, "version_requirement"@, Json::Str(value.version_requirement@));
            let m2 = m1.push(("version_requirement"@, Json::Str(value.version_requirement@)));
            assert(match component_requirement_json(value) { Json::Object(ms) => ms, _ => Seq::empty() } =~= m2);
        },
    }
}

pub proof fn lemma_component_requirements_encodable(values: Seq<ComponentRequirement>)
    ensures
        value_encodable(component_requirements_json(values)),
    decreases values.len(),
{
    let items = values.map_values(|e: ComponentRequirement| component_requirement_json(e));
    if values.len() > 0 {
        lemma_component_requirements_encodable(values.drop_last());
        lemma_component_requirement_encodable(values.last());
        assert(values.drop_last().map_values(|e: ComponentRequirement| component_requirement_json(e)) =~= items.drop_last());
        lemma_items_push(items.drop_last(), items.last());
        assert(items.drop_last().push(items.last()) =~= items);
    }
}

pub proof fn lemma_compute_requirements_encodable(value: ComputeRequirements)
    ensures
        value_encodable(compute_requirements_json(value)),
{
    lemma_decimal_ascii(value.minimum_cpu_threads as nat);
    lemma_decimal_ascii(value.minimum_memory_mib as nat);
    lemma_decimal_ascii(value.minimum_storage_mib as nat);
    reveal_strlit("gpu");
    reveal_strlit("minimum_cpu_threads");
    reveal_strlit("minimum_memory_mib");
    reveal_strlit("minimum_storage_mib");
    reveal_strlit("network");
    reveal_with_fuel(text_less, 10);
    let m0 = Seq::<(Seq<char>, Json)>::empty();
    lemma_object_push_encodable(m0, "gpu"@, Json::Str(requirement_level_name(value.gpu)));
    let m1 = m0.push(("gpu"@, Json::Str(requirement_level_name(value.gpu))));
    assert(text_less("gpu"@, "minimum_cpu_threads"@));
    lemma_object_push_encodable(m1, "minimum_cpu_threads"@, Json::Number(decimal(value.minimum_cpu_threads as nat)));
    let m2 = m1.push(("minimum_cpu_threads"@, Json::Number(decimal(value.minimum_cpu_threads as nat))));
    assert(text_less("minimum_cpu_threads"@, "minimum_memory_mib"@));
    lemma_object_push_encodable(m2, "minimum_memory_mib"@, Json::Number(decimal(value.minimum_memory_mib as nat)));
    let m3 = m2.push(("minimum_memory_mib"@, Json::Number(decimal(value.minimum_memory_mib as nat))));
    assert(text_less("minimum_memory_mib"@, "minimum_storage_mib"@));
    lemma_object_push_encodable(m3, "minimum_storage_mib"@, Json::Number(decimal(value.minimum_storage_mib as nat)));
    let m4 = m3.push(("minimum_storage_mib"@, Json::Number(decimal(value.minimum_storage_mib as nat))));
    assert(text_less("minimum_storage_mib"@, "network"@));
    lemma_object_push_encodable(m4, "network"@, Json::Str(requirement_level_name(value.network)));
    let m5 = m4.push(("network"@, Json::Str(requirement_level_name(value.network))));
    assert(match compute_requirements_json(value) { Json::Object(ms) => ms, _ => Seq::empty() } =~= m5);
}

pub proof fn lemma_provider_requirements_encodable(value: ProviderRequirements)
    ensures
        value_encodable(provider_requirements_json(value)),
{
    lemma_component_requirements_encodable(value.codecs@);
    lemma_compute_requirements_encodable(value.compute);
    lemma_component_requirements_encodable(value.models@);
    lemma_component_requirements_encodable(value.tools@);
    reveal_strlit("codecs");
    reveal_strlit("compute");
    reveal_strlit("models");
    reveal_strlit("tools");
    reveal_with_fuel(text_less, 4);
    let m0 = Seq::<(Seq<char>, Json)>::empty();
    lemma_object_push_encodable(m0, "codecs"@, component_requirements_json(value.codecs@));
    let m1 = m0.push(("codecs"@, component_requirements_json(value.codecs@)));
    assert(text_less("codecs"@, "compute"@));
    lemma_object_push_encodable(m1, "compute"@, compute_requirements_json(value.compute));
    let m2 = m1.push(("compute"@, compute_requirements_json(value.compute)));
    assert(text_less("compute"@, "models"@));
    lemma_object_push_encodable(m2, "models"@, component_requirements_json(value.models@));
    let m3 = m2.push(("models"@, component_requirements_json(value.models@)));
    assert(text_less("models"@, "tools"@));
    lemma_object_push_encodable(m3, "tools"@, component_requirements_json(value.tools@));
    let m4 = m3.push(("tools"@, component_requirements_json(value.tools@)));
    assert(match provider_requirements_json(value) { Json::Object(ms) => ms, _ => Seq::empty() } =~= m4);
}

pub proof fn lemma_capability_behavior_encodable(value: CapabilityBehavior)
    ensures
        value_encodable(capability_behavior_json(value)),
{
    lemma_side_effects_encodable(value.side_effects@);
    reveal_strlit("cacheable");
    reveal_strlit("content_changes");
    reveal_strlit("determinism");
    reveal_strlit("fidelity");
    reveal_strlit("side_effects");
    reveal_with_fuel(text_less, 3);
    let m0 = Seq::<(Seq<char>, Json)>::empty();
    lemma_object_push_encodable(m0, "cacheable"@, Json::Bool(value.cacheable));
    let m1 = m0.push(("cacheable"@, Json::Bool(value.cacheable)));
    assert(text_less("cacheable"@, "content_changes"@));
    lemma_object_push_encodable(m1, "content_changes"@, Json::Bool(value.content_changes));
    let m2 = m1.push(("content_changes"@, Json::Bool(value.content_changes)));
    assert(text_less("content_changes"@, "determinism"@));
    lemma_object_push_encodable(m2, "determinism"@, Json::Str(determinism_class_name(value.determinism)));
    let m3 = m2.push(("determinism"@, Json::Str(determinism_class_name(value.determinism))));
    assert(text_less("determinism"@, "fidelity"@));
    lemma_object_push_encodable(m3, "fidelity"@, Json::Str(fidelity_class_name(value.fidelity)));
    let m4 = m3.push(("fidelity"@, Json::Str(fidelity_class_name(value.fidelity))));
    assert(text_less("fidelity"@, "side_effects"@));
    lemma_object_push_encodable(m4, "side_effects"@, side_effects_json(value.side_effects@));
    let m5 = m4.push(("side_effects"@, side_effects_json(value.side_effects@)));
    assert(match capability_behavior_json(value) { Json::Object(ms) => ms, _ => Seq::empty() } =~= m5);
}

pub proof fn lemma_lifecycle_support_encodable(value: LifecycleSupport)
    ensures
        value_encodable(lifecycle_support_json(value)),
{
    reveal_strlit("cancellation");
    reveal_strlit("progress");
    reveal_with_fuel(text_less, 2);
    let m0 = Seq::<(Seq<char>, Json)>::empty();
    lemma_object_push_encodable(m0, "cancellation"@, Json::Str(cancellation_mode_name(value.cancellation)));
    let m1 = m0.push(("cancellation"@, Json::Str(cancellation_mode_name(value.cancellation))));
    assert(text_less("cancellation"@, "progress"@));
    lemma_object_push_encodable(m1, "progress"@, Json::Str(progress_mode_name(value.progress)));
    let m2 = m1.push(("progress"@, Json::Str(progress_mode_name(value.progress))));
    assert(match lifecycle_support_json(value) { Json::Object(ms) => ms, _ => Seq::empty() } =~= m2);
}

pub proof fn lemma_capability_declaration_encodable(value: CapabilityDeclaration)
    ensures
        value_encodable(capability_declaration_json(value)),
{
    lemma_capability_behavior_encodable(value.behavior);
    lemma_configuration_schema_reference_encodable(value.configuration_schema);
    lemma_artifact_ports_encodable(value.inputs@);
    lemma_lifecycle_support_encodable(value.lifecycle);
    lemma_decimal_ascii(value.max_concurrency as nat);
    lemma_artifact_ports_encodable(value.outputs@);
    lemma_provider_requirements_encodable(value.requirements);
    reveal_strlit("batching");
    reveal_strlit("behavior");
    reveal_strlit("configuration_schema");
    reveal_strlit("id");
    reveal_strlit("inputs");
    reveal_strlit("kind");
    reveal_strlit("lifecycle");
    reveal_strlit("max_concurrency");
    reveal_strlit("outputs");
    reveal_strlit("requirements");
    reveal_strlit("version");
    reveal_with_fuel(text_less, 3);
    let m0 = Seq::<(Seq<char>, Json)>::empty();
    lemma_object_push_encodable(m0, "batching"@, Json::Str(batching_mode_name(value.batching)));
    let m1 = m0.push(("batching"@, Json::Str(batching_mode_name(value.batching))));
    assert(text_less("batching"@, "behavior"@));
    lemma_object_push_encodable(m1, "behavior"@, capability_behavior_json(value.behavior));
    let m2 = m1.push(("behavior"@, capability_behavior_json(value.behavior)));
    assert(text_less("behavior"@, "configuration_schema"@));
    lemma_object_push_encodable(m2, "configuration_schema"@, configuration_schema_reference_json(value.configuration_schema));
    let m3 = m2.push(("configuration_schema"@, configuration_schema_reference_json(value.configuration_schema)));
    assert(text_less("configuration_schema"@, "id"@));
    lemma_object_push_encodable(m3, "id"@, Json::Str(value.id@));
    let m4 = m3.push(("id"@, Json::Str(value.id@)));
    assert(text_less("id"@, "inputs"@));
    lemma_object_push_encodable(m4, "inputs"@, artifact_ports_json(value.inputs@));
    let m5 = m4.push(("inputs"@, artifact_ports_json(value.inputs@)));
    assert(text_less("inputs"@, "kind"@));
    lemma_object_push_encodable(m5, "kind"@, Json::Str(capability_kind_name(value.kind)));
    let m6 = m5.push(("kind"@, Json::Str(capability_kind_name(value.kind))));
    assert(text_less("kind"@, "lifecycle"@));
    lemma_object_push_encodable(m6, "lifecycle"@, lifecycle_support_json(value.lifecycle));
    let m7 = m6.push(("lifecycle"@, lifecycle_support_json(value.lifecycle)));
    assert(text_less("lifecycle"@, "max_concurrency"@));
    lemma_object_push_encodable(m7, "max_concurrency"@, Json::Number(decimal(value.max_concurrency as nat)));
    let m8 = m7.push(("max_concurrency"@, Json::Number(decimal(value.max_concurrency as nat))));
    assert(text_less("max_concurrency"@, "outputs"@));
    lemma_object_push_encodable(m8, "outputs"@, artifact_ports_json(value.outputs@));
    let m9 = m8.push(("outputs"@, artifact_ports_json(value.outputs@)));
    assert(text_less("outputs"@, "requirements"@));
    lemma_object_push_encodable(m9, "requirements"@, provider_requirements_json(value.requirements));
    let m10 = m9.push(("requirements"@, provider_requirements_json(value.requirements)));
    assert(text_less("requirements"@, "version"@));
    lemma_object_push_encodable(m10, "version"@, Json::Str(value.version@));
    let m11 = m10.push(("version"@, Json::Str(value.version@)));
    assert(match capability_declaration_json(value) { Json::Object(ms) => ms, _ => Seq::empty() } =~= m11);
}

pub proof fn lemma_capabilities_encodable(values: Seq<CapabilityDeclaration>)
    ensures
        value_encodable(capabilities_json(values)),
    decreases values.len(),
{
    let items = values.map_values(|e: CapabilityDeclaration| capability_declaration_json(e));
    if values.len() > 0 {
        lemma_capabilities_encodable(values.drop_last());
        lemma_capability_declaration_encodable(values.last());
        assert(values.drop_last().map_values(|e: CapabilityDeclaration| capability_declaration_json(e)) =~= items.drop_last());
        lemma_items_push(items.drop_last(), items.last());
        assert(items.drop_last().push(items.last()) =~= items);
    }
}

pub proof fn lemma_provenance_fields_encodable(values: Seq<ProvenanceField>)
    ensures
        value_encodable(provenance_fields_json(values)),
    decreases values.len(),
{
    let items = values.map_values(|e: ProvenanceField| Json::Str(provenance_field_name(e)));
    if values.len() > 0 {
        lemma_provenance_fields_encodable(values.drop_last());
        
        assert(values.drop_last().map_values(|e: ProvenanceField| Json::Str(provenance_field_name(e))) =~= items.drop_last());
        lemma_items_push(items.drop_last(), items.last());
        assert(items.drop_last().push(items.last()) =~= items);
    }
}

pub proof fn lemma_provenance_contract_encodable(value: ProvenanceContract)
    ensures
        value_encodable(provenance_contract_json(value)),
{
    lemma_provenance_fields_encodable(value.required@);
    reveal_strlit("required");
    reveal_with_fuel(text_less, 2);
    let m0 = Seq::<(Seq<char>, Json)>::empty();
    lemma_object_push_encodable(m0, "required"@, provenance_fields_json(value.required@));
    let m1 = m0.push(("required"@, provenance_fields_json(value.required@)));
    assert(match provenance_contract_json(value) { Json::Object(ms) => ms, _ => Seq::empty() } =~= m1);
}

pub proof fn lemma_provider_manifest_encodable(value: ProviderManifest)
    ensures
        value_encodable(provider_manifest_json(value)),
{
    lemma_capabilities_encodable(value.capabilities@);
    lemma_configuration_schemas_encodable(value.configuration_schemas@);
    lemma_provenance_contract_encodable(value.provenance);
    lemma_provider_identity_encodable(value.provider);
    reveal_strlit("capabilities");
    reveal_strlit("configuration_schemas");
    reveal_strlit("provenance");
    reveal_strlit("provider");
    reveal_strlit("schema");
    reveal_with_fuel(text_less, 6);
    let m0 = Seq::<(Seq<char>, Json)>::empty();
    lemma_object_push_encodable(m0, "capabilities"@, capabilities_json(value.capabilities@));
    let m1 = m0.push(("capabilities"@, capabilities_json(value.capabilities@)));
    assert(text_less("capabilities"@, "configuration_schemas"@));
    lemma_object_push_encodable(m1, "configuration_schemas"@, configuration_schemas_json(value.configuration_schemas@));
    let m2 = m1.push(("configuration_schemas"@, configuration_schemas_json(value.configuration_schemas@)));
    assert(text_less("configuration_schemas"@, "provenance"@));
    lemma_object_push_encodable(m2, "provenance"@, provenance_contract_json(value.provenance));
    let m3 = m2.push(("provenance"@, provenance_contract_json(value.provenance)));
    assert(text_less("provenance"@, "provider"@));
    lemma_object_push_encodable(m3, "provider"@, provider_identity_json(value.provider));
    let m4 = m3.push(("provider"@, provider_identity_json(value.provider)));
    assert(text_less("provider"@, "schema"@));
    lemma_object_push_encodable(m4, "schema"@, Json::Str(value.schema@));
    let m5 = m4.push(("schema"@, Json::Str(value.schema@)));
    assert(match provider_manifest_json(value) { Json::Object(ms) => ms, _ => Seq::empty() } =~= m5);
}

pub proof fn lemma_fingerprint_artifact_encodable(value: FingerprintArtifact)
    ensures
        value_encodable(fingerprint_artifact_json(value)),
{
    reveal_strlit("artifact_role");
    reveal_strlit("artifact_type");
    reveal_strlit("sha256");
    reveal_with_fuel(text_less, 11);
    let m0 = Seq::<(Seq<char>, Json)>::empty();
    lemma_object_push_encodable(m0, "artifact_role"@, Json::Str(artifact_role_name(value.artifact_role)));
    let m1 = m0.push(("artifact_role"@, Json::Str(artifact_role_name(value.artifact_role))));
    assert(text_less("artifact_role"@, "artifact_type"@));
    lemma_object_push_encodable(m1, "artifact_type"@, Json::Str(value.artifact_type@));
    let m2 = m1.push(("artifact_type"@, Json::Str(value.artifact_type@)));
    assert(text_less("artifact_type"@, "sha256"@));
    lemma_object_push_encodable(m2, "sha256"@, Json::Str(value.sha256@));
    let m3 = m2.push(("sha256"@, Json::Str(value.sha256@)));
    assert(match fingerprint_artifact_json(value) { Json::Object(ms) => ms, _ => Seq::empty() } =~= m3);
}

pub proof fn lemma_fingerprint_artifacts_encodable(values: Seq<FingerprintArtifact>)
    ensures
        value_encodable(fingerprint_artifacts_json(values)),
    decreases values.len(),
{
    let items = values.map_values(|e: FingerprintArtifact| fingerprint_artifact_json(e));
    if values.len() > 0 {
        lemma_fingerprint_artifacts_encodable(values.drop_last());
        lemma_fingerprint_artifact_encodable(values.last());
        assert(values.drop_last().map_values(|e: FingerprintArtifact| fingerprint_artifact_json(e)) =~= items.drop_last());
        lemma_items_push(items.drop_last(), items.last());
        assert(items.drop_last().push(items.last()) =~= items);
    }
}

pub proof fn lemma_validated_output_fingerprint_encodable(value: ValidatedOutputFingerprint)
    ensures
        value_encodable(validated_output_fingerprint_json(value)),
{
    lemma_fingerprint_artifact_encodable(value.artifact);
    reveal_strlit("artifact");
    reveal_strlit("validation_contract");
    reveal_strlit("validation_sha256");
    reveal_with_fuel(text_less, 13);
    let m0 = Seq::<(Seq<char>, Json)>::empty();
    lemma_object_push_encodable(m0, "artifact"@, fingerprint_artifact_json(value.artifact));
    let m1 = m0.push(("artifact"@, fingerprint_artifact_json(value.artifact)));
    assert(text_less("artifact"@, "validation_contract"@));
    lemma_object_push_encodable(m1, "validation_contract"@, Json::Str(value.validation_contract@));
    let m2 = m1.push(("validation_contract"@, Json::Str(value.validation_contract@)));
    assert(text_less("validation_contract"@, "validation_sha256"@));
    lemma_object_push_encodable(m2, "validation_sha256"@, Json::Str(value.validation_sha256@));
    let m3 = m2.push(("validation_sha256"@, Json::Str(value.validation_sha256@)));
    assert(match validated_output_fingerprint_json(value) { Json::Object(ms) => ms, _ => Seq::empty() } =~= m3);
}

pub proof fn lemma_validated_outputs_encodable(values: Seq<ValidatedOutputFingerprint>)
    ensures
        value_encodable(validated_outputs_json(values)),
    decreases values.len(),
{
    let items = values.map_values(|e: ValidatedOutputFingerprint| validated_output_fingerprint_json(e));
    if values.len() > 0 {
        lemma_validated_outputs_encodable(values.drop_last());
        lemma_validated_output_fingerprint_encodable(values.last());
        assert(values.drop_last().map_values(|e: ValidatedOutputFingerprint| validated_output_fingerprint_json(e)) =~= items.drop_last());
        lemma_items_push(items.drop_last(), items.last());
        assert(items.drop_last().push(items.last()) =~= items);
    }
}

pub proof fn lemma_compatibility_fingerprint_payload_encodable(value: CompatibilityFingerprintPayload)
    ensures
        value_encodable(compatibility_fingerprint_payload_json(value)),
{
    lemma_capability_reference_encodable(value.capability);
    lemma_component_identities_encodable(value.codecs@);
    lemma_configuration_schema_reference_encodable(value.configuration_schema);
    lemma_fingerprint_artifacts_encodable(value.input_artifacts@);
    lemma_component_identities_encodable(value.models@);
    lemma_provider_reference_encodable(value.provider);
    lemma_component_identities_encodable(value.tools@);
    lemma_validated_outputs_encodable(value.validated_outputs@);
    reveal_strlit("capability");
    reveal_strlit("codecs");
    reveal_strlit("configuration_schema");
    reveal_strlit("effective_configuration_sha256");
    reveal_strlit("input_artifacts");
    reveal_strlit("models");
    reveal_strlit("pipeline_configuration_sha256");
    reveal_strlit("provider");
    reveal_strlit("tools");
    reveal_strlit("validated_outputs");
    reveal_with_fuel(text_less, 4);
    let m0 = Seq::<(Seq<char>, Json)>::empty();
    lemma_object_push_encodable(m0, "capability"@, capability_reference_json(value.capability));
    let m1 = m0.push(("capability"@, capability_reference_json(value.capability)));
    assert(text_less("capability"@, "codecs"@));
    lemma_object_push_encodable(m1, "codecs"@, component_identities_json(value.codecs@));
    let m2 = m1.push(("codecs"@, component_identities_json(value.codecs@)));
    assert(text_less("codecs"@, "configuration_schema"@));
    lemma_object_push_encodable(m2, "configuration_schema"@, configuration_schema_reference_json(value.configuration_schema));
    let m3 = m2.push(("configuration_schema"@, configuration_schema_reference_json(value.configuration_schema)));
    assert(text_less("configuration_schema"@, "effective_configuration_sha256"@));
    lemma_object_push_encodable(m3, "effective_configuration_sha256"@, Json::Str(value.effective_configuration_sha256@));
    let m4 = m3.push(("effective_configuration_sha256"@, Json::Str(value.effective_configuration_sha256@)));
    assert(text_less("effective_configuration_sha256"@, "input_artifacts"@));
    lemma_object_push_encodable(m4, "input_artifacts"@, fingerprint_artifacts_json(value.input_artifacts@));
    let m5 = m4.push(("input_artifacts"@, fingerprint_artifacts_json(value.input_artifacts@)));
    assert(text_less("input_artifacts"@, "models"@));
    lemma_object_push_encodable(m5, "models"@, component_identities_json(value.models@));
    let m6 = m5.push(("models"@, component_identities_json(value.models@)));
    assert(text_less("models"@, "pipeline_configuration_sha256"@));
    lemma_object_push_encodable(m6, "pipeline_configuration_sha256"@, Json::Str(value.pipeline_configuration_sha256@));
    let m7 = m6.push(("pipeline_configuration_sha256"@, Json::Str(value.pipeline_configuration_sha256@)));
    assert(text_less("pipeline_configuration_sha256"@, "provider"@));
    lemma_object_push_encodable(m7, "provider"@, provider_reference_json(value.provider));
    let m8 = m7.push(("provider"@, provider_reference_json(value.provider)));
    assert(text_less("provider"@, "tools"@));
    lemma_object_push_encodable(m8, "tools"@, component_identities_json(value.tools@));
    let m9 = m8.push(("tools"@, component_identities_json(value.tools@)));
    assert(text_less("tools"@, "validated_outputs"@));
    lemma_object_push_encodable(m9, "validated_outputs"@, validated_outputs_json(value.validated_outputs@));
    let m10 = m9.push(("validated_outputs"@, validated_outputs_json(value.validated_outputs@)));
    assert(match compatibility_fingerprint_payload_json(value) { Json::Object(ms) => ms, _ => Seq::empty() } =~= m10);
}

pub proof fn lemma_provider_execution_bounds_encodable(value: ProviderExecutionBounds)
    ensures
        value_encodable(provider_execution_bounds_json(value)),
{
    lemma_decimal_ascii(value.maximum_artifact_bytes as nat);
    lemma_decimal_ascii(value.maximum_artifact_files as nat);
    lemma_decimal_ascii(value.maximum_stderr_bytes as nat);
    lemma_decimal_ascii(value.maximum_stdout_bytes as nat);
    lemma_decimal_ascii(value.termination_grace_milliseconds as nat);
    lemma_decimal_ascii(value.timeout_milliseconds as nat);
    reveal_strlit("maximum_artifact_bytes");
    reveal_strlit("maximum_artifact_files");
    reveal_strlit("maximum_stderr_bytes");
    reveal_strlit("maximum_stdout_bytes");
    reveal_strlit("termination_grace_milliseconds");
    reveal_strlit("timeout_milliseconds");
    reveal_with_fuel(text_less, 19);
    let m0 = Seq::<(Seq<char>, Json)>::empty();
    lemma_object_push_encodable(m0, "maximum_artifact_bytes"@, Json::Number(decimal(value.maximum_artifact_bytes as nat)));
    let m1 = m0.push(("maximum_artifact_bytes"@, Json::Number(decimal(value.maximum_artifact_bytes as nat))));
    assert(text_less("maximum_artifact_bytes"@, "maximum_artifact_files"@));
    lemma_object_push_encodable(m1, "maximum_artifact_files"@, Json::Number(decimal(value.maximum_artifact_files as nat)));
    let m2 = m1.push(("maximum_artifact_files"@, Json::Number(decimal(value.maximum_artifact_files as nat))));
    assert(text_less("maximum_artifact_files"@, "maximum_stderr_bytes"@));
    lemma_object_push_encodable(m2, "maximum_stderr_bytes"@, Json::Number(decimal(value.maximum_stderr_bytes as nat)));
    let m3 = m2.push(("maximum_stderr_bytes"@, Json::Number(decimal(value.maximum_stderr_bytes as nat))));
    assert(text_less("maximum_stderr_bytes"@, "maximum_stdout_bytes"@));
    lemma_object_push_encodable(m3, "maximum_stdout_bytes"@, Json::Number(decimal(value.maximum_stdout_bytes as nat)));
    let m4 = m3.push(("maximum_stdout_bytes"@, Json::Number(decimal(value.maximum_stdout_bytes as nat))));
    assert(text_less("maximum_stdout_bytes"@, "termination_grace_milliseconds"@));
    lemma_object_push_encodable(m4, "termination_grace_milliseconds"@, Json::Number(decimal(value.termination_grace_milliseconds as nat)));
    let m5 = m4.push(("termination_grace_milliseconds"@, Json::Number(decimal(value.termination_grace_milliseconds as nat))));
    assert(text_less("termination_grace_milliseconds"@, "timeout_milliseconds"@));
    lemma_object_push_encodable(m5, "timeout_milliseconds"@, Json::Number(decimal(value.timeout_milliseconds as nat)));
    let m6 = m5.push(("timeout_milliseconds"@, Json::Number(decimal(value.timeout_milliseconds as nat))));
    assert(match provider_execution_bounds_json(value) { Json::Object(ms) => ms, _ => Seq::empty() } =~= m6);
}

pub proof fn lemma_provider_event_encodable(value: ProviderEvent)
    ensures
        value_encodable(provider_event_json(value)),
{
    lemma_decimal_ascii(value.sequence as nat);
    reveal_strlit("kind");
    reveal_strlit("observed_at");
    reveal_strlit("provider_lock_sha256");
    reveal_strlit("schema");
    reveal_strlit("sequence");
    reveal_with_fuel(text_less, 3);
    let m0 = Seq::<(Seq<char>, Json)>::empty();
    lemma_object_push_encodable(m0, "kind"@, Json::Str(provider_event_kind_name(value.kind)));
    let m1 = m0.push(("kind"@, Json::Str(provider_event_kind_name(value.kind))));
    assert(text_less("kind"@, "observed_at"@));
    lemma_object_push_encodable(m1, "observed_at"@, Json::Str(value.observed_at@));
    let m2 = m1.push(("observed_at"@, Json::Str(value.observed_at@)));
    assert(text_less("observed_at"@, "provider_lock_sha256"@));
    lemma_object_push_encodable(m2, "provider_lock_sha256"@, Json::Str(value.provider_lock_sha256@));
    let m3 = m2.push(("provider_lock_sha256"@, Json::Str(value.provider_lock_sha256@)));
    assert(text_less("provider_lock_sha256"@, "schema"@));
    lemma_object_push_encodable(m3, "schema"@, Json::Str(value.schema@));
    let m4 = m3.push(("schema"@, Json::Str(value.schema@)));
    assert(text_less("schema"@, "sequence"@));
    lemma_object_push_encodable(m4, "sequence"@, Json::Number(decimal(value.sequence as nat)));
    let m5 = m4.push(("sequence"@, Json::Number(decimal(value.sequence as nat))));
    assert(match provider_event_json(value) { Json::Object(ms) => ms, _ => Seq::empty() } =~= m5);
}

pub proof fn lemma_provider_events_encodable(values: Seq<ProviderEvent>)
    ensures
        value_encodable(provider_events_json(values)),
    decreases values.len(),
{
    let items = values.map_values(|e: ProviderEvent| provider_event_json(e));
    if values.len() > 0 {
        lemma_provider_events_encodable(values.drop_last());
        lemma_provider_event_encodable(values.last());
        assert(values.drop_last().map_values(|e: ProviderEvent| provider_event_json(e)) =~= items.drop_last());
        lemma_items_push(items.drop_last(), items.last());
        assert(items.drop_last().push(items.last()) =~= items);
    }
}

pub proof fn lemma_captured_diagnostic_encodable(value: CapturedDiagnostic)
    ensures
        value_encodable(captured_diagnostic_json(value)),
{
    lemma_decimal_ascii(value.total_bytes as nat);
    reveal_strlit("redacted");
    reveal_strlit("retained_text");
    reveal_strlit("stream");
    reveal_strlit("total_bytes");
    reveal_strlit("truncated");
    reveal_with_fuel(text_less, 4);
    let m0 = Seq::<(Seq<char>, Json)>::empty();
    lemma_object_push_encodable(m0, "redacted"@, Json::Bool(value.redacted));
    let m1 = m0.push(("redacted"@, Json::Bool(value.redacted)));
    assert(text_less("redacted"@, "retained_text"@));
    lemma_object_push_encodable(m1, "retained_text"@, Json::Str(value.retained_text@));
    let m2 = m1.push(("retained_text"@, Json::Str(value.retained_text@)));
    assert(text_less("retained_text"@, "stream"@));
    lemma_object_push_encodable(m2, "stream"@, Json::Str(stream_kind_name(value.stream)));
    let m3 = m2.push(("stream"@, Json::Str(stream_kind_name(value.stream))));
    assert(text_less("stream"@, "total_bytes"@));
    lemma_object_push_encodable(m3, "total_bytes"@, Json::Number(decimal(value.total_bytes as nat)));
    let m4 = m3.push(("total_bytes"@, Json::Number(decimal(value.total_bytes as nat))));
    assert(text_less("total_bytes"@, "truncated"@));
    lemma_object_push_encodable(m4, "truncated"@, Json::Bool(value.truncated));
    let m5 = m4.push(("truncated"@, Json::Bool(value.truncated)));
    assert(match captured_diagnostic_json(value) { Json::Object(ms) => ms, _ => Seq::empty() } =~= m5);
}

pub proof fn lemma_artifact_observation_encodable(value: ArtifactObservation)
    ensures
        value_encodable(artifact_observation_json(value)),
{
    lemma_decimal_ascii(value.byte_count as nat);
    lemma_decimal_ascii(value.file_count as nat);
    reveal_strlit("byte_count");
    reveal_strlit("file_count");
    reveal_strlit("kind");
    reveal_strlit("port");
    reveal_strlit("relative_path");
    reveal_strlit("sha256");
    reveal_with_fuel(text_less, 2);
    let m0 = Seq::<(Seq<char>, Json)>::empty();
    lemma_object_push_encodable(m0, "byte_count"@, Json::Number(decimal(value.byte_count as nat)));
    let m1 = m0.push(("byte_count"@, Json::Number(decimal(value.byte_count as nat))));
    assert(text_less("byte_count"@, "file_count"@));
    lemma_object_push_encodable(m1, "file_count"@, Json::Number(decimal(value.file_count as nat)));
    let m2 = m1.push(("file_count"@, Json::Number(decimal(value.file_count as nat))));
    assert(text_less("file_count"@, "kind"@));
    lemma_object_push_encodable(m2, "kind"@, Json::Str(artifact_kind_name(value.kind)));
    let m3 = m2.push(("kind"@, Json::Str(artifact_kind_name(value.kind))));
    assert(text_less("kind"@, "port"@));
    lemma_object_push_encodable(m3, "port"@, Json::Str(value.port@));
    let m4 = m3.push(("port"@, Json::Str(value.port@)));
    assert(text_less("port"@, "relative_path"@));
    lemma_object_push_encodable(m4, "relative_path"@, Json::Str(value.relative_path@));
    let m5 = m4.push(("relative_path"@, Json::Str(value.relative_path@)));
    assert(text_less("relative_path"@, "sha256"@));
    lemma_object_push_encodable(m5, "sha256"@, Json::Str(value.sha256@));
    let m6 = m5.push(("sha256"@, Json::Str(value.sha256@)));
    assert(match artifact_observation_json(value) { Json::Object(ms) => ms, _ => Seq::empty() } =~= m6);
}

pub proof fn lemma_artifact_observations_encodable(values: Seq<ArtifactObservation>)
    ensures
        value_encodable(artifact_observations_json(values)),
    decreases values.len(),
{
    let items = values.map_values(|e: ArtifactObservation| artifact_observation_json(e));
    if values.len() > 0 {
        lemma_artifact_observations_encodable(values.drop_last());
        lemma_artifact_observation_encodable(values.last());
        assert(values.drop_last().map_values(|e: ArtifactObservation| artifact_observation_json(e)) =~= items.drop_last());
        lemma_items_push(items.drop_last(), items.last());
        assert(items.drop_last().push(items.last()) =~= items);
    }
}

pub proof fn lemma_provider_execution_failure_encodable(value: ProviderExecutionFailure)
    ensures
        value_encodable(provider_execution_failure_json(value)),
{
    reveal_strlit("code");
    reveal_strlit("detail");
    reveal_with_fuel(text_less, 2);
    let m0 = Seq::<(Seq<char>, Json)>::empty();
    lemma_object_push_encodable(m0, "code"@, Json::Str(provider_execution_failure_code_name(value.code)));
    let m1 = m0.push(("code"@, Json::Str(provider_execution_failure_code_name(value.code))));
    assert(text_less("code"@, "detail"@));
    lemma_object_push_encodable(m1, "detail"@, Json::Str(value.detail@));
    let m2 = m1.push(("detail"@, Json::Str(value.detail@)));
    assert(match provider_execution_failure_json(value) { Json::Object(ms) => ms, _ => Seq::empty() } =~= m2);
}

pub proof fn lemma_provider_termination_encodable(value: ProviderTermination)
    ensures
        value_encodable(provider_termination_json(value)),
{
    reveal_strlit("exit_code");
    reveal_strlit("reason");
    reveal_strlit("signal");
    reveal_with_fuel(text_less, 2);
    match value.exit_code {
        Some(x_exit_code) => {
            lemma_signed_decimal_ascii(x_exit_code as int);
            match value.signal {
                Some(x_signal) => {
                    lemma_signed_decimal_ascii(x_signal as int);
                    let m0 = Seq::<(Seq<char>, Json)>::empty();
                    lemma_object_push_encodable(m0, "exit_code"@, Json::Number(signed_decimal(x_exit_code as int)));
                    let m1 = m0.push(("exit_code"@, Json::Number(signed_decimal(x_exit_code as int))));
                    assert(text_less("exit_code"@, "reason"@));
                    lemma_object_push_encodable(m1, "reason"@, Json::Str(termination_reason_name(value.reason)));
                    let m2 = m1.push(("reason"@, Json::Str(termination_reason_name(value.reason))));
                    assert(text_less("reason"@, "signal"@));
                    lemma_object_push_encodable(m2, "signal"@, Json::Number(signed_decimal(x_signal as int)));
                    let m3 = m2.push(("signal"@, Json::Number(signed_decimal(x_signal as int))));
                    assert(match provider_termination_json(value) { Json::Object(ms) => ms, _ => Seq::empty() } =~= m3);
                },
                None => {
                    let m0 = Seq::<(Seq<char>, Json)>::empty();
                    lemma_object_push_encodable(m0, "exit_code"@, Json::Number(signed_decimal(x_exit_code as int)));
                    let m1 = m0.push(("exit_code"@, Json::Number(signed_decimal(x_exit_code as int))));
                    assert(text_less("exit_code"@, "reason"@));
                    lemma_object_push_encodable(m1, "reason"@, Json::Str(termination_reason_name(value.reason)));
                    let m2 = m1.push(("reason"@, Json::Str(termination_reason_name(value.reason))));
                    assert(match provider_termination_json(value) { Json::Object(ms) => ms, _ => Seq::empty() } =~= m2);
                },
            }
        },
        None => {
            match value.signal {
                Some(x_signal) => {
                    lemma_signed_decimal_ascii(x_signal as int);
                    let m0 = Seq::<(Seq<char>, Json)>::empty();
                    lemma_object_push_encodable(m0, "reason"@, Json::Str(termination_reason_name(value.reason)));
                    let m1 = m0.push(("reason"@, Json::Str(termination_reason_name(value.reason))));
                    assert(text_less("reason"@, "signal"@));
                    lemma_object_push_encodable(m1, "signal"@, Json::Number(signed_decimal(x_signal as int)));
                    let m2 = m1.push(("signal"@, Json::Number(signed_decimal(x_signal as int))));
                    assert(match provider_termination_json(value) { Json::Object(ms) => ms, _ => Seq::empty() } =~= m2);
                },
                None => {
                    let m0 = Seq::<(Seq<char>, Json)>::empty();
                    lemma_object_push_encodable(m0, "reason"@, Json::Str(termination_reason_name(value.reason)));
                    let m1 = m0.push(("reason"@, Json::Str(termination_reason_name(value.reason))));
                    assert(match provider_termination_json(value) { Json::Object(ms) => ms, _ => Seq::empty() } =~= m1);
                },
            }
        },
    }
}

pub proof fn lemma_provider_execution_report_payload_encodable(value: ProviderExecutionReportPayload)
    ensures
        value_encodable(provider_execution_report_payload_json(value)),
{
    lemma_provider_execution_bounds_encodable(value.bounds);
    lemma_decimal_ascii(value.duration_milliseconds as nat);
    lemma_provider_events_encodable(value.events@);
    lemma_artifact_observations_encodable(value.outputs@);
    lemma_provider_lock_encodable(value.provider_lock);
    lemma_captured_diagnostic_encodable(value.stderr);
    lemma_captured_diagnostic_encodable(value.stdout);
    lemma_provider_termination_encodable(value.termination);
    reveal_strlit("bounds");
    reveal_strlit("duration_milliseconds");
    reveal_strlit("events");
    reveal_strlit("failure");
    reveal_strlit("finished_at");
    reveal_strlit("outcome");
    reveal_strlit("outputs");
    reveal_strlit("provider_lock");
    reveal_strlit("started_at");
    reveal_strlit("stderr");
    reveal_strlit("stdout");
    reveal_strlit("termination");
    reveal_with_fuel(text_less, 5);
    match value.failure {
        Some(x_failure) => {
            lemma_provider_execution_failure_encodable(x_failure);
            let m0 = Seq::<(Seq<char>, Json)>::empty();
            lemma_object_push_encodable(m0, "bounds"@, provider_execution_bounds_json(value.bounds));
            let m1 = m0.push(("bounds"@, provider_execution_bounds_json(value.bounds)));
            assert(text_less("bounds"@, "duration_milliseconds"@));
            lemma_object_push_encodable(m1, "duration_milliseconds"@, Json::Number(decimal(value.duration_milliseconds as nat)));
            let m2 = m1.push(("duration_milliseconds"@, Json::Number(decimal(value.duration_milliseconds as nat))));
            assert(text_less("duration_milliseconds"@, "events"@));
            lemma_object_push_encodable(m2, "events"@, provider_events_json(value.events@));
            let m3 = m2.push(("events"@, provider_events_json(value.events@)));
            assert(text_less("events"@, "failure"@));
            lemma_object_push_encodable(m3, "failure"@, provider_execution_failure_json(x_failure));
            let m4 = m3.push(("failure"@, provider_execution_failure_json(x_failure)));
            assert(text_less("failure"@, "finished_at"@));
            lemma_object_push_encodable(m4, "finished_at"@, Json::Str(value.finished_at@));
            let m5 = m4.push(("finished_at"@, Json::Str(value.finished_at@)));
            assert(text_less("finished_at"@, "outcome"@));
            lemma_object_push_encodable(m5, "outcome"@, Json::Str(provider_execution_outcome_name(value.outcome)));
            let m6 = m5.push(("outcome"@, Json::Str(provider_execution_outcome_name(value.outcome))));
            assert(text_less("outcome"@, "outputs"@));
            lemma_object_push_encodable(m6, "outputs"@, artifact_observations_json(value.outputs@));
            let m7 = m6.push(("outputs"@, artifact_observations_json(value.outputs@)));
            assert(text_less("outputs"@, "provider_lock"@));
            lemma_object_push_encodable(m7, "provider_lock"@, provider_lock_json(value.provider_lock));
            let m8 = m7.push(("provider_lock"@, provider_lock_json(value.provider_lock)));
            assert(text_less("provider_lock"@, "started_at"@));
            lemma_object_push_encodable(m8, "started_at"@, Json::Str(value.started_at@));
            let m9 = m8.push(("started_at"@, Json::Str(value.started_at@)));
            assert(text_less("started_at"@, "stderr"@));
            lemma_object_push_encodable(m9, "stderr"@, captured_diagnostic_json(value.stderr));
            let m10 = m9.push(("stderr"@, captured_diagnostic_json(value.stderr)));
            assert(text_less("stderr"@, "stdout"@));
            lemma_object_push_encodable(m10, "stdout"@, captured_diagnostic_json(value.stdout));
            let m11 = m10.push(("stdout"@, captured_diagnostic_json(value.stdout)));
            assert(text_less("stdout"@, "termination"@));
            lemma_object_push_encodable(m11, "termination"@, provider_termination_json(value.termination));
            let m12 = m11.push(("termination"@, provider_termination_json(value.termination)));
            assert(match provider_execution_report_payload_json(value) { Json::Object(ms) => ms, _ => Seq::empty() } =~= m12);
        },
        None => {
            let m0 = Seq::<(Seq<char>, Json)>::empty();
            lemma_object_push_encodable(m0, "bounds"@, provider_execution_bounds_json(value.bounds));
            let m1 = m0.push(("bounds"@, provider_execution_bounds_json(value.bounds)));
            assert(text_less("bounds"@, "duration_milliseconds"@));
            lemma_object_push_encodable(m1, "duration_milliseconds"@, Json::Number(decimal(value.duration_milliseconds as nat)));
            let m2 = m1.push(("duration_milliseconds"@, Json::Number(decimal(value.duration_milliseconds as nat))));
            assert(text_less("duration_milliseconds"@, "events"@));
            lemma_object_push_encodable(m2, "events"@, provider_events_json(value.events@));
            let m3 = m2.push(("events"@, provider_events_json(value.events@)));
            assert(text_less("events"@, "finished_at"@));
            lemma_object_push_encodable(m3, "finished_at"@, Json::Str(value.finished_at@));
            let m4 = m3.push(("finished_at"@, Json::Str(value.finished_at@)));
            assert(text_less("finished_at"@, "outcome"@));
            lemma_object_push_encodable(m4, "outcome"@, Json::Str(provider_execution_outcome_name(value.outcome)));
            let m5 = m4.push(("outcome"@, Json::Str(provider_execution_outcome_name(value.outcome))));
            assert(text_less("outcome"@, "outputs"@));
            lemma_object_push_encodable(m5, "outputs"@, artifact_observations_json(value.outputs@));
            let m6 = m5.push(("outputs"@, artifact_observations_json(value.outputs@)));
            assert(text_less("outputs"@, "provider_lock"@));
            lemma_object_push_encodable(m6, "provider_lock"@, provider_lock_json(value.provider_lock));
            let m7 = m6.push(("provider_lock"@, provider_lock_json(value.provider_lock)));
            assert(text_less("provider_lock"@, "started_at"@));
            lemma_object_push_encodable(m7, "started_at"@, Json::Str(value.started_at@));
            let m8 = m7.push(("started_at"@, Json::Str(value.started_at@)));
            assert(text_less("started_at"@, "stderr"@));
            lemma_object_push_encodable(m8, "stderr"@, captured_diagnostic_json(value.stderr));
            let m9 = m8.push(("stderr"@, captured_diagnostic_json(value.stderr)));
            assert(text_less("stderr"@, "stdout"@));
            lemma_object_push_encodable(m9, "stdout"@, captured_diagnostic_json(value.stdout));
            let m10 = m9.push(("stdout"@, captured_diagnostic_json(value.stdout)));
            assert(text_less("stdout"@, "termination"@));
            lemma_object_push_encodable(m10, "termination"@, provider_termination_json(value.termination));
            let m11 = m10.push(("termination"@, provider_termination_json(value.termination)));
            assert(match provider_execution_report_payload_json(value) { Json::Object(ms) => ms, _ => Seq::empty() } =~= m11);
        },
    }
}


pub open spec fn strings_json(values: Seq<String>) -> Json {
    Json::Array(values.map_values(|e: String| Json::Str(e@)))
}

pub fn strings_value(values: &Vec<String>) -> (v: JsonValue)
    ensures
        json_of(v) == strings_json(values@),
{
    let mut items: Vec<JsonValue> = Vec::new();
    let mut i: usize = 0;
    while i < values.len()
        invariant
            i <= values.len(),
            json_items(items@) == values@.take(i as int).map_values(|e: String| Json::Str(e@)),
        decreases values.len() - i,
    {
        item(&mut items, jstr(values[i].as_str()));
        assert(values@.take(i + 1).map_values(|e: String| Json::Str(e@)) =~= values@.take(i as int).map_values(
            |e: String| Json::Str(e@),
        ).push(Json::Str(values@[i as int]@)));
        i = i + 1;
    }
    assert(values@.take(values.len() as int) =~= values@);
    JsonValue::Array(items)
}

/// The serialized form of a `AuthoredPipelineInput`, members in key order.
pub open spec fn authored_pipeline_input_json(value: AuthoredPipelineInput) -> Json {
    Json::Object(seq![("artifact_role"@, Json::Str(artifact_role_name(value.artifact_role))), ("artifact_type"@, Json::Str(value.artifact_type@)), ("id"@, Json::Str(value.id@))] + (match value.stream_role { Some(x) => seq![("stream_role"@, Json::Str(stream_role_name(x)))], None => Seq::<(Seq<char>, Json)>::empty() }))
}

pub fn authored_pipeline_input_value(value: &AuthoredPipelineInput) -> (v: JsonValue)
    ensures
        json_of(v) == authored_pipeline_input_json(*value),
{
    let mut m: Vec<(String, JsonValue)> = Vec::new();
    member(&mut m, "artifact_role", jstr(artifact_role_name_text(value.artifact_role)));
    member(&mut m, "artifact_type", jstr(value.artifact_type.as_str()));
    member(&mut m, "id", jstr(value.id.as_str()));
    match &value.stream_role {
        Some(x) => {
            member(&mut m, "stream_role", jstr(stream_role_name_text(*x)));
        },
        None => {},
    }
    assert(json_members(m@) =~= match authored_pipeline_input_json(*value) { Json::Object(ms) => ms, _ => Seq::empty() });
    JsonValue::Object(m)
}

pub open spec fn authored_inputs_json(values: Seq<AuthoredPipelineInput>) -> Json {
    Json::Array(values.map_values(|e: AuthoredPipelineInput| authored_pipeline_input_json(e)))
}

pub fn authored_inputs_value(values: &Vec<AuthoredPipelineInput>) -> (v: JsonValue)
    ensures
        json_of(v) == authored_inputs_json(values@),
{
    let mut items: Vec<JsonValue> = Vec::new();
    let mut i: usize = 0;
    while i < values.len()
        invariant
            i <= values.len(),
            json_items(items@) == values@.take(i as int).map_values(|e: AuthoredPipelineInput| authored_pipeline_input_json(e)),
        decreases values.len() - i,
    {
        item(&mut items, authored_pipeline_input_value(&values[i]));
        assert(values@.take(i + 1).map_values(|e: AuthoredPipelineInput| authored_pipeline_input_json(e)) =~= values@.take(i as int).map_values(
            |e: AuthoredPipelineInput| authored_pipeline_input_json(e),
        ).push(authored_pipeline_input_json(values@[i as int])));
        i = i + 1;
    }
    assert(values@.take(values.len() as int) =~= values@);
    JsonValue::Array(items)
}

/// The serialized form of a `CapabilityRequirement`, members in key order.
pub open spec fn capability_requirement_json(value: CapabilityRequirement) -> Json {
    Json::Object(seq![("id"@, Json::Str(value.id@)), ("version_requirement"@, Json::Str(value.version_requirement@))])
}

pub fn capability_requirement_value(value: &CapabilityRequirement) -> (v: JsonValue)
    ensures
        json_of(v) == capability_requirement_json(*value),
{
    let mut m: Vec<(String, JsonValue)> = Vec::new();
    member(&mut m, "id", jstr(value.id.as_str()));
    member(&mut m, "version_requirement", jstr(value.version_requirement.as_str()));
    assert(json_members(m@) =~= match capability_requirement_json(*value) { Json::Object(ms) => ms, _ => Seq::empty() });
    JsonValue::Object(m)
}

/// The serialized form of a `ProviderCandidate`, members in key order.
pub open spec fn provider_candidate_json(value: ProviderCandidate) -> Json {
    Json::Object(seq![("registration_id"@, Json::Str(value.registration_id@))])
}

pub fn provider_candidate_value(value: &ProviderCandidate) -> (v: JsonValue)
    ensures
        json_of(v) == provider_candidate_json(*value),
{
    let mut m: Vec<(String, JsonValue)> = Vec::new();
    member(&mut m, "registration_id", jstr(value.registration_id.as_str()));
    assert(json_members(m@) =~= match provider_candidate_json(*value) { Json::Object(ms) => ms, _ => Seq::empty() });
    JsonValue::Object(m)
}

pub open spec fn provider_candidates_json(values: Seq<ProviderCandidate>) -> Json {
    Json::Array(values.map_values(|e: ProviderCandidate| provider_candidate_json(e)))
}

pub fn provider_candidates_value(values: &Vec<ProviderCandidate>) -> (v: JsonValue)
    ensures
        json_of(v) == provider_candidates_json(values@),
{
    let mut items: Vec<JsonValue> = Vec::new();
    let mut i: usize = 0;
    while i < values.len()
        invariant
            i <= values.len(),
            json_items(items@) == values@.take(i as int).map_values(|e: ProviderCandidate| provider_candidate_json(e)),
        decreases values.len() - i,
    {
        item(&mut items, provider_candidate_value(&values[i]));
        assert(values@.take(i + 1).map_values(|e: ProviderCandidate| provider_candidate_json(e)) =~= values@.take(i as int).map_values(
            |e: ProviderCandidate| provider_candidate_json(e),
        ).push(provider_candidate_json(values@[i as int])));
        i = i + 1;
    }
    assert(values@.take(values.len() as int) =~= values@);
    JsonValue::Array(items)
}

/// The serialized form of a `ProviderSelectionIntent`, members in key order.
pub open spec fn provider_selection_intent_json(value: ProviderSelectionIntent) -> Json {
    Json::Object(seq![("fallbacks"@, provider_candidates_json(value.fallbacks@)), ("primary"@, provider_candidate_json(value.primary))] + (match value.replacement { Some(x) => seq![("replacement"@, provider_candidate_json(x))], None => Seq::<(Seq<char>, Json)>::empty() }))
}

pub fn provider_selection_intent_value(value: &ProviderSelectionIntent) -> (v: JsonValue)
    ensures
        json_of(v) == provider_selection_intent_json(*value),
{
    let mut m: Vec<(String, JsonValue)> = Vec::new();
    member(&mut m, "fallbacks", provider_candidates_value(&value.fallbacks));
    member(&mut m, "primary", provider_candidate_value(&value.primary));
    match &value.replacement {
        Some(x) => {
            member(&mut m, "replacement", provider_candidate_value(x));
        },
        None => {},
    }
    assert(json_members(m@) =~= match provider_selection_intent_json(*value) { Json::Object(ms) => ms, _ => Seq::empty() });
    JsonValue::Object(m)
}

/// The serialized form of a `AuthoredInputBinding`, members in key order.
pub open spec fn authored_input_binding_json(value: AuthoredInputBinding) -> Json {
    Json::Object(seq![("artifacts"@, strings_json(value.artifacts@)), ("port"@, Json::Str(value.port@))])
}

pub fn authored_input_binding_value(value: &AuthoredInputBinding) -> (v: JsonValue)
    ensures
        json_of(v) == authored_input_binding_json(*value),
{
    let mut m: Vec<(String, JsonValue)> = Vec::new();
    member(&mut m, "artifacts", strings_value(&value.artifacts));
    member(&mut m, "port", jstr(value.port.as_str()));
    assert(json_members(m@) =~= match authored_input_binding_json(*value) { Json::Object(ms) => ms, _ => Seq::empty() });
    JsonValue::Object(m)
}

pub open spec fn authored_input_bindings_json(values: Seq<AuthoredInputBinding>) -> Json {
    Json::Array(values.map_values(|e: AuthoredInputBinding| authored_input_binding_json(e)))
}

pub fn authored_input_bindings_value(values: &Vec<AuthoredInputBinding>) -> (v: JsonValue)
    ensures
        json_of(v) == authored_input_bindings_json(values@),
{
    let mut items: Vec<JsonValue> = Vec::new();
    let mut i: usize = 0;
    while i < values.len()
        invariant
            i <= values.len(),
            json_items(items@) == values@.take(i as int).map_values(|e: AuthoredInputBinding| authored_input_binding_json(e)),
        decreases values.len() - i,
    {
        item(&mut items, authored_input_binding_value(&values[i]));
        assert(values@.take(i + 1).map_values(|e: AuthoredInputBinding| authored_input_binding_json(e)) =~= values@.take(i as int).map_values(
            |e: AuthoredInputBinding| authored_input_binding_json(e),
        ).push(authored_input_binding_json(values@[i as int])));
        i = i + 1;
    }
    assert(values@.take(values.len() as int) =~= values@);
    JsonValue::Array(items)
}

/// The serialized form of a `ExpectedArtifact`, members in key order.
pub open spec fn expected_artifact_json(value: ExpectedArtifact) -> Json {
    Json::Object(seq![("id"@, Json::Str(value.id@)), ("relative_path"@, Json::Str(value.relative_path@))])
}

pub fn expected_artifact_value(value: &ExpectedArtifact) -> (v: JsonValue)
    ensures
        json_of(v) == expected_artifact_json(*value),
{
    let mut m: Vec<(String, JsonValue)> = Vec::new();
    member(&mut m, "id", jstr(value.id.as_str()));
    member(&mut m, "relative_path", jstr(value.relative_path.as_str()));
    assert(json_members(m@) =~= match expected_artifact_json(*value) { Json::Object(ms) => ms, _ => Seq::empty() });
    JsonValue::Object(m)
}

pub open spec fn expected_artifacts_json(values: Seq<ExpectedArtifact>) -> Json {
    Json::Array(values.map_values(|e: ExpectedArtifact| expected_artifact_json(e)))
}

pub fn expected_artifacts_value(values: &Vec<ExpectedArtifact>) -> (v: JsonValue)
    ensures
        json_of(v) == expected_artifacts_json(values@),
{
    let mut items: Vec<JsonValue> = Vec::new();
    let mut i: usize = 0;
    while i < values.len()
        invariant
            i <= values.len(),
            json_items(items@) == values@.take(i as int).map_values(|e: ExpectedArtifact| expected_artifact_json(e)),
        decreases values.len() - i,
    {
        item(&mut items, expected_artifact_value(&values[i]));
        assert(values@.take(i + 1).map_values(|e: ExpectedArtifact| expected_artifact_json(e)) =~= values@.take(i as int).map_values(
            |e: ExpectedArtifact| expected_artifact_json(e),
        ).push(expected_artifact_json(values@[i as int])));
        i = i + 1;
    }
    assert(values@.take(values.len() as int) =~= values@);
    JsonValue::Array(items)
}

/// The serialized form of a `AuthoredOutputBinding`, members in key order.
pub open spec fn authored_output_binding_json(value: AuthoredOutputBinding) -> Json {
    Json::Object(seq![("artifacts"@, expected_artifacts_json(value.artifacts@)), ("port"@, Json::Str(value.port@))])
}

pub fn authored_output_binding_value(value: &AuthoredOutputBinding) -> (v: JsonValue)
    ensures
        json_of(v) == authored_output_binding_json(*value),
{
    let mut m: Vec<(String, JsonValue)> = Vec::new();
    member(&mut m, "artifacts", expected_artifacts_value(&value.artifacts));
    member(&mut m, "port", jstr(value.port.as_str()));
    assert(json_members(m@) =~= match authored_output_binding_json(*value) { Json::Object(ms) => ms, _ => Seq::empty() });
    JsonValue::Object(m)
}

pub open spec fn authored_output_bindings_json(values: Seq<AuthoredOutputBinding>) -> Json {
    Json::Array(values.map_values(|e: AuthoredOutputBinding| authored_output_binding_json(e)))
}

pub fn authored_output_bindings_value(values: &Vec<AuthoredOutputBinding>) -> (v: JsonValue)
    ensures
        json_of(v) == authored_output_bindings_json(values@),
{
    let mut items: Vec<JsonValue> = Vec::new();
    let mut i: usize = 0;
    while i < values.len()
        invariant
            i <= values.len(),
            json_items(items@) == values@.take(i as int).map_values(|e: AuthoredOutputBinding| authored_output_binding_json(e)),
        decreases values.len() - i,
    {
        item(&mut items, authored_output_binding_value(&values[i]));
        assert(values@.take(i + 1).map_values(|e: AuthoredOutputBinding| authored_output_binding_json(e)) =~= values@.take(i as int).map_values(
            |e: AuthoredOutputBinding| authored_output_binding_json(e),
        ).push(authored_output_binding_json(values@[i as int])));
        i = i + 1;
    }
    assert(values@.take(values.len() as int) =~= values@);
    JsonValue::Array(items)
}

/// The serialized form of a `ArtifactValidation`, members in key order.
pub open spec fn artifact_validation_json(value: ArtifactValidation) -> Json {
    Json::Object(seq![("artifact"@, Json::Str(value.artifact@)), ("contract"@, Json::Str(value.contract@)), ("id"@, Json::Str(value.id@))])
}

pub fn artifact_validation_value(value: &ArtifactValidation) -> (v: JsonValue)
    ensures
        json_of(v) == artifact_validation_json(*value),
{
    let mut m: Vec<(String, JsonValue)> = Vec::new();
    member(&mut m, "artifact", jstr(value.artifact.as_str()));
    member(&mut m, "contract", jstr(value.contract.as_str()));
    member(&mut m, "id", jstr(value.id.as_str()));
    assert(json_members(m@) =~= match artifact_validation_json(*value) { Json::Object(ms) => ms, _ => Seq::empty() });
    JsonValue::Object(m)
}

pub open spec fn artifact_validations_json(values: Seq<ArtifactValidation>) -> Json {
    Json::Array(values.map_values(|e: ArtifactValidation| artifact_validation_json(e)))
}

pub fn artifact_validations_value(values: &Vec<ArtifactValidation>) -> (v: JsonValue)
    ensures
        json_of(v) == artifact_validations_json(values@),
{
    let mut items: Vec<JsonValue> = Vec::new();
    let mut i: usize = 0;
    while i < values.len()
        invariant
            i <= values.len(),
            json_items(items@) == values@.take(i as int).map_values(|e: ArtifactValidation| artifact_validation_json(e)),
        decreases values.len() - i,
    {
        item(&mut items, artifact_validation_value(&values[i]));
        assert(values@.take(i + 1).map_values(|e: ArtifactValidation| artifact_validation_json(e)) =~= values@.take(i as int).map_values(
            |e: ArtifactValidation| artifact_validation_json(e),
        ).push(artifact_validation_json(values@[i as int])));
        i = i + 1;
    }
    assert(values@.take(values.len() as int) =~= values@);
    JsonValue::Array(items)
}

/// The serialized form of a `AuthoredPipelineStage`, members in key order.
pub open spec fn authored_pipeline_stage_json(value: AuthoredPipelineStage) -> Json {
    Json::Object(seq![("capability"@, capability_requirement_json(value.capability)), ("depends_on"@, strings_json(value.depends_on@)), ("id"@, Json::Str(value.id@)), ("inputs"@, authored_input_bindings_json(value.inputs@)), ("outputs"@, authored_output_bindings_json(value.outputs@)), ("provider"@, provider_selection_intent_json(value.provider)), ("validations"@, artifact_validations_json(value.validations@))])
}

pub fn authored_pipeline_stage_value(value: &AuthoredPipelineStage) -> (v: JsonValue)
    ensures
        json_of(v) == authored_pipeline_stage_json(*value),
{
    let mut m: Vec<(String, JsonValue)> = Vec::new();
    member(&mut m, "capability", capability_requirement_value(&value.capability));
    member(&mut m, "depends_on", strings_value(&value.depends_on));
    member(&mut m, "id", jstr(value.id.as_str()));
    member(&mut m, "inputs", authored_input_bindings_value(&value.inputs));
    member(&mut m, "outputs", authored_output_bindings_value(&value.outputs));
    member(&mut m, "provider", provider_selection_intent_value(&value.provider));
    member(&mut m, "validations", artifact_validations_value(&value.validations));
    assert(json_members(m@) =~= match authored_pipeline_stage_json(*value) { Json::Object(ms) => ms, _ => Seq::empty() });
    JsonValue::Object(m)
}

pub open spec fn authored_stages_json(values: Seq<AuthoredPipelineStage>) -> Json {
    Json::Array(values.map_values(|e: AuthoredPipelineStage| authored_pipeline_stage_json(e)))
}

pub fn authored_stages_value(values: &Vec<AuthoredPipelineStage>) -> (v: JsonValue)
    ensures
        json_of(v) == authored_stages_json(values@),
{
    let mut items: Vec<JsonValue> = Vec::new();
    let mut i: usize = 0;
    while i < values.len()
        invariant
            i <= values.len(),
            json_items(items@) == values@.take(i as int).map_values(|e: AuthoredPipelineStage| authored_pipeline_stage_json(e)),
        decreases values.len() - i,
    {
        item(&mut items, authored_pipeline_stage_value(&values[i]));
        assert(values@.take(i + 1).map_values(|e: AuthoredPipelineStage| authored_pipeline_stage_json(e)) =~= values@.take(i as int).map_values(
            |e: AuthoredPipelineStage| authored_pipeline_stage_json(e),
        ).push(authored_pipeline_stage_json(values@[i as int])));
        i = i + 1;
    }
    assert(values@.take(values.len() as int) =~= values@);
    JsonValue::Array(items)
}

/// The serialized form of a `FinalOutputRequirement`, members in key order.
pub open spec fn final_output_requirement_json(value: FinalOutputRequirement) -> Json {
    Json::Object(seq![("artifact"@, Json::Str(value.artifact@)), ("id"@, Json::Str(value.id@)), ("required_validations"@, strings_json(value.required_validations@))])
}

pub fn final_output_requirement_value(value: &FinalOutputRequirement) -> (v: JsonValue)
    ensures
        json_of(v) == final_output_requirement_json(*value),
{
    let mut m: Vec<(String, JsonValue)> = Vec::new();
    member(&mut m, "artifact", jstr(value.artifact.as_str()));
    member(&mut m, "id", jstr(value.id.as_str()));
    member(&mut m, "required_validations", strings_value(&value.required_validations));
    assert(json_members(m@) =~= match final_output_requirement_json(*value) { Json::Object(ms) => ms, _ => Seq::empty() });
    JsonValue::Object(m)
}

pub open spec fn final_outputs_json(values: Seq<FinalOutputRequirement>) -> Json {
    Json::Array(values.map_values(|e: FinalOutputRequirement| final_output_requirement_json(e)))
}

pub fn final_outputs_value(values: &Vec<FinalOutputRequirement>) -> (v: JsonValue)
    ensures
        json_of(v) == final_outputs_json(values@),
{
    let mut items: Vec<JsonValue> = Vec::new();
    let mut i: usize = 0;
    while i < values.len()
        invariant
            i <= values.len(),
            json_items(items@) == values@.take(i as int).map_values(|e: FinalOutputRequirement| final_output_requirement_json(e)),
        decreases values.len() - i,
    {
        item(&mut items, final_output_requirement_value(&values[i]));
        assert(values@.take(i + 1).map_values(|e: FinalOutputRequirement| final_output_requirement_json(e)) =~= values@.take(i as int).map_values(
            |e: FinalOutputRequirement| final_output_requirement_json(e),
        ).push(final_output_requirement_json(values@[i as int])));
        i = i + 1;
    }
    assert(values@.take(values.len() as int) =~= values@);
    JsonValue::Array(items)
}

/// The semantic form of a `PipelineV3Configuration` that its digest covers:
/// every member but the description, in key order.
pub open spec fn pipeline_v3_configuration_json(value: PipelineV3Configuration) -> Json {
    Json::Object(seq![("inputs"@, authored_inputs_json(value.inputs@)), ("name"@, Json::Str(value.name@)), ("outputs"@, final_outputs_json(value.outputs@)), ("schema"@, Json::Str(value.schema@)), ("stages"@, authored_stages_json(value.stages@))])
}

pub fn pipeline_v3_configuration_value(value: &PipelineV3Configuration) -> (v: JsonValue)
    ensures
        json_of(v) == pipeline_v3_configuration_json(*value),
{
    let mut m: Vec<(String, JsonValue)> = Vec::new();
    member(&mut m, "inputs", authored_inputs_value(&value.inputs));
    member(&mut m, "name", jstr(value.name.as_str()));
    member(&mut m, "outputs", final_outputs_value(&value.outputs));
    member(&mut m, "schema", jstr(value.schema.as_str()));
    member(&mut m, "stages", authored_stages_value(&value.stages));
    assert(json_members(m@) =~= match pipeline_v3_configuration_json(*value) { Json::Object(ms) => ms, _ => Seq::empty() });
    JsonValue::Object(m)
}

/// The serialized form of a `HostResources`, members in key order.
pub open spec fn host_resources_json(value: HostResources) -> Json {
    Json::Object(seq![("cpu_threads"@, Json::Number(decimal(value.cpu_threads as nat))), ("gpu_available"@, Json::Bool(value.gpu_available)), ("memory_mib"@, Json::Number(decimal(value.memory_mib as nat))), ("network_available"@, Json::Bool(value.network_available)), ("storage_mib"@, Json::Number(decimal(value.storage_mib as nat)))])
}

pub fn host_resources_value(value: &HostResources) -> (v: JsonValue)
    ensures
        json_of(v) == host_resources_json(*value),
{
    let mut m: Vec<(String, JsonValue)> = Vec::new();
    member(&mut m, "cpu_threads", jnum(value.cpu_threads as u64));
    member(&mut m, "gpu_available", JsonValue::Bool(value.gpu_available));
    member(&mut m, "memory_mib", jnum(value.memory_mib as u64));
    member(&mut m, "network_available", JsonValue::Bool(value.network_available));
    member(&mut m, "storage_mib", jnum(value.storage_mib as u64));
    assert(json_members(m@) =~= match host_resources_json(*value) { Json::Object(ms) => ms, _ => Seq::empty() });
    JsonValue::Object(m)
}

/// The serialized form of a `NormalizedPlanningPolicy`, members in key order.
pub open spec fn normalized_planning_policy_json(value: NormalizedPlanningPolicy) -> Json {
    Json::Object(seq![("allowed_side_effects"@, side_effects_json(value.allowed_side_effects@)), ("host"@, host_resources_json(value.host)), ("offline"@, Json::Bool(value.offline))])
}

pub fn normalized_planning_policy_value(value: &NormalizedPlanningPolicy) -> (v: JsonValue)
    ensures
        json_of(v) == normalized_planning_policy_json(*value),
{
    let mut m: Vec<(String, JsonValue)> = Vec::new();
    member(&mut m, "allowed_side_effects", side_effects_value(&value.allowed_side_effects));
    member(&mut m, "host", host_resources_value(&value.host));
    member(&mut m, "offline", JsonValue::Bool(value.offline));
    assert(json_members(m@) =~= match normalized_planning_policy_json(*value) { Json::Object(ms) => ms, _ => Seq::empty() });
    JsonValue::Object(m)
}

/// The serialized name of a `PipelineInputKind`.
pub open spec fn pipeline_input_kind_name(value: PipelineInputKind) -> Seq<char> {
    match value {
        PipelineInputKind::File => "file"@,
        PipelineInputKind::Directory => "directory"@,
    }
}

pub fn pipeline_input_kind_name_text(value: PipelineInputKind) -> (r: &'static str)
    ensures
        r@ == pipeline_input_kind_name(value),
{
    proof {
        reveal_strlit("file");
        reveal_strlit("directory");
    }
    match value {
        PipelineInputKind::File => "file",
        PipelineInputKind::Directory => "directory",
    }
}

/// The serialized form of a `PipelineInputIdentity`, members in key order.
pub open spec fn pipeline_input_identity_json(value: PipelineInputIdentity) -> Json {
    Json::Object(seq![("artifact_role"@, Json::Str(artifact_role_name(value.artifact_role))), ("artifact_type"@, Json::Str(value.artifact_type@)), ("byte_count"@, Json::Number(decimal(value.byte_count as nat))), ("content_sha256"@, Json::Str(value.content_sha256@)), ("file_count"@, Json::Number(decimal(value.file_count as nat))), ("id"@, Json::Str(value.id@)), ("kind"@, Json::Str(pipeline_input_kind_name(value.kind)))] + (match value.stream_role { Some(x) => seq![("stream_role"@, Json::Str(stream_role_name(x)))], None => Seq::<(Seq<char>, Json)>::empty() }))
}

pub fn pipeline_input_identity_value(value: &PipelineInputIdentity) -> (v: JsonValue)
    ensures
        json_of(v) == pipeline_input_identity_json(*value),
{
    let mut m: Vec<(String, JsonValue)> = Vec::new();
    member(&mut m, "artifact_role", jstr(artifact_role_name_text(value.artifact_role)));
    member(&mut m, "artifact_type", jstr(value.artifact_type.as_str()));
    member(&mut m, "byte_count", jnum(value.byte_count as u64));
    member(&mut m, "content_sha256", jstr(value.content_sha256.as_str()));
    member(&mut m, "file_count", jnum(value.file_count as u64));
    member(&mut m, "id", jstr(value.id.as_str()));
    member(&mut m, "kind", jstr(pipeline_input_kind_name_text(value.kind)));
    match &value.stream_role {
        Some(x) => {
            member(&mut m, "stream_role", jstr(stream_role_name_text(*x)));
        },
        None => {},
    }
    assert(json_members(m@) =~= match pipeline_input_identity_json(*value) { Json::Object(ms) => ms, _ => Seq::empty() });
    JsonValue::Object(m)
}

pub open spec fn pipeline_input_identities_json(values: Seq<PipelineInputIdentity>) -> Json {
    Json::Array(values.map_values(|e: PipelineInputIdentity| pipeline_input_identity_json(e)))
}

pub fn pipeline_input_identities_value(values: &Vec<PipelineInputIdentity>) -> (v: JsonValue)
    ensures
        json_of(v) == pipeline_input_identities_json(values@),
{
    let mut items: Vec<JsonValue> = Vec::new();
    let mut i: usize = 0;
    while i < values.len()
        invariant
            i <= values.len(),
            json_items(items@) == values@.take(i as int).map_values(|e: PipelineInputIdentity| pipeline_input_identity_json(e)),
        decreases values.len() - i,
    {
        item(&mut items, pipeline_input_identity_value(&values[i]));
        assert(values@.take(i + 1).map_values(|e: PipelineInputIdentity| pipeline_input_identity_json(e)) =~= values@.take(i as int).map_values(
            |e: PipelineInputIdentity| pipeline_input_identity_json(e),
        ).push(pipeline_input_identity_json(values@[i as int])));
        i = i + 1;
    }
    assert(values@.take(values.len() as int) =~= values@);
    JsonValue::Array(items)
}

/// The serialized form of a `PlannedExpectedArtifact`, members in key order.
pub open spec fn planned_expected_artifact_json(value: PlannedExpectedArtifact) -> Json {
    Json::Object(seq![("artifact_role"@, Json::Str(artifact_role_name(value.artifact_role))), ("artifact_type"@, Json::Str(value.artifact_type@)), ("id"@, Json::Str(value.id@)), ("relative_path"@, Json::Str(value.relative_path@))] + (match value.stream_role { Some(x) => seq![("stream_role"@, Json::Str(stream_role_name(x)))], None => Seq::<(Seq<char>, Json)>::empty() }))
}

pub fn planned_expected_artifact_value(value: &PlannedExpectedArtifact) -> (v: JsonValue)
    ensures
        json_of(v) == planned_expected_artifact_json(*value),
{
    let mut m: Vec<(String, JsonValue)> = Vec::new();
    member(&mut m, "artifact_role", jstr(artifact_role_name_text(value.artifact_role)));
    member(&mut m, "artifact_type", jstr(value.artifact_type.as_str()));
    member(&mut m, "id", jstr(value.id.as_str()));
    member(&mut m, "relative_path", jstr(value.relative_path.as_str()));
    match &value.stream_role {
        Some(x) => {
            member(&mut m, "stream_role", jstr(stream_role_name_text(*x)));
        },
        None => {},
    }
    assert(json_members(m@) =~= match planned_expected_artifact_json(*value) { Json::Object(ms) => ms, _ => Seq::empty() });
    JsonValue::Object(m)
}

pub open spec fn planned_expected_artifacts_json(values: Seq<PlannedExpectedArtifact>) -> Json {
    Json::Array(values.map_values(|e: PlannedExpectedArtifact| planned_expected_artifact_json(e)))
}

pub fn planned_expected_artifacts_value(values: &Vec<PlannedExpectedArtifact>) -> (v: JsonValue)
    ensures
        json_of(v) == planned_expected_artifacts_json(values@),
{
    let mut items: Vec<JsonValue> = Vec::new();
    let mut i: usize = 0;
    while i < values.len()
        invariant
            i <= values.len(),
            json_items(items@) == values@.take(i as int).map_values(|e: PlannedExpectedArtifact| planned_expected_artifact_json(e)),
        decreases values.len() - i,
    {
        item(&mut items, planned_expected_artifact_value(&values[i]));
        assert(values@.take(i + 1).map_values(|e: PlannedExpectedArtifact| planned_expected_artifact_json(e)) =~= values@.take(i as int).map_values(
            |e: PlannedExpectedArtifact| planned_expected_artifact_json(e),
        ).push(planned_expected_artifact_json(values@[i as int])));
        i = i + 1;
    }
    assert(values@.take(values.len() as int) =~= values@);
    JsonValue::Array(items)
}

/// The serialized form of a `PlannedOutputBinding`, members in key order.
pub open spec fn planned_output_binding_json(value: PlannedOutputBinding) -> Json {
    Json::Object(seq![("artifacts"@, planned_expected_artifacts_json(value.artifacts@)), ("port"@, Json::Str(value.port@))])
}

pub fn planned_output_binding_value(value: &PlannedOutputBinding) -> (v: JsonValue)
    ensures
        json_of(v) == planned_output_binding_json(*value),
{
    let mut m: Vec<(String, JsonValue)> = Vec::new();
    member(&mut m, "artifacts", planned_expected_artifacts_value(&value.artifacts));
    member(&mut m, "port", jstr(value.port.as_str()));
    assert(json_members(m@) =~= match planned_output_binding_json(*value) { Json::Object(ms) => ms, _ => Seq::empty() });
    JsonValue::Object(m)
}

pub open spec fn planned_output_bindings_json(values: Seq<PlannedOutputBinding>) -> Json {
    Json::Array(values.map_values(|e: PlannedOutputBinding| planned_output_binding_json(e)))
}

pub fn planned_output_bindings_value(values: &Vec<PlannedOutputBinding>) -> (v: JsonValue)
    ensures
        json_of(v) == planned_output_bindings_json(values@),
{
    let mut items: Vec<JsonValue> = Vec::new();
    let mut i: usize = 0;
    while i < values.len()
        invariant
            i <= values.len(),
            json_items(items@) == values@.take(i as int).map_values(|e: PlannedOutputBinding| planned_output_binding_json(e)),
        decreases values.len() - i,
    {
        item(&mut items, planned_output_binding_value(&values[i]));
        assert(values@.take(i + 1).map_values(|e: PlannedOutputBinding| planned_output_binding_json(e)) =~= values@.take(i as int).map_values(
            |e: PlannedOutputBinding| planned_output_binding_json(e),
        ).push(planned_output_binding_json(values@[i as int])));
        i = i + 1;
    }
    assert(values@.take(values.len() as int) =~= values@);
    JsonValue::Array(items)
}

/// The serialized name of a `AvailabilityCode`.
pub open spec fn availability_code_name(value: AvailabilityCode) -> Seq<char> {
    match value {
        AvailabilityCode::NotRegistered => "not_registered"@,
        AvailabilityCode::CapabilityMismatch => "capability_mismatch"@,
        AvailabilityCode::VersionMismatch => "version_mismatch"@,
        AvailabilityCode::ExecutableUnavailable => "executable_unavailable"@,
        AvailabilityCode::ExecutableNotRegularFile => "executable_not_regular_file"@,
        AvailabilityCode::ExecutableNotRunnable => "executable_not_runnable"@,
        AvailabilityCode::ComponentMissing => "component_missing"@,
        AvailabilityCode::ComponentVersionMismatch => "component_version_mismatch"@,
        AvailabilityCode::ComponentDigestMismatch => "component_digest_mismatch"@,
        AvailabilityCode::InsufficientCpu => "insufficient_cpu"@,
        AvailabilityCode::InsufficientMemory => "insufficient_memory"@,
        AvailabilityCode::InsufficientStorage => "insufficient_storage"@,
        AvailabilityCode::GpuUnavailable => "gpu_unavailable"@,
        AvailabilityCode::NetworkUnavailable => "network_unavailable"@,
        AvailabilityCode::OfflineIncompatible => "offline_incompatible"@,
        AvailabilityCode::SideEffectDenied => "side_effect_denied"@,
    }
}

pub fn availability_code_name_text(value: AvailabilityCode) -> (r: &'static str)
    ensures
        r@ == availability_code_name(value),
{
    proof {
        reveal_strlit("not_registered");
        reveal_strlit("capability_mismatch");
        reveal_strlit("version_mismatch");
        reveal_strlit("executable_unavailable");
        reveal_strlit("executable_not_regular_file");
        reveal_strlit("executable_not_runnable");
        reveal_strlit("component_missing");
        reveal_strlit("component_version_mismatch");
        reveal_strlit("component_digest_mismatch");
        reveal_strlit("insufficient_cpu");
        reveal_strlit("insufficient_memory");
        reveal_strlit("insufficient_storage");
        reveal_strlit("gpu_unavailable");
        reveal_strlit("network_unavailable");
        reveal_strlit("offline_incompatible");
        reveal_strlit("side_effect_denied");
    }
    match value {
        AvailabilityCode::NotRegistered => "not_registered",
        AvailabilityCode::CapabilityMismatch => "capability_mismatch",
        AvailabilityCode::VersionMismatch => "version_mismatch",
        AvailabilityCode::ExecutableUnavailable => "executable_unavailable",
        AvailabilityCode::ExecutableNotRegularFile => "executable_not_regular_file",
        AvailabilityCode::ExecutableNotRunnable => "executable_not_runnable",
        AvailabilityCode::ComponentMissing => "component_missing",
        AvailabilityCode::ComponentVersionMismatch => "component_version_mismatch",
        AvailabilityCode::ComponentDigestMismatch => "component_digest_mismatch",
        AvailabilityCode::InsufficientCpu => "insufficient_cpu",
        AvailabilityCode::InsufficientMemory => "insufficient_memory",
        AvailabilityCode::InsufficientStorage => "insufficient_storage",
        AvailabilityCode::GpuUnavailable => "gpu_unavailable",
        AvailabilityCode::NetworkUnavailable => "network_unavailable",
        AvailabilityCode::OfflineIncompatible => "offline_incompatible",
        AvailabilityCode::SideEffectDenied => "side_effect_denied",
    }
}

pub open spec fn availability_codes_json(values: Seq<AvailabilityCode>) -> Json {
    Json::Array(values.map_values(|e: AvailabilityCode| Json::Str(availability_code_name(e))))
}

pub fn availability_codes_value(values: &Vec<AvailabilityCode>) -> (v: JsonValue)
    ensures
        json_of(v) == availability_codes_json(values@),
{
    let mut items: Vec<JsonValue> = Vec::new();
    let mut i: usize = 0;
    while i < values.len()
        invariant
            i <= values.len(),
            json_items(items@) == values@.take(i as int).map_values(|e: AvailabilityCode| Json::Str(availability_code_name(e))),
        decreases values.len() - i,
    {
        item(&mut items, jstr(availability_code_name_text(values[i])));
        assert(values@.take(i + 1).map_values(|e: AvailabilityCode| Json::Str(availability_code_name(e))) =~= values@.take(i as int).map_values(
            |e: AvailabilityCode| Json::Str(availability_code_name(e)),
        ).push(Json::Str(availability_code_name(values@[i as int]))));
        i = i + 1;
    }
    assert(values@.take(values.len() as int) =~= values@);
    JsonValue::Array(items)
}

/// The serialized form of a `PlannedProviderResolutionAttempt`, members in key order.
pub open spec fn planned_provider_resolution_attempt_json(value: PlannedProviderResolutionAttempt) -> Json {
    Json::Object(seq![("available"@, Json::Bool(value.available)), ("candidate"@, provider_candidate_json(value.candidate)), ("reason_codes"@, availability_codes_json(value.reason_codes@)), ("selection"@, provider_selection_json(value.selection))])
}

pub fn planned_provider_resolution_attempt_value(value: &PlannedProviderResolutionAttempt) -> (v: JsonValue)
    ensures
        json_of(v) == planned_provider_resolution_attempt_json(*value),
{
    let mut m: Vec<(String, JsonValue)> = Vec::new();
    member(&mut m, "available", JsonValue::Bool(value.available));
    member(&mut m, "candidate", provider_candidate_value(&value.candidate));
    member(&mut m, "reason_codes", availability_codes_value(&value.reason_codes));
    member(&mut m, "selection", provider_selection_value(&value.selection));
    assert(json_members(m@) =~= match planned_provider_resolution_attempt_json(*value) { Json::Object(ms) => ms, _ => Seq::empty() });
    JsonValue::Object(m)
}

pub open spec fn planned_attempts_json(values: Seq<PlannedProviderResolutionAttempt>) -> Json {
    Json::Array(values.map_values(|e: PlannedProviderResolutionAttempt| planned_provider_resolution_attempt_json(e)))
}

pub fn planned_attempts_value(values: &Vec<PlannedProviderResolutionAttempt>) -> (v: JsonValue)
    ensures
        json_of(v) == planned_attempts_json(values@),
{
    let mut items: Vec<JsonValue> = Vec::new();
    let mut i: usize = 0;
    while i < values.len()
        invariant
            i <= values.len(),
            json_items(items@) == values@.take(i as int).map_values(|e: PlannedProviderResolutionAttempt| planned_provider_resolution_attempt_json(e)),
        decreases values.len() - i,
    {
        item(&mut items, planned_provider_resolution_attempt_value(&values[i]));
        assert(values@.take(i + 1).map_values(|e: PlannedProviderResolutionAttempt| planned_provider_resolution_attempt_json(e)) =~= values@.take(i as int).map_values(
            |e: PlannedProviderResolutionAttempt| planned_provider_resolution_attempt_json(e),
        ).push(planned_provider_resolution_attempt_json(values@[i as int])));
        i = i + 1;
    }
    assert(values@.take(values.len() as int) =~= values@);
    JsonValue::Array(items)
}

/// The serialized form of a `ResolvedPipelineStage`, members in key order.
pub open spec fn resolved_pipeline_stage_json(value: ResolvedPipelineStage) -> Json {
    Json::Object(seq![("capability"@, capability_declaration_json(value.capability)), ("capability_requirement"@, capability_requirement_json(value.capability_requirement)), ("depends_on"@, strings_json(value.depends_on@)), ("id"@, Json::Str(value.id@)), ("inputs"@, authored_input_bindings_json(value.inputs@)), ("outputs"@, planned_output_bindings_json(value.outputs@)), ("provider_lock"@, provider_lock_json(value.provider_lock)), ("provider_selection"@, provider_selection_intent_json(value.provider_selection)), ("resolution_attempts"@, planned_attempts_json(value.resolution_attempts@)), ("validations"@, artifact_validations_json(value.validations@))])
}

pub fn resolved_pipeline_stage_value(value: &ResolvedPipelineStage) -> (v: JsonValue)
    ensures
        json_of(v) == resolved_pipeline_stage_json(*value),
{
    let mut m: Vec<(String, JsonValue)> = Vec::new();
    member(&mut m, "capability", capability_declaration_value(&value.capability));
    member(&mut m, "capability_requirement", capability_requirement_value(&value.capability_requirement));
    member(&mut m, "depends_on", strings_value(&value.depends_on));
    member(&mut m, "id", jstr(value.id.as_str()));
    member(&mut m, "inputs", authored_input_bindings_value(&value.inputs));
    member(&mut m, "outputs", planned_output_bindings_value(&value.outputs));
    member(&mut m, "provider_lock", provider_lock_value(&value.provider_lock));
    member(&mut m, "provider_selection", provider_selection_intent_value(&value.provider_selection));
    member(&mut m, "resolution_attempts", planned_attempts_value(&value.resolution_attempts));
    member(&mut m, "validations", artifact_validations_value(&value.validations));
    assert(json_members(m@) =~= match resolved_pipeline_stage_json(*value) { Json::Object(ms) => ms, _ => Seq::empty() });
    JsonValue::Object(m)
}

pub open spec fn resolved_stages_json(values: Seq<ResolvedPipelineStage>) -> Json {
    Json::Array(values.map_values(|e: ResolvedPipelineStage| resolved_pipeline_stage_json(e)))
}

pub fn resolved_stages_value(values: &Vec<ResolvedPipelineStage>) -> (v: JsonValue)
    ensures
        json_of(v) == resolved_stages_json(values@),
{
    let mut items: Vec<JsonValue> = Vec::new();
    let mut i: usize = 0;
    while i < values.len()
        invariant
            i <= values.len(),
            json_items(items@) == values@.take(i as int).map_values(|e: ResolvedPipelineStage| resolved_pipeline_stage_json(e)),
        decreases values.len() - i,
    {
        item(&mut items, resolved_pipeline_stage_value(&values[i]));
        assert(values@.take(i + 1).map_values(|e: ResolvedPipelineStage| resolved_pipeline_stage_json(e)) =~= values@.take(i as int).map_values(
            |e: ResolvedPipelineStage| resolved_pipeline_stage_json(e),
        ).push(resolved_pipeline_stage_json(values@[i as int])));
        i = i + 1;
    }
    assert(values@.take(values.len() as int) =~= values@);
    JsonValue::Array(items)
}

/// The serialized form of a `PipelineV3PlanPayload`, members in key order.
pub open spec fn pipeline_v3_plan_payload_json(value: PipelineV3PlanPayload) -> Json {
    Json::Object(seq![("configuration_sha256"@, Json::Str(value.configuration_sha256@)), ("inputs"@, pipeline_input_identities_json(value.inputs@)), ("outputs"@, final_outputs_json(value.outputs@)), ("pipeline_name"@, Json::Str(value.pipeline_name@)), ("pipeline_schema"@, Json::Str(value.pipeline_schema@)), ("policy"@, normalized_planning_policy_json(value.policy)), ("stages"@, resolved_stages_json(value.stages@))])
}

pub fn pipeline_v3_plan_payload_value(value: &PipelineV3PlanPayload) -> (v: JsonValue)
    ensures
        json_of(v) == pipeline_v3_plan_payload_json(*value),
{
    let mut m: Vec<(String, JsonValue)> = Vec::new();
    member(&mut m, "configuration_sha256", jstr(value.configuration_sha256.as_str()));
    member(&mut m, "inputs", pipeline_input_identities_value(&value.inputs));
    member(&mut m, "outputs", final_outputs_value(&value.outputs));
    member(&mut m, "pipeline_name", jstr(value.pipeline_name.as_str()));
    member(&mut m, "pipeline_schema", jstr(value.pipeline_schema.as_str()));
    member(&mut m, "policy", normalized_planning_policy_value(&value.policy));
    member(&mut m, "stages", resolved_stages_value(&value.stages));
    assert(json_members(m@) =~= match pipeline_v3_plan_payload_json(*value) { Json::Object(ms) => ms, _ => Seq::empty() });
    JsonValue::Object(m)
}

/// The serialized form of a `PipelineV3Plan`, members in key order.
pub open spec fn pipeline_v3_plan_json(value: PipelineV3Plan) -> Json {
    Json::Object(seq![("algorithm"@, Json::Str(value.algorithm@)), ("canonicalization"@, Json::Str(value.canonicalization@)), ("payload"@, pipeline_v3_plan_payload_json(value.payload)), ("plan_sha256"@, Json::Str(value.plan_sha256@)), ("schema"@, Json::Str(value.schema@))])
}

pub fn pipeline_v3_plan_value(value: &PipelineV3Plan) -> (v: JsonValue)
    ensures
        json_of(v) == pipeline_v3_plan_json(*value),
{
    let mut m: Vec<(String, JsonValue)> = Vec::new();
    member(&mut m, "algorithm", jstr(value.algorithm.as_str()));
    member(&mut m, "canonicalization", jstr(value.canonicalization.as_str()));
    member(&mut m, "payload", pipeline_v3_plan_payload_value(&value.payload));
    member(&mut m, "plan_sha256", jstr(value.plan_sha256.as_str()));
    member(&mut m, "schema", jstr(value.schema.as_str()));
    assert(json_members(m@) =~= match pipeline_v3_plan_json(*value) { Json::Object(ms) => ms, _ => Seq::empty() });
    JsonValue::Object(m)
}


pub proof fn lemma_strings_encodable(values: Seq<String>)
    ensures
        value_encodable(strings_json(values)),
    decreases values.len(),
{
    let items = values.map_values(|e: String| Json::Str(e@));
    if values.len() > 0 {
        lemma_strings_encodable(values.drop_last());
        assert(values.drop_last().map_values(|e: String| Json::Str(e@)) =~= items.drop_last());
        lemma_items_push(items.drop_last(), items.last());
        assert(items.drop_last().push(items.last()) =~= items);
    }
}

pub proof fn lemma_authored_pipeline_input_encodable(value: AuthoredPipelineInput)
    ensures
        value_encodable(authored_pipeline_input_json(value)),
{
    reveal_strlit("artifact_role");
    reveal_strlit("artifact_type");
    reveal_strlit("id");
    reveal_strlit("stream_role");
    reveal_with_fuel(text_less, 11);
    match value.stream_role {
        Some(x_stream_role) => {
            let m0 = Seq::<(Seq<char>, Json)>::empty();
            lemma_object_push_encodable(m0, "artifact_role"@, Json::Str(artifact_role_name(value.artifact_role)));
            let m1 = m0.push(("artifact_role"@, Json::Str(artifact_role_name(value.artifact_role))));
            assert(text_less("artifact_role"@, "artifact_type"@));
            lemma_object_push_encodable(m1, "artifact_type"@, Json::Str(value.artifact_type@));
            let m2 = m1.push(("artifact_type"@, Json::Str(value.artifact_type@)));
            assert(text_less("artifact_type"@, "id"@));
            lemma_object_push_encodable(m2, "id"@, Json::Str(value.id@));
            let m3 = m2.push(("id"@, Json::Str(value.id@)));
            assert(text_less("id"@, "stream_role"@));
            lemma_object_push_encodable(m3, "stream_role"@, Json::Str(stream_role_name(x_stream_role)));
            let m4 = m3.push(("stream_role"@, Json::Str(stream_role_name(x_stream_role))));
            assert(match authored_pipeline_input_json(value) { Json::Object(ms) => ms, _ => Seq::empty() } =~= m4);
        },
        None => {
            let m0 = Seq::<(Seq<char>, Json)>::empty();
            lemma_object_push_encodable(m0, "artifact_role"@, Json::Str(artifact_role_name(value.artifact_role)));
            let m1 = m0.push(("artifact_role"@, Json::Str(artifact_role_name(value.artifact_role))));
            assert(text_less("artifact_role"@, "artifact_type"@));
            lemma_object_push_encodable(m1, "artifact_type"@, Json::Str(value.artifact_type@));
            let m2 = m1.push(("artifact_type"@, Json::Str(value.artifact_type@)));
            assert(text_less("artifact_type"@, "id"@));
            lemma_object_push_encodable(m2, "id"@, Json::Str(value.id@));
            let m3 = m2.push(("id"@, Json::Str(value.id@)));
            assert(match authored_pipeline_input_json(value) { Json::Object(ms) => ms, _ => Seq::empty() } =~= m3);
        },
    }
}

pub proof fn lemma_authored_inputs_encodable(values: Seq<AuthoredPipelineInput>)
    ensures
        value_encodable(authored_inputs_json(values)),
    decreases values.len(),
{
    let items = values.map_values(|e: AuthoredPipelineInput| authored_pipeline_input_json(e));
    if values.len() > 0 {
        lemma_authored_inputs_encodable(values.drop_last());
        lemma_authored_pipeline_input_encodable(values.last());
        assert(values.drop_last().map_values(|e: AuthoredPipelineInput| authored_pipeline_input_json(e)) =~= items.drop_last());
        lemma_items_push(items.drop_last(), items.last());
        assert(items.drop_last().push(items.last()) =~= items);
    }
}

pub proof fn lemma_capability_requirement_encodable(value: CapabilityRequirement)
    ensures
        value_encodable(capability_requirement_json(value)),
{
    reveal_strlit("id");
    reveal_strlit("version_requirement");
    reveal_with_fuel(text_less, 2);
    let m0 = Seq::<(Seq<char>, Json)>::empty();
    lemma_object_push_encodable(m0, "id"@, Json::Str(value.id@));
    let m1 = m0.push(("id"@, Json::Str(value.id@)));
    assert(text_less("id"@, "version_requirement"@));
    lemma_object_push_encodable(m1, "version_requirement"@, Json::Str(value.version_requirement@));
    let m2 = m1.push(("version_requirement"@, Json::Str(value.version_requirement@)));
    assert(match capability_requirement_json(value) { Json::Object(ms) => ms, _ => Seq::empty() } =~= m2);
}

pub proof fn lemma_provider_candidate_encodable(value: ProviderCandidate)
    ensures
        value_encodable(provider_candidate_json(value)),
{
    reveal_strlit("registration_id");
    reveal_with_fuel(text_less, 2);
    let m0 = Seq::<(Seq<char>, Json)>::empty();
    lemma_object_push_encodable(m0, "registration_id"@, Json::Str(value.registration_id@));
    let m1 = m0.push(("registration_id"@, Json::Str(value.registration_id@)));
    assert(match provider_candidate_json(value) { Json::Object(ms) => ms, _ => Seq::empty() } =~= m1);
}

pub proof fn lemma_provider_candidates_encodable(values: Seq<ProviderCandidate>)
    ensures
        value_encodable(provider_candidates_json(values)),
    decreases values.len(),
{
    let items = values.map_values(|e: ProviderCandidate| provider_candidate_json(e));
    if values.len() > 0 {
        lemma_provider_candidates_encodable(values.drop_last());
        lemma_provider_candidate_encodable(values.last());
        assert(values.drop_last().map_values(|e: ProviderCandidate| provider_candidate_json(e)) =~= items.drop_last());
        lemma_items_push(items.drop_last(), items.last());
        assert(items.drop_last().push(items.last()) =~= items);
    }
}

pub proof fn lemma_provider_selection_intent_encodable(value: ProviderSelectionIntent)
    ensures
        value_encodable(provider_selection_intent_json(value)),
{
    lemma_provider_candidates_encodable(value.fallbacks@);
    lemma_provider_candidate_encodable(value.primary);
    reveal_strlit("fallbacks");
    reveal_strlit("primary");
    reveal_strlit("replacement");
    reveal_with_fuel(text_less, 2);
    match value.replacement {
        Some(x_replacement) => {
            lemma_provider_candidate_encodable(x_replacement);
            let m0 = Seq::<(Seq<char>, Json)>::empty();
            lemma_object_push_encodable(m0, "fallbacks"@, provider_candidates_json(value.fallbacks@));
            let m1 = m0.push(("fallbacks"@, provider_candidates_json(value.fallbacks@)));
            assert(text_less("fallbacks"@, "primary"@));
            lemma_object_push_encodable(m1, "primary"@, provider_candidate_json(value.primary));
            let m2 = m1.push(("primary"@, provider_candidate_json(value.primary)));
            assert(text_less("primary"@, "replacement"@));
            lemma_object_push_encodable(m2, "replacement"@, provider_candidate_json(x_replacement));
            let m3 = m2.push(("replacement"@, provider_candidate_json(x_replacement)));
            assert(match provider_selection_intent_json(value) { Json::Object(ms) => ms, _ => Seq::empty() } =~= m3);
        },
        None => {
            let m0 = Seq::<(Seq<char>, Json)>::empty();
            lemma_object_push_encodable(m0, "fallbacks"@, provider_candidates_json(value.fallbacks@));
            let m1 = m0.push(("fallbacks"@, provider_candidates_json(value.fallbacks@)));
            assert(text_less("fallbacks"@, "primary"@));
            lemma_object_push_encodable(m1, "primary"@, provider_candidate_json(value.primary));
            let m2 = m1.push(("primary"@, provider_candidate_json(value.primary)));
            assert(match provider_selection_intent_json(value) { Json::Object(ms) => ms, _ => Seq::empty() } =~= m2);
        },
    }
}

pub proof fn lemma_authored_input_binding_encodable(value: AuthoredInputBinding)
    ensures
        value_encodable(authored_input_binding_json(value)),
{
    lemma_strings_encodable(value.artifacts@);
    reveal_strlit("artifacts");
    reveal_strlit("port");
    reveal_with_fuel(text_less, 2);
    let m0 = Seq::<(Seq<char>, Json)>::empty();
    lemma_object_push_encodable(m0, "artifacts"@, strings_json(value.artifacts@));
    let m1 = m0.push(("artifacts"@, strings_json(value.artifacts@)));
    assert(text_less("artifacts"@, "port"@));
    lemma_object_push_encodable(m1, "port"@, Json::Str(value.port@));
    let m2 = m1.push(("port"@, Json::Str(value.port@)));
    assert(match authored_input_binding_json(value) { Json::Object(ms) => ms, _ => Seq::empty() } =~= m2);
}

pub proof fn lemma_authored_input_bindings_encodable(values: Seq<AuthoredInputBinding>)
    ensures
        value_encodable(authored_input_bindings_json(values)),
    decreases values.len(),
{
    let items = values.map_values(|e: AuthoredInputBinding| authored_input_binding_json(e));
    if values.len() > 0 {
        lemma_authored_input_bindings_encodable(values.drop_last());
        lemma_authored_input_binding_encodable(values.last());
        assert(values.drop_last().map_values(|e: AuthoredInputBinding| authored_input_binding_json(e)) =~= items.drop_last());
        lemma_items_push(items.drop_last(), items.last());
        assert(items.drop_last().push(items.last()) =~= items);
    }
}

pub proof fn lemma_expected_artifact_encodable(value: ExpectedArtifact)
    ensures
        value_encodable(expected_artifact_json(value)),
{
    reveal_strlit("id");
    reveal_strlit("relative_path");
    reveal_with_fuel(text_less, 2);
    let m0 = Seq::<(Seq<char>, Json)>::empty();
    lemma_object_push_encodable(m0, "id"@, Json::Str(value.id@));
    let m1 = m0.push(("id"@, Json::Str(value.id@)));
    assert(text_less("id"@, "relative_path"@));
    lemma_object_push_encodable(m1, "relative_path"@, Json::Str(value.relative_path@));
    let m2 = m1.push(("relative_path"@, Json::Str(value.relative_path@)));
    assert(match expected_artifact_json(value) { Json::Object(ms) => ms, _ => Seq::empty() } =~= m2);
}

pub proof fn lemma_expected_artifacts_encodable(values: Seq<ExpectedArtifact>)
    ensures
        value_encodable(expected_artifacts_json(values)),
    decreases values.len(),
{
    let items = values.map_values(|e: ExpectedArtifact| expected_artifact_json(e));
    if values.len() > 0 {
        lemma_expected_artifacts_encodable(values.drop_last());
        lemma_expected_artifact_encodable(values.last());
        assert(values.drop_last().map_values(|e: ExpectedArtifact| expected_artifact_json(e)) =~= items.drop_last());
        lemma_items_push(items.drop_last(), items.last());
        assert(items.drop_last().push(items.last()) =~= items);
    }
}

pub proof fn lemma_authored_output_binding_encodable(value: AuthoredOutputBinding)
    ensures
        value_encodable(authored_output_binding_json(value)),
{
    lemma_expected_artifacts_encodable(value.artifacts@);
    reveal_strlit("artifacts");
    reveal_strlit("port");
    reveal_with_fuel(text_less, 2);
    let m0 = Seq::<(Seq<char>, Json)>::empty();
    lemma_object_push_encodable(m0, "artifacts"@, expected_artifacts_json(value.artifacts@));
    let m1 = m0.push(("artifacts"@, expected_artifacts_json(value.artifacts@)));
    assert(text_less("artifacts"@, "port"@));
    lemma_object_push_encodable(m1, "port"@, Json::Str(value.port@));
    let m2 = m1.push(("port"@, Json::Str(value.port@)));
    assert(match authored_output_binding_json(value) { Json::Object(ms) => ms, _ => Seq::empty() } =~= m2);
}

pub proof fn lemma_authored_output_bindings_encodable(values: Seq<AuthoredOutputBinding>)
    ensures
        value_encodable(authored_output_bindings_json(values)),
    decreases values.len(),
{
    let items = values.map_values(|e: AuthoredOutputBinding| authored_output_binding_json(e));
    if values.len() > 0 {
        lemma_authored_output_bindings_encodable(values.drop_last());
        lemma_authored_output_binding_encodable(values.last());
        assert(values.drop_last().map_values(|e: AuthoredOutputBinding| authored_output_binding_json(e)) =~= items.drop_last());
        lemma_items_push(items.drop_last(), items.last());
        assert(items.drop_last().push(items.last()) =~= items);
    }
}

pub proof fn lemma_artifact_validation_encodable(value: ArtifactValidation)
    ensures
        value_encodable(artifact_validation_json(value)),
{
    reveal_strlit("artifact");
    reveal_strlit("contract");
    reveal_strlit("id");
    reveal_with_fuel(text_less, 2);
    let m0 = Seq::<(Seq<char>, Json)>::empty();
    lemma_object_push_encodable(m0, "artifact"@, Json::Str(value.artifact@));
    let m1 = m0.push(("artifact"@, Json::Str(value.artifact@)));
    assert(text_less("artifact"@, "contract"@));
    lemma_object_push_encodable(m1, "contract"@, Json::Str(value.contract@));
    let m2 = m1.push(("contract"@, Json::Str(value.contract@)));
    assert(text_less("contract"@, "id"@));
    lemma_object_push_encodable(m2, "id"@, Json::Str(value.id@));
    let m3 = m2.push(("id"@, Json::Str(value.id@)));
    assert(match artifact_validation_json(value) { Json::Object(ms) => ms, _ => Seq::empty() } =~= m3);
}

pub proof fn lemma_artifact_validations_encodable(values: Seq<ArtifactValidation>)
    ensures
        value_encodable(artifact_validations_json(values)),
    decreases values.len(),
{
    let items = values.map_values(|e: ArtifactValidation| artifact_validation_json(e));
    if values.len() > 0 {
        lemma_artifact_validations_encodable(values.drop_last());
        lemma_artifact_validation_encodable(values.last());
        assert(values.drop_last().map_values(|e: ArtifactValidation| artifact_validation_json(e)) =~= items.drop_last());
        lemma_items_push(items.drop_last(), items.last());
        assert(items.drop_last().push(items.last()) =~= items);
    }
}

pub proof fn lemma_authored_pipeline_stage_encodable(value: AuthoredPipelineStage)
    ensures
        value_encodable(authored_pipeline_stage_json(value)),
{
    lemma_capability_requirement_encodable(value.capability);
    lemma_strings_encodable(value.depends_on@);
    lemma_authored_input_bindings_encodable(value.inputs@);
    lemma_authored_output_bindings_encodable(value.outputs@);
    lemma_provider_selection_intent_encodable(value.provider);
    lemma_artifact_validations_encodable(value.validations@);
    reveal_strlit("capability");
    reveal_strlit("depends_on");
    reveal_strlit("id");
    reveal_strlit("inputs");
    reveal_strlit("outputs");
    reveal_strlit("provider");
    reveal_strlit("validations");
    reveal_with_fuel(text_less, 3);
    let m0 = Seq::<(Seq<char>, Json)>::empty();
    lemma_object_push_encodable(m0, "capability"@, capability_requirement_json(value.capability));
    let m1 = m0.push(("capability"@, capability_requirement_json(value.capability)));
    assert(text_less("capability"@, "depends_on"@));
    lemma_object_push_encodable(m1, "depends_on"@, strings_json(value.depends_on@));
    let m2 = m1.push(("depends_on"@, strings_json(value.depends_on@)));
    assert(text_less("depends_on"@, "id"@));
    lemma_object_push_encodable(m2, "id"@, Json::Str(value.id@));
    let m3 = m2.push(("id"@, Json::Str(value.id@)));
    assert(text_less("id"@, "inputs"@));
    lemma_object_push_encodable(m3, "inputs"@, authored_input_bindings_json(value.inputs@));
    let m4 = m3.push(("inputs"@, authored_input_bindings_json(value.inputs@)));
    assert(text_less("inputs"@, "outputs"@));
    lemma_object_push_encodable(m4, "outputs"@, authored_output_bindings_json(value.outputs@));
    let m5 = m4.push(("outputs"@, authored_output_bindings_json(value.outputs@)));
    assert(text_less("outputs"@, "provider"@));
    lemma_object_push_encodable(m5, "provider"@, provider_selection_intent_json(value.provider));
    let m6 = m5.push(("provider"@, provider_selection_intent_json(value.provider)));
    assert(text_less("provider"@, "validations"@));
    lemma_object_push_encodable(m6, "validations"@, artifact_validations_json(value.validations@));
    let m7 = m6.push(("validations"@, artifact_validations_json(value.validations@)));
    assert(match authored_pipeline_stage_json(value) { Json::Object(ms) => ms, _ => Seq::empty() } =~= m7);
}

pub proof fn lemma_authored_stages_encodable(values: Seq<AuthoredPipelineStage>)
    ensures
        value_encodable(authored_stages_json(values)),
    decreases values.len(),
{
    let items = values.map_values(|e: AuthoredPipelineStage| authored_pipeline_stage_json(e));
    if values.len() > 0 {
        lemma_authored_stages_encodable(values.drop_last());
        lemma_authored_pipeline_stage_encodable(values.last());
        assert(values.drop_last().map_values(|e: AuthoredPipelineStage| authored_pipeline_stage_json(e)) =~= items.drop_last());
        lemma_items_push(items.drop_last(), items.last());
        assert(items.drop_last().push(items.last()) =~= items);
    }
}

pub proof fn lemma_final_output_requirement_encodable(value: FinalOutputRequirement)
    ensures
        value_encodable(final_output_requirement_json(value)),
{
    lemma_strings_encodable(value.required_validations@);
    reveal_strlit("artifact");
    reveal_strlit("id");
    reveal_strlit("required_validations");
    reveal_with_fuel(text_less, 2);
    let m0 = Seq::<(Seq<char>, Json)>::empty();
    lemma_object_push_encodable(m0, "artifact"@, Json::Str(value.artifact@));
    let m1 = m0.push(("artifact"@, Json::Str(value.artifact@)));
    assert(text_less("artifact"@, "id"@));
    lemma_object_push_encodable(m1, "id"@, Json::Str(value.id@));
    let m2 = m1.push(("id"@, Json::Str(value.id@)));
    assert(text_less("id"@, "required_validations"@));
    lemma_object_push_encodable(m2, "required_validations"@, strings_json(value.required_validations@));
    let m3 = m2.push(("required_validations"@, strings_json(value.required_validations@)));
    assert(match final_output_requirement_json(value) { Json::Object(ms) => ms, _ => Seq::empty() } =~= m3);
}

pub proof fn lemma_final_outputs_encodable(values: Seq<FinalOutputRequirement>)
    ensures
        value_encodable(final_outputs_json(values)),
    decreases values.len(),
{
    let items = values.map_values(|e: FinalOutputRequirement| final_output_requirement_json(e));
    if values.len() > 0 {
        lemma_final_outputs_encodable(values.drop_last());
        lemma_final_output_requirement_encodable(values.last());
        assert(values.drop_last().map_values(|e: FinalOutputRequirement| final_output_requirement_json(e)) =~= items.drop_last());
        lemma_items_push(items.drop_last(), items.last());
        assert(items.drop_last().push(items.last()) =~= items);
    }
}

pub proof fn lemma_pipeline_v3_configuration_encodable(value: PipelineV3Configuration)
    ensures
        value_encodable(pipeline_v3_configuration_json(value)),
{
    lemma_authored_inputs_encodable(value.inputs@);
    lemma_final_outputs_encodable(value.outputs@);
    lemma_authored_stages_encodable(value.stages@);
    reveal_strlit("inputs");
    reveal_strlit("name");
    reveal_strlit("outputs");
    reveal_strlit("schema");
    reveal_strlit("stages");
    reveal_with_fuel(text_less, 3);
    let m0 = Seq::<(Seq<char>, Json)>::empty();
    lemma_object_push_encodable(m0, "inputs"@, authored_inputs_json(value.inputs@));
    let m1 = m0.push(("inputs"@, authored_inputs_json(value.inputs@)));
    assert(text_less("inputs"@, "name"@));
    lemma_object_push_encodable(m1, "name"@, Json::Str(value.name@));
    let m2 = m1.push(("name"@, Json::Str(value.name@)));
    assert(text_less("name"@, "outputs"@));
    lemma_object_push_encodable(m2, "outputs"@, final_outputs_json(value.outputs@));
    let m3 = m2.push(("outputs"@, final_outputs_json(value.outputs@)));
    assert(text_less("outputs"@, "schema"@));
    lemma_object_push_encodable(m3, "schema"@, Json::Str(value.schema@));
    let m4 = m3.push(("schema"@, Json::Str(value.schema@)));
    assert(text_less("schema"@, "stages"@));
    lemma_object_push_encodable(m4, "stages"@, authored_stages_json(value.stages@));
    let m5 = m4.push(("stages"@, authored_stages_json(value.stages@)));
    assert(match pipeline_v3_configuration_json(value) { Json::Object(ms) => ms, _ => Seq::empty() } =~= m5);
}

pub proof fn lemma_host_resources_encodable(value: HostResources)
    ensures
        value_encodable(host_resources_json(value)),
{
    lemma_decimal_ascii(value.cpu_threads as nat);
    lemma_decimal_ascii(value.memory_mib as nat);
    lemma_decimal_ascii(value.storage_mib as nat);
    reveal_strlit("cpu_threads");
    reveal_strlit("gpu_available");
    reveal_strlit("memory_mib");
    reveal_strlit("network_available");
    reveal_strlit("storage_mib");
    reveal_with_fuel(text_less, 2);
    let m0 = Seq::<(Seq<char>, Json)>::empty();
    lemma_object_push_encodable(m0, "cpu_threads"@, Json::Number(decimal(value.cpu_threads as nat)));
    let m1 = m0.push(("cpu_threads"@, Json::Number(decimal(value.cpu_threads as nat))));
    assert(text_less("cpu_threads"@, "gpu_available"@));
    lemma_object_push_encodable(m1, "gpu_available"@, Json::Bool(value.gpu_available));
    let m2 = m1.push(("gpu_available"@, Json::Bool(value.gpu_available)));
    assert(text_less("gpu_available"@, "memory_mib"@));
    lemma_object_push_encodable(m2, "memory_mib"@, Json::Number(decimal(value.memory_mib as nat)));
    let m3 = m2.push(("memory_mib"@, Json::Number(decimal(value.memory_mib as nat))));
    assert(text_less("memory_mib"@, "network_available"@));
    lemma_object_push_encodable(m3, "network_available"@, Json::Bool(value.network_available));
    let m4 = m3.push(("network_available"@, Json::Bool(value.network_available)));
    assert(text_less("network_available"@, "storage_mib"@));
    lemma_object_push_encodable(m4, "storage_mib"@, Json::Number(decimal(value.storage_mib as nat)));
    let m5 = m4.push(("storage_mib"@, Json::Number(decimal(value.storage_mib as nat))));
    assert(match host_resources_json(value) { Json::Object(ms) => ms, _ => Seq::empty() } =~= m5);
}

pub proof fn lemma_normalized_planning_policy_encodable(value: NormalizedPlanningPolicy)
    ensures
        value_encodable(normalized_planning_policy_json(value)),
{
    lemma_side_effects_encodable(value.allowed_side_effects@);
    lemma_host_resources_encodable(value.host);
    reveal_strlit("allowed_side_effects");
    reveal_strlit("host");
    reveal_strlit("offline");
    reveal_with_fuel(text_less, 2);
    let m0 = Seq::<(Seq<char>, Json)>::empty();
    lemma_object_push_encodable(m0, "allowed_side_effects"@, side_effects_json(value.allowed_side_effects@));
    let m1 = m0.push(("allowed_side_effects"@, side_effects_json(value.allowed_side_effects@)));
    assert(text_less("allowed_side_effects"@, "host"@));
    lemma_object_push_encodable(m1, "host"@, host_resources_json(value.host));
    let m2 = m1.push(("host"@, host_resources_json(value.host)));
    assert(text_less("host"@, "offline"@));
    lemma_object_push_encodable(m2, "offline"@, Json::Bool(value.offline));
    let m3 = m2.push(("offline"@, Json::Bool(value.offline)));
    assert(match normalized_planning_policy_json(value) { Json::Object(ms) => ms, _ => Seq::empty() } =~= m3);
}

pub proof fn lemma_pipeline_input_identity_encodable(value: PipelineInputIdentity)
    ensures
        value_encodable(pipeline_input_identity_json(value)),
{
    lemma_decimal_ascii(value.byte_count as nat);
    lemma_decimal_ascii(value.file_count as nat);
    reveal_strlit("artifact_role");
    reveal_strlit("artifact_type");
    reveal_strlit("byte_count");
    reveal_strlit("content_sha256");
    reveal_strlit("file_count");
    reveal_strlit("id");
    reveal_strlit("kind");
    reveal_strlit("stream_role");
    reveal_with_fuel(text_less, 11);
    match value.stream_role {
        Some(x_stream_role) => {
            let m0 = Seq::<(Seq<char>, Json)>::empty();
            lemma_object_push_encodable(m0, "artifact_role"@, Json::Str(artifact_role_name(value.artifact_role)));
            let m1 = m0.push(("artifact_role"@, Json::Str(artifact_role_name(value.artifact_role))));
            assert(text_less("artifact_role"@, "artifact_type"@));
            lemma_object_push_encodable(m1, "artifact_type"@, Json::Str(value.artifact_type@));
            let m2 = m1.push(("artifact_type"@, Json::Str(value.artifact_type@)));
            assert(text_less("artifact_type"@, "byte_count"@));
            lemma_object_push_encodable(m2, "byte_count"@, Json::Number(decimal(value.byte_count as nat)));
            let m3 = m2.push(("byte_count"@, Json::Number(decimal(value.byte_count as nat))));
            assert(text_less("byte_count"@, "content_sha256"@));
            lemma_object_push_encodable(m3, "content_sha256"@, Json::Str(value.content_sha256@));
            let m4 = m3.push(("content_sha256"@, Json::Str(value.content_sha256@)));
            assert(text_less("content_sha256"@, "file_count"@));
            lemma_object_push_encodable(m4, "file_count"@, Json::Number(decimal(value.file_count as nat)));
            let m5 = m4.push(("file_count"@, Json::Number(decimal(value.file_count as nat))));
            assert(text_less("file_count"@, "id"@));
            lemma_object_push_encodable(m5, "id"@, Json::Str(value.id@));
            let m6 = m5.push(("id"@, Json::Str(value.id@)));
            assert(text_less("id"@, "kind"@));
            lemma_object_push_encodable(m6, "kind"@, Json::Str(pipeline_input_kind_name(value.kind)));
            let m7 = m6.push(("kind"@, Json::Str(pipeline_input_kind_name(value.kind))));
            assert(text_less("kind"@, "stream_role"@));
            lemma_object_push_encodable(m7, "stream_role"@, Json::Str(stream_role_name(x_stream_role)));
            let m8 = m7.push(("stream_role"@, Json::Str(stream_role_name(x_stream_role))));
            assert(match pipeline_input_identity_json(value) { Json::Object(ms) => ms, _ => Seq::empty() } =~= m8);
        },
        None => {
            let m0 = Seq::<(Seq<char>, Json)>::empty();
            lemma_object_push_encodable(m0, "artifact_role"@, Json::Str(artifact_role_name(value.artifact_role)));
            let m1 = m0.push(("artifact_role"@, Json::Str(artifact_role_name(value.artifact_role))));
            assert(text_less("artifact_role"@, "artifact_type"@));
            lemma_object_push_encodable(m1, "artifact_type"@, Json::Str(value.artifact_type@));
            let m2 = m1.push(("artifact_type"@, Json::Str(value.artifact_type@)));
            assert(text_less("artifact_type"@, "byte_count"@));
            lemma_object_push_encodable(m2, "byte_count"@, Json::Number(decimal(value.byte_count as nat)));
            let m3 = m2.push(("byte_count"@, Json::Number(decimal(value.byte_count as nat))));
            assert(text_less("byte_count"@, "content_sha256"@));
            lemma_object_push_encodable(m3, "content_sha256"@, Json::Str(value.content_sha256@));
            let m4 = m3.push(("content_sha256"@, Json::Str(value.content_sha256@)));
            assert(text_less("content_sha256"@, "file_count"@));
            lemma_object_push_encodable(m4, "file_count"@, Json::Number(decimal(value.file_count as nat)));
            let m5 = m4.push(("file_count"@, Json::Number(decimal(value.file_count as nat))));
            assert(text_less("file_count"@, "id"@));
            lemma_object_push_encodable(m5, "id"@, Json::Str(value.id@));
            let m6 = m5.push(("id"@, Json::Str(value.id@)));
            assert(text_less("id"@, "kind"@));
            lemma_object_push_encodable(m6, "kind"@, Json::Str(pipeline_input_kind_name(value.kind)));
            let m7 = m6.push(("kind"@, Json::Str(pipeline_input_kind_name(value.kind))));
            assert(match pipeline_input_identity_json(value) { Json::Object(ms) => ms, _ => Seq::empty() } =~= m7);
        },
    }
}

pub proof fn lemma_pipeline_input_identities_encodable(values: Seq<PipelineInputIdentity>)
    ensures
        value_encodable(pipeline_input_identities_json(values)),
    decreases values.len(),
{
    let items = values.map_values(|e: PipelineInputIdentity| pipeline_input_identity_json(e));
    if values.len() > 0 {
        lemma_pipeline_input_identities_encodable(values.drop_last());
        lemma_pipeline_input_identity_encodable(values.last());
        assert(values.drop_last().map_values(|e: PipelineInputIdentity| pipeline_input_identity_json(e)) =~= items.drop_last());
        lemma_items_push(items.drop_last(), items.last());
        assert(items.drop_last().push(items.last()) =~= items);
    }
}

pub proof fn lemma_planned_expected_artifact_encodable(value: PlannedExpectedArtifact)
    ensures
        value_encodable(planned_expected_artifact_json(value)),
{
    reveal_strlit("artifact_role");
    reveal_strlit("artifact_type");
    reveal_strlit("id");
    reveal_strlit("relative_path");
    reveal_strlit("stream_role");
    reveal_with_fuel(text_less, 11);
    match value.stream_role {
        Some(x_stream_role) => {
            let m0 = Seq::<(Seq<char>, Json)>::empty();
            lemma_object_push_encodable(m0, "artifact_role"@, Json::Str(artifact_role_name(value.artifact_role)));
            let m1 = m0.push(("artifact_role"@, Json::Str(artifact_role_name(value.artifact_role))));
            assert(text_less("artifact_role"@, "artifact_type"@));
            lemma_object_push_encodable(m1, "artifact_type"@, Json::Str(value.artifact_type@));
            let m2 = m1.push(("artifact_type"@, Json::Str(value.artifact_type@)));
            assert(text_less("artifact_type"@, "id"@));
            lemma_object_push_encodable(m2, "id"@, Json::Str(value.id@));
            let m3 = m2.push(("id"@, Json::Str(value.id@)));
            assert(text_less("id"@, "relative_path"@));
            lemma_object_push_encodable(m3, "relative_path"@, Json::Str(value.relative_path@));
            let m4 = m3.push(("relative_path"@, Json::Str(value.relative_path@)));
            assert(text_less("relative_path"@, "stream_role"@));
            lemma_object_push_encodable(m4, "stream_role"@, Json::Str(stream_role_name(x_stream_role)));
            let m5 = m4.push(("stream_role"@, Json::Str(stream_role_name(x_stream_role))));
            assert(match planned_expected_artifact_json(value) { Json::Object(ms) => ms, _ => Seq::empty() } =~= m5);
        },
        None => {
            let m0 = Seq::<(Seq<char>, Json)>::empty();
            lemma_object_push_encodable(m0, "artifact_role"@, Json::Str(artifact_role_name(value.artifact_role)));
            let m1 = m0.push(("artifact_role"@, Json::Str(artifact_role_name(value.artifact_role))));
            assert(text_less("artifact_role"@, "artifact_type"@));
            lemma_object_push_encodable(m1, "artifact_type"@, Json::Str(value.artifact_type@));
            let m2 = m1.push(("artifact_type"@, Json::Str(value.artifact_type@)));
            assert(text_less("artifact_type"@, "id"@));
            lemma_object_push_encodable(m2, "id"@, Json::Str(value.id@));
            let m3 = m2.push(("id"@, Json::Str(value.id@)));
            assert(text_less("id"@, "relative_path"@));
            lemma_object_push_encodable(m3, "relative_path"@, Json::Str(value.relative_path@));
            let m4 = m3.push(("relative_path"@, Json::Str(value.relative_path@)));
            assert(match planned_expected_artifact_json(value) { Json::Object(ms) => ms, _ => Seq::empty() } =~= m4);
        },
    }
}

pub proof fn lemma_planned_expected_artifacts_encodable(values: Seq<PlannedExpectedArtifact>)
    ensures
        value_encodable(planned_expected_artifacts_json(values)),
    decreases values.len(),
{
    let items = values.map_values(|e: PlannedExpectedArtifact| planned_expected_artifact_json(e));
    if values.len() > 0 {
        lemma_planned_expected_artifacts_encodable(values.drop_last());
        lemma_planned_expected_artifact_encodable(values.last());
        assert(values.drop_last().map_values(|e: PlannedExpectedArtifact| planned_expected_artifact_json(e)) =~= items.drop_last());
        lemma_items_push(items.drop_last(), items.last());
        assert(items.drop_last().push(items.last()) =~= items);
    }
}

pub proof fn lemma_planned_output_binding_encodable(value: PlannedOutputBinding)
    ensures
        value_encodable(planned_output_binding_json(value)),
{
    lemma_planned_expected_artifacts_encodable(value.artifacts@);
    reveal_strlit("artifacts");
    reveal_strlit("port");
    reveal_with_fuel(text_less, 2);
    let m0 = Seq::<(Seq<char>, Json)>::empty();
    lemma_object_push_encodable(m0, "artifacts"@, planned_expected_artifacts_json(value.artifacts@));
    let m1 = m0.push(("artifacts"@, planned_expected_artifacts_json(value.artifacts@)));
    assert(text_less("artifacts"@, "port"@));
    lemma_object_push_encodable(m1, "port"@, Json::Str(value.port@));
    let m2 = m1.push(("port"@, Json::Str(value.port@)));
    assert(match planned_output_binding_json(value) { Json::Object(ms) => ms, _ => Seq::empty() } =~= m2);
}

pub proof fn lemma_planned_output_bindings_encodable(values: Seq<PlannedOutputBinding>)
    ensures
        value_encodable(planned_output_bindings_json(values)),
    decreases values.len(),
{
    let items = values.map_values(|e: PlannedOutputBinding| planned_output_binding_json(e));
    if values.len() > 0 {
        lemma_planned_output_bindings_encodable(values.drop_last());
        lemma_planned_output_binding_encodable(values.last());
        assert(values.drop_last().map_values(|e: PlannedOutputBinding| planned_output_binding_json(e)) =~= items.drop_last());
        lemma_items_push(items.drop_last(), items.last());
        assert(items.drop_last().push(items.last()) =~= items);
    }
}

pub proof fn lemma_availability_codes_encodable(values: Seq<AvailabilityCode>)
    ensures
        value_encodable(availability_codes_json(values)),
    decreases values.len(),
{
    let items = values.map_values(|e: AvailabilityCode| Json::Str(availability_code_name(e)));
    if values.len() > 0 {
        lemma_availability_codes_encodable(values.drop_last());
        
        assert(values.drop_last().map_values(|e: AvailabilityCode| Json::Str(availability_code_name(e))) =~= items.drop_last());
        lemma_items_push(items.drop_last(), items.last());
        assert(items.drop_last().push(items.last()) =~= items);
    }
}

pub proof fn lemma_planned_provider_resolution_attempt_encodable(value: PlannedProviderResolutionAttempt)
    ensures
        value_encodable(planned_provider_resolution_attempt_json(value)),
{
    lemma_provider_candidate_encodable(value.candidate);
    lemma_availability_codes_encodable(value.reason_codes@);
    lemma_provider_selection_encodable(value.selection);
    reveal_strlit("available");
    reveal_strlit("candidate");
    reveal_strlit("reason_codes");
    reveal_strlit("selection");
    reveal_with_fuel(text_less, 2);
    let m0 = Seq::<(Seq<char>, Json)>::empty();
    lemma_object_push_encodable(m0, "available"@, Json::Bool(value.available));
    let m1 = m0.push(("available"@, Json::Bool(value.available)));
    assert(text_less("available"@, "candidate"@));
    lemma_object_push_encodable(m1, "candidate"@, provider_candidate_json(value.candidate));
    let m2 = m1.push(("candidate"@, provider_candidate_json(value.candidate)));
    assert(text_less("candidate"@, "reason_codes"@));
    lemma_object_push_encodable(m2, "reason_codes"@, availability_codes_json(value.reason_codes@));
    let m3 = m2.push(("reason_codes"@, availability_codes_json(value.reason_codes@)));
    assert(text_less("reason_codes"@, "selection"@));
    lemma_object_push_encodable(m3, "selection"@, provider_selection_json(value.selection));
    let m4 = m3.push(("selection"@, provider_selection_json(value.selection)));
    assert(match planned_provider_resolution_attempt_json(value) { Json::Object(ms) => ms, _ => Seq::empty() } =~= m4);
}

pub proof fn lemma_planned_attempts_encodable(values: Seq<PlannedProviderResolutionAttempt>)
    ensures
        value_encodable(planned_attempts_json(values)),
    decreases values.len(),
{
    let items = values.map_values(|e: PlannedProviderResolutionAttempt| planned_provider_resolution_attempt_json(e));
    if values.len() > 0 {
        lemma_planned_attempts_encodable(values.drop_last());
        lemma_planned_provider_resolution_attempt_encodable(values.last());
        assert(values.drop_last().map_values(|e: PlannedProviderResolutionAttempt| planned_provider_resolution_attempt_json(e)) =~= items.drop_last());
        lemma_items_push(items.drop_last(), items.last());
        assert(items.drop_last().push(items.last()) =~= items);
    }
}

pub proof fn lemma_resolved_pipeline_stage_encodable(value: ResolvedPipelineStage)
    ensures
        value_encodable(resolved_pipeline_stage_json(value)),
{
    lemma_capability_declaration_encodable(value.capability);
    lemma_capability_requirement_encodable(value.capability_requirement);
    lemma_strings_encodable(value.depends_on@);
    lemma_authored_input_bindings_encodable(value.inputs@);
    lemma_planned_output_bindings_encodable(value.outputs@);
    lemma_provider_lock_encodable(value.provider_lock);
    lemma_provider_selection_intent_encodable(value.provider_selection);
    lemma_planned_attempts_encodable(value.resolution_attempts@);
    lemma_artifact_validations_encodable(value.validations@);
    reveal_strlit("capability");
    reveal_strlit("capability_requirement");
    reveal_strlit("depends_on");
    reveal_strlit("id");
    reveal_strlit("inputs");
    reveal_strlit("outputs");
    reveal_strlit("provider_lock");
    reveal_strlit("provider_selection");
    reveal_strlit("resolution_attempts");
    reveal_strlit("validations");
    reveal_with_fuel(text_less, 12);
    let m0 = Seq::<(Seq<char>, Json)>::empty();
    lemma_object_push_encodable(m0, "capability"@, capability_declaration_json(value.capability));
    let m1 = m0.push(("capability"@, capability_declaration_json(value.capability)));
    assert(text_less("capability"@, "capability_requirement"@));
    lemma_object_push_encodable(m1, "capability_requirement"@, capability_requirement_json(value.capability_requirement));
    let m2 = m1.push(("capability_requirement"@, capability_requirement_json(value.capability_requirement)));
    assert(text_less("capability_requirement"@, "depends_on"@));
    lemma_object_push_encodable(m2, "depends_on"@, strings_json(value.depends_on@));
    let m3 = m2.push(("depends_on"@, strings_json(value.depends_on@)));
    assert(text_less("depends_on"@, "id"@));
    lemma_object_push_encodable(m3, "id"@, Json::Str(value.id@));
    let m4 = m3.push(("id"@, Json::Str(value.id@)));
    assert(text_less("id"@, "inputs"@));
    lemma_object_push_encodable(m4, "inputs"@, authored_input_bindings_json(value.inputs@));
    let m5 = m4.push(("inputs"@, authored_input_bindings_json(value.inputs@)));
    assert(text_less("inputs"@, "outputs"@));
    lemma_object_push_encodable(m5, "outputs"@, planned_output_bindings_json(value.outputs@));
    let m6 = m5.push(("outputs"@, planned_output_bindings_json(value.outputs@)));
    assert(text_less("outputs"@, "provider_lock"@));
    lemma_object_push_encodable(m6, "provider_lock"@, provider_lock_json(value.provider_lock));
    let m7 = m6.push(("provider_lock"@, provider_lock_json(value.provider_lock)));
    assert(text_less("provider_lock"@, "provider_selection"@));
    lemma_object_push_encodable(m7, "provider_selection"@, provider_selection_intent_json(value.provider_selection));
    let m8 = m7.push(("provider_selection"@, provider_selection_intent_json(value.provider_selection)));
    assert(text_less("provider_selection"@, "resolution_attempts"@));
    lemma_object_push_encodable(m8, "resolution_attempts"@, planned_attempts_json(value.resolution_attempts@));
    let m9 = m8.push(("resolution_attempts"@, planned_attempts_json(value.resolution_attempts@)));
    assert(text_less("resolution_attempts"@, "validations"@));
    lemma_object_push_encodable(m9, "validations"@, artifact_validations_json(value.validations@));
    let m10 = m9.push(("validations"@, artifact_validations_json(value.validations@)));
    assert(match resolved_pipeline_stage_json(value) { Json::Object(ms) => ms, _ => Seq::empty() } =~= m10);
}

pub proof fn lemma_resolved_stages_encodable(values: Seq<ResolvedPipelineStage>)
    ensures
        value_encodable(resolved_stages_json(values)),
    decreases values.len(),
{
    let items = values.map_values(|e: ResolvedPipelineStage| resolved_pipeline_stage_json(e));
    if values.len() > 0 {
        lemma_resolved_stages_encodable(values.drop_last());
        lemma_resolved_pipeline_stage_encodable(values.last());
        assert(values.drop_last().map_values(|e: ResolvedPipelineStage| resolved_pipeline_stage_json(e)) =~= items.drop_last());
        lemma_items_push(items.drop_last(), items.last());
        assert(items.drop_last().push(items.last()) =~= items);
    }
}

pub proof fn lemma_pipeline_v3_plan_payload_encodable(value: PipelineV3PlanPayload)
    ensures
        value_encodable(pipeline_v3_plan_payload_json(value)),
{
    lemma_pipeline_input_identities_encodable(value.inputs@);
    lemma_final_outputs_encodable(value.outputs@);
    lemma_normalized_planning_policy_encodable(value.policy);
    lemma_resolved_stages_encodable(value.stages@);
    reveal_strlit("configuration_sha256");
    reveal_strlit("inputs");
    reveal_strlit("outputs");
    reveal_strlit("pipeline_name");
    reveal_strlit("pipeline_schema");
    reveal_strlit("policy");
    reveal_strlit("stages");
    reveal_with_fuel(text_less, 11);
    let m0 = Seq::<(Seq<char>, Json)>::empty();
    lemma_object_push_encodable(m0, "configuration_sha256"@, Json::Str(value.configuration_sha256@));
    let m1 = m0.push(("configuration_sha256"@, Json::Str(value.configuration_sha256@)));
    assert(text_less("configuration_sha256"@, "inputs"@));
    lemma_object_push_encodable(m1, "inputs"@, pipeline_input_identities_json(value.inputs@));
    let m2 = m1.push(("inputs"@, pipeline_input_identities_json(value.inputs@)));
    assert(text_less("inputs"@, "outputs"@));
    lemma_object_push_encodable(m2, "outputs"@, final_outputs_json(value.outputs@));
    let m3 = m2.push(("outputs"@, final_outputs_json(value.outputs@)));
    assert(text_less("outputs"@, "pipeline_name"@));
    lemma_object_push_encodable(m3, "pipeline_name"@, Json::Str(value.pipeline_name@));
    let m4 = m3.push(("pipeline_name"@, Json::Str(value.pipeline_name@)));
    assert(text_less("pipeline_name"@, "pipeline_schema"@));
    lemma_object_push_encodable(m4, "pipeline_schema"@, Json::Str(value.pipeline_schema@));
    let m5 = m4.push(("pipeline_schema"@, Json::Str(value.pipeline_schema@)));
    assert(text_less("pipeline_schema"@, "policy"@));
    lemma_object_push_encodable(m5, "policy"@, normalized_planning_policy_json(value.policy));
    let m6 = m5.push(("policy"@, normalized_planning_policy_json(value.policy)));
    assert(text_less("policy"@, "stages"@));
    lemma_object_push_encodable(m6, "stages"@, resolved_stages_json(value.stages@));
    let m7 = m6.push(("stages"@, resolved_stages_json(value.stages@)));
    assert(match pipeline_v3_plan_payload_json(value) { Json::Object(ms) => ms, _ => Seq::empty() } =~= m7);
}

pub proof fn lemma_pipeline_v3_plan_encodable(value: PipelineV3Plan)
    ensures
        value_encodable(pipeline_v3_plan_json(value)),
{
    lemma_pipeline_v3_plan_payload_encodable(value.payload);
    reveal_strlit("algorithm");
    reveal_strlit("canonicalization");
    reveal_strlit("payload");
    reveal_strlit("plan_sha256");
    reveal_strlit("schema");
    reveal_with_fuel(text_less, 3);
    let m0 = Seq::<(Seq<char>, Json)>::empty();
    lemma_object_push_encodable(m0, "algorithm"@, Json::Str(value.algorithm@));
    let m1 = m0.push(("algorithm"@, Json::Str(value.algorithm@)));
    assert(text_less("algorithm"@, "canonicalization"@));
    lemma_object_push_encodable(m1, "canonicalization"@, Json::Str(value.canonicalization@));
    let m2 = m1.push(("canonicalization"@, Json::Str(value.canonicalization@)));
    assert(text_less("canonicalization"@, "payload"@));
    lemma_object_push_encodable(m2, "payload"@, pipeline_v3_plan_payload_json(value.payload));
    let m3 = m2.push(("payload"@, pipeline_v3_plan_payload_json(value.payload)));
    assert(text_less("payload"@, "plan_sha256"@));
    lemma_object_push_encodable(m3, "plan_sha256"@, Json::Str(value.plan_sha256@));
    let m4 = m3.push(("plan_sha256"@, Json::Str(value.plan_sha256@)));
    assert(text_less("plan_sha256"@, "schema"@));
    lemma_object_push_encodable(m4, "schema"@, Json::Str(value.schema@));
    let m5 = m4.push(("schema"@, Json::Str(value.schema@)));
    assert(match pipeline_v3_plan_json(value) { Json::Object(ms) => ms, _ => Seq::empty() } =~= m5);
}



// ---------------------------------------------------------------------------
// Provider invocation requests
// ---------------------------------------------------------------------------

/// A copy of a JSON value.
pub fn copy_json(v: &JsonValue) -> (r: JsonValue)
    ensures
        json_of(r) == json_of(*v),
    decreases v,
{
    match v {
        JsonValue::Null => JsonValue::Null,
        JsonValue::Bool(b) => JsonValue::Bool(*b),
        JsonValue::Number(t) => JsonValue::Number(owned(t.as_str())),
        JsonValue::String(t) => JsonValue::String(owned(t.as_str())),
        JsonValue::Array(xs) => {
            let mut items: Vec<JsonValue> = Vec::new();
            let mut i: usize = 0;
            while i < xs.len()
                invariant
                    i <= xs.len(),
                    *v is Array,
                    (*v)->Array_0 == *xs,
                    json_items(items@) == json_items(xs@.take(i as int)),
                decreases xs.len() - i,
            {
                proof {
                    vstd::std_specs::vec::axiom_vec_index_decreases(*xs, i as int);
                    assert(decreases_to!(*v => (*v)->Array_0));
                    assert(decreases_to!(*v => xs[i as int]));
                    assert(xs@.take(i + 1).drop_last() =~= xs@.take(i as int));
                }
                item(&mut items, copy_json(&xs[i]));
                i = i + 1;
            }
            assert(xs@.take(xs.len() as int) =~= xs@);
            JsonValue::Array(items)
        },
        JsonValue::Object(xs) => {
            let mut members: Vec<(String, JsonValue)> = Vec::new();
            let mut i: usize = 0;
            while i < xs.len()
                invariant
                    i <= xs.len(),
                    *v is Object,
                    (*v)->Object_0 == *xs,
                    json_members(members@) == json_members(xs@.take(i as int)),
                decreases xs.len() - i,
            {
                proof {
                    vstd::std_specs::vec::axiom_vec_index_decreases(*xs, i as int);
                    assert(decreases_to!(*v => (*v)->Object_0));
                    assert(decreases_to!(*v => xs[i as int]));
                    assert(decreases_to!(xs[i as int] => xs[i as int].1));
                    assert(xs@.take(i + 1).drop_last() =~= xs@.take(i as int));
                }
                member(&mut members, xs[i].0.as_str(), copy_json(&xs[i].1));
                i = i + 1;
            }
            assert(xs@.take(xs.len() as int) =~= xs@);
            JsonValue::Object(members)
        },
    }
}

/// The serialized form of a `ProviderConfiguration`, members in key order.
pub open spec fn provider_configuration_json(value: ProviderConfiguration) -> Json {
    Json::Object(seq![("capability"@, capability_reference_json(value.capability)), ("configuration_schema"@, configuration_schema_reference_json(value.configuration_schema)), ("effective_configuration_sha256"@, Json::Str(value.effective_configuration_sha256@)), ("provider"@, provider_reference_json(value.provider)), ("schema"@, Json::Str(value.schema@)), ("values"@, Json::Object(json_members(value.values@)))])
}

pub fn provider_configuration_value(value: &ProviderConfiguration) -> (v: JsonValue)
    ensures
        json_of(v) == provider_configuration_json(*value),
{
    let mut values: Vec<(String, JsonValue)> = Vec::new();
    let mut i: usize = 0;
    while i < value.values.len()
        invariant
            i <= value.values.len(),
            json_members(values@) == json_members(value.values@.take(i as int)),
        decreases value.values.len() - i,
    {
        assert(value.values@.take(i + 1).drop_last() =~= value.values@.take(i as int));
        member(&mut values, value.values[i].0.as_str(), copy_json(&value.values[i].1));
        i = i + 1;
    }
    assert(value.values@.take(value.values.len() as int) =~= value.values@);
    let mut m: Vec<(String, JsonValue)> = Vec::new();
    member(&mut m, "capability", capability_reference_value(&value.capability));
    member(&mut m, "configuration_schema", configuration_schema_reference_value(&value.configuration_schema));
    member(&mut m, "effective_configuration_sha256", jstr(value.effective_configuration_sha256.as_str()));
    member(&mut m, "provider", provider_reference_value(&value.provider));
    member(&mut m, "schema", jstr(value.schema.as_str()));
    member(&mut m, "values", JsonValue::Object(values));
    assert(json_members(m@) =~= match provider_configuration_json(*value) { Json::Object(ms) => ms, _ => Seq::empty() });
    JsonValue::Object(m)
}

/// The serialized form of a `ProviderInvocationArtifactBinding`, members in
/// key order, the stream role only when there is one.
pub open spec fn invocation_binding_json(value: ProviderInvocationArtifactBinding) -> Json {
    Json::Object(seq![("artifact_id"@, Json::Str(value.artifact_id@)), ("artifact_role"@, Json::Str(artifact_role_name(value.artifact_role))), ("artifact_type"@, Json::Str(value.artifact_type@)), ("kind"@, Json::Str(artifact_kind_name(value.kind))), ("path"@, Json::Str(value.path@)), ("port"@, Json::Str(value.port@))] + (match value.stream_role { Some(r) => seq![("stream_role"@, Json::Str(stream_role_name(r)))], None => Seq::<(Seq<char>, Json)>::empty() }))
}

pub fn invocation_binding_value(value: &ProviderInvocationArtifactBinding) -> (v: JsonValue)
    ensures
        json_of(v) == invocation_binding_json(*value),
{
    let mut m: Vec<(String, JsonValue)> = Vec::new();
    member(&mut m, "artifact_id", jstr(value.artifact_id.as_str()));
    member(&mut m, "artifact_role", jstr(artifact_role_name_text(value.artifact_role)));
    member(&mut m, "artifact_type", jstr(value.artifact_type.as_str()));
    member(&mut m, "kind", jstr(artifact_kind_name_text(value.kind)));
    member(&mut m, "path", jstr(value.path.as_str()));
    member(&mut m, "port", jstr(value.port.as_str()));
    match value.stream_role {
        Some(r) => {
            member(&mut m, "stream_role", jstr(stream_role_name_text(r)));
        },
        None => {},
    }
    assert(json_members(m@) =~= match invocation_binding_json(*value) { Json::Object(ms) => ms, _ => Seq::empty() });
    JsonValue::Object(m)
}

pub open spec fn invocation_bindings_json(values: Seq<ProviderInvocationArtifactBinding>) -> Json {
    Json::Array(values.map_values(|e: ProviderInvocationArtifactBinding| invocation_binding_json(e)))
}

pub fn invocation_bindings_value(values: &Vec<ProviderInvocationArtifactBinding>) -> (v: JsonValue)
    ensures
        json_of(v) == invocation_bindings_json(values@),
{
    let mut items: Vec<JsonValue> = Vec::new();
    let mut i: usize = 0;
    while i < values.len()
        invariant
            i <= values.len(),
            json_items(items@) == values@.take(i as int).map_values(|e: ProviderInvocationArtifactBinding| invocation_binding_json(e)),
        decreases values.len() - i,
    {
        item(&mut items, invocation_binding_value(&values[i]));
        assert(values@.take(i + 1).map_values(|e: ProviderInvocationArtifactBinding| invocation_binding_json(e)) =~= values@.take(i as int).map_values(
            |e: ProviderInvocationArtifactBinding| invocation_binding_json(e),
        ).push(invocation_binding_json(values@[i as int])));
        i = i + 1;
    }
    assert(values@.take(values.len() as int) =~= values@);
    JsonValue::Array(items)
}

/// The serialized form of a `ProviderInvocationRequest`, members in key order.
pub open spec fn provider_invocation_request_json(value: ProviderInvocationRequest) -> Json {
    Json::Object(seq![("configuration"@, provider_configuration_json(value.configuration)), ("execution_semantics"@, Json::Str(value.execution_semantics@)), ("inputs"@, invocation_bindings_json(value.inputs@)), ("outputs"@, invocation_bindings_json(value.outputs@)), ("provider_lock_sha256"@, Json::Str(value.provider_lock_sha256@)), ("schema"@, Json::Str(value.schema@)), ("stage_id"@, Json::Str(value.stage_id@))])
}

pub fn provider_invocation_request_value(value: &ProviderInvocationRequest) -> (v: JsonValue)
    ensures
        json_of(v) == provider_invocation_request_json(*value),
{
    let mut m: Vec<(String, JsonValue)> = Vec::new();
    member(&mut m, "configuration", provider_configuration_value(&value.configuration));
    member(&mut m, "execution_semantics", jstr(value.execution_semantics.as_str()));
    member(&mut m, "inputs", invocation_bindings_value(&value.inputs));
    member(&mut m, "outputs", invocation_bindings_value(&value.outputs));
    member(&mut m, "provider_lock_sha256", jstr(value.provider_lock_sha256.as_str()));
    member(&mut m, "schema", jstr(value.schema.as_str()));
    member(&mut m, "stage_id", jstr(value.stage_id.as_str()));
    assert(json_members(m@) =~= match provider_invocation_request_json(*value) { Json::Object(ms) => ms, _ => Seq::empty() });
    JsonValue::Object(m)
}

} // verus!
