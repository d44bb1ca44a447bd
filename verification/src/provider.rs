//! Provider manifests, configurations, and compatibility fingerprints: the
//! inert declaration data of temporal providers and its validation rules.
use vstd::prelude::*;

use crate::error::{Error, ErrorCategory};
use crate::json::{JsonValue, Json, json_members, value_encodable, canonical_digest, canonical_object_sha256, encodable_sha256};
use crate::canonical::{
    compatibility_fingerprint_payload_json, compatibility_fingerprint_payload_value, provider_manifest_json,
    provider_manifest_value, lemma_compatibility_fingerprint_payload_encodable, lemma_provider_manifest_encodable,
};
use crate::order::text_less;
use crate::text::{
    chars_of, has_space, is_blank, is_dotted_name, is_local_id, is_sha256_hex, is_token, join2,
    join3, owned, seq_is_dotted_name, starts_with, text_eq, text_is_blank, text_is_local_id,
    text_is_sha256, text_is_token, is_digit, char_is_digit,
};
use crate::versioning::{
    parses_as_requirement, parses_as_version, semver_parses, semver_requirement_parses,
};

verus! {

broadcast use vstd::seq_lib::group_seq_properties;

pub const PROVIDER_MANIFEST_SCHEMA_V1: &'static str = "aniflow.provider-manifest/v1";
pub const PROVIDER_CONFIGURATION_SCHEMA_V1: &'static str = "aniflow.provider-configuration/v1";
pub const COMPATIBILITY_FINGERPRINT_SCHEMA_V1: &'static str = "aniflow.compatibility-fingerprint/v1";

/// Stable identity for one independently versioned temporal provider.
#[derive(Debug, Clone)]
pub struct ProviderIdentity {
    pub id: String,
    pub version: String,
    pub display_name: String,
}

/// Provider identity retained in configuration and compatibility evidence.
#[derive(Debug, Clone)]
pub struct ProviderReference {
    pub id: String,
    pub version: String,
}

/// Capability identity retained independently from provider identity.
#[derive(Debug, Clone)]
pub struct CapabilityReference {
    pub id: String,
    pub version: String,
}

/// Exact provider-owned JSON Schema used by a capability configuration.
#[derive(Debug, Clone)]
pub struct ConfigurationSchemaReference {
    pub id: String,
    pub version: String,
    pub sha256: String,
}

/// Temporal extension families owned by aniflow.
#[derive(Debug, Clone, Copy, PartialEq, Eq, Structural)]
pub enum CapabilityKind {
    FrameProcessor,
    AudioProcessor,
    TimedTextProcessor,
    WholeVideoProcessor,
    StreamInspector,
    TemporalValidator,
    ArtifactValidator,
    AssemblerEncoder,
    DeliveryProvider,
    LifecycleObserver,
}

/// Semantic role of an immutable artifact at a provider boundary.
#[derive(Debug, Clone, Copy, PartialEq, Eq, Structural)]
pub enum ArtifactRole {
    TemporalSource,
    TemporalComponent,
    Intermediate,
    CandidateMaster,
    ValidatedMaster,
    ValidationEvidence,
    RunEvidence,
    DeliveryReceipt,
}

/// Temporal stream meaning associated with an artifact port when applicable.
#[derive(Debug, Clone, Copy, PartialEq, Eq, Structural)]
pub enum StreamRole {
    Video,
    Audio,
    Subtitle,
    Transcript,
    TimedMetadata,
    Attachment,
}

/// Number of artifacts accepted or produced through one named port.
#[derive(Debug, Clone, Copy, PartialEq, Eq, Structural)]
pub enum ArtifactCardinality {
    One,
    Optional,
    OneOrMore,
    Many,
}

/// One typed input or output in a capability declaration.
#[derive(Debug, Clone)]
pub struct ArtifactPort {
    pub name: String,
    pub artifact_type: String,
    pub artifact_role: ArtifactRole,
    pub stream_role: Option<StreamRole>,
    pub cardinality: ArtifactCardinality,
    pub immutable: bool,
}

/// How a capability consumes its input collection.
#[derive(Debug, Clone, Copy, PartialEq, Eq, Structural)]
pub enum BatchingMode {
    Unbatched,
    PerArtifact,
    DirectoryBatch,
    WholeArtifact,
    Stream,
}

/// Reproducibility behavior declared by the provider.
#[derive(Debug, Clone, Copy, PartialEq, Eq, Structural)]
pub enum DeterminismClass {
    Deterministic,
    ConfigurationDependent,
    EnvironmentDependent,
    Nondeterministic,
}

/// Information-preservation behavior for capability outputs.
#[derive(Debug, Clone, Copy, PartialEq, Eq, Structural)]
pub enum FidelityClass {
    Lossless,
    Lossy,
    Observational,
    NotApplicable,
}

/// Externally observable effects requested by a provider capability.
#[derive(Debug, Clone, Copy, PartialEq, Eq, Structural)]
pub enum SideEffect {
    FilesystemRead,
    FilesystemWrite,
    EnvironmentRead,
    Subprocess,
    Network,
    Ai,
    Gpu,
    Publish,
}

/// Position of a side effect in its declaration order, which is the order
/// that `Ord` gives the enum.
pub open spec fn side_effect_rank(effect: SideEffect) -> int {
    match effect {
        SideEffect::FilesystemRead => 0,
        SideEffect::FilesystemWrite => 1,
        SideEffect::EnvironmentRead => 2,
        SideEffect::Subprocess => 3,
        SideEffect::Network => 4,
        SideEffect::Ai => 5,
        SideEffect::Gpu => 6,
        SideEffect::Publish => 7,
    }
}

pub fn side_effect_rank_exec(effect: SideEffect) -> (r: u8)
    ensures
        r as int == side_effect_rank(effect),
{
    match effect {
        SideEffect::FilesystemRead => 0,
        SideEffect::FilesystemWrite => 1,
        SideEffect::EnvironmentRead => 2,
        SideEffect::Subprocess => 3,
        SideEffect::Network => 4,
        SideEffect::Ai => 5,
        SideEffect::Gpu => 6,
        SideEffect::Publish => 7,
    }
}

/// Whether a hardware or connectivity resource is used by a capability.
#[derive(Debug, Clone, Copy, PartialEq, Eq, Structural)]
pub enum RequirementLevel {
    Forbidden,
    Optional,
    Required,
}

/// Required tool, codec, or model with a semantic version range when known.
#[derive(Debug, Clone)]
pub struct ComponentRequirement {
    pub id: String,
    pub version_requirement: String,
    pub sha256: Option<String>,
}

/// Minimum local resources and explicit GPU/network behavior.
#[derive(Debug, Clone)]
pub struct ComputeRequirements {
    pub minimum_cpu_threads: u16,
    pub minimum_memory_mib: u64,
    pub minimum_storage_mib: u64,
    pub gpu: RequirementLevel,
    pub network: RequirementLevel,
}

/// Complete declared dependency surface for one capability.
#[derive(Debug, Clone)]
pub struct ProviderRequirements {
    pub tools: Vec<ComponentRequirement>,
    pub codecs: Vec<ComponentRequirement>,
    pub models: Vec<ComponentRequirement>,
    pub compute: ComputeRequirements,
}

/// Cache, fidelity, mutation, and effect declarations for one capability.
#[derive(Debug, Clone)]
pub struct CapabilityBehavior {
    pub determinism: DeterminismClass,
    pub fidelity: FidelityClass,
    pub cacheable: bool,
    pub content_changes: bool,
    pub side_effects: Vec<SideEffect>,
}

/// Granularity of progress observations emitted by a provider.
#[derive(Debug, Clone, Copy, PartialEq, Eq, Structural)]
pub enum ProgressMode {
    Silent,
    LifecycleEvents,
    ItemCounts,
    Fractional,
}

/// Cancellation behavior supported by a provider implementation.
#[derive(Debug, Clone, Copy, PartialEq, Eq, Structural)]
pub enum CancellationMode {
    Unsupported,
    Cooperative,
    ProcessSignal,
}

/// Lifecycle behavior promised by one capability.
#[derive(Debug, Clone, Copy, PartialEq, Eq, Structural)]
pub struct LifecycleSupport {
    pub progress: ProgressMode,
    pub cancellation: CancellationMode,
}

/// Provider capability metadata used before any implementation is executed.
#[derive(Debug, Clone)]
pub struct CapabilityDeclaration {
    pub id: String,
    pub version: String,
    pub kind: CapabilityKind,
    pub configuration_schema: ConfigurationSchemaReference,
    pub inputs: Vec<ArtifactPort>,
    pub outputs: Vec<ArtifactPort>,
    pub batching: BatchingMode,
    pub max_concurrency: u32,
    pub requirements: ProviderRequirements,
    pub behavior: CapabilityBehavior,
    pub lifecycle: LifecycleSupport,
}

/// Evidence classes every provider result must retain when applicable.
#[derive(Debug, Clone, Copy, PartialEq, Eq, Structural)]
pub enum ProvenanceField {
    InputDigests,
    OutputDigests,
    PipelineConfiguration,
    EffectiveConfiguration,
    ProviderIdentity,
    CapabilityIdentity,
    ToolVersions,
    CodecVersions,
    ModelIdentities,
    ValidationEvidence,
}

/// Provider-wide provenance promise for every declared capability.
#[derive(Debug, Clone)]
pub struct ProvenanceContract {
    pub required: Vec<ProvenanceField>,
}

/// Inert, provider-owned discovery data for temporal capabilities.
#[derive(Debug)]
pub struct ProviderManifest {
    pub schema: String,
    pub provider: ProviderIdentity,
    pub configuration_schemas: Vec<ConfigurationSchemaReference>,
    pub capabilities: Vec<CapabilityDeclaration>,
    pub provenance: ProvenanceContract,
}

/// Effective provider configuration after provider-specific schema validation.
#[derive(Debug)]
pub struct ProviderConfiguration {
    pub schema: String,
    pub provider: ProviderReference,
    pub capability: CapabilityReference,
    pub configuration_schema: ConfigurationSchemaReference,
    pub values: Vec<(String, JsonValue)>,
    pub effective_configuration_sha256: String,
}

/// Exact tool or model identity retained in compatibility evidence.
#[derive(Debug, Clone)]
pub struct ComponentIdentity {
    pub id: String,
    pub version: String,
    pub sha256: Option<String>,
}

/// Immutable artifact identity retained in compatibility evidence.
#[derive(Debug, Clone)]
pub struct FingerprintArtifact {
    pub artifact_type: String,
    pub artifact_role: ArtifactRole,
    pub sha256: String,
}

/// Output identity bound to the validation evidence that accepted it.
#[derive(Debug, Clone)]
pub struct ValidatedOutputFingerprint {
    pub artifact: FingerprintArtifact,
    pub validation_contract: String,
    pub validation_sha256: String,
}

/// Canonical material hashed to decide whether provider state is compatible.
#[derive(Debug, Clone)]
pub struct CompatibilityFingerprintPayload {
    pub input_artifacts: Vec<FingerprintArtifact>,
    pub pipeline_configuration_sha256: String,
    pub effective_configuration_sha256: String,
    pub configuration_schema: ConfigurationSchemaReference,
    pub provider: ProviderReference,
    pub capability: CapabilityReference,
    pub tools: Vec<ComponentIdentity>,
    pub codecs: Vec<ComponentIdentity>,
    pub models: Vec<ComponentIdentity>,
    pub validated_outputs: Vec<ValidatedOutputFingerprint>,
}

/// Self-validating SHA-256 compatibility evidence for checkpoint and resume.
#[derive(Debug, Clone)]
pub struct CompatibilityFingerprint {
    pub schema: String,
    pub algorithm: String,
    pub fingerprint_sha256: String,
    pub payload: CompatibilityFingerprintPayload,
}

// ---------------------------------------------------------------------------
// Text rules
// ---------------------------------------------------------------------------

/// A lowercase dotted identifier with at least two parts.
pub open spec fn is_provider_id(s: Seq<char>) -> bool {
    is_dotted_name(s) && s.contains('.')
}

pub open spec fn aniflow_prefix() -> Seq<char> {
    "aniflow/"@
}

/// `aniflow/` followed by a dotted name.
pub open spec fn is_capability_id(s: Seq<char>) -> bool {
    starts_with(s, "aniflow/"@) && is_dotted_name(s.skip(8))
}

/// `aniflow.<dotted name>/v<major>` where the major version has no leading zero.
pub open spec fn is_configuration_schema_id(s: Seq<char>) -> bool {
    exists|k: int|
        #![trigger s.subrange(0, k)]
        8 <= k && k + 2 < s.len() && starts_with(s, "aniflow."@) && is_dotted_name(s.subrange(8, k))
            && s[k] == '/' && s[k + 1] == 'v' && s[k + 2] != '0' && forall|j: int|
            k + 2 <= j < s.len() ==> is_digit(#[trigger] s[j])
}

pub fn require_schema(actual: &str, expected: &str) -> (r: Result<(), Error>)
    ensures
        r is Ok <==> actual@ == expected@,
        r matches Err(e) ==> e.spec_category() == ErrorCategory::Configuration,
{
    if text_eq(actual, expected) {
        Ok(())
    } else {
        let mut message = join3("unsupported contract ", actual, "; expected ");
        message.append(expected);
        Err(crate::error::invalid(message))
    }
}

pub fn require_nonempty(value: &str, field: &str) -> (r: Result<(), Error>)
    ensures
        r is Ok <==> !is_blank(value@),
        r matches Err(e) ==> e.spec_category() == ErrorCategory::Configuration,
{
    if text_is_blank(value) {
        Err(crate::error::invalid(join2(field, " cannot be empty")))
    } else {
        Ok(())
    }
}

pub fn require_token(value: &str, field: &str) -> (r: Result<(), Error>)
    ensures
        r is Ok <==> is_token(value@),
        r matches Err(e) ==> e.spec_category() == ErrorCategory::Configuration,
{
    if text_is_token(value) {
        Ok(())
    } else {
        Err(crate::error::invalid(join2(field, " must be a non-empty token")))
    }
}

pub fn require_sha256(value: &str, field: &str) -> (r: Result<(), Error>)
    ensures
        r is Ok <==> is_sha256_hex(value@),
        r matches Err(e) ==> e.spec_category() == ErrorCategory::Configuration,
{
    if text_is_sha256(value) {
        Ok(())
    } else {
        Err(crate::error::invalid(join2(field, " must be a lowercase 64-character SHA-256 digest")))
    }
}

pub fn validate_semantic_version(value: &str, field: &str) -> (r: Result<(), Error>)
    ensures
        r is Ok <==> semver_parses(value@),
        r matches Err(e) ==> e.spec_category() == ErrorCategory::Configuration,
{
    if parses_as_version(value) {
        Ok(())
    } else {
        Err(crate::error::invalid(join3("invalid ", field, " version")))
    }
}

pub fn validate_provider_id(value: &str) -> (r: Result<(), Error>)
    ensures
        r is Ok <==> is_provider_id(value@),
        r matches Err(e) ==> e.spec_category() == ErrorCategory::Configuration,
{
    let v = chars_of(value);
    let mut has_dot = false;
    let mut i: usize = 0;
    while i < v.len()
        invariant
            i <= v.len(),
            has_dot == exists|j: int| 0 <= j < i && v@[j] == '.',
        decreases v.len() - i,
    {
        if v[i] == '.' {
            has_dot = true;
        }
        i = i + 1;
    }
    assert(has_dot == v@.contains('.'));
    if has_dot && seq_is_dotted_name(v.as_slice()) {
        Ok(())
    } else {
        Err(crate::error::invalid(join3("provider id ", value, " must be a lowercase dotted identifier")))
    }
}

pub fn validate_capability_id(value: &str) -> (r: Result<(), Error>)
    ensures
        r is Ok <==> is_capability_id(value@),
        r matches Err(e) ==> e.spec_category() == ErrorCategory::Configuration,
{
    let v = chars_of(value);
    let prefix = chars_of("aniflow/");
    proof {
        reveal_strlit("aniflow/");
    }
    if !crate::text::seq_starts_with(v.as_slice(), prefix.as_slice()) {
        return Err(crate::error::invalid(join3(
            "capability id ",
            value,
            " must be owned by the aniflow/ namespace",
        )));
    }
    let mut rest: Vec<char> = Vec::new();
    let mut i: usize = 8;
    while i < v.len()
        invariant
            8 <= i <= v.len(),
            rest@ == v@.subrange(8, i as int),
        decreases v.len() - i,
    {
        rest.push(v[i]);
        assert(v@.subrange(8, i + 1) =~= v@.subrange(8, i as int).push(v@[i as int]));
        i = i + 1;
    }
    assert(v@.skip(8) =~= v@.subrange(8, v.len() as int));
    if seq_is_dotted_name(rest.as_slice()) {
        Ok(())
    } else {
        Err(crate::error::invalid(join3(
            "capability id ",
            value,
            " must use lowercase letters, numbers, periods, or hyphens",
        )))
    }
}

proof fn lemma_schema_id_unique(s: Seq<char>, k: int, k2: int)
    requires
        8 <= k && k + 2 < s.len(),
        s[k] == '/' && s[k + 1] == 'v',
        forall|j: int| k + 2 <= j < s.len() ==> is_digit(#[trigger] s[j]),
        8 <= k2 && k2 + 1 < s.len(),
        s[k2] == '/' && s[k2 + 1] == 'v',
    ensures
        k2 <= k,
{
    if k2 > k {
        assert(is_digit(s[k2]));
    }
}

pub fn is_configuration_schema_id_exec(value: &str) -> (r: bool)
    ensures
        r == is_configuration_schema_id(value@),
{
    let v = chars_of(value);
    proof {
        reveal_strlit("aniflow.");
    }
    let prefix = chars_of("aniflow.");
    if !crate::text::seq_starts_with(v.as_slice(), prefix.as_slice()) || v.len() < 11 {
        return false;
    }
    // the last occurrence of "/v" at or after index 8
    let mut k: usize = v.len() - 2;
    while k >= 8 && !(v[k] == '/' && v[k + 1] == 'v')
        invariant
            7 <= k <= v.len() - 2,
            v.len() >= 11,
            forall|j: int| k < j && j + 1 < v.len() ==> !(#[trigger] v@[j] == '/' && v@[j + 1] == 'v'),
        decreases k,
    {
        k = k - 1;
    }
    if k < 8 || k + 2 >= v.len() {
        assert forall|k2: int|
            !(8 <= k2 && k2 + 2 < v@.len() && starts_with(v@, "aniflow."@) && #[trigger] is_dotted_name(v@.subrange(8, k2))
                && v@[k2] == '/' && v@[k2 + 1] == 'v' && v@[k2 + 2] != '0' && forall|j: int|
                k2 + 2 <= j < v@.len() ==> is_digit(#[trigger] v@[j])) by {
        }
        return false;
    }
    let mut name: Vec<char> = Vec::new();
    let mut i: usize = 8;
    while i < k
        invariant
            8 <= i <= k,
            k + 2 < v.len(),
            name@ == v@.subrange(8, i as int),
        decreases k - i,
    {
        name.push(v[i]);
        assert(v@.subrange(8, i + 1) =~= v@.subrange(8, i as int).push(v@[i as int]));
        i = i + 1;
    }
    let dotted = seq_is_dotted_name(name.as_slice());
    let nonzero = v[k + 2] != '0';
    let mut digits = true;
    let mut j: usize = k + 2;
    while j < v.len()
        invariant
            k + 2 <= j <= v.len(),
            digits == forall|m: int| k + 2 <= m < j ==> is_digit(#[trigger] v@[m]),
        decreases v.len() - j,
    {
        if !char_is_digit(v[j]) {
            digits = false;
        }
        j = j + 1;
    }
    let r = dotted && nonzero && digits;
    proof {
        if !r {
            assert forall|k2: int|
                !(8 <= k2 && k2 + 2 < v@.len() && starts_with(v@, "aniflow."@) && #[trigger] is_dotted_name(v@.subrange(8, k2))
                    && v@[k2] == '/' && v@[k2 + 1] == 'v' && v@[k2 + 2] != '0' && forall|j: int|
                    k2 + 2 <= j < v@.len() ==> is_digit(#[trigger] v@[j])) by {
                if 8 <= k2 && k2 + 2 < v@.len() && v@[k2] == '/' && v@[k2 + 1] == 'v' && forall|j: int|
                    k2 + 2 <= j < v@.len() ==> is_digit(#[trigger] v@[j]) {
                    lemma_schema_id_unique(v@, k2, k as int);
                    if k2 < k {
                        assert(is_digit(v@[k as int]));
                    }
                }
            }
        } else {
            assert(v@.subrange(0, k as int) == v@.subrange(0, k as int));
        }
    }
    r
}

// ---------------------------------------------------------------------------
// Structural rules
// ---------------------------------------------------------------------------

pub open spec fn schema_reference_valid(schema: ConfigurationSchemaReference) -> bool {
    is_configuration_schema_id(schema.id@) && semver_parses(schema.version@) && is_sha256_hex(
        schema.sha256@,
    )
}

pub open spec fn schema_key(schema: ConfigurationSchemaReference) -> (Seq<char>, Seq<char>, Seq<char>) {
    (schema.id@, schema.version@, schema.sha256@)
}

pub open spec fn provider_reference_valid(reference: ProviderReference) -> bool {
    is_provider_id(reference.id@) && semver_parses(reference.version@)
}

pub open spec fn capability_reference_valid(reference: CapabilityReference) -> bool {
    is_capability_id(reference.id@) && semver_parses(reference.version@)
}

pub open spec fn ports_valid(ports: Seq<ArtifactPort>) -> bool {
    &&& forall|i: int|
        0 <= i < ports.len() ==> is_local_id((#[trigger] ports[i]).name@) && is_token(ports[i].artifact_type@)
            && ports[i].immutable
    &&& forall|i: int, j: int| 0 <= i < j < ports.len() ==> (#[trigger] ports[i]).name@ != (#[trigger] ports[j]).name@
}

pub open spec fn component_requirements_valid(requirements: Seq<ComponentRequirement>) -> bool {
    &&& forall|i: int|
        0 <= i < requirements.len() ==> is_token((#[trigger] requirements[i]).id@)
            && semver_requirement_parses(requirements[i].version_requirement@) && (
        requirements[i].sha256 matches Some(d) ==> is_sha256_hex(d@))
    &&& forall|i: int, j: int|
        0 <= i < j < requirements.len() ==> (#[trigger] requirements[i]).id@ != (#[trigger] requirements[j]).id@
}

pub open spec fn requirements_valid(requirements: ProviderRequirements) -> bool {
    &&& component_requirements_valid(requirements.tools@)
    &&& component_requirements_valid(requirements.codecs@)
    &&& component_requirements_valid(requirements.models@)
    &&& requirements.compute.minimum_cpu_threads != 0
}

pub open spec fn distinct_effects(effects: Seq<SideEffect>) -> bool {
    forall|i: int, j: int| 0 <= i < j < effects.len() ==> #[trigger] effects[i] != #[trigger] effects[j]
}

pub open spec fn behavior_valid(capability: CapabilityDeclaration) -> bool {
    let behavior = capability.behavior;
    let compute = capability.requirements.compute;
    &&& distinct_effects(behavior.side_effects@)
    &&& !(behavior.cacheable && (behavior.determinism == DeterminismClass::EnvironmentDependent
        || behavior.determinism == DeterminismClass::Nondeterministic))
    &&& !(behavior.content_changes && behavior.fidelity == FidelityClass::NotApplicable)
    &&& (compute.network != RequirementLevel::Forbidden) == behavior.side_effects@.contains(
        SideEffect::Network,
    )
    &&& (compute.gpu != RequirementLevel::Forbidden) == behavior.side_effects@.contains(SideEffect::Gpu)
}

pub open spec fn capability_valid(
    capability: CapabilityDeclaration,
    schemas: Seq<ConfigurationSchemaReference>,
) -> bool {
    let effects = capability.behavior.side_effects@;
    &&& is_capability_id(capability.id@)
    &&& semver_parses(capability.version@)
    &&& schema_reference_valid(capability.configuration_schema)
    &&& exists|i: int|
        0 <= i < schemas.len() && schema_key(#[trigger] schemas[i]) == schema_key(capability.configuration_schema)
    &&& capability.inputs@.len() > 0
    &&& ports_valid(capability.inputs@)
    &&& ports_valid(capability.outputs@)
    &&& capability.max_concurrency != 0
    &&& requirements_valid(capability.requirements)
    &&& behavior_valid(capability)
    &&& if capability.kind == CapabilityKind::LifecycleObserver {
        capability.outputs@.len() == 0 && !capability.behavior.content_changes && capability.batching
            == BatchingMode::Unbatched && !effects.contains(SideEffect::FilesystemWrite) && !effects.contains(
            SideEffect::Publish,
        )
    } else {
        capability.outputs@.len() > 0
    }
    &&& effects.contains(SideEffect::Publish) ==> capability.kind == CapabilityKind::DeliveryProvider
}

pub open spec fn all_provenance_fields() -> Seq<ProvenanceField> {
    seq![
        ProvenanceField::InputDigests,
        ProvenanceField::OutputDigests,
        ProvenanceField::PipelineConfiguration,
        ProvenanceField::EffectiveConfiguration,
        ProvenanceField::ProviderIdentity,
        ProvenanceField::CapabilityIdentity,
        ProvenanceField::ToolVersions,
        ProvenanceField::CodecVersions,
        ProvenanceField::ModelIdentities,
        ProvenanceField::ValidationEvidence,
    ]
}

/// Every evidence class exactly once, in any order.
pub open spec fn provenance_valid(provenance: ProvenanceContract) -> bool {
    let required = provenance.required@;
    &&& forall|i: int, j: int| 0 <= i < j < required.len() ==> #[trigger] required[i] != #[trigger] required[j]
    &&& forall|f: ProvenanceField| #[trigger] required.contains(f)
}

impl ProviderManifest {
    pub open spec fn spec_valid(&self) -> bool {
        let schemas = self.configuration_schemas@;
        let capabilities = self.capabilities@;
        &&& self.schema@ == PROVIDER_MANIFEST_SCHEMA_V1@
        &&& is_provider_id(self.provider.id@)
        &&& semver_parses(self.provider.version@)
        &&& !is_blank(self.provider.display_name@)
        &&& schemas.len() > 0
        &&& capabilities.len() > 0
        &&& forall|i: int| 0 <= i < schemas.len() ==> schema_reference_valid(#[trigger] schemas[i])
        &&& forall|i: int, j: int|
            0 <= i < j < schemas.len() ==> schema_key(#[trigger] schemas[i]) != schema_key(#[trigger] schemas[j])
        &&& forall|i: int| 0 <= i < capabilities.len() ==> capability_valid(#[trigger] capabilities[i], schemas)
        &&& forall|i: int, j: int|
            0 <= i < j < capabilities.len() ==> (#[trigger] capabilities[i]).id@ != (#[trigger] capabilities[j]).id@
        &&& provenance_valid(self.provenance)
    }
}

pub fn validate_provider_reference(reference: &ProviderReference) -> (r: Result<(), Error>)
    ensures
        r is Ok <==> provider_reference_valid(*reference),
        r matches Err(e) ==> e.spec_category() == ErrorCategory::Configuration,
{
    validate_provider_id(reference.id.as_str())?;
    validate_semantic_version(reference.version.as_str(), "provider version")
}

pub fn validate_capability_reference(reference: &CapabilityReference) -> (r: Result<(), Error>)
    ensures
        r is Ok <==> capability_reference_valid(*reference),
        r matches Err(e) ==> e.spec_category() == ErrorCategory::Configuration,
{
    validate_capability_id(reference.id.as_str())?;
    validate_semantic_version(reference.version.as_str(), "capability version")
}

pub fn validate_configuration_schema(schema: &ConfigurationSchemaReference) -> (r: Result<(), Error>)
    ensures
        r is Ok <==> schema_reference_valid(*schema),
        r matches Err(e) ==> e.spec_category() == ErrorCategory::Configuration,
{
    if !is_configuration_schema_id_exec(schema.id.as_str()) {
        return Err(crate::error::invalid(join3(
            "configuration schema id ",
            schema.id.as_str(),
            " must use aniflow.<name>/v<major>",
        )));
    }
    validate_semantic_version(schema.version.as_str(), "configuration schema version")?;
    require_sha256(schema.sha256.as_str(), "configuration schema sha256")
}

pub fn same_schema(a: &ConfigurationSchemaReference, b: &ConfigurationSchemaReference) -> (r: bool)
    ensures
        r == (schema_key(*a) == schema_key(*b)),
{
    text_eq(a.id.as_str(), b.id.as_str()) && text_eq(a.version.as_str(), b.version.as_str())
        && text_eq(a.sha256.as_str(), b.sha256.as_str())
}

fn validate_artifact_ports(ports: &Vec<ArtifactPort>, direction: &str, capability: &str) -> (r: Result<(), Error>)
    ensures
        r is Ok <==> ports_valid(ports@),
        r matches Err(e) ==> e.spec_category() == ErrorCategory::Configuration,
{
    let mut i: usize = 0;
    while i < ports.len()
        invariant
            i <= ports.len(),
            forall|k: int|
                0 <= k < i ==> is_local_id((#[trigger] ports@[k]).name@) && is_token(ports@[k].artifact_type@)
                    && ports@[k].immutable,
            forall|k: int, l: int| 0 <= k < l < i ==> (#[trigger] ports@[k]).name@ != (#[trigger] ports@[l]).name@,
        decreases ports.len() - i,
    {
        let port = &ports[i];
        if !text_is_local_id(port.name.as_str()) {
            let mut m = join3(direction, " port name ", port.name.as_str());
            m.append(" on ");
            m.append(capability);
            m.append(" must use lowercase letters, numbers, hyphens, or underscores");
            return Err(crate::error::invalid(m));
        }
        require_token(port.artifact_type.as_str(), "artifact_type")?;
        if !port.immutable {
            let mut m = join3(direction, " port ", port.name.as_str());
            m.append(" must declare immutable=true");
            return Err(crate::error::invalid(m));
        }
        let mut j: usize = 0;
        while j < i
            invariant
                j <= i < ports.len(),
                forall|k: int| 0 <= k < j ==> (#[trigger] ports@[k]).name@ != ports@[i as int].name@,
            decreases i - j,
        {
            if text_eq(ports[j].name.as_str(), ports[i].name.as_str()) {
                let mut m = join3("capability ", capability, " contains duplicate ");
                m.append(direction);
                m.append(" port ");
                m.append(ports[i].name.as_str());
                return Err(crate::error::invalid(m));
            }
            j = j + 1;
        }
        i = i + 1;
    }
    Ok(())
}

fn validate_component_requirements(requirements: &Vec<ComponentRequirement>, kind: &str) -> (r: Result<(), Error>)
    ensures
        r is Ok <==> component_requirements_valid(requirements@),
        r matches Err(e) ==> e.spec_category() == ErrorCategory::Configuration,
{
    let mut i: usize = 0;
    while i < requirements.len()
        invariant
            i <= requirements.len(),
            forall|k: int|
                0 <= k < i ==> is_token((#[trigger] requirements@[k]).id@) && semver_requirement_parses(
                    requirements@[k].version_requirement@,
                ) && (requirements@[k].sha256 matches Some(d) ==> is_sha256_hex(d@)),
            forall|k: int, l: int|
                0 <= k < l < i ==> (#[trigger] requirements@[k]).id@ != (#[trigger] requirements@[l]).id@,
        decreases requirements.len() - i,
    {
        let requirement = &requirements[i];
        require_token(requirement.id.as_str(), kind)?;
        if !parses_as_requirement(requirement.version_requirement.as_str()) {
            let mut m = join3("invalid ", kind, " version requirement ");
            m.append(requirement.version_requirement.as_str());
            return Err(crate::error::invalid(m));
        }
        if let Some(digest) = &requirement.sha256 {
            require_sha256(digest.as_str(), kind)?;
        }
        let mut j: usize = 0;
        while j < i
            invariant
                j <= i < requirements.len(),
                forall|k: int| 0 <= k < j ==> (#[trigger] requirements@[k]).id@ != requirements@[i as int].id@,
            decreases i - j,
        {
            if text_eq(requirements[j].id.as_str(), requirements[i].id.as_str()) {
                let mut m = join3("duplicate ", kind, " requirement ");
                m.append(requirements[i].id.as_str());
                return Err(crate::error::invalid(m));
            }
            j = j + 1;
        }
        i = i + 1;
    }
    Ok(())
}

fn validate_requirements(requirements: &ProviderRequirements) -> (r: Result<(), Error>)
    ensures
        r is Ok <==> requirements_valid(*requirements),
        r matches Err(e) ==> e.spec_category() == ErrorCategory::Configuration,
{
    validate_component_requirements(&requirements.tools, "tool")?;
    validate_component_requirements(&requirements.codecs, "codec")?;
    validate_component_requirements(&requirements.models, "model")?;
    if requirements.compute.minimum_cpu_threads == 0 {
        return Err(crate::error::invalid(owned("minimum_cpu_threads must be at least 1")));
    }
    Ok(())
}

/// Whether `effect` occurs in `effects`.
pub fn contains_effect(effects: &Vec<SideEffect>, effect: SideEffect) -> (r: bool)
    ensures
        r == effects@.contains(effect),
{
    let mut i: usize = 0;
    while i < effects.len()
        invariant
            i <= effects.len(),
            forall|k: int| 0 <= k < i ==> effects@[k] != effect,
        decreases effects.len() - i,
    {
        if effects[i] == effect {
            return true;
        }
        i = i + 1;
    }
    false
}

/// Whether no side effect occurs twice.
pub fn effects_distinct(effects: &Vec<SideEffect>) -> (r: bool)
    ensures
        r == distinct_effects(effects@),
{
    let mut i: usize = 0;
    while i < effects.len()
        invariant
            i <= effects.len(),
            forall|k: int, l: int| 0 <= k < l < i ==> #[trigger] effects@[k] != #[trigger] effects@[l],
        decreases effects.len() - i,
    {
        let mut j: usize = 0;
        while j < i
            invariant
                j <= i < effects.len(),
                forall|k: int| 0 <= k < j ==> effects@[k] != effects@[i as int],
            decreases i - j,
        {
            if effects[j] == effects[i] {
                return false;
            }
            j = j + 1;
        }
        i = i + 1;
    }
    true
}

fn validate_behavior(capability: &CapabilityDeclaration) -> (r: Result<(), Error>)
    ensures
        r is Ok <==> behavior_valid(*capability),
        r matches Err(e) ==> e.spec_category() == ErrorCategory::Configuration,
{
    let behavior = &capability.behavior;
    if !effects_distinct(&behavior.side_effects) {
        return Err(crate::error::invalid(join3(
            "capability ",
            capability.id.as_str(),
            " contains duplicate side effects",
        )));
    }
    if behavior.cacheable && (behavior.determinism == DeterminismClass::EnvironmentDependent
        || behavior.determinism == DeterminismClass::Nondeterministic) {
        return Err(crate::error::invalid(join3(
            "capability ",
            capability.id.as_str(),
            " cannot be cacheable with environment-dependent or nondeterministic determinism",
        )));
    }
    if behavior.content_changes && behavior.fidelity == FidelityClass::NotApplicable {
        return Err(crate::error::invalid(join3(
            "content-changing capability ",
            capability.id.as_str(),
            " must declare its fidelity",
        )));
    }
    let network_used = capability.requirements.compute.network != RequirementLevel::Forbidden;
    if network_used != contains_effect(&behavior.side_effects, SideEffect::Network) {
        return Err(crate::error::invalid(join3(
            "capability ",
            capability.id.as_str(),
            " must keep its network requirement and side effect consistent",
        )));
    }
    let gpu_used = capability.requirements.compute.gpu != RequirementLevel::Forbidden;
    if gpu_used != contains_effect(&behavior.side_effects, SideEffect::Gpu) {
        return Err(crate::error::invalid(join3(
            "capability ",
            capability.id.as_str(),
            " must keep its gpu requirement and side effect consistent",
        )));
    }
    Ok(())
}

fn schema_declared(schemas: &Vec<ConfigurationSchemaReference>, schema: &ConfigurationSchemaReference) -> (r: bool)
    ensures
        r == exists|i: int| 0 <= i < schemas@.len() && schema_key(#[trigger] schemas@[i]) == schema_key(*schema),
{
    let mut i: usize = 0;
    while i < schemas.len()
        invariant
            i <= schemas.len(),
            forall|k: int| 0 <= k < i ==> schema_key(#[trigger] schemas@[k]) != schema_key(*schema),
        decreases schemas.len() - i,
    {
        if same_schema(&schemas[i], schema) {
            return true;
        }
        i = i + 1;
    }
    false
}

pub(crate) fn validate_capability(
    capability: &CapabilityDeclaration,
    schemas: &Vec<ConfigurationSchemaReference>,
) -> (r: Result<(), Error>)
    ensures
        r is Ok <==> capability_valid(*capability, schemas@),
        r matches Err(e) ==> e.spec_category() == ErrorCategory::Configuration,
{
    let id = capability.id.as_str();
    validate_capability_id(id)?;
    validate_semantic_version(capability.version.as_str(), "capability version")?;
    validate_configuration_schema(&capability.configuration_schema)?;
    if !schema_declared(schemas, &capability.configuration_schema) {
        return Err(crate::error::invalid(join3(
            "capability ",
            id,
            " references an undeclared configuration schema",
        )));
    }
    if capability.inputs.len() == 0 {
        return Err(crate::error::invalid(join3("capability ", id, " must declare at least one input")));
    }
    validate_artifact_ports(&capability.inputs, "input", id)?;
    validate_artifact_ports(&capability.outputs, "output", id)?;
    if capability.max_concurrency == 0 {
        return Err(crate::error::invalid(join3("capability ", id, " max_concurrency must be at least 1")));
    }
    validate_requirements(&capability.requirements)?;
    validate_behavior(capability)?;
    let effects = &capability.behavior.side_effects;
    if capability.kind == CapabilityKind::LifecycleObserver {
        if capability.outputs.len() != 0 || capability.behavior.content_changes || capability.batching
            != BatchingMode::Unbatched || contains_effect(effects, SideEffect::FilesystemWrite)
            || contains_effect(effects, SideEffect::Publish) {
            return Err(crate::error::invalid(join3(
                "lifecycle observer ",
                id,
                " must be read-only, unbatched, and produce no artifacts",
            )));
        }
    } else if capability.outputs.len() == 0 {
        return Err(crate::error::invalid(join3("capability ", id, " must declare an immutable output")));
    }
    if capability.behavior.content_changes && capability.outputs.len() == 0 {
        return Err(crate::error::invalid(join3(
            "content-changing capability ",
            id,
            " must produce a new immutable artifact",
        )));
    }
    if contains_effect(effects, SideEffect::Publish) && capability.kind != CapabilityKind::DeliveryProvider {
        return Err(crate::error::invalid(join2(
            "only a delivery provider may declare the publish side effect; found ",
            id,
        )));
    }
    Ok(())
}

pub fn provenance_field_index(field: ProvenanceField) -> (r: usize)
    ensures
        r < 10,
        all_provenance_fields()[r as int] == field,
{
    match field {
        ProvenanceField::InputDigests => 0,
        ProvenanceField::OutputDigests => 1,
        ProvenanceField::PipelineConfiguration => 2,
        ProvenanceField::EffectiveConfiguration => 3,
        ProvenanceField::ProviderIdentity => 4,
        ProvenanceField::CapabilityIdentity => 5,
        ProvenanceField::ToolVersions => 6,
        ProvenanceField::CodecVersions => 7,
        ProvenanceField::ModelIdentities => 8,
        ProvenanceField::ValidationEvidence => 9,
    }
}

fn validate_provenance(provenance: &ProvenanceContract) -> (r: Result<(), Error>)
    ensures
        r is Ok <==> provenance_valid(*provenance),
        r matches Err(e) ==> e.spec_category() == ErrorCategory::Configuration,
{
    let required = &provenance.required;
    let mut seen: Vec<bool> = vec![false, false, false, false, false, false, false, false, false, false];
    let mut distinct = true;
    let mut i: usize = 0;
    while i < required.len()
        invariant
            i <= required.len(),
            seen@.len() == 10,
            forall|n: int| 0 <= n < 10 ==> (#[trigger] seen@[n] <==> exists|k: int| 0 <= k < i && required@[k] == all_provenance_fields()[n]),
            distinct == forall|k: int, l: int| 0 <= k < l < i ==> #[trigger] required@[k] != #[trigger] required@[l],
        decreases required.len() - i,
    {
        let n = provenance_field_index(required[i]);
        if seen[n] {
            proof {
                let k = choose|k: int| 0 <= k < i && required@[k] == all_provenance_fields()[n as int];
                assert(required@[k] == required@[i as int]);
            }
            distinct = false;
        }
        seen.set(n, true);
        proof {
            assert forall|a: int, b: int| 0 <= a < b < i + 1 && #[trigger] required@[a] == #[trigger] required@[b] implies !distinct by {
                if b == i {
                    let m = provenance_field_index_spec(required@[a]);
                    assert(all_provenance_fields()[m] == required@[a]);
                    assert(seen@[n as int]);
                }
            }
            assert forall|m: int| 0 <= m < 10 implies (#[trigger] seen@[m] <==> exists|k: int| 0 <= k < i + 1 && required@[k] == all_provenance_fields()[m]) by {
                if m != n {
                    if exists|k: int| 0 <= k < i + 1 && required@[k] == all_provenance_fields()[m] {
                        let k = choose|k: int| 0 <= k < i + 1 && required@[k] == all_provenance_fields()[m];
                        if k == i {
                            assert(all_provenance_fields()[n as int] == all_provenance_fields()[m]);
                        }
                    }
                }
            }
        }
        i = i + 1;
    }
    let mut all = true;
    let mut n: usize = 0;
    while n < 10
        invariant
            n <= 10,
            seen@.len() == 10,
            all == forall|m: int| 0 <= m < n ==> #[trigger] seen@[m],
        decreases 10 - n,
    {
        if !seen[n] {
            all = false;
        }
        n = n + 1;
    }
    proof {
        reveal_with_fuel(Seq::<ProvenanceField>::contains, 1);
        if all {
            assert forall|f: ProvenanceField| #[trigger] required@.contains(f) by {
                let m = provenance_field_index_spec(f);
                assert(seen@[m]);
                let k = choose|k: int| 0 <= k < required@.len() && required@[k] == all_provenance_fields()[m];
                assert(required@[k] == f);
            }
        } else {
            let m = choose|m: int| 0 <= m < 10 && !seen@[m];
            assert(!required@.contains(all_provenance_fields()[m]));
        }
    }
    if !distinct || !all {
        return Err(crate::error::invalid(owned(
            "provider provenance must declare every required v1 evidence class exactly once",
        )));
    }
    Ok(())
}

pub open spec fn provenance_field_index_spec(field: ProvenanceField) -> int {
    match field {
        ProvenanceField::InputDigests => 0,
        ProvenanceField::OutputDigests => 1,
        ProvenanceField::PipelineConfiguration => 2,
        ProvenanceField::EffectiveConfiguration => 3,
        ProvenanceField::ProviderIdentity => 4,
        ProvenanceField::CapabilityIdentity => 5,
        ProvenanceField::ToolVersions => 6,
        ProvenanceField::CodecVersions => 7,
        ProvenanceField::ModelIdentities => 8,
        ProvenanceField::ValidationEvidence => 9,
    }
}

impl ProviderManifest {
    /// Validate the manifest's identity, schemas, capabilities, and provenance.
    pub fn validate(&self) -> (r: Result<(), Error>)
        ensures
            r is Ok <==> self.spec_valid(),
            r matches Err(e) ==> e.spec_category() == ErrorCategory::Configuration,
    {
        require_schema(self.schema.as_str(), PROVIDER_MANIFEST_SCHEMA_V1)?;
        validate_provider_id(self.provider.id.as_str())?;
        validate_semantic_version(self.provider.version.as_str(), "provider version")?;
        require_nonempty(self.provider.display_name.as_str(), "provider display_name")?;
        if self.configuration_schemas.len() == 0 {
            return Err(crate::error::invalid(owned("provider manifest must declare a configuration schema")));
        }
        if self.capabilities.len() == 0 {
            return Err(crate::error::invalid(owned("provider manifest must declare a capability")));
        }
        let schemas = &self.configuration_schemas;
        let mut i: usize = 0;
        while i < schemas.len()
            invariant
                i <= schemas.len(),
                schemas@ == self.configuration_schemas@,
                forall|k: int| 0 <= k < i ==> schema_reference_valid(#[trigger] schemas@[k]),
                forall|k: int, l: int| 0 <= k < l < i ==> schema_key(#[trigger] schemas@[k]) != schema_key(#[trigger] schemas@[l]),
            decreases schemas.len() - i,
        {
            validate_configuration_schema(&schemas[i])?;
            let mut j: usize = 0;
            while j < i
                invariant
                    j <= i < schemas.len(),
                    schemas@ == self.configuration_schemas@,
                    forall|k: int| 0 <= k < j ==> schema_key(#[trigger] schemas@[k]) != schema_key(schemas@[i as int]),
                decreases i - j,
            {
                if same_schema(&schemas[j], &schemas[i]) {
                    let mut m = join3(
                        "provider manifest contains duplicate configuration schema ",
                        schemas[i].id.as_str(),
                        " ",
                    );
                    m.append(schemas[i].version.as_str());
                    return Err(crate::error::invalid(m));
                }
                j = j + 1;
            }
            i = i + 1;
        }
        let capabilities = &self.capabilities;
        let mut c: usize = 0;
        while c < capabilities.len()
            invariant
                c <= capabilities.len(),
                capabilities@ == self.capabilities@,
                schemas@ == self.configuration_schemas@,
                forall|k: int| 0 <= k < c ==> capability_valid(#[trigger] capabilities@[k], schemas@),
                forall|k: int, l: int| 0 <= k < l < c ==> (#[trigger] capabilities@[k]).id@ != (#[trigger] capabilities@[l]).id@,
            decreases capabilities.len() - c,
        {
            validate_capability(&capabilities[c], schemas)?;
            let mut j: usize = 0;
            while j < c
                invariant
                    j <= c < capabilities.len(),
                    capabilities@ == self.capabilities@,
                    forall|k: int| 0 <= k < j ==> (#[trigger] capabilities@[k]).id@ != capabilities@[c as int].id@,
                decreases c - j,
            {
                if text_eq(capabilities[j].id.as_str(), capabilities[c].id.as_str()) {
                    return Err(crate::error::invalid(join2(
                        "provider manifest contains duplicate capability id ",
                        capabilities[c].id.as_str(),
                    )));
                }
                j = j + 1;
            }
            c = c + 1;
        }
        validate_provenance(&self.provenance)
    }
}

// ---------------------------------------------------------------------------
// Compatibility evidence
// ---------------------------------------------------------------------------

pub open spec fn component_pair_less(a: ComponentIdentity, b: ComponentIdentity) -> bool {
    text_less(a.id@, b.id@) || (a.id@ == b.id@ && text_less(a.version@, b.version@))
}

/// Well-formed identities, strictly ascending by id then version.
pub open spec fn component_identities_valid(components: Seq<ComponentIdentity>) -> bool {
    &&& forall|i: int|
        0 <= i < components.len() ==> is_token((#[trigger] components[i]).id@) && !is_blank(
            components[i].version@,
        ) && (components[i].sha256 matches Some(d) ==> is_sha256_hex(d@))
    &&& forall|i: int| 0 <= i < components.len() - 1 ==> component_pair_less(#[trigger] components[i], components[i + 1])
}

pub fn validate_component_identities(components: &Vec<ComponentIdentity>, kind: &str) -> (r: Result<(), Error>)
    ensures
        r is Ok <==> component_identities_valid(components@),
        r matches Err(e) ==> e.spec_category() == ErrorCategory::Configuration,
{
    let mut i: usize = 0;
    while i < components.len()
        invariant
            i <= components.len(),
            forall|k: int|
                0 <= k < i ==> is_token((#[trigger] components@[k]).id@) && !is_blank(components@[k].version@)
                    && (components@[k].sha256 matches Some(d) ==> is_sha256_hex(d@)),
            forall|k: int| 0 <= k < i - 1 ==> component_pair_less(#[trigger] components@[k], components@[k + 1]),
        decreases components.len() - i,
    {
        let component = &components[i];
        require_token(component.id.as_str(), kind)?;
        require_nonempty(component.version.as_str(), kind)?;
        if let Some(digest) = &component.sha256 {
            require_sha256(digest.as_str(), kind)?;
        }
        if i > 0 {
            let previous = &components[i - 1];
            let less = crate::order::text_lt(previous.id.as_str(), component.id.as_str()) || (text_eq(
                previous.id.as_str(),
                component.id.as_str(),
            ) && crate::order::text_lt(previous.version.as_str(), component.version.as_str()));
            if !less {
                return Err(crate::error::invalid(join3(
                    "compatibility fingerprint ",
                    kind,
                    " identities must be unique and sorted by id then version",
                )));
            }
        }
        i = i + 1;
    }
    Ok(())
}

pub open spec fn fingerprint_artifact_valid(artifact: FingerprintArtifact) -> bool {
    is_token(artifact.artifact_type@) && is_sha256_hex(artifact.sha256@)
}

impl CompatibilityFingerprintPayload {
    /// Every structural rule of a fingerprint payload.
    pub open spec fn spec_valid(&self) -> bool {
        let inputs = self.input_artifacts@;
        let outputs = self.validated_outputs@;
        &&& inputs.len() > 0
        &&& outputs.len() > 0
        &&& is_sha256_hex(self.pipeline_configuration_sha256@)
        &&& is_sha256_hex(self.effective_configuration_sha256@)
        &&& schema_reference_valid(self.configuration_schema)
        &&& provider_reference_valid(self.provider)
        &&& capability_reference_valid(self.capability)
        &&& forall|i: int| 0 <= i < inputs.len() ==> fingerprint_artifact_valid(#[trigger] inputs[i])
        &&& forall|i: int, j: int|
            0 <= i < j < inputs.len() ==> ((#[trigger] inputs[i]).artifact_type@, inputs[i].sha256@) != (
            (#[trigger] inputs[j]).artifact_type@,
            inputs[j].sha256@,
        )
        &&& component_identities_valid(self.tools@)
        &&& component_identities_valid(self.codecs@)
        &&& component_identities_valid(self.models@)
        &&& forall|i: int|
            0 <= i < outputs.len() ==> fingerprint_artifact_valid((#[trigger] outputs[i]).artifact) && is_token(
                outputs[i].validation_contract@,
            ) && is_sha256_hex(outputs[i].validation_sha256@)
        &&& forall|i: int, j: int|
            0 <= i < j < outputs.len() ==> ((#[trigger] outputs[i]).artifact.artifact_type@, outputs[i].artifact.sha256@,
            outputs[i].validation_contract@) != ((#[trigger] outputs[j]).artifact.artifact_type@,
            outputs[j].artifact.sha256@, outputs[j].validation_contract@)
    }

    /// Validate the payload's structure (not its digest).
    pub fn validate(&self) -> (r: Result<(), Error>)
        ensures
            r is Ok <==> self.spec_valid(),
            r matches Err(e) ==> e.spec_category() == ErrorCategory::Configuration,
    {
        if self.input_artifacts.len() == 0 {
            return Err(crate::error::invalid(owned("compatibility fingerprint requires an input artifact")));
        }
        if self.validated_outputs.len() == 0 {
            return Err(crate::error::invalid(owned(
                "compatibility fingerprint requires a validated output artifact",
            )));
        }
        require_sha256(self.pipeline_configuration_sha256.as_str(), "pipeline_configuration_sha256")?;
        require_sha256(self.effective_configuration_sha256.as_str(), "effective_configuration_sha256")?;
        validate_configuration_schema(&self.configuration_schema)?;
        validate_provider_reference(&self.provider)?;
        validate_capability_reference(&self.capability)?;
        let inputs = &self.input_artifacts;
        let mut i: usize = 0;
        while i < inputs.len()
            invariant
                i <= inputs.len(),
                inputs@ == self.input_artifacts@,
                forall|k: int| 0 <= k < i ==> fingerprint_artifact_valid(#[trigger] inputs@[k]),
                forall|k: int, l: int|
                    0 <= k < l < i ==> ((#[trigger] inputs@[k]).artifact_type@, inputs@[k].sha256@) != (
                    (#[trigger] inputs@[l]).artifact_type@,
                    inputs@[l].sha256@,
                ),
            decreases inputs.len() - i,
        {
            require_token(inputs[i].artifact_type.as_str(), "input artifact type")?;
            require_sha256(inputs[i].sha256.as_str(), "input artifact sha256")?;
            let mut j: usize = 0;
            while j < i
                invariant
                    j <= i < inputs.len(),
                    inputs@ == self.input_artifacts@,
                    forall|k: int|
                        0 <= k < j ==> ((#[trigger] inputs@[k]).artifact_type@, inputs@[k].sha256@) != (
                        inputs@[i as int].artifact_type@,
                        inputs@[i as int].sha256@,
                    ),
                decreases i - j,
            {
                if text_eq(inputs[j].artifact_type.as_str(), inputs[i].artifact_type.as_str()) && text_eq(
                    inputs[j].sha256.as_str(),
                    inputs[i].sha256.as_str(),
                ) {
                    return Err(crate::error::invalid(owned(
                        "compatibility fingerprint contains duplicate input artifact identities",
                    )));
                }
                j = j + 1;
            }
            i = i + 1;
        }
        validate_component_identities(&self.tools, "tool")?;
        validate_component_identities(&self.codecs, "codec")?;
        validate_component_identities(&self.models, "model")?;
        let outputs = &self.validated_outputs;
        let mut o: usize = 0;
        while o < outputs.len()
            invariant
                o <= outputs.len(),
                outputs@ == self.validated_outputs@,
                forall|k: int|
                    0 <= k < o ==> fingerprint_artifact_valid((#[trigger] outputs@[k]).artifact) && is_token(
                        outputs@[k].validation_contract@,
                    ) && is_sha256_hex(outputs@[k].validation_sha256@),
                forall|k: int, l: int|
                    0 <= k < l < o ==> ((#[trigger] outputs@[k]).artifact.artifact_type@, outputs@[k].artifact.sha256@,
                    outputs@[k].validation_contract@) != ((#[trigger] outputs@[l]).artifact.artifact_type@,
                    outputs@[l].artifact.sha256@, outputs@[l].validation_contract@),
            decreases outputs.len() - o,
        {
            let output = &outputs[o];
            require_token(output.artifact.artifact_type.as_str(), "validated output type")?;
            require_sha256(output.artifact.sha256.as_str(), "validated output sha256")?;
            require_token(output.validation_contract.as_str(), "validation contract")?;
            require_sha256(output.validation_sha256.as_str(), "validation_sha256")?;
            let mut j: usize = 0;
            while j < o
                invariant
                    j <= o < outputs.len(),
                    outputs@ == self.validated_outputs@,
                    forall|k: int|
                        0 <= k < j ==> ((#[trigger] outputs@[k]).artifact.artifact_type@, outputs@[k].artifact.sha256@,
                        outputs@[k].validation_contract@) != (outputs@[o as int].artifact.artifact_type@,
                        outputs@[o as int].artifact.sha256@, outputs@[o as int].validation_contract@),
                decreases o - j,
            {
                if text_eq(outputs[j].artifact.artifact_type.as_str(), outputs[o].artifact.artifact_type.as_str())
                    && text_eq(outputs[j].artifact.sha256.as_str(), outputs[o].artifact.sha256.as_str())
                    && text_eq(outputs[j].validation_contract.as_str(), outputs[o].validation_contract.as_str()) {
                    return Err(crate::error::invalid(owned(
                        "compatibility fingerprint contains duplicate validated outputs",
                    )));
                }
                j = j + 1;
            }
            o = o + 1;
        }
        Ok(())
    }
}

// ---------------------------------------------------------------------------
// Effective configuration
// ---------------------------------------------------------------------------

impl ProviderConfiguration {
    /// The configuration values as one JSON object.
    pub open spec fn values_json(&self) -> Json {
        Json::Object(json_members(self.values@))
    }

    /// Structural rules, plus the effective digest being the canonical
    /// digest of the values (whose keys, as map keys, ascend).
    pub open spec fn spec_valid(&self) -> bool {
        &&& self.schema@ == PROVIDER_CONFIGURATION_SCHEMA_V1@
        &&& provider_reference_valid(self.provider)
        &&& capability_reference_valid(self.capability)
        &&& schema_reference_valid(self.configuration_schema)
        &&& is_sha256_hex(self.effective_configuration_sha256@)
        &&& value_encodable(self.values_json())
        &&& self.effective_configuration_sha256@ == canonical_digest(self.values_json())
    }

    /// A configuration of these values, whose effective digest is their
    /// canonical digest.
    pub fn new(
        provider: ProviderReference,
        capability: CapabilityReference,
        configuration_schema: ConfigurationSchemaReference,
        values: Vec<(String, JsonValue)>,
    ) -> (r: Result<Self, Error>)
        ensures
            r is Ok <==> (provider_reference_valid(provider) && capability_reference_valid(capability)
                && schema_reference_valid(configuration_schema) && value_encodable(
                Json::Object(json_members(values@)),
            )),
            r matches Ok(c) ==> c.spec_valid() && c.provider == provider && c.capability == capability
                && c.configuration_schema == configuration_schema && c.values@ == values@,
    {
        let digest = match canonical_object_sha256(&values) {
            Some(d) => d,
            None => {
                return Err(crate::error::invalid(owned(
                    "configuration values must have ascending keys and ASCII numbers",
                )));
            },
        };
        let configuration = ProviderConfiguration {
            schema: owned(PROVIDER_CONFIGURATION_SCHEMA_V1),
            provider,
            capability,
            configuration_schema,
            values,
            effective_configuration_sha256: digest,
        };
        configuration.validate()?;
        Ok(configuration)
    }

    /// Validate the references and that the effective digest matches the
    /// canonical values.
    pub fn validate(&self) -> (r: Result<(), Error>)
        ensures
            r is Ok <==> self.spec_valid(),
            r matches Err(e) ==> e.spec_category() == ErrorCategory::Configuration,
    {
        require_schema(self.schema.as_str(), PROVIDER_CONFIGURATION_SCHEMA_V1)?;
        validate_provider_reference(&self.provider)?;
        validate_capability_reference(&self.capability)?;
        validate_configuration_schema(&self.configuration_schema)?;
        require_sha256(self.effective_configuration_sha256.as_str(), "effective_configuration_sha256")?;
        let expected = match canonical_object_sha256(&self.values) {
            Some(d) => d,
            None => {
                return Err(crate::error::invalid(owned(
                    "configuration values must have ascending keys and ASCII numbers",
                )));
            },
        };
        if !text_eq(self.effective_configuration_sha256.as_str(), expected.as_str()) {
            return Err(crate::error::invalid(join2(
                "effective configuration digest does not match canonical values; expected ",
                expected.as_str(),
            )));
        }
        Ok(())
    }
}

impl CompatibilityFingerprint {
    /// Schema, algorithm, a valid payload, and a digest equal to the
    /// canonical digest of that payload.
    pub open spec fn spec_valid(&self) -> bool {
        &&& self.schema@ == COMPATIBILITY_FINGERPRINT_SCHEMA_V1@
        &&& self.algorithm@ == "sha256"@
        &&& is_sha256_hex(self.fingerprint_sha256@)
        &&& self.payload.spec_valid()
        &&& self.fingerprint_sha256@ == canonical_digest(compatibility_fingerprint_payload_json(self.payload))
    }

    /// A fingerprint over a validated payload, carrying the payload's
    /// canonical digest.
    pub fn new(payload: CompatibilityFingerprintPayload) -> (r: Result<Self, Error>)
        ensures
            r is Ok <==> payload.spec_valid(),
            r matches Ok(f) ==> f.spec_valid() && f.payload == payload,
            r matches Err(e) ==> e.spec_category() == ErrorCategory::Configuration,
    {
        payload.validate()?;
        proof {
            lemma_compatibility_fingerprint_payload_encodable(payload);
        }
        let digest = encodable_sha256(&compatibility_fingerprint_payload_value(&payload));
        proof {
            reveal_strlit("sha256");
        }
        Ok(CompatibilityFingerprint {
            schema: owned(COMPATIBILITY_FINGERPRINT_SCHEMA_V1),
            algorithm: owned("sha256"),
            fingerprint_sha256: digest,
            payload,
        })
    }

    /// Check the schema, algorithm, payload, and that the digest matches the
    /// canonical payload.
    pub fn validate(&self) -> (r: Result<(), Error>)
        ensures
            r is Ok <==> self.spec_valid(),
            r matches Err(e) ==> e.spec_category() == ErrorCategory::Configuration,
    {
        require_schema(self.schema.as_str(), COMPATIBILITY_FINGERPRINT_SCHEMA_V1)?;
        if !text_eq(self.algorithm.as_str(), "sha256") {
            return Err(crate::error::invalid(join3(
                "unsupported compatibility fingerprint algorithm ",
                self.algorithm.as_str(),
                "; expected sha256",
            )));
        }
        require_sha256(self.fingerprint_sha256.as_str(), "fingerprint_sha256")?;
        self.payload.validate()?;
        proof {
            lemma_compatibility_fingerprint_payload_encodable(self.payload);
        }
        let expected = encodable_sha256(&compatibility_fingerprint_payload_value(&self.payload));
        if !text_eq(self.fingerprint_sha256.as_str(), expected.as_str()) {
            return Err(crate::error::invalid(join2(
                "compatibility fingerprint does not match its canonical payload; expected ",
                expected.as_str(),
            )));
        }
        Ok(())
    }
}

// ---------------------------------------------------------------------------
// What a compatibility payload's canonical form determines
// ---------------------------------------------------------------------------

/// Two component identities with the same id, version, and digest.
pub open spec fn component_same(a: ComponentIdentity, b: ComponentIdentity) -> bool {
    &&& a.id@ == b.id@
    &&& a.version@ == b.version@
    &&& match (a.sha256, b.sha256) {
        (Some(x), Some(y)) => x@ == y@,
        (None, None) => true,
        _ => false,
    }
}

pub open spec fn components_same(a: Seq<ComponentIdentity>, b: Seq<ComponentIdentity>) -> bool {
    a.len() == b.len() && forall|i: int| 0 <= i < a.len() ==> component_same(#[trigger] a[i], b[i])
}

/// Two artifact identities with the same type, role, and digest.
pub open spec fn artifact_same(a: FingerprintArtifact, b: FingerprintArtifact) -> bool {
    a.artifact_type@ == b.artifact_type@ && a.artifact_role == b.artifact_role && a.sha256@ == b.sha256@
}

pub open spec fn artifacts_same(a: Seq<FingerprintArtifact>, b: Seq<FingerprintArtifact>) -> bool {
    a.len() == b.len() && forall|i: int| 0 <= i < a.len() ==> artifact_same(#[trigger] a[i], b[i])
}

pub open spec fn validated_output_same(a: ValidatedOutputFingerprint, b: ValidatedOutputFingerprint) -> bool {
    &&& artifact_same(a.artifact, b.artifact)
    &&& a.validation_contract@ == b.validation_contract@
    &&& a.validation_sha256@ == b.validation_sha256@
}

pub open spec fn validated_outputs_same(a: Seq<ValidatedOutputFingerprint>, b: Seq<ValidatedOutputFingerprint>) -> bool {
    a.len() == b.len() && forall|i: int| 0 <= i < a.len() ==> validated_output_same(#[trigger] a[i], b[i])
}

/// Two compatibility payloads that carry the same evidence, member for
/// member.
pub open spec fn fingerprint_payload_same(a: CompatibilityFingerprintPayload, b: CompatibilityFingerprintPayload) -> bool {
    &&& artifacts_same(a.input_artifacts@, b.input_artifacts@)
    &&& a.pipeline_configuration_sha256@ == b.pipeline_configuration_sha256@
    &&& a.effective_configuration_sha256@ == b.effective_configuration_sha256@
    &&& a.configuration_schema.id@ == b.configuration_schema.id@
    &&& a.configuration_schema.version@ == b.configuration_schema.version@
    &&& a.configuration_schema.sha256@ == b.configuration_schema.sha256@
    &&& a.provider.id@ == b.provider.id@
    &&& a.provider.version@ == b.provider.version@
    &&& a.capability.id@ == b.capability.id@
    &&& a.capability.version@ == b.capability.version@
    &&& components_same(a.tools@, b.tools@)
    &&& components_same(a.codecs@, b.codecs@)
    &&& components_same(a.models@, b.models@)
    &&& validated_outputs_same(a.validated_outputs@, b.validated_outputs@)
}

proof fn lemma_artifact_role_name_injective(a: ArtifactRole, b: ArtifactRole)
    requires
        crate::canonical::artifact_role_name(a) == crate::canonical::artifact_role_name(b),
    ensures
        a == b,
{
    reveal_strlit("temporal_source");
    reveal_strlit("temporal_component");
    reveal_strlit("intermediate");
    reveal_strlit("candidate_master");
    reveal_strlit("validated_master");
    reveal_strlit("validation_evidence");
    reveal_strlit("run_evidence");
    reveal_strlit("delivery_receipt");
    let na = crate::canonical::artifact_role_name(a);
    let nb = crate::canonical::artifact_role_name(b);
    assert(na.len() == nb.len());
    assert(na[0] == nb[0]);
    assert(na[na.len() - 1] == nb[nb.len() - 1]);
    assert(na[2] == nb[2]);
}

proof fn lemma_artifact_json_injective(a: FingerprintArtifact, b: FingerprintArtifact)
    ensures
        crate::canonical::fingerprint_artifact_json(a) == crate::canonical::fingerprint_artifact_json(b) <==> artifact_same(a, b),
{
    let ja = crate::canonical::fingerprint_artifact_json(a);
    let jb = crate::canonical::fingerprint_artifact_json(b);
    if ja == jb {
        let (ma, mb) = match (ja, jb) {
            (Json::Object(x), Json::Object(y)) => (x, y),
            _ => (Seq::empty(), Seq::empty()),
        };
        assert(ma[0] == mb[0] && ma[1] == mb[1] && ma[2] == mb[2]);
        lemma_artifact_role_name_injective(a.artifact_role, b.artifact_role);
    }
}

proof fn lemma_artifacts_json_injective(a: Seq<FingerprintArtifact>, b: Seq<FingerprintArtifact>)
    ensures
        crate::canonical::fingerprint_artifacts_json(a) == crate::canonical::fingerprint_artifacts_json(b) <==> artifacts_same(a, b),
{
    let f = |e: FingerprintArtifact| crate::canonical::fingerprint_artifact_json(e);
    let ma = a.map_values(f);
    let mb = b.map_values(f);
    assert forall|i: int| 0 <= i < a.len() && i < b.len() implies (f(a[i]) == f(b[i]) <==> artifact_same(a[i], b[i])) by {
        lemma_artifact_json_injective(a[i], b[i]);
    }
    if ma == mb {
        assert(ma.len() == mb.len());
        assert(a.len() == b.len());
        assert forall|i: int| 0 <= i < a.len() implies artifact_same(#[trigger] a[i], b[i]) by {
            assert(ma[i] == mb[i]);
        }
    }
    if artifacts_same(a, b) {
        assert(ma =~= mb);
    }
}

proof fn lemma_component_json_injective(a: ComponentIdentity, b: ComponentIdentity)
    ensures
        crate::canonical::component_identity_json(a) == crate::canonical::component_identity_json(b) <==> component_same(a, b),
{
    let ja = crate::canonical::component_identity_json(a);
    let jb = crate::canonical::component_identity_json(b);
    let (ma, mb) = match (ja, jb) {
        (Json::Object(x), Json::Object(y)) => (x, y),
        _ => (Seq::empty(), Seq::empty()),
    };
    if ja == jb {
        assert(ma.len() == mb.len());
        assert(ma[0] == mb[0]);
        assert(ma[ma.len() - 1] == mb[mb.len() - 1]);
        if a.sha256 is Some {
            assert(ma[1] == mb[1]);
        }
    }
    if component_same(a, b) {
        assert(ma =~= mb);
    }
}

proof fn lemma_components_json_injective(a: Seq<ComponentIdentity>, b: Seq<ComponentIdentity>)
    ensures
        crate::canonical::component_identities_json(a) == crate::canonical::component_identities_json(b) <==> components_same(a, b),
{
    let f = |e: ComponentIdentity| crate::canonical::component_identity_json(e);
    let ma = a.map_values(f);
    let mb = b.map_values(f);
    assert forall|i: int| 0 <= i < a.len() && i < b.len() implies (f(a[i]) == f(b[i]) <==> component_same(a[i], b[i])) by {
        lemma_component_json_injective(a[i], b[i]);
    }
    if ma == mb {
        assert(ma.len() == mb.len());
        assert(a.len() == b.len());
        assert forall|i: int| 0 <= i < a.len() implies component_same(#[trigger] a[i], b[i]) by {
            assert(ma[i] == mb[i]);
        }
    }
    if components_same(a, b) {
        assert(ma =~= mb);
    }
}

proof fn lemma_validated_outputs_json_injective(a: Seq<ValidatedOutputFingerprint>, b: Seq<ValidatedOutputFingerprint>)
    ensures
        crate::canonical::validated_outputs_json(a) == crate::canonical::validated_outputs_json(b) <==> validated_outputs_same(a, b),
{
    let f = |e: ValidatedOutputFingerprint| crate::canonical::validated_output_fingerprint_json(e);
    let ma = a.map_values(f);
    let mb = b.map_values(f);
    assert forall|i: int| 0 <= i < a.len() && i < b.len() implies (f(a[i]) == f(b[i]) <==> validated_output_same(a[i], b[i])) by {
        let x = a[i];
        let y = b[i];
        lemma_artifact_json_injective(x.artifact, y.artifact);
        if f(x) == f(y) {
            let (mx, my) = match (f(x), f(y)) {
                (Json::Object(p), Json::Object(q)) => (p, q),
                _ => (Seq::empty(), Seq::empty()),
            };
            assert(mx[0] == my[0] && mx[1] == my[1] && mx[2] == my[2]);
        }
    }
    if ma == mb {
        assert(ma.len() == mb.len());
        assert(a.len() == b.len());
        assert forall|i: int| 0 <= i < a.len() implies validated_output_same(#[trigger] a[i], b[i]) by {
            assert(ma[i] == mb[i]);
        }
    }
    if validated_outputs_same(a, b) {
        assert(ma =~= mb);
    }
}

/// The canonical JSON form of a compatibility payload, the form its digest
/// is taken over, determines the payload: two payloads have the same form
/// exactly when they carry the same evidence, member for member.
pub proof fn lemma_fingerprint_payload_json_injective(a: CompatibilityFingerprintPayload, b: CompatibilityFingerprintPayload)
    ensures
        compatibility_fingerprint_payload_json(a) == compatibility_fingerprint_payload_json(b) <==> fingerprint_payload_same(a, b),
{
    let ja = compatibility_fingerprint_payload_json(a);
    let jb = compatibility_fingerprint_payload_json(b);
    let (ma, mb) = match (ja, jb) {
        (Json::Object(x), Json::Object(y)) => (x, y),
        _ => (Seq::empty(), Seq::empty()),
    };
    lemma_artifacts_json_injective(a.input_artifacts@, b.input_artifacts@);
    lemma_components_json_injective(a.tools@, b.tools@);
    lemma_components_json_injective(a.codecs@, b.codecs@);
    lemma_components_json_injective(a.models@, b.models@);
    lemma_validated_outputs_json_injective(a.validated_outputs@, b.validated_outputs@);
    if ja == jb {
        assert(ma[0] == mb[0] && ma[1] == mb[1] && ma[2] == mb[2] && ma[3] == mb[3] && ma[4] == mb[4]);
        assert(ma[5] == mb[5] && ma[6] == mb[6] && ma[7] == mb[7] && ma[8] == mb[8] && ma[9] == mb[9]);
        let (ca, cb) = match (ma[2].1, mb[2].1) {
            (Json::Object(x), Json::Object(y)) => (x, y),
            _ => (Seq::empty(), Seq::empty()),
        };
        assert(ca[0] == cb[0] && ca[1] == cb[1] && ca[2] == cb[2]);
        let (pa, pb) = match (ma[7].1, mb[7].1) {
            (Json::Object(x), Json::Object(y)) => (x, y),
            _ => (Seq::empty(), Seq::empty()),
        };
        assert(pa[0] == pb[0] && pa[1] == pb[1]);
        let (qa, qb) = match (ma[0].1, mb[0].1) {
            (Json::Object(x), Json::Object(y)) => (x, y),
            _ => (Seq::empty(), Seq::empty()),
        };
        assert(qa[0] == qb[0] && qa[1] == qb[1]);
    }
    if fingerprint_payload_same(a, b) {
        assert(ma =~= mb);
    }
}

/// The canonical digest of a manifest.
pub fn manifest_sha256(manifest: &ProviderManifest) -> (r: String)
    ensures
        r@ == canonical_digest(provider_manifest_json(*manifest)),
        is_sha256_hex(r@),
{
    proof {
        lemma_provider_manifest_encodable(*manifest);
    }
    encodable_sha256(&provider_manifest_value(manifest))
}

} // verus!
