use aniflow::acceptance::{stage_invocation_sha256, ArtifactEvidence, DependencyCheckpoint};
use aniflow::authored::diagnose_pipeline_version;
use aniflow::documents::plan_from_document;
use aniflow::execution::{
    ArtifactObservation, CapturedDiagnostic, ProviderEvent, ProviderEventKind, ProviderExecutionFailure,
    ProviderExecutionFailureCode, ProviderExecutionOutcome, ProviderTermination, StreamKind, TerminationReason,
};
use aniflow::supervision::{finish_report, report_duration_milliseconds};
use aniflow::execution::{ArtifactKind, ProviderExecutionBounds};
use aniflow::error::ErrorCategory;
use aniflow::plan_v3::{bind_inputs, resolve_pipeline_v3};
use aniflow::planning::{
    ArtifactValidation, AuthoredInputBinding, AuthoredOutputBinding, AuthoredPipelineInput,
    AuthoredPipelineStage, CapabilityRequirement, ExpectedArtifact, FinalOutputRequirement,
    PipelineInputBinding, PipelineInputIdentity, PipelineInputKind, PipelinePlanningContext,
    PipelinePlanningDiagnosticCode, PipelinePlanningFailure, PipelineV3Configuration, ProviderSelectionIntent,
    PIPELINE_V3_SCHEMA,
};
use aniflow::provider::{
    ArtifactCardinality, ArtifactPort, ArtifactRole, BatchingMode, CancellationMode,
    CapabilityBehavior, CapabilityDeclaration, CapabilityKind, CapabilityReference,
    ComputeRequirements, ConfigurationSchemaReference, DeterminismClass, FidelityClass,
    LifecycleSupport, ProgressMode, ProvenanceContract, ProvenanceField, ProviderConfiguration,
    ProviderIdentity, ProviderManifest, ProviderReference, ProviderRequirements,
    RequirementLevel, SideEffect, StreamRole, PROVIDER_MANIFEST_SCHEMA_V1,
};
use aniflow::provider_runtime::{ComponentInventory, HostResources, ProviderCandidate};
use aniflow::registry::{ExecutableObservation, ProviderRegistration, ProviderRegistry};

fn schema_reference() -> ConfigurationSchemaReference {
    ConfigurationSchemaReference {
        id: "aniflow.fixture/v1".to_owned(),
        version: "1.0.0".to_owned(),
        sha256: "c".repeat(64),
    }
}

fn port(name: &str, role: ArtifactRole) -> ArtifactPort {
    ArtifactPort {
        name: name.to_owned(),
        artifact_type: "image/png".to_owned(),
        artifact_role: role,
        stream_role: Some(StreamRole::Video),
        cardinality: ArtifactCardinality::One,
        immutable: true,
    }
}

fn capability() -> CapabilityDeclaration {
    CapabilityDeclaration {
        id: "aniflow/frame.process".to_owned(),
        version: "1.2.0".to_owned(),
        kind: CapabilityKind::FrameProcessor,
        configuration_schema: schema_reference(),
        inputs: vec![port("frames", ArtifactRole::TemporalSource)],
        outputs: vec![port("processed_frames", ArtifactRole::Intermediate)],
        batching: BatchingMode::PerArtifact,
        max_concurrency: 1,
        requirements: ProviderRequirements {
            tools: Vec::new(),
            codecs: Vec::new(),
            models: Vec::new(),
            compute: ComputeRequirements {
                minimum_cpu_threads: 1,
                minimum_memory_mib: 0,
                minimum_storage_mib: 0,
                gpu: RequirementLevel::Forbidden,
                network: RequirementLevel::Forbidden,
            },
        },
        behavior: CapabilityBehavior {
            determinism: DeterminismClass::Deterministic,
            fidelity: FidelityClass::Lossless,
            cacheable: true,
            content_changes: true,
            side_effects: vec![SideEffect::FilesystemWrite, SideEffect::FilesystemRead],
        },
        lifecycle: LifecycleSupport {
            progress: ProgressMode::LifecycleEvents,
            cancellation: CancellationMode::ProcessSignal,
        },
    }
}

fn manifest() -> ProviderManifest {
    ProviderManifest {
        schema: PROVIDER_MANIFEST_SCHEMA_V1.to_owned(),
        provider: ProviderIdentity {
            id: "org.example.fixture".to_owned(),
            version: "1.0.0".to_owned(),
            display_name: "Fixture".to_owned(),
        },
        configuration_schemas: vec![schema_reference()],
        capabilities: vec![capability()],
        provenance: ProvenanceContract {
            required: vec![
                ProvenanceField::InputDigests,
                ProvenanceField::OutputDigests,
                ProvenanceField::PipelineConfiguration,
                ProvenanceField::EffectiveConfiguration,
                ProvenanceField::ProviderIdentity,
                ProvenanceField::CapabilityIdentity,
                ProvenanceField::ToolVersions,
                ProvenanceField::CodecVersions,
                ProvenanceField::ModelIdentities,
                ProvenanceField::ValidationEvidence,
            ],
        },
    }
}

fn registration(id: &str) -> ProviderRegistration {
    registration_from(id, manifest())
}

fn registration_from(id: &str, manifest: ProviderManifest) -> ProviderRegistration {
    let configuration = ProviderConfiguration::new(
        ProviderReference { id: "org.example.fixture".to_owned(), version: "1.0.0".to_owned() },
        CapabilityReference { id: "aniflow/frame.process".to_owned(), version: "1.2.0".to_owned() },
        schema_reference(),
        Vec::new(),
    )
    .expect("configuration should validate");
    ProviderRegistration::new(
        id.to_owned(),
        manifest,
        configuration,
        "/opt/fixture/bin/provider".to_owned(),
        "fixture-impl".to_owned(),
        ComponentInventory { tools: Vec::new(), codecs: Vec::new(), models: Vec::new() },
    )
    .expect("registration should validate")
}

fn candidate(id: &str) -> ProviderCandidate {
    ProviderCandidate { registration_id: id.to_owned() }
}

fn stage(fallbacks: Vec<ProviderCandidate>) -> AuthoredPipelineStage {
    AuthoredPipelineStage {
        id: "enhance".to_owned(),
        depends_on: Vec::new(),
        capability: CapabilityRequirement {
            id: "aniflow/frame.process".to_owned(),
            version_requirement: "^1.0".to_owned(),
        },
        provider: ProviderSelectionIntent { replacement: None, primary: candidate("fixture"), fallbacks },
        inputs: vec![AuthoredInputBinding { port: "frames".to_owned(), artifacts: vec!["source".to_owned()] }],
        outputs: vec![AuthoredOutputBinding {
            port: "processed_frames".to_owned(),
            artifacts: vec![ExpectedArtifact {
                id: "enhanced".to_owned(),
                relative_path: "artifacts/enhanced".to_owned(),
            }],
        }],
        validations: vec![ArtifactValidation {
            id: "integrity".to_owned(),
            artifact: "enhanced".to_owned(),
            contract: "aniflow.validation/artifact-integrity/v1".to_owned(),
        }],
    }
}

fn configuration() -> PipelineV3Configuration {
    PipelineV3Configuration {
        schema: PIPELINE_V3_SCHEMA.to_owned(),
        name: "Enhance frames".to_owned(),
        description: "Human notes are not part of the digest".to_owned(),
        inputs: vec![AuthoredPipelineInput {
            id: "source".to_owned(),
            artifact_type: "image/png".to_owned(),
            artifact_role: ArtifactRole::TemporalSource,
            stream_role: Some(StreamRole::Video),
        }],
        stages: vec![stage(Vec::new())],
        outputs: vec![FinalOutputRequirement {
            id: "video".to_owned(),
            artifact: "enhanced".to_owned(),
            required_validations: vec!["integrity".to_owned()],
        }],
    }
}

fn context() -> PipelinePlanningContext {
    PipelinePlanningContext {
        host: HostResources {
            cpu_threads: 4,
            memory_mib: 1024,
            storage_mib: 1024,
            gpu_available: false,
            network_available: false,
        },
        allowed_side_effects: vec![SideEffect::FilesystemWrite, SideEffect::FilesystemRead, SideEffect::FilesystemRead],
        offline: true,
    }
}

fn identities() -> Vec<PipelineInputIdentity> {
    vec![PipelineInputIdentity {
        id: "source".to_owned(),
        artifact_type: "image/png".to_owned(),
        artifact_role: ArtifactRole::TemporalSource,
        stream_role: Some(StreamRole::Video),
        kind: PipelineInputKind::File,
        file_count: 1,
        byte_count: 10,
        content_sha256: "a".repeat(64),
    }]
}

fn registry() -> ProviderRegistry {
    let mut registry = ProviderRegistry::new();
    registry.register(registration("fixture")).expect("first registration should succeed");
    registry
}

fn identified() -> Vec<Vec<ExecutableObservation>> {
    vec![vec![ExecutableObservation::Identified("d".repeat(64))]]
}

#[test]
fn valid_configuration_validates_and_digests_semantic_intent() {
    let configuration = configuration();
    configuration.validate().expect("configuration should validate");
    let digest = configuration.configuration_sha256().expect("digest should be computed");
    assert_eq!(digest.len(), 64);

    let mut described = configuration.clone();
    described.description = "Other notes".to_owned();
    assert_eq!(described.configuration_sha256().expect("digest"), digest);

    let mut renamed = configuration.clone();
    renamed.name = "Other name".to_owned();
    assert_ne!(renamed.configuration_sha256().expect("digest"), digest);
}

#[test]
fn configuration_rejects_forward_dependencies_and_unknown_artifacts() {
    let mut forward = configuration();
    forward.stages[0].depends_on = vec!["later".to_owned()];
    let failure = forward.validate().expect_err("a dependency must name a stage");
    assert_eq!(failure.category, ErrorCategory::Configuration);
    assert_eq!(failure.diagnostics[0].code, PipelinePlanningDiagnosticCode::UnknownDependency);
    assert_eq!(failure.diagnostics[0].field.as_deref(), Some("stages[0].depends_on[0]"));

    let mut unknown = configuration();
    unknown.stages[0].inputs[0].artifacts = vec!["missing".to_owned()];
    let failure = unknown.validate().expect_err("an input must be known");
    assert_eq!(failure.category, ErrorCategory::Configuration);

    let mut duplicate = configuration();
    duplicate.stages[0].outputs[0].artifacts[0].id = "source".to_owned();
    let failure = duplicate.validate().expect_err("artifact ids are unique");
    assert_eq!(failure.diagnostics[0].code, PipelinePlanningDiagnosticCode::DuplicateIdentifier);

    let mut unsafe_path = configuration();
    unsafe_path.stages[0].outputs[0].artifacts[0].relative_path = "../escape".to_owned();
    assert!(unsafe_path.validate().is_err());

    let mut no_validation = configuration();
    no_validation.outputs[0].required_validations = Vec::new();
    let failure = no_validation.validate().expect_err("a final output needs a validation");
    assert_eq!(failure.diagnostics[0].code, PipelinePlanningDiagnosticCode::InvalidFinalOutput);

    let mut wrong_schema = configuration();
    wrong_schema.schema = "aniflow.pipeline/v2".to_owned();
    let failure = wrong_schema.validate().expect_err("only the v3 schema is accepted");
    assert_eq!(failure.diagnostics[0].code, PipelinePlanningDiagnosticCode::InvalidSchema);
}

#[test]
fn resolves_a_self_validating_plan() {
    let configuration = configuration();
    let plan = resolve_pipeline_v3(&configuration, &registry(), &context(), &identified(), identities())
        .expect("the pipeline should resolve");
    plan.validate().expect("a resolved plan validates");
    assert_eq!(plan.plan_sha256.len(), 64);
    assert_eq!(plan.payload.stages.len(), 1);
    assert_eq!(plan.payload.stages[0].id, "enhance");
    assert_eq!(plan.payload.stages[0].resolution_attempts.len(), 1);
    assert!(plan.payload.stages[0].resolution_attempts[0].available);
    assert_eq!(
        plan.payload.policy.allowed_side_effects,
        vec![SideEffect::FilesystemRead, SideEffect::FilesystemWrite]
    );
    assert_eq!(
        plan.payload.configuration_sha256,
        configuration.configuration_sha256().expect("digest")
    );
    let output = &plan.payload.stages[0].outputs[0].artifacts[0];
    assert_eq!(output.artifact_type, "image/png");
    assert_eq!(output.artifact_role, ArtifactRole::Intermediate);

    let bytes = plan.canonical_json_bytes().expect("a valid plan encodes");
    assert_eq!(bytes[0], b'{');
    let again = plan.canonical_json_bytes().expect("encoding is repeatable");
    assert_eq!(bytes, again);
}

#[test]
fn tampered_plans_are_refused() {
    let plan = resolve_pipeline_v3(&configuration(), &registry(), &context(), &identified(), identities())
        .expect("the pipeline should resolve");

    let mut digest = plan.clone();
    digest.plan_sha256 = "0".repeat(64);
    let failure = digest.validate().expect_err("a wrong digest is refused");
    assert_eq!(failure.diagnostics[0].code, PipelinePlanningDiagnosticCode::DigestMismatch);

    let mut renamed = plan.clone();
    renamed.payload.pipeline_name = "Renamed".to_owned();
    assert!(renamed.validate().is_err());

    let mut directory = plan.clone();
    directory.payload.inputs[0].file_count = 2;
    assert!(directory.validate().is_err());

    let mut online = plan;
    online.payload.policy.offline = false;
    assert!(online.validate().is_err());
}

#[test]
fn unavailable_provider_fails_with_typed_evidence() {
    let observations = vec![vec![ExecutableObservation::Unavailable]];
    let failure = resolve_pipeline_v3(&configuration(), &registry(), &context(), &observations, identities())
        .expect_err("an unavailable executable cannot be selected");
    assert_eq!(failure.category, ErrorCategory::Dependency);
    assert_eq!(failure.diagnostics[0].code, PipelinePlanningDiagnosticCode::ProviderUnavailable);
    assert_eq!(failure.diagnostics[0].attempts.len(), 1);
}

#[test]
fn fallback_provider_is_selected_after_an_unregistered_primary() {
    let mut configuration = configuration();
    configuration.stages[0] = stage(vec![candidate("fixture")]);
    configuration.stages[0].provider.primary = candidate("absent");
    let observations = vec![vec![ExecutableObservation::Unavailable, ExecutableObservation::Identified("e".repeat(64))]];
    let plan = resolve_pipeline_v3(&configuration, &registry(), &context(), &observations, identities())
        .expect("the fallback should resolve");
    let attempts = &plan.payload.stages[0].resolution_attempts;
    assert_eq!(attempts.len(), 2);
    assert!(!attempts[0].available);
    assert!(attempts[1].available);
    plan.validate().expect("fallback evidence validates");
}

#[test]
fn runtime_bindings_must_match_declared_inputs() {
    let configuration = configuration();
    let bound = bind_inputs(
        &configuration,
        &vec![PipelineInputBinding::new("source".to_owned(), "/data/source.png".to_owned())],
    )
    .expect("the declared input is bound");
    assert_eq!(bound, vec![0]);

    let failure = bind_inputs(&configuration, &Vec::new()).expect_err("every input needs a binding");
    assert_eq!(failure.category, ErrorCategory::Input);
    assert_eq!(failure.diagnostics[0].code, PipelinePlanningDiagnosticCode::MissingInputBinding);

    let failure = bind_inputs(
        &configuration,
        &vec![
            PipelineInputBinding::new("source".to_owned(), "/a".to_owned()),
            PipelineInputBinding::new("source".to_owned(), "/b".to_owned()),
        ],
    )
    .expect_err("an input is bound at most once");
    assert_eq!(failure.diagnostics[0].code, PipelinePlanningDiagnosticCode::UnexpectedInputBinding);

    let failure = bind_inputs(
        &configuration,
        &vec![PipelineInputBinding::new("other".to_owned(), "/a".to_owned())],
    )
    .expect_err("only declared inputs may be bound");
    assert_eq!(failure.diagnostics[0].code, PipelinePlanningDiagnosticCode::UnexpectedInputBinding);
}

#[test]
fn registry_refuses_a_second_registration_under_one_id() {
    let mut registry = registry();
    assert!(registry.register(registration("fixture")).is_err());
    assert!(registry.registration("fixture").is_some());
    assert!(registry.registration("other").is_none());
    registry.register(registration("other")).expect("a new id registers");
    assert!(registry.registration("other").is_some());
}

fn code(result: Result<(), PipelinePlanningFailure>) -> PipelinePlanningDiagnosticCode {
    let failure = result.expect_err("the root should be refused");
    assert_eq!(failure.category, ErrorCategory::Configuration);
    failure.diagnostics[0].code
}

#[test]
fn document_roots_are_diagnosed_before_their_fields_are_read() {
    assert!(diagnose_pipeline_version(true, None, Some(PIPELINE_V3_SCHEMA), false).is_ok());
    assert_eq!(code(diagnose_pipeline_version(false, None, None, false)), PipelinePlanningDiagnosticCode::InvalidConfiguration);
    assert_eq!(
        code(diagnose_pipeline_version(true, Some(Some(2)), Some(PIPELINE_V3_SCHEMA), false)),
        PipelinePlanningDiagnosticCode::LegacyPipelineV2
    );
    assert_eq!(code(diagnose_pipeline_version(true, Some(Some(3)), None, false)), PipelinePlanningDiagnosticCode::UnsupportedVersion);
    assert_eq!(code(diagnose_pipeline_version(true, Some(None), None, false)), PipelinePlanningDiagnosticCode::UnsupportedVersion);
    assert_eq!(
        code(diagnose_pipeline_version(true, None, Some(PIPELINE_V3_SCHEMA), true)),
        PipelinePlanningDiagnosticCode::RenderflowRemoved
    );
    assert_eq!(
        code(diagnose_pipeline_version(true, None, Some("aniflow.pipeline/v2"), false)),
        PipelinePlanningDiagnosticCode::LegacyPipelineV2
    );
    assert_eq!(code(diagnose_pipeline_version(true, None, Some("other"), false)), PipelinePlanningDiagnosticCode::InvalidSchema);
    assert_eq!(code(diagnose_pipeline_version(true, None, None, false)), PipelinePlanningDiagnosticCode::InvalidSchema);
}

#[test]
fn a_stage_that_depends_on_itself_is_a_forward_dependency() {
    let mut looping = configuration();
    looping.stages[0].depends_on = vec!["enhance".to_owned()];
    let failure = looping.validate().expect_err("a stage is not earlier than itself");
    assert_eq!(failure.category, ErrorCategory::Configuration);
    assert_eq!(failure.diagnostics.len(), 1);
    assert_eq!(failure.diagnostics[0].code, PipelinePlanningDiagnosticCode::ForwardDependency);
    assert_eq!(failure.diagnostics[0].stage.as_deref(), Some("enhance"));
    assert_eq!(failure.diagnostics[0].field.as_deref(), Some("stages[0].depends_on[0]"));
    assert_eq!(failure.message, "stage enhance depends on enhance, which is not earlier in the ordered stage list");
    let digest = looping.configuration_sha256().expect_err("the digest is refused with the same diagnosis");
    assert_eq!(digest.diagnostics[0].code, PipelinePlanningDiagnosticCode::ForwardDependency);
    assert_eq!(digest.diagnostics[0].field.as_deref(), Some("stages[0].depends_on[0]"));
}

#[test]
fn repeated_dependencies_and_stage_ids_name_their_list_positions() {
    let mut second = stage(Vec::new());
    second.id = "grade".to_owned();
    second.depends_on = vec!["enhance".to_owned(), "enhance".to_owned()];
    second.inputs[0].artifacts = vec!["enhanced".to_owned()];
    second.outputs[0].artifacts[0].id = "graded".to_owned();
    second.outputs[0].artifacts[0].relative_path = "artifacts/graded".to_owned();
    second.validations[0].id = "graded_integrity".to_owned();
    second.validations[0].artifact = "graded".to_owned();
    let mut repeated = configuration();
    repeated.stages.push(second);
    let failure = repeated.validate().expect_err("a dependency is named once");
    assert_eq!(failure.diagnostics[0].code, PipelinePlanningDiagnosticCode::InvalidDependency);
    assert_eq!(failure.diagnostics[0].stage.as_deref(), Some("grade"));
    assert_eq!(failure.diagnostics[0].field.as_deref(), Some("stages[1].depends_on[1]"));

    let mut twice = configuration();
    twice.stages.push(stage(Vec::new()));
    let failure = twice.validate().expect_err("stage ids are unique");
    assert_eq!(failure.diagnostics[0].code, PipelinePlanningDiagnosticCode::DuplicateIdentifier);
    assert_eq!(failure.diagnostics[0].field.as_deref(), Some("stages[1].id"));

    let mut bad_input = configuration();
    bad_input.inputs[0].id = "Bad Id".to_owned();
    let failure = bad_input.validate().expect_err("input ids are local ids");
    assert_eq!(failure.diagnostics[0].code, PipelinePlanningDiagnosticCode::InvalidIdentifier);
    assert_eq!(failure.diagnostics[0].field.as_deref(), Some("inputs[0].id"));
}

#[test]
fn document_level_refusals_name_their_field() {
    let mut unnamed = configuration();
    unnamed.name = String::new();
    let failure = unnamed.validate().expect_err("a name is required");
    assert_eq!(failure.diagnostics[0].code, PipelinePlanningDiagnosticCode::InvalidConfiguration);
    assert_eq!(failure.diagnostics[0].field.as_deref(), Some("name"));

    let mut no_outputs = configuration();
    no_outputs.outputs = Vec::new();
    let failure = no_outputs.validate().expect_err("a final output is required");
    assert_eq!(failure.diagnostics[0].code, PipelinePlanningDiagnosticCode::InvalidFinalOutput);
    assert_eq!(failure.diagnostics[0].field.as_deref(), Some("outputs"));

    let legacy = diagnose_pipeline_version(true, Some(Some(2)), None, false).expect_err("v2 is refused");
    assert_eq!(legacy.diagnostics.len(), 1);
    assert_eq!(legacy.diagnostics[0].code, PipelinePlanningDiagnosticCode::LegacyPipelineV2);
    assert_eq!(legacy.diagnostics[0].field.as_deref(), Some("version"));
    let renderflow = diagnose_pipeline_version(true, None, Some(PIPELINE_V3_SCHEMA), true).expect_err("renderflow is gone");
    assert_eq!(renderflow.diagnostics[0].code, PipelinePlanningDiagnosticCode::RenderflowRemoved);
    assert_eq!(renderflow.diagnostics[0].field.as_deref(), Some("renderflow"));
}

#[test]
fn a_provider_the_host_cannot_carry_is_unavailable() {
    let configuration = configuration();
    let mut small = context();
    small.host.memory_mib = 0;
    let mut registry = ProviderRegistry::new();
    let mut hungry = manifest();
    hungry.capabilities[0].requirements.compute.minimum_memory_mib = 64;
    registry.register(registration_from("fixture", hungry)).expect("registration should succeed");
    let failure = resolve_pipeline_v3(&configuration, &registry, &small, &identified(), identities())
        .expect_err("resolution checks the host resources");
    assert_eq!(failure.category, ErrorCategory::Dependency);
    assert_eq!(failure.diagnostics.len(), 1);
    assert_eq!(failure.diagnostics[0].code, PipelinePlanningDiagnosticCode::ProviderUnavailable);
    assert_eq!(failure.diagnostics[0].stage.as_deref(), Some("enhance"));
    assert_eq!(failure.diagnostics[0].attempts.len(), 1);
    assert!(!failure.diagnostics[0].attempts[0].available);
}

#[test]
fn a_stage_invocation_is_identified_by_its_inputs_and_dependencies() {
    let plan = resolve_pipeline_v3(&configuration(), &registry(), &context(), &identified(), identities())
        .expect("the pipeline should resolve");
    let mut stage = plan.payload.stages[0].clone();
    let bounds = ProviderExecutionBounds {
        timeout_milliseconds: 1000,
        termination_grace_milliseconds: 100,
        maximum_stdout_bytes: 10,
        maximum_stderr_bytes: 10,
        maximum_artifact_files: 10,
        maximum_artifact_bytes: 10,
    };
    let evidence = ArtifactEvidence {
        id: "source".to_owned(),
        port: "frames".to_owned(),
        relative_path: None,
        artifact_type: "image/png".to_owned(),
        artifact_role: ArtifactRole::TemporalSource,
        stream_role: Some(StreamRole::Video),
        kind: ArtifactKind::File,
        file_count: 1,
        byte_count: 10,
        sha256: "a".repeat(64),
    };
    let first = stage_invocation_sha256(&stage, &vec![evidence.clone()], &Vec::new(), bounds)
        .expect("a stage without dependencies is identified");
    assert_eq!(first.len(), 64);
    let again = stage_invocation_sha256(&stage, &vec![evidence.clone()], &Vec::new(), bounds).expect("repeatable");
    assert_eq!(first, again);
    let mut changed = evidence.clone();
    changed.sha256 = "b".repeat(64);
    let other = stage_invocation_sha256(&stage, &vec![changed], &Vec::new(), bounds).expect("identified");
    assert_ne!(first, other);

    stage.depends_on = vec!["earlier".to_owned()];
    let error = stage_invocation_sha256(&stage, &vec![evidence.clone()], &Vec::new(), bounds)
        .expect_err("a dependency needs its checkpoint");
    assert_eq!(error.category(), ErrorCategory::State);
    assert_eq!(error.message(), "stage enhance dependency earlier has no accepted checkpoint");
    let checkpoint = DependencyCheckpoint {
        stage_id: "earlier".to_owned(),
        stage_invocation_sha256: "c".repeat(64),
        outputs: vec![evidence.clone()],
    };
    let with_dependency = stage_invocation_sha256(&stage, &vec![evidence], &vec![checkpoint], bounds)
        .expect("the dependency is checkpointed");
    assert_ne!(with_dependency, first);
}

#[test]
fn a_refused_checkpoint_invalidates_its_dependents_in_plan_order() {
    let plan = resolve_pipeline_v3(&configuration(), &registry(), &context(), &identified(), identities())
        .expect("the pipeline should resolve");
    let base = plan.payload.stages[0].clone();
    let named = |id: &str, depends_on: &[&str]| {
        let mut stage = base.clone();
        stage.id = id.to_owned();
        stage.depends_on = depends_on.iter().map(|d| (*d).to_owned()).collect();
        stage
    };
    let stages = vec![
        named("decode", &[]),
        named("enhance", &["decode"]),
        named("audio", &[]),
        named("grade", &["enhance"]),
        named("mux", &["grade", "audio"]),
    ];
    assert_eq!(
        aniflow::frontier::invalidation_frontier(&stages, "enhance").expect("enhance is a stage"),
        vec!["enhance", "grade", "mux"]
    );
    assert_eq!(
        aniflow::frontier::invalidation_frontier(&stages, "audio").expect("audio is a stage"),
        vec!["audio", "mux"]
    );
    let error = aniflow::frontier::invalidation_frontier(&stages, "missing").expect_err("only plan stages");
    assert_eq!(error.category(), ErrorCategory::State);
    assert_eq!(error.message(), "Pipeline v3 invalidation frontier contains unknown stage missing");
}

#[test]
fn a_refused_digest_carries_the_validation_failure() {
    let mut cases = Vec::new();
    let mut unnamed = configuration();
    unnamed.name = String::new();
    cases.push(unnamed);
    let mut looping = configuration();
    looping.stages[0].depends_on = vec!["enhance".to_owned()];
    cases.push(looping);
    let mut unknown = configuration();
    unknown.stages[0].inputs[0].artifacts = vec!["missing".to_owned()];
    cases.push(unknown);
    for case in cases {
        let validated = case.validate().expect_err("the case is invalid");
        let digested = case.configuration_sha256().expect_err("the digest is refused");
        assert_eq!(validated.category, digested.category);
        assert_eq!(validated.message, digested.message);
        assert_eq!(validated.diagnostics.len(), digested.diagnostics.len());
        assert_eq!(validated.diagnostics[0].code, digested.diagnostics[0].code);
        assert_eq!(validated.diagnostics[0].stage, digested.diagnostics[0].stage);
        assert_eq!(validated.diagnostics[0].field, digested.diagnostics[0].field);
    }
    let plan = resolve_pipeline_v3(&configuration(), &registry(), &context(), &identified(), identities())
        .expect("the pipeline should resolve");
    let mut tampered = plan.clone();
    tampered.plan_sha256 = "0".repeat(64);
    let validated = tampered.validate().expect_err("a tampered digest is refused");
    let encoded = tampered.canonical_json_bytes().expect_err("encoding is refused");
    assert_eq!(validated.message, encoded.message);
    assert_eq!(validated.diagnostics[0].field, encoded.diagnostics[0].field);
}

#[test]
fn resolving_the_same_inputs_twice_gives_the_same_plan() {
    let configuration = configuration();
    let first = resolve_pipeline_v3(&configuration, &registry(), &context(), &identified(), identities())
        .expect("the pipeline should resolve");
    let second = resolve_pipeline_v3(&configuration, &registry(), &context(), &identified(), identities())
        .expect("the pipeline should resolve again");
    assert_eq!(first.plan_sha256, second.plan_sha256);
    assert_eq!(
        first.canonical_json_bytes().expect("encodes"),
        second.canonical_json_bytes().expect("encodes")
    );
    assert_eq!(
        first.payload.stages[0].provider_lock.lock_sha256,
        second.payload.stages[0].provider_lock.lock_sha256
    );
}

#[test]
fn a_plan_document_must_be_its_normalized_form() {
    let plan = resolve_pipeline_v3(&configuration(), &registry(), &context(), &identified(), identities())
        .expect("the pipeline should resolve");
    let bytes = plan.canonical_json_bytes().expect("a valid plan encodes");
    let read = plan_from_document(plan.clone(), &bytes).expect("the canonical form reads back");
    assert_eq!(read.plan_sha256, plan.plan_sha256);

    let mut spaced = b" ".to_vec();
    spaced.extend_from_slice(&bytes);
    assert!(plan_from_document(plan.clone(), &spaced).is_ok());

    let mut extra = b"{\"extra\":1,".to_vec();
    extra.extend_from_slice(&bytes[1..]);
    let failure = plan_from_document(plan.clone(), &extra).expect_err("an extra member is refused");
    assert_eq!(failure.diagnostics[0].code, PipelinePlanningDiagnosticCode::InvalidResolvedPlan);

    let failure = plan_from_document(plan, b"{").expect_err("not JSON");
    assert_eq!(failure.diagnostics[0].code, PipelinePlanningDiagnosticCode::InvalidJson);
}

fn empty_capture(stream: StreamKind) -> CapturedDiagnostic {
    CapturedDiagnostic { stream, retained_text: String::new(), total_bytes: 0, truncated: false, redacted: false }
}

#[test]
fn a_finished_report_carries_the_provider_lock_and_no_outputs_unless_it_succeeded() {
    let plan = resolve_pipeline_v3(&configuration(), &registry(), &context(), &identified(), identities())
        .expect("the pipeline should resolve");
    let lock = plan.payload.stages[0].provider_lock.clone();
    let lock_sha256 = lock.lock_sha256.clone();
    let at = "2024-01-01T00:00:00Z".to_owned();
    let event = ProviderEvent::new(1, &lock_sha256, ProviderEventKind::ExecutionFailed, at.clone());
    let stray = ArtifactObservation {
        port: "image".to_owned(),
        relative_path: "out.png".to_owned(),
        kind: ArtifactKind::File,
        file_count: 1,
        byte_count: 1,
        sha256: "a".repeat(64),
    };
    let report = finish_report(
        lock,
        ProviderExecutionOutcome::Failed,
        at.clone(),
        at,
        0,
        ProviderExecutionBounds {
            timeout_milliseconds: 1000,
            termination_grace_milliseconds: 100,
            maximum_stdout_bytes: 1024,
            maximum_stderr_bytes: 1024,
            maximum_artifact_files: 4,
            maximum_artifact_bytes: 4096,
        },
        ProviderTermination { reason: TerminationReason::PreflightRejected, exit_code: None, signal: None },
        empty_capture(StreamKind::Stdout),
        empty_capture(StreamKind::Stderr),
        vec![stray],
        vec![event],
        Some(ProviderExecutionFailure {
            code: ProviderExecutionFailureCode::ImplementationChanged,
            detail: "registered provider executable no longer matches its lock".to_owned(),
        }),
    )
    .expect("a preflight rejection is a valid report");
    assert_eq!(report.payload.provider_lock.lock_sha256, lock_sha256);
    assert!(report.payload.outputs.is_empty());
    assert_eq!(report.payload.duration_milliseconds, 0);
    assert_eq!(report.report_sha256.len(), 64);
    assert!(report.validate().is_ok());
}

#[test]
fn report_durations_round_to_whole_milliseconds_of_at_least_one() {
    assert_eq!(report_duration_milliseconds(0), 0);
    assert_eq!(report_duration_milliseconds(1), 1);
    assert_eq!(report_duration_milliseconds(2_500_000), 2);
    assert_eq!(report_duration_milliseconds(u128::MAX), u64::MAX);
}
