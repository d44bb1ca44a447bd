use aniflow::canonical::capability_kind_name_text;
use aniflow::error::ErrorCategory;
use aniflow::provider::CapabilityKind;
use aniflow::provider::{
    ArtifactRole, CapabilityReference, CompatibilityFingerprint, CompatibilityFingerprintPayload, ComponentIdentity,
    ConfigurationSchemaReference, FingerprintArtifact, ProviderReference, ValidatedOutputFingerprint,
};

#[test]
fn capability_kind_contract_covers_every_parent_extension_family() {
    let kinds = [
        CapabilityKind::FrameProcessor,
        CapabilityKind::AudioProcessor,
        CapabilityKind::TimedTextProcessor,
        CapabilityKind::WholeVideoProcessor,
        CapabilityKind::StreamInspector,
        CapabilityKind::TemporalValidator,
        CapabilityKind::ArtifactValidator,
        CapabilityKind::AssemblerEncoder,
        CapabilityKind::DeliveryProvider,
        CapabilityKind::LifecycleObserver,
    ];
    let values = kinds.into_iter().map(capability_kind_name_text).collect::<Vec<_>>();

    assert_eq!(values.len(), 10);
    assert!(values.contains(&"frame_processor"));
    assert!(values.contains(&"lifecycle_observer"));
}

#[test]
fn error_categories_have_distinct_exit_codes() {
    let categories = [
        ErrorCategory::Input,
        ErrorCategory::Configuration,
        ErrorCategory::Dependency,
        ErrorCategory::Media,
        ErrorCategory::Execution,
        ErrorCategory::State,
        ErrorCategory::Io,
        ErrorCategory::Internal,
    ];
    let codes = categories.iter().map(|category| category.exit_code()).collect::<Vec<_>>();
    assert_eq!(codes, vec![3, 4, 5, 6, 7, 8, 9, 70]);
}

fn fingerprint_payload(ffmpeg_version: &str) -> CompatibilityFingerprintPayload {
    CompatibilityFingerprintPayload {
        input_artifacts: vec![FingerprintArtifact {
            artifact_type: "video".to_owned(),
            artifact_role: ArtifactRole::TemporalSource,
            sha256: "a".repeat(64),
        }],
        pipeline_configuration_sha256: "b".repeat(64),
        effective_configuration_sha256: "c".repeat(64),
        configuration_schema: ConfigurationSchemaReference {
            id: "aniflow.fixture/v1".to_owned(),
            version: "1.0.0".to_owned(),
            sha256: "d".repeat(64),
        },
        provider: ProviderReference { id: "aniflow.fixture".to_owned(), version: "1.0.0".to_owned() },
        capability: CapabilityReference { id: "aniflow/video.upscale".to_owned(), version: "1.0.0".to_owned() },
        tools: vec![ComponentIdentity { id: "ffmpeg".to_owned(), version: ffmpeg_version.to_owned(), sha256: None }],
        codecs: Vec::new(),
        models: Vec::new(),
        validated_outputs: vec![ValidatedOutputFingerprint {
            artifact: FingerprintArtifact {
                artifact_type: "video".to_owned(),
                artifact_role: ArtifactRole::CandidateMaster,
                sha256: "e".repeat(64),
            },
            validation_contract: "media".to_owned(),
            validation_sha256: "f".repeat(64),
        }],
    }
}

#[test]
fn the_same_evidence_gives_the_same_fingerprint_and_changed_evidence_another() {
    let first = CompatibilityFingerprint::new(fingerprint_payload("6.1")).unwrap();
    let again = CompatibilityFingerprint::new(fingerprint_payload("6.1")).unwrap();
    let other = CompatibilityFingerprint::new(fingerprint_payload("7.0")).unwrap();
    assert_eq!(first.fingerprint_sha256, again.fingerprint_sha256);
    assert_ne!(first.fingerprint_sha256, other.fingerprint_sha256);
    assert_eq!(first.fingerprint_sha256.len(), 64);
    assert!(first.validate().is_ok());
    assert_eq!(first.schema, "aniflow.compatibility-fingerprint/v1");
    assert_eq!(first.algorithm, "sha256");
}

#[test]
fn a_fingerprint_needs_an_input_artifact() {
    let mut payload = fingerprint_payload("6.1");
    payload.input_artifacts.clear();
    let refused = CompatibilityFingerprint::new(payload);
    assert!(refused.is_err());
}
