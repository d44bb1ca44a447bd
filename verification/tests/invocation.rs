use aniflow::canonical::{provider_invocation_request_value, stream_role_name_text};
use aniflow::documents::invocation_request_from_document;
use aniflow::execution::ArtifactKind;
use aniflow::json::write_canonical;
use aniflow::invocation::{
    paths_overlap_absolute, provider_invocation_arguments, validate_absolute_path,
    ProviderInvocationArtifactBinding, ProviderInvocationRequest, PROVIDER_INVOCATION_ARGUMENT,
};
use aniflow::provider::{
    ArtifactRole, CapabilityReference, ConfigurationSchemaReference, ProviderConfiguration,
    ProviderReference, StreamRole,
};

fn binding(port: &str, artifact_id: &str, kind: ArtifactKind, path: &str) -> ProviderInvocationArtifactBinding {
    ProviderInvocationArtifactBinding::new(
        port.to_owned(),
        artifact_id.to_owned(),
        "application/octet-stream".to_owned(),
        ArtifactRole::Intermediate,
        Some(StreamRole::Video),
        kind,
        path.to_owned(),
    )
    .expect("binding should validate")
}

fn configuration() -> ProviderConfiguration {
    ProviderConfiguration::new(
        ProviderReference { id: "org.egohygiene.fixture".to_owned(), version: "1.0.0".to_owned() },
        CapabilityReference { id: "aniflow/frame.process".to_owned(), version: "1.0.0".to_owned() },
        ConfigurationSchemaReference {
            id: "aniflow.fixture/v1".to_owned(),
            version: "1.0.0".to_owned(),
            sha256: "c".repeat(64),
        },
        Vec::new(),
    )
    .expect("configuration should validate")
}

fn request(root: &str) -> ProviderInvocationRequest {
    ProviderInvocationRequest::new(
        "enhance".to_owned(),
        "a".repeat(64),
        configuration(),
        vec![binding("frames", "source", ArtifactKind::Directory, &format!("{root}/source"))],
        vec![binding("processed_frames", "enhanced", ArtifactKind::Directory, &format!("{root}/output"))],
    )
    .expect("invocation should validate")
}

#[test]
fn invocation_round_trips_and_builds_the_fixed_argv() {
    let root = "/tmp/aniflow-invocation-contract";
    let request = request(root);
    request.validate().expect("a built request revalidates");
    let request_path = format!("{root}/request.json");
    assert_eq!(
        provider_invocation_arguments(&request_path).expect("argv should validate"),
        vec![PROVIDER_INVOCATION_ARGUMENT.to_owned(), request_path]
    );
}

#[test]
fn invocation_rejects_nulls_relative_paths_and_overlapping_outputs() {
    let root = "/tmp/aniflow-invocation-invalid";
    let mut relative = request(root);
    relative.inputs[0].path = "relative/source".to_owned();
    assert!(relative.validate().is_err());

    let mut case_folded_overlap = request(root);
    case_folded_overlap.inputs[0].path = "/tmp/Data/source".to_owned();
    case_folded_overlap.outputs[0].path = "/tmp/data/source/output".to_owned();
    assert!(case_folded_overlap.validate().is_err());

    let mut overlapping = request(root);
    overlapping
        .outputs
        .push(binding("preview", "preview", ArtifactKind::File, &format!("{root}/output/preview.png")));
    assert!(overlapping.validate().is_err());
}

#[test]
fn absolute_paths_are_normalized_and_compared_by_component() {
    assert!(validate_absolute_path("/a/b", "path").is_ok());
    assert!(validate_absolute_path("/a/./b", "path").is_ok());
    assert!(validate_absolute_path("/a/../b", "path").is_err());
    assert!(validate_absolute_path("a/b", "path").is_err());
    assert!(validate_absolute_path("", "path").is_err());
    assert!(validate_absolute_path("/a\u{7}b", "path").is_err());
    assert!(paths_overlap_absolute("/a/b", "/a/b/c"));
    assert!(paths_overlap_absolute("/a//b/", "/A/B"));
    assert!(!paths_overlap_absolute("/a/b", "/a/bc"));
    assert!(provider_invocation_arguments("request.json").is_err());
}

#[test]
fn bindings_require_local_ids_and_a_token_type() {
    let invalid = ProviderInvocationArtifactBinding::new(
        "Frames".to_owned(),
        "source".to_owned(),
        "image/png".to_owned(),
        ArtifactRole::Intermediate,
        None,
        ArtifactKind::File,
        "/tmp/x".to_owned(),
    );
    assert!(invalid.is_err());
    let spaced = ProviderInvocationArtifactBinding::new(
        "frames".to_owned(),
        "source".to_owned(),
        "image png".to_owned(),
        ArtifactRole::Intermediate,
        None,
        ArtifactKind::File,
        "/tmp/x".to_owned(),
    );
    assert!(spaced.is_err());
}

fn encoded(request: &ProviderInvocationRequest) -> Vec<u8> {
    let mut out = Vec::new();
    assert!(write_canonical(&mut out, &provider_invocation_request_value(request)));
    out
}

#[test]
fn an_invocation_document_reads_back_only_in_its_normalized_form() {
    let root = "/tmp/aniflow-invocation-document";
    let bytes = encoded(&request(root));
    let read = invocation_request_from_document(request(root), &bytes).expect("the normalized form reads back");
    assert_eq!(read.stage_id, "enhance");

    let text = String::from_utf8(bytes).expect("UTF-8");
    let role = format!("\"stream_role\":\"{}\"", stream_role_name_text(StreamRole::Video));
    let with_null = text.replacen(&role, "\"stream_role\":null", 1);
    assert_ne!(with_null, text);
    let mut typed = request(root);
    typed.inputs[0].stream_role = None;
    let refused = invocation_request_from_document(typed, with_null.as_bytes()).expect_err("a null is not normalized");
    assert_eq!(
        refused.message(),
        "Pipeline v3 provider invocation JSON must use the normalized contract representation"
    );

    let broken = invocation_request_from_document(request(root), b"{").expect_err("not JSON");
    assert!(broken.message().starts_with("invalid Pipeline v3 provider invocation JSON: "));
}
