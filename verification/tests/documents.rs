use aniflow::documents::{check_pipeline_v3_document, check_registration_json, planning_failure_from_document};
use aniflow::authored::diagnose_pipeline_version;
use aniflow::error::ErrorCategory;
use aniflow::planning::{PipelinePlanningDiagnosticCode, PipelinePlanningFailure};

fn refused(result: Result<(), PipelinePlanningFailure>) -> PipelinePlanningFailure {
    result.expect_err("the document should be refused")
}

#[test]
fn a_pipeline_v3_root_passes_the_document_checks() {
    let document = b"schema: aniflow.pipeline/v3\nname: demo\ninputs: []\n";
    assert!(check_pipeline_v3_document(document).is_ok());
}

#[test]
fn malformed_yaml_is_refused_as_yaml() {
    let failure = refused(check_pipeline_v3_document(b"schema: [unclosed\n"));
    assert_eq!(failure.category, ErrorCategory::Configuration);
    assert_eq!(failure.diagnostics[0].code, PipelinePlanningDiagnosticCode::InvalidYaml);
    assert!(failure.message.starts_with("invalid Pipeline v3 YAML: "));
}

#[test]
fn a_null_anywhere_in_the_configuration_is_refused() {
    let failure = refused(check_pipeline_v3_document(b"schema: aniflow.pipeline/v3\ndescription: ~\n"));
    assert_eq!(failure.diagnostics[0].code, PipelinePlanningDiagnosticCode::InvalidConfiguration);
    assert_eq!(failure.message, "Pipeline v3 configuration must not contain null values");
    assert_eq!(failure.diagnostics[0].field.as_deref(), Some("configuration"));
    let key = refused(check_pipeline_v3_document(b"schema: aniflow.pipeline/v3\n~: value\n"));
    assert_eq!(key.diagnostics[0].code, PipelinePlanningDiagnosticCode::InvalidConfiguration);
}

#[test]
fn the_document_root_is_diagnosed_as_the_version_rules_say() {
    let legacy = refused(check_pipeline_v3_document(b"version: 2\nname: old\n"));
    assert_eq!(legacy.diagnostics[0].code, PipelinePlanningDiagnosticCode::LegacyPipelineV2);
    assert_eq!(legacy.diagnostics[0].field.as_deref(), Some("version"));
    let other = refused(check_pipeline_v3_document(b"version: 3\n"));
    assert_eq!(other.diagnostics[0].code, PipelinePlanningDiagnosticCode::UnsupportedVersion);
    let sequence = refused(check_pipeline_v3_document(b"- a\n- b\n"));
    assert_eq!(sequence.diagnostics[0].code, PipelinePlanningDiagnosticCode::InvalidConfiguration);
    assert_eq!(sequence.diagnostics[0].field.as_deref(), Some("root"));
    let removed = refused(check_pipeline_v3_document(b"schema: aniflow.pipeline/v3\nrenderflow: {}\n"));
    assert_eq!(removed.diagnostics[0].code, PipelinePlanningDiagnosticCode::RenderflowRemoved);
    let missing = refused(check_pipeline_v3_document(b"name: demo\n"));
    assert_eq!(missing.diagnostics[0].code, PipelinePlanningDiagnosticCode::InvalidSchema);
}

#[test]
fn registration_documents_must_be_null_free_json() {
    assert!(check_registration_json(br#"{"schema":"x","components":{"tools":[]}}"#).is_ok());
    let null = check_registration_json(br#"{"schema":null}"#).expect_err("null is refused");
    assert_eq!(null.category(), ErrorCategory::Configuration);
    assert_eq!(null.message(), "provider registration JSON must not contain null values");
    let nested = check_registration_json(br#"{"components":{"tools":[1,null]}}"#).expect_err("null is refused");
    assert_eq!(nested.message(), "provider registration JSON must not contain null values");
    let broken = check_registration_json(b"{").expect_err("not JSON");
    assert!(broken.message().starts_with("invalid provider registration JSON: "));
}

#[test]
fn a_planning_failure_document_is_checked_beside_its_typed_reading() {
    let failure = diagnose_pipeline_version(false, None, None, false).expect_err("a refused root");
    let accepted = planning_failure_from_document(failure, br#"{"schema":"x"}"#).expect("valid and null free");
    assert_eq!(accepted.diagnostics[0].code, PipelinePlanningDiagnosticCode::InvalidConfiguration);

    let failure = diagnose_pipeline_version(false, None, None, false).expect_err("a refused root");
    let null = planning_failure_from_document(failure, br#"{"stage":null}"#).expect_err("null is refused");
    assert_eq!(null.message, "Pipeline v3 planning failure JSON must not contain null values");
    assert_eq!(null.diagnostics[0].field.as_deref(), Some("failure"));

    let failure = diagnose_pipeline_version(false, None, None, false).expect_err("a refused root");
    let broken = planning_failure_from_document(failure, b"[").expect_err("not JSON");
    assert_eq!(broken.diagnostics[0].code, PipelinePlanningDiagnosticCode::InvalidJson);
}
