//! Reading documents from their bytes: the YAML and JSON trees that
//! `serde_yaml` and `serde_json` read, and the checks each document kind
//! makes on its tree before and beside its typed reading.
use vstd::prelude::*;

use crate::authored::{diagnose_pipeline_version, version_diagnosis, version_field};
use crate::canonical::{
    pipeline_v3_plan_json, pipeline_v3_plan_value, provider_invocation_request_json, provider_invocation_request_value,
};
use crate::invocation::ProviderInvocationRequest;
use crate::error::{Error, ErrorCategory, invalid};
use crate::json::{Json, JsonValue, contains_null, json_has_null, json_of, same_json};
use crate::plan_v3::{authored_from_plan, configuration_matches, payload_rules};
use crate::planning::{
    PipelinePlanningDiagnosticCode, PipelinePlanningFailure, PipelineV3Configuration, PipelineV3Plan, configuration_failure, one_refusal,
    planning_failure, refusal_at, single_failure,
};
use crate::text::join2;

verus! {

#[verifier::external_type_specification]
#[verifier::external_body]
pub struct ExJsonTree(serde_json::Value);

#[verifier::external_type_specification]
#[verifier::external_body]
pub struct ExYamlTree(serde_yaml::Value);

// ---------------------------------------------------------------------------
// The trees the parsers read
// ---------------------------------------------------------------------------

/// The tree `serde_json::from_slice` reads from these bytes into a
/// `serde_json::Value`, or the text of the error it refuses them with.
pub uninterp spec fn json_document_of(bytes: Seq<u8>) -> Result<Json, Seq<char>>;

/// What `serde_yaml::from_slice` reads from these bytes into a
/// `serde_yaml::Value`: the tree in the form of the null check, whether the
/// root is a mapping, the root's `version` entry (as an unsigned integer
/// where it is one), its `schema` entry where it is a string, and whether it
/// has a `renderflow` entry; or the text of the error it refuses them with.
pub uninterp spec fn yaml_document_of(bytes: Seq<u8>) -> Result<
    (Json, bool, Option<Option<u64>>, Option<Seq<char>>, bool),
    Seq<char>,
>;

/// What a YAML document's root says before the document is read as a
/// configuration.
pub struct YamlDocument {
    /// The whole tree as a JSON value, each mapping as a list of
    /// `[key, value]` pairs so that its keys are kept too.
    pub tree: JsonValue,
    pub root_is_mapping: bool,
    pub version: Option<Option<u64>>,
    pub schema: Option<String>,
    pub has_renderflow: bool,
}

pub open spec fn yaml_facts(d: YamlDocument) -> (Json, bool, Option<Option<u64>>, Option<Seq<char>>, bool) {
    (
        json_of(d.tree),
        d.root_is_mapping,
        d.version,
        match d.schema {
            Some(s) => Some(s@),
            None => None,
        },
        d.has_renderflow,
    )
}

/// A `serde_json::Value` as the library's JSON value, variant for variant:
/// numbers as the text `serde_json` writes for them, object members in the
/// order of the value's map. The result is not stated: it is the conversion
/// half of `json_document`.
#[verifier::external_body]
fn json_tree_value(value: &serde_json::Value) -> JsonValue {
    match value {
        serde_json::Value::Null => JsonValue::Null,
        serde_json::Value::Bool(flag) => JsonValue::Bool(*flag),
        serde_json::Value::Number(number) => JsonValue::Number(number.to_string()),
        serde_json::Value::String(text) => JsonValue::String(text.clone()),
        serde_json::Value::Array(items) => JsonValue::Array(items.iter().map(json_tree_value).collect()),
        serde_json::Value::Object(members) => JsonValue::Object(
            members.iter().map(|(key, value)| (key.clone(), json_tree_value(value))).collect(),
        ),
    }
}

/// A `serde_yaml::Value` as a JSON value, variant for variant: numbers as
/// the text `serde_yaml` writes for them, each mapping as a list of
/// `[key, value]` pairs, a tagged value as the value it tags. The result is
/// not stated: it is the conversion half of `yaml_document`.
#[verifier::external_body]
fn yaml_tree_value(value: &serde_yaml::Value) -> JsonValue {
    match value {
        serde_yaml::Value::Null => JsonValue::Null,
        serde_yaml::Value::Bool(flag) => JsonValue::Bool(*flag),
        serde_yaml::Value::Number(number) => JsonValue::Number(number.to_string()),
        serde_yaml::Value::String(text) => JsonValue::String(text.clone()),
        serde_yaml::Value::Sequence(items) => JsonValue::Array(items.iter().map(yaml_tree_value).collect()),
        serde_yaml::Value::Mapping(members) => JsonValue::Array(
            members.iter().map(|(key, value)| JsonValue::Array(vec![yaml_tree_value(key), yaml_tree_value(value)])).collect(),
        ),
        serde_yaml::Value::Tagged(tagged) => yaml_tree_value(&tagged.value),
    }
}

/// `serde_json::from_slice` into a `serde_json::Value`. The tree it reads,
/// and the text of the error it refuses the bytes with, depend on the bytes
/// alone; they are named by `json_document_of`, not stated.
#[verifier::external_body]
fn json_document(bytes: &[u8]) -> (r: Result<JsonValue, String>)
    ensures
        json_document_of(bytes@) == match r {
            Ok(v) => Ok::<Json, Seq<char>>(json_of(v)),
            Err(e) => Err::<Json, Seq<char>>(e@),
        },
{
    match serde_json::from_slice::<serde_json::Value>(bytes) {
        Ok(value) => Ok(json_tree_value(&value)),
        Err(error) => Err(error.to_string()),
    }
}

/// `serde_yaml::from_slice` into a `serde_yaml::Value`, with what its root
/// says read by `as_mapping`, `get`, `as_u64`, and `as_str`. What it reads
/// depends on the bytes alone; it is named by `yaml_document_of`, not
/// stated.
#[verifier::external_body]
fn yaml_document(bytes: &[u8]) -> (r: Result<YamlDocument, String>)
    ensures
        yaml_document_of(bytes@) == match r {
            Ok(d) => Ok::<(Json, bool, Option<Option<u64>>, Option<Seq<char>>, bool), Seq<char>>(yaml_facts(d)),
            Err(e) => Err::<(Json, bool, Option<Option<u64>>, Option<Seq<char>>, bool), Seq<char>>(e@),
        },
{
    let value: serde_yaml::Value = serde_yaml::from_slice(bytes).map_err(|error| error.to_string())?;
    let root = value.as_mapping();
    let entry = |name: &str| root.and_then(|members| members.get(name));
    Ok(YamlDocument {
        tree: yaml_tree_value(&value),
        root_is_mapping: root.is_some(),
        version: entry("version").map(serde_yaml::Value::as_u64),
        schema: entry("schema").and_then(serde_yaml::Value::as_str).map(str::to_owned),
        has_renderflow: entry("renderflow").is_some(),
    })
}

// ---------------------------------------------------------------------------
// Pipeline v3 configuration documents
// ---------------------------------------------------------------------------

/// The checks a Pipeline v3 configuration document passes before it is read
/// as a configuration: it is YAML, holds no null anywhere (mapping keys
/// included), and its root declares Pipeline v3 (see `version_diagnosis`).
pub fn check_pipeline_v3_document(bytes: &[u8]) -> (r: Result<(), PipelinePlanningFailure>)
    ensures
        yaml_document_of(bytes@) matches Err(e) ==> (r matches Err(f) && single_failure(
            f,
            ErrorCategory::Configuration,
            PipelinePlanningDiagnosticCode::InvalidYaml,
            "invalid Pipeline v3 YAML: "@ + e,
            None,
            None,
        )),
        yaml_document_of(bytes@) matches Ok(d) && json_has_null(d.0) ==> (r matches Err(f) && single_failure(
            f,
            ErrorCategory::Configuration,
            PipelinePlanningDiagnosticCode::InvalidConfiguration,
            "Pipeline v3 configuration must not contain null values"@,
            None,
            Some("configuration"@),
        )),
        match yaml_document_of(bytes@) {
            Ok(d) => !json_has_null(d.0) ==> {
                &&& (r is Ok <==> version_diagnosis(d.1, d.2, d.3, d.4) is None)
                &&& (r matches Err(f) ==> f.category == ErrorCategory::Configuration && Some(f.diagnostics@[0].code)
                    == version_diagnosis(d.1, d.2, d.3, d.4) && refusal_at(
                    f,
                    f.diagnostics@[0].code,
                    None,
                    version_field(d.1, d.2, d.3, d.4),
                ))
            },
            Err(_) => true,
        },
{
    let document = match yaml_document(bytes) {
        Ok(d) => d,
        Err(error) => {
            return Err(planning_failure(
                ErrorCategory::Configuration,
                PipelinePlanningDiagnosticCode::InvalidYaml,
                join2("invalid Pipeline v3 YAML: ", error.as_str()),
                None,
                None,
                Vec::new(),
            ));
        },
    };
    if contains_null(&document.tree) {
        return Err(configuration_failure(
            PipelinePlanningDiagnosticCode::InvalidConfiguration,
            crate::text::owned("Pipeline v3 configuration must not contain null values"),
            None,
            "configuration",
        ));
    }
    let schema = match &document.schema {
        Some(s) => Some(s.as_str()),
        None => None,
    };
    diagnose_pipeline_version(document.root_is_mapping, document.version, schema, document.has_renderflow)
}

// ---------------------------------------------------------------------------
// JSON documents read beside their typed reading
// ---------------------------------------------------------------------------

/// The checks a provider registration document passes beside its typed
/// reading: it is JSON and holds no null anywhere.
pub fn check_registration_json(bytes: &[u8]) -> (r: Result<(), Error>)
    ensures
        json_document_of(bytes@) matches Err(e) ==> (r matches Err(x) && x.spec_category()
            == ErrorCategory::Configuration && x.spec_message() == "invalid provider registration JSON: "@ + e),
        json_document_of(bytes@) matches Ok(j) ==> (r is Ok <==> !json_has_null(j)),
        json_document_of(bytes@) matches Ok(j) && json_has_null(j) ==> (r matches Err(x) && x.spec_category()
            == ErrorCategory::Configuration && x.spec_message()
            == "provider registration JSON must not contain null values"@),
{
    match json_document(bytes) {
        Err(error) => Err(invalid(join2("invalid provider registration JSON: ", error.as_str()))),
        Ok(tree) => {
            if contains_null(&tree) {
                Err(invalid(crate::text::owned("provider registration JSON must not contain null values")))
            } else {
                Ok(())
            }
        },
    }
}

/// A planning failure read from a JSON document: the document is JSON,
/// holds no null anywhere, and the failure read from it is valid. `failure`
/// is what the document's typed reading gave; it is handed back unchanged.
pub fn planning_failure_from_document(failure: PipelinePlanningFailure, bytes: &[u8]) -> (r: Result<
    PipelinePlanningFailure,
    PipelinePlanningFailure,
>)
    ensures
        r is Ok <==> (json_document_of(bytes@) matches Ok(j) && !json_has_null(j) && failure.spec_valid()),
        r matches Ok(g) ==> g == failure,
        json_document_of(bytes@) matches Err(e) ==> (r matches Err(f) && single_failure(
            f,
            ErrorCategory::Configuration,
            PipelinePlanningDiagnosticCode::InvalidJson,
            "invalid Pipeline v3 planning failure JSON: "@ + e,
            None,
            None,
        )),
        json_document_of(bytes@) matches Ok(j) && json_has_null(j) ==> (r matches Err(f) && single_failure(
            f,
            ErrorCategory::Configuration,
            PipelinePlanningDiagnosticCode::InvalidConfiguration,
            "Pipeline v3 planning failure JSON must not contain null values"@,
            None,
            Some("failure"@),
        )),
        r matches Err(f) ==> one_refusal(f),
{
    match json_document(bytes) {
        Err(error) => {
            return Err(planning_failure(
                ErrorCategory::Configuration,
                PipelinePlanningDiagnosticCode::InvalidJson,
                join2("invalid Pipeline v3 planning failure JSON: ", error.as_str()),
                None,
                None,
                Vec::new(),
            ));
        },
        Ok(tree) => {
            if contains_null(&tree) {
                return Err(configuration_failure(
                    PipelinePlanningDiagnosticCode::InvalidConfiguration,
                    crate::text::owned("Pipeline v3 planning failure JSON must not contain null values"),
                    None,
                    "failure",
                ));
            }
        },
    }
    failure.validate()?;
    Ok(failure)
}

/// A resolved plan read from a JSON document: the document is JSON, its
/// tree is exactly the plan's normalized JSON form (each object's members
/// in ascending key order, the order of `serde_json`'s map), and the plan
/// validates. `plan` is what the document's typed reading gave; it is
/// handed back unchanged.
pub fn plan_from_document(plan: PipelineV3Plan, bytes: &[u8]) -> (r: Result<PipelineV3Plan, PipelinePlanningFailure>)
    ensures
        r matches Ok(p) ==> p == plan,
        r is Ok ==> json_document_of(bytes@) == Ok::<Json, Seq<char>>(pipeline_v3_plan_json(plan)) && plan.envelope_valid()
            && payload_rules(plan.payload) && exists|c: PipelineV3Configuration| #[trigger]
            authored_from_plan(c, plan.payload) && configuration_matches(c, plan.payload),
        (json_document_of(bytes@) == Ok::<Json, Seq<char>>(pipeline_v3_plan_json(plan)) && plan.envelope_valid()
            && payload_rules(plan.payload) && forall|c: PipelineV3Configuration| #[trigger]
            authored_from_plan(c, plan.payload) ==> configuration_matches(c, plan.payload)) ==> r is Ok,
        json_document_of(bytes@) matches Err(e) ==> (r matches Err(f) && single_failure(
            f,
            ErrorCategory::Configuration,
            PipelinePlanningDiagnosticCode::InvalidJson,
            "invalid Pipeline v3 plan JSON: "@ + e,
            None,
            None,
        )),
        json_document_of(bytes@) matches Ok(j) && j != pipeline_v3_plan_json(plan) ==> (r matches Err(f)
            && single_failure(
            f,
            ErrorCategory::Configuration,
            PipelinePlanningDiagnosticCode::InvalidResolvedPlan,
            "resolved plan JSON must use the normalized contract representation"@,
            None,
            Some("plan"@),
        )),
        r matches Err(f) ==> one_refusal(f),
{
    match json_document(bytes) {
        Err(error) => {
            return Err(planning_failure(
                ErrorCategory::Configuration,
                PipelinePlanningDiagnosticCode::InvalidJson,
                join2("invalid Pipeline v3 plan JSON: ", error.as_str()),
                None,
                None,
                Vec::new(),
            ));
        },
        Ok(tree) => {
            let normalized = pipeline_v3_plan_value(&plan);
            if !same_json(&tree, &normalized) {
                return Err(configuration_failure(
                    PipelinePlanningDiagnosticCode::InvalidResolvedPlan,
                    crate::text::owned("resolved plan JSON must use the normalized contract representation"),
                    None,
                    "plan",
                ));
            }
        },
    }
    plan.validate()?;
    Ok(plan)
}

/// A provider invocation request read from a JSON document: the document
/// is JSON, its tree is exactly the request's normalized JSON form, and the
/// request is valid. `request` is what the document's typed reading gave;
/// it is handed back unchanged.
pub fn invocation_request_from_document(request: ProviderInvocationRequest, bytes: &[u8]) -> (r: Result<
    ProviderInvocationRequest,
    Error,
>)
    ensures
        r is Ok <==> json_document_of(bytes@) == Ok::<Json, Seq<char>>(provider_invocation_request_json(request))
            && request.spec_valid(),
        r matches Ok(q) ==> q == request,
        r matches Err(x) ==> x.spec_category() == ErrorCategory::Configuration,
        json_document_of(bytes@) matches Err(e) ==> (r matches Err(x) && x.spec_message()
            == "invalid Pipeline v3 provider invocation JSON: "@ + e),
        json_document_of(bytes@) matches Ok(j) && j != provider_invocation_request_json(request) ==> (r matches Err(x)
            && x.spec_message() == "Pipeline v3 provider invocation JSON must use the normalized contract representation"@),
{
    match json_document(bytes) {
        Err(error) => {
            return Err(invalid(join2("invalid Pipeline v3 provider invocation JSON: ", error.as_str())));
        },
        Ok(tree) => {
            let normalized = provider_invocation_request_value(&request);
            if !same_json(&tree, &normalized) {
                return Err(invalid(crate::text::owned(
                    "Pipeline v3 provider invocation JSON must use the normalized contract representation",
                )));
            }
        },
    }
    request.validate()?;
    Ok(request)
}

} // verus!
