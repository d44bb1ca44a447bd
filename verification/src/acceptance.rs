//! Accepting what a provider left in its candidate root: the content
//! identity of an artifact's bytes, and the check of each declared output's
//! reobservation against the provider's own execution report.
use vstd::prelude::*;

use crate::canonical::{
    artifact_kind_name, artifact_kind_name_text, artifact_role_name, artifact_role_name_text, jnum, jstr,
    lemma_resolved_pipeline_stage_encodable, member, provider_execution_bounds_json,
    provider_execution_bounds_value, resolved_pipeline_stage_json, resolved_pipeline_stage_value, stream_role_name,
    stream_role_name_text,
};
use crate::error::{Error, ErrorCategory};
use crate::execution::{ArtifactKind, ArtifactObservation, ProviderExecutionBounds};
use crate::invocation::{PROVIDER_INVOCATION_EXECUTION_SEMANTICS_V1, PROVIDER_INVOCATION_SCHEMA_V1};
use crate::json::{
    Json, JsonValue, canonical_digest, canonical_sha256, encodable_sha256, json_items, json_members, json_of,
    sha256_hex, sha256_of, value_encodable,
};
use crate::planning::{PlannedExpectedArtifact, ResolvedPipelineStage};
use crate::provider::{ArtifactRole, StreamRole};
use crate::text::{decimal, is_sha256_hex, join3, text_eq};

verus! {

/// What a fresh observation of an artifact's content found.
#[derive(Debug, Clone)]
pub struct ArtifactContentObservation {
    pub file_count: u64,
    pub byte_count: u64,
    pub sha256: String,
}

/// The byte count and lowercase hexadecimal SHA-256 digest of a regular
/// file's content.
pub fn file_content_identity(content: &[u8]) -> (r: (u64, String))
    ensures
        r.0 == content@.len(),
        r.1@ == sha256_hex(content@),
        is_sha256_hex(r.1@),
{
    let n = content.len();
    (n as u64, sha256_of(content))
}

/// Entry `i` is the first entry of the report for this port.
pub open spec fn first_for_port(reported: Seq<ArtifactObservation>, port: Seq<char>, i: int) -> bool {
    &&& 0 <= i < reported.len()
    &&& reported[i].port@ == port
    &&& forall|j: int| 0 <= j < i ==> (#[trigger] reported[j]).port@ != port
}

/// A reported output agrees with the expected artifact, its kind, and what
/// was observed of the candidate: path, kind, file and byte counts, digest.
pub open spec fn report_agrees(
    entry: ArtifactObservation,
    expected: PlannedExpectedArtifact,
    kind: ArtifactKind,
    observed: ArtifactContentObservation,
) -> bool {
    &&& entry.relative_path@ == expected.relative_path@
    &&& entry.kind == kind
    &&& entry.file_count == observed.file_count
    &&& entry.byte_count == observed.byte_count
    &&& entry.sha256@ == observed.sha256@
}

/// Check a candidate output, as reobserved before it is accepted, against
/// the first entry the execution report gives for its port.
pub fn check_candidate_output(
    stage_id: &str,
    port: &str,
    expected: &PlannedExpectedArtifact,
    kind: ArtifactKind,
    observed: &ArtifactContentObservation,
    reported: &Vec<ArtifactObservation>,
) -> (r: Result<(), Error>)
    ensures
        r is Ok <==> exists|i: int| #[trigger]
            first_for_port(reported@, port@, i) && report_agrees(reported@[i], *expected, kind, *observed),
        r matches Err(e) ==> e.spec_category() == ErrorCategory::Execution,
        (forall|i: int| 0 <= i < reported@.len() ==> (#[trigger] reported@[i]).port@ != port@) ==> (r matches Err(e)
            && e.spec_message() == "stage "@ + stage_id@ + " execution report omitted output port "@ + port@),
        r matches Err(e) ==> ((exists|i: int| #[trigger] first_for_port(reported@, port@, i)) ==> e.spec_message()
            == "stage "@ + stage_id@ + " candidate output "@ + expected.id@ + " no longer matches its execution report"@),
{
    let mut i: usize = 0;
    while i < reported.len()
        invariant
            i <= reported.len(),
            forall|j: int| 0 <= j < i ==> (#[trigger] reported@[j]).port@ != port@,
        decreases reported.len() - i,
    {
        let entry = &reported[i];
        if text_eq(entry.port.as_str(), port) {
            assert(first_for_port(reported@, port@, i as int));
            proof {
                assert forall|j: int| #[trigger] first_for_port(reported@, port@, j) implies j == i by {
                    if j < i {
                        assert(reported@[j].port@ != port@);
                    } else if j > i {
                        assert(reported@[i as int].port@ != port@);
                    }
                }
            }
            if text_eq(entry.relative_path.as_str(), expected.relative_path.as_str()) && entry.kind == kind
                && entry.file_count == observed.file_count && entry.byte_count == observed.byte_count && text_eq(
                entry.sha256.as_str(),
                observed.sha256.as_str(),
            ) {
                return Ok(());
            }
            let mut message = join3("stage ", stage_id, " candidate output ");
            message.append(expected.id.as_str());
            message.append(" no longer matches its execution report");
            return Err(Error::from_string(ErrorCategory::Execution, message));
        }
        i = i + 1;
    }
    let message = join3("stage ", stage_id, " execution report omitted output port ");
    let mut message = message;
    message.append(port);
    Err(Error::from_string(ErrorCategory::Execution, message))
}


// ---------------------------------------------------------------------------
// The identity of a stage invocation
// ---------------------------------------------------------------------------

/// Accepted evidence of one artifact a stage consumed or produced.
#[derive(Debug, Clone)]
pub struct ArtifactEvidence {
    pub id: String,
    pub port: String,
    pub relative_path: Option<String>,
    pub artifact_type: String,
    pub artifact_role: ArtifactRole,
    pub stream_role: Option<StreamRole>,
    pub kind: ArtifactKind,
    pub file_count: u64,
    pub byte_count: u64,
    pub sha256: String,
}

/// What an accepted dependency stage contributes to a later invocation: its
/// id, its own invocation digest, and the evidence of its outputs.
#[derive(Debug, Clone)]
pub struct DependencyCheckpoint {
    pub stage_id: String,
    pub stage_invocation_sha256: String,
    pub outputs: Vec<ArtifactEvidence>,
}

/// The serialized form of artifact evidence, members in key order, absent
/// optional members left out.
pub open spec fn artifact_evidence_json(e: ArtifactEvidence) -> Json {
    Json::Object(
        seq![
            ("artifact_role"@, Json::Str(artifact_role_name(e.artifact_role))),
            ("artifact_type"@, Json::Str(e.artifact_type@)),
            ("byte_count"@, Json::Number(decimal(e.byte_count as nat))),
            ("file_count"@, Json::Number(decimal(e.file_count as nat))),
            ("id"@, Json::Str(e.id@)),
            ("kind"@, Json::Str(artifact_kind_name(e.kind))),
            ("port"@, Json::Str(e.port@)),
        ] + (match e.relative_path {
            Some(p) => seq![("relative_path"@, Json::Str(p@))],
            None => Seq::<(Seq<char>, Json)>::empty(),
        }) + seq![("sha256"@, Json::Str(e.sha256@))] + (match e.stream_role {
            Some(r) => seq![("stream_role"@, Json::Str(stream_role_name(r)))],
            None => Seq::<(Seq<char>, Json)>::empty(),
        }),
    )
}

pub open spec fn evidence_list_json(values: Seq<ArtifactEvidence>) -> Json {
    Json::Array(values.map_values(|e: ArtifactEvidence| artifact_evidence_json(e)))
}

/// The semantic identity of a dependency: its outputs, id, and invocation
/// digest.
pub open spec fn dependency_json(c: DependencyCheckpoint) -> Json {
    Json::Object(
        seq![
            ("outputs"@, evidence_list_json(c.outputs@)),
            ("stage_id"@, Json::Str(c.stage_id@)),
            ("stage_invocation_sha256"@, Json::Str(c.stage_invocation_sha256@)),
        ],
    )
}

/// The first checkpoint of the stage with this id.
pub open spec fn checkpoint_for(checkpoints: Seq<DependencyCheckpoint>, id: Seq<char>) -> Option<DependencyCheckpoint>
    decreases checkpoints.len(),
{
    if checkpoints.len() == 0 {
        None
    } else {
        match checkpoint_for(checkpoints.drop_last(), id) {
            Some(c) => Some(c),
            None => if checkpoints.last().stage_id@ == id {
                Some(checkpoints.last())
            } else {
                None
            },
        }
    }
}

/// Every dependency of the stage has a checkpoint.
pub open spec fn dependencies_checkpointed(stage: ResolvedPipelineStage, checkpoints: Seq<DependencyCheckpoint>) -> bool {
    forall|i: int| 0 <= i < stage.depends_on@.len() ==> checkpoint_for(checkpoints, #[trigger] stage.depends_on@[i]@) is Some
}

/// The checkpoints of the stage's dependencies, in dependency order.
pub open spec fn dependency_checkpoints(
    stage: ResolvedPipelineStage,
    checkpoints: Seq<DependencyCheckpoint>,
) -> Seq<DependencyCheckpoint> {
    stage.depends_on@.map_values(|d: String| checkpoint_for(checkpoints, d@)->0)
}

/// The identity of an invocation of a stage: the invocation schema and
/// semantics, the execution bounds, the digest of the stage's plan fragment,
/// its provider lock's digest, the evidence of its inputs, and the identity
/// of each dependency.
pub open spec fn stage_invocation_json(
    stage: ResolvedPipelineStage,
    inputs: Seq<ArtifactEvidence>,
    dependencies: Seq<DependencyCheckpoint>,
    bounds: ProviderExecutionBounds,
) -> Json {
    Json::Object(
        seq![
            ("dependencies"@, Json::Array(dependencies.map_values(|c: DependencyCheckpoint| dependency_json(c)))),
            ("execution_bounds"@, provider_execution_bounds_json(bounds)),
            ("execution_semantics"@, Json::Str(PROVIDER_INVOCATION_EXECUTION_SEMANTICS_V1@)),
            ("inputs"@, evidence_list_json(inputs)),
            ("provider_invocation_schema"@, Json::Str(PROVIDER_INVOCATION_SCHEMA_V1@)),
            ("provider_lock_sha256"@, Json::Str(stage.provider_lock.lock_sha256@)),
            ("stage_plan_sha256"@, Json::Str(canonical_digest(resolved_pipeline_stage_json(stage)))),
        ],
    )
}

fn artifact_evidence_value(e: &ArtifactEvidence) -> (v: JsonValue)
    ensures
        json_of(v) == artifact_evidence_json(*e),
{
    let mut m: Vec<(String, JsonValue)> = Vec::new();
    member(&mut m, "artifact_role", jstr(artifact_role_name_text(e.artifact_role)));
    member(&mut m, "artifact_type", jstr(e.artifact_type.as_str()));
    member(&mut m, "byte_count", jnum(e.byte_count));
    member(&mut m, "file_count", jnum(e.file_count));
    member(&mut m, "id", jstr(e.id.as_str()));
    member(&mut m, "kind", jstr(artifact_kind_name_text(e.kind)));
    member(&mut m, "port", jstr(e.port.as_str()));
    match &e.relative_path {
        Some(p) => {
            member(&mut m, "relative_path", jstr(p.as_str()));
        },
        None => {},
    }
    member(&mut m, "sha256", jstr(e.sha256.as_str()));
    match &e.stream_role {
        Some(r) => {
            member(&mut m, "stream_role", jstr(stream_role_name_text(*r)));
        },
        None => {},
    }
    assert(json_members(m@) =~= match artifact_evidence_json(*e) {
        Json::Object(ms) => ms,
        _ => Seq::empty(),
    });
    JsonValue::Object(m)
}

fn evidence_list_value(values: &Vec<ArtifactEvidence>) -> (v: JsonValue)
    ensures
        json_of(v) == evidence_list_json(values@),
{
    let mut items: Vec<JsonValue> = Vec::new();
    let mut i: usize = 0;
    while i < values.len()
        invariant
            i <= values.len(),
            json_items(items@) == values@.take(i as int).map_values(|e: ArtifactEvidence| artifact_evidence_json(e)),
        decreases values.len() - i,
    {
        let v = artifact_evidence_value(&values[i]);
        let ghost before = items@;
        items.push(v);
        assert(items@.drop_last() =~= before);
        assert(values@.take(i + 1).map_values(|e: ArtifactEvidence| artifact_evidence_json(e)) =~= values@.take(
            i as int,
        ).map_values(|e: ArtifactEvidence| artifact_evidence_json(e)).push(artifact_evidence_json(values@[i as int])));
        i = i + 1;
    }
    assert(values@.take(values@.len() as int) =~= values@);
    JsonValue::Array(items)
}

/// The first checkpoint of the stage with this id.
fn find_checkpoint<'a>(checkpoints: &'a Vec<DependencyCheckpoint>, id: &str) -> (r: Option<&'a DependencyCheckpoint>)
    ensures
        match r {
            Some(c) => checkpoint_for(checkpoints@, id@) == Some(*c),
            None => checkpoint_for(checkpoints@, id@) is None,
        },
{
    let mut i: usize = 0;
    while i < checkpoints.len()
        invariant
            i <= checkpoints.len(),
            checkpoint_for(checkpoints@.take(i as int), id@) is None,
        decreases checkpoints.len() - i,
    {
        assert(checkpoints@.take(i + 1).drop_last() =~= checkpoints@.take(i as int));
        if text_eq(checkpoints[i].stage_id.as_str(), id) {
            proof {
                lemma_checkpoint_prefix(checkpoints@, id@, i + 1);
            }
            return Some(&checkpoints[i]);
        }
        i = i + 1;
    }
    assert(checkpoints@.take(checkpoints@.len() as int) =~= checkpoints@);
    None
}

proof fn lemma_checkpoint_prefix(checkpoints: Seq<DependencyCheckpoint>, id: Seq<char>, n: int)
    requires
        0 <= n <= checkpoints.len(),
        checkpoint_for(checkpoints.take(n), id) is Some,
    ensures
        checkpoint_for(checkpoints, id) == checkpoint_for(checkpoints.take(n), id),
    decreases checkpoints.len() - n,
{
    if n < checkpoints.len() {
        assert(checkpoints.take(n + 1).drop_last() =~= checkpoints.take(n));
        lemma_checkpoint_prefix(checkpoints, id, n + 1);
    } else {
        assert(checkpoints.take(n) =~= checkpoints);
    }
}

/// The digest of a stage invocation's identity, over the evidence of its
/// inputs and the checkpoints of its dependencies; refused when a dependency
/// has no checkpoint.
pub fn stage_invocation_sha256(
    stage: &ResolvedPipelineStage,
    inputs: &Vec<ArtifactEvidence>,
    checkpoints: &Vec<DependencyCheckpoint>,
    bounds: ProviderExecutionBounds,
) -> (r: Result<String, Error>)
    ensures
        !dependencies_checkpointed(*stage, checkpoints@) ==> (r matches Err(e) && e.spec_category() == ErrorCategory::State),
        dependencies_checkpointed(*stage, checkpoints@) ==> (r is Ok <==> value_encodable(
            stage_invocation_json(*stage, inputs@, dependency_checkpoints(*stage, checkpoints@), bounds),
        )),
        r matches Ok(d) ==> d@ == canonical_digest(
            stage_invocation_json(*stage, inputs@, dependency_checkpoints(*stage, checkpoints@), bounds),
        ),
        r matches Err(e) ==> e.spec_category() == ErrorCategory::State || e.spec_category() == ErrorCategory::Internal,
{
    let fragment = resolved_pipeline_stage_value(stage);
    proof {
        lemma_resolved_pipeline_stage_encodable(*stage);
    }
    let stage_plan_sha256 = encodable_sha256(&fragment);
    let ghost expected = dependency_checkpoints(*stage, checkpoints@);
    let mut dependencies: Vec<JsonValue> = Vec::new();
    let mut i: usize = 0;
    while i < stage.depends_on.len()
        invariant
            i <= stage.depends_on.len(),
            expected == dependency_checkpoints(*stage, checkpoints@),
            forall|j: int| 0 <= j < i ==> checkpoint_for(checkpoints@, #[trigger] stage.depends_on@[j]@) is Some,
            json_items(dependencies@) == expected.take(i as int).map_values(|c: DependencyCheckpoint| dependency_json(c)),
        decreases stage.depends_on.len() - i,
    {
        let dependency = &stage.depends_on[i];
        let checkpoint = match find_checkpoint(checkpoints, dependency.as_str()) {
            Some(c) => c,
            None => {
                let mut message = join3("stage ", stage.id.as_str(), " dependency ");
                message.append(dependency.as_str());
                message.append(" has no accepted checkpoint");
                return Err(Error::from_string(ErrorCategory::State, message));
            },
        };
        let mut m: Vec<(String, JsonValue)> = Vec::new();
        member(&mut m, "outputs", evidence_list_value(&checkpoint.outputs));
        member(&mut m, "stage_id", jstr(checkpoint.stage_id.as_str()));
        member(&mut m, "stage_invocation_sha256", jstr(checkpoint.stage_invocation_sha256.as_str()));
        assert(expected[i as int] == *checkpoint);
        assert(json_members(m@) =~= match dependency_json(*checkpoint) {
            Json::Object(ms) => ms,
            _ => Seq::empty(),
        });
        assert(json_of(JsonValue::Object(m)) == dependency_json(*checkpoint));
        let ghost before = dependencies@;
        dependencies.push(JsonValue::Object(m));
        assert(dependencies@.drop_last() =~= before);
        assert(expected.take(i + 1).map_values(|c: DependencyCheckpoint| dependency_json(c)) =~= expected.take(
            i as int,
        ).map_values(|c: DependencyCheckpoint| dependency_json(c)).push(dependency_json(expected[i as int])));
        i = i + 1;
    }
    assert(expected.take(expected.len() as int) =~= expected);
    assert(json_of(JsonValue::Array(dependencies)) == Json::Array(
        expected.map_values(|c: DependencyCheckpoint| dependency_json(c)),
    ));
    let mut identity: Vec<(String, JsonValue)> = Vec::new();
    member(&mut identity, "dependencies", JsonValue::Array(dependencies));
    member(&mut identity, "execution_bounds", provider_execution_bounds_value(&bounds));
    member(&mut identity, "execution_semantics", jstr(PROVIDER_INVOCATION_EXECUTION_SEMANTICS_V1));
    member(&mut identity, "inputs", evidence_list_value(inputs));
    member(&mut identity, "provider_invocation_schema", jstr(PROVIDER_INVOCATION_SCHEMA_V1));
    member(&mut identity, "provider_lock_sha256", jstr(stage.provider_lock.lock_sha256.as_str()));
    member(&mut identity, "stage_plan_sha256", jstr(stage_plan_sha256.as_str()));
    let value = JsonValue::Object(identity);
    assert(stage_plan_sha256@ == canonical_digest(resolved_pipeline_stage_json(*stage)));
    assert(json_members(identity@) =~= match stage_invocation_json(*stage, inputs@, expected, bounds) {
        Json::Object(ms) => ms,
        _ => Seq::empty(),
    });
    assert(json_of(value) == stage_invocation_json(*stage, inputs@, expected, bounds));
    match canonical_sha256(&value) {
        Some(digest) => Ok(digest),
        None => Err(Error::new(ErrorCategory::Internal, "failed to identify the stage invocation")),
    }
}

} // verus!
