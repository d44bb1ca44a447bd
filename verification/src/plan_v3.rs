//! The resolved Pipeline v3 plan document: its payload rules, its digest,
//! its canonical bytes, and the resolution that produces it.
use vstd::prelude::*;

use crate::canonical::{
    lemma_pipeline_v3_plan_encodable, pipeline_v3_configuration_json, pipeline_v3_plan_json,
    pipeline_v3_plan_payload_json, pipeline_v3_plan_payload_value, pipeline_v3_plan_value,
    lemma_pipeline_v3_plan_payload_encodable,
};
use crate::error::ErrorCategory;
use crate::json::{canonical, canonical_digest, encodable_sha256, json_of, well_ordered, write_canonical};
use crate::plan::{
    ArtifactShape, ContractTable, planned_artifact_matches, planned_binding_matches, port_named, resolve_stage_bindings,
    resolved_stage_valid, stage_bindings_resolve, validate_resolved_stage,
};
use crate::planning::{
    AuthoredInputBinding, AuthoredOutputBinding, AuthoredPipelineInput, AuthoredPipelineStage, CANONICAL_JSON_SCHEMA_V1,
    ExpectedArtifact, FinalOutputRequirement, NormalizedPlanningPolicy, PIPELINE_PLAN_SCHEMA_V1, PIPELINE_V3_SCHEMA,
    PipelineInputBinding, PipelineInputIdentity, PipelineInputKind, PipelinePlanningContext,
    PipelinePlanningDiagnosticCode, PipelinePlanningFailure, PipelineV3Configuration, PipelineV3Plan,
    PipelineV3PlanPayload, PlannedExpectedArtifact, PlannedOutputBinding, PlannedProviderResolutionAttempt,
    ResolvedPipelineStage, configuration_failure, reason_codes, single_failure, normalize_policy, planning_failure, stable_resolution_attempt,
    validate_local_id, validate_normalized_policy,
};
use crate::authored::{input_ids, intent_candidates};
use crate::provider::{
    ArtifactPort, CapabilityBehavior, CapabilityDeclaration, ComponentRequirement, ComputeRequirements,
    ConfigurationSchemaReference, ProviderRequirements, SideEffect,
};
use crate::provider_runtime::{ProviderCandidate, ProviderResolutionAttempt, ProviderResolutionRequest};
use crate::registry::{
    ExecutableObservation, ProviderRegistration, ProviderRegistry, attempt_matches, attempts_match, availability_reasons, first_available, lock_payload_for, observed_digest, selections_representable,
    slot_available, slot_registration,
};
use crate::text::{is_local_id, is_printable_text, is_sha256_hex, join2, join3, owned, text_eq};

verus! {

broadcast use vstd::seq_lib::group_seq_properties;

// ---------------------------------------------------------------------------
// Artifact contracts, stage by stage
// ---------------------------------------------------------------------------

/// The contracts of the declared inputs.
pub open spec fn identity_table(inputs: Seq<PipelineInputIdentity>) -> Map<Seq<char>, ArtifactShape>
    decreases inputs.len(),
{
    if inputs.len() == 0 {
        Map::empty()
    } else {
        identity_table(inputs.drop_last()).insert(
            inputs.last().id@,
            (inputs.last().artifact_type@, inputs.last().stream_role),
        )
    }
}

/// The contracts of the authored inputs.
pub open spec fn authored_table(inputs: Seq<AuthoredPipelineInput>) -> Map<Seq<char>, ArtifactShape>
    decreases inputs.len(),
{
    if inputs.len() == 0 {
        Map::empty()
    } else {
        authored_table(inputs.drop_last()).insert(
            inputs.last().id@,
            (inputs.last().artifact_type@, inputs.last().stream_role),
        )
    }
}

/// The contracts after recording each planned artifact.
pub open spec fn record_artifacts(
    table: Map<Seq<char>, ArtifactShape>,
    artifacts: Seq<PlannedExpectedArtifact>,
) -> Map<Seq<char>, ArtifactShape>
    decreases artifacts.len(),
{
    if artifacts.len() == 0 {
        table
    } else {
        record_artifacts(table, artifacts.drop_last()).insert(
            artifacts.last().id@,
            (artifacts.last().artifact_type@, artifacts.last().stream_role),
        )
    }
}

/// The contracts after recording each artifact of each planned binding.
pub open spec fn record_outputs(
    table: Map<Seq<char>, ArtifactShape>,
    outputs: Seq<PlannedOutputBinding>,
) -> Map<Seq<char>, ArtifactShape>
    decreases outputs.len(),
{
    if outputs.len() == 0 {
        table
    } else {
        record_artifacts(record_outputs(table, outputs.drop_last()), outputs.last().artifacts@)
    }
}

/// The contracts known before resolved stage `k`: the inputs, then every
/// artifact the earlier stages produce.
pub open spec fn table_before(
    inputs: Seq<PipelineInputIdentity>,
    stages: Seq<ResolvedPipelineStage>,
    k: int,
) -> Map<Seq<char>, ArtifactShape>
    decreases k,
{
    if k <= 0 {
        identity_table(inputs)
    } else {
        record_outputs(table_before(inputs, stages, k - 1), stages[k - 1].outputs@)
    }
}

fn record_planned_outputs(table: &mut ContractTable, outputs: &Vec<PlannedOutputBinding>)
    ensures
        final(table).contracts() == record_outputs(old(table).contracts(), outputs@),
{
    let ghost start = table.contracts();
    let mut i: usize = 0;
    while i < outputs.len()
        invariant
            i <= outputs.len(),
            table.contracts() == record_outputs(start, outputs@.take(i as int)),
        decreases outputs.len() - i,
    {
        let artifacts = &outputs[i].artifacts;
        let ghost base = table.contracts();
        let mut k: usize = 0;
        while k < artifacts.len()
            invariant
                *artifacts == outputs@[i as int].artifacts,
                k <= artifacts.len(),
                table.contracts() == record_artifacts(base, artifacts@.take(k as int)),
            decreases artifacts.len() - k,
        {
            let a = &artifacts[k];
            table.insert(a.id.as_str(), a.artifact_type.as_str(), a.stream_role);
            assert(artifacts@.take(k + 1).drop_last() =~= artifacts@.take(k as int));
            assert(artifacts@.take(k + 1).last() == *a);
            k = k + 1;
        }
        assert(artifacts@.take(artifacts@.len() as int) =~= artifacts@);
        assert(outputs@.take(i + 1).drop_last() =~= outputs@.take(i as int));
        assert(outputs@.take(i + 1).last() == outputs@[i as int]);
        i = i + 1;
    }
    assert(outputs@.take(outputs@.len() as int) =~= outputs@);
}

// ---------------------------------------------------------------------------
// The payload
// ---------------------------------------------------------------------------

/// Every rule of a payload that does not go through its authored
/// configuration.
pub open spec fn payload_rules(payload: PipelineV3PlanPayload) -> bool {
    let inputs = payload.inputs@;
    let stages = payload.stages@;
    &&& payload.pipeline_schema@ == PIPELINE_V3_SCHEMA@
    &&& is_printable_text(payload.pipeline_name@)
    &&& is_sha256_hex(payload.configuration_sha256@)
    &&& payload.policy.spec_valid()
    &&& forall|i: int|
        0 <= i < inputs.len() ==> is_sha256_hex((#[trigger] inputs[i]).content_sha256@) && (inputs[i].kind
            == PipelineInputKind::File ==> inputs[i].file_count == 1)
    &&& forall|k: int|
        0 <= k < stages.len() ==> #[trigger] resolved_stage_valid(stages[k], payload.policy, table_before(inputs, stages, k))
}

pub open spec fn input_from_identity(input: AuthoredPipelineInput, identity: PipelineInputIdentity) -> bool {
    &&& input.id == identity.id
    &&& input.artifact_type == identity.artifact_type
    &&& input.artifact_role == identity.artifact_role
    &&& input.stream_role == identity.stream_role
}

pub open spec fn input_binding_same(a: AuthoredInputBinding, b: AuthoredInputBinding) -> bool {
    a.port == b.port && a.artifacts@ == b.artifacts@
}

pub open spec fn output_from_planned(a: AuthoredOutputBinding, p: PlannedOutputBinding) -> bool {
    &&& a.port@ == p.port@
    &&& a.artifacts@.len() == p.artifacts@.len()
    &&& forall|k: int|
        0 <= k < a.artifacts@.len() ==> (#[trigger] a.artifacts@[k]).id@ == p.artifacts@[k].id@
            && a.artifacts@[k].relative_path@ == p.artifacts@[k].relative_path@
}

proof fn lemma_planned_records_authored(planned: PlannedOutputBinding, binding: AuthoredOutputBinding, ports: Seq<ArtifactPort>)
    requires
        planned_binding_matches(planned, binding, ports),
    ensures
        output_from_planned(binding, planned),
{
    assert forall|x: int| 0 <= x < binding.artifacts@.len() implies (#[trigger] binding.artifacts@[x]).id@
        == planned.artifacts@[x].id@ && binding.artifacts@[x].relative_path@ == planned.artifacts@[x].relative_path@ by {
        assert(planned_artifact_matches(
            planned.artifacts@[x],
            binding.artifacts@[x].id@,
            binding.artifacts@[x].relative_path@,
            port_named(ports, binding.port@)->0,
        ));
    }
}

pub open spec fn final_output_same(a: FinalOutputRequirement, b: FinalOutputRequirement) -> bool {
    a.id == b.id && a.artifact == b.artifact && a.required_validations@ == b.required_validations@
}

/// The authored stage a resolved stage records.
pub open spec fn stage_from_resolved(a: AuthoredPipelineStage, r: ResolvedPipelineStage) -> bool {
    &&& a.id == r.id
    &&& a.depends_on@ == r.depends_on@
    &&& a.capability == r.capability_requirement
    &&& a.provider.replacement == r.provider_selection.replacement
    &&& a.provider.primary == r.provider_selection.primary
    &&& a.provider.fallbacks@ == r.provider_selection.fallbacks@
    &&& a.inputs@.len() == r.inputs@.len()
    &&& forall|i: int| 0 <= i < a.inputs@.len() ==> input_binding_same(#[trigger] a.inputs@[i], r.inputs@[i])
    &&& a.outputs@.len() == r.outputs@.len()
    &&& forall|i: int| 0 <= i < a.outputs@.len() ==> output_from_planned(#[trigger] a.outputs@[i], r.outputs@[i])
    &&& a.validations@ == r.validations@
}

/// The authored configuration a payload records: its schema, name, input
/// declarations, authored stages, and final outputs, with no description.
pub open spec fn authored_from_plan(c: PipelineV3Configuration, payload: PipelineV3PlanPayload) -> bool {
    &&& c.schema == payload.pipeline_schema
    &&& c.name == payload.pipeline_name
    &&& c.description@.len() == 0
    &&& c.inputs@.len() == payload.inputs@.len()
    &&& forall|i: int| 0 <= i < c.inputs@.len() ==> input_from_identity(#[trigger] c.inputs@[i], payload.inputs@[i])
    &&& c.stages@.len() == payload.stages@.len()
    &&& forall|k: int| 0 <= k < c.stages@.len() ==> stage_from_resolved(#[trigger] c.stages@[k], payload.stages@[k])
    &&& c.outputs@.len() == payload.outputs@.len()
    &&& forall|i: int| 0 <= i < c.outputs@.len() ==> final_output_same(#[trigger] c.outputs@[i], payload.outputs@[i])
}

/// The recorded configuration is valid and its semantic digest is the one
/// the payload names.
pub open spec fn configuration_matches(c: PipelineV3Configuration, payload: PipelineV3PlanPayload) -> bool {
    c.spec_valid() && canonical_digest(pipeline_v3_configuration_json(c)) == payload.configuration_sha256@
}

// ---------------------------------------------------------------------------
// Provider resolution of each stage
// ---------------------------------------------------------------------------

/// A resolution request made for an authored stage under a policy: the
/// stage's capability requirement and candidates, the policy's effects,
/// network stance, and host.
pub open spec fn request_for(
    request: ProviderResolutionRequest,
    stage: AuthoredPipelineStage,
    policy: NormalizedPlanningPolicy,
) -> bool {
    &&& request.capability_id == stage.capability.id
    &&& request.capability_version_requirement == stage.capability.version_requirement
    &&& request.replacement == stage.provider.replacement
    &&& request.primary == stage.provider.primary
    &&& request.fallbacks@ == stage.provider.fallbacks@
    &&& request.allowed_side_effects@ == policy.allowed_side_effects@
    &&& request.offline == policy.offline
    &&& request.host == policy.host
}

/// The stage's provider is the first available candidate of the stage's
/// request, its executable identified, and the stage records the lock
/// that this selection yields.
pub open spec fn stage_provider_resolved(
    resolved: ResolvedPipelineStage,
    stage: AuthoredPipelineStage,
    registry: ProviderRegistry,
    policy: NormalizedPlanningPolicy,
    observations: Seq<ExecutableObservation>,
) -> bool {
    exists|request: ProviderResolutionRequest, j: int|
        #![trigger request_for(request, stage, policy), first_available(registry, request, observations, j)]
        {
            &&& request_for(request, stage, policy)
            &&& request.spec_valid()
            &&& first_available(registry, request, observations, j)
            &&& is_sha256_hex(observed_digest(observations[j]))
            &&& slot_registration(registry, request, j) is Some
            &&& resolved.provider_lock.spec_valid()
            &&& lock_payload_for(
                resolved.provider_lock.payload,
                slot_registration(registry, request, j)->0,
                request,
                observations[j],
                request.ordered_selections()[j],
            )
        }
}

/// No candidate of the request can be selected: the request is invalid,
/// or the first available candidate, if any, has an executable without an
/// identity.
pub open spec fn request_unresolvable(
    request: ProviderResolutionRequest,
    registry: ProviderRegistry,
    observations: Seq<ExecutableObservation>,
) -> bool {
    ||| !request.spec_valid()
    ||| !selections_representable(request)
    ||| forall|j: int|
        #[trigger] first_available(registry, request, observations, j) ==> !is_sha256_hex(observed_digest(observations[j]))
}

/// The stage's request, under the policy, cannot be resolved.
pub open spec fn stage_unresolvable(
    stage: AuthoredPipelineStage,
    registry: ProviderRegistry,
    policy: NormalizedPlanningPolicy,
    observations: Seq<ExecutableObservation>,
) -> bool {
    exists|request: ProviderResolutionRequest|
        #[trigger] request_for(request, stage, policy) && request_unresolvable(request, registry, observations)
}

/// A normalized policy of the context: valid, with the context's host,
/// network stance, and set of allowed effects.
pub open spec fn policy_from(policy: NormalizedPlanningPolicy, context: PipelinePlanningContext) -> bool {
    &&& policy.spec_valid()
    &&& policy.host == context.host
    &&& policy.offline == context.offline
    &&& forall|e: SideEffect| #[trigger] policy.allowed_side_effects@.contains(e) <==> context.allowed_side_effects@.contains(e)
}

/// Two requests made for the same stage under the same policy agree on
/// every slot: the same candidates, the same registrations, the same
/// availability.
proof fn lemma_requests_agree(
    r1: ProviderResolutionRequest,
    r2: ProviderResolutionRequest,
    stage: AuthoredPipelineStage,
    policy: NormalizedPlanningPolicy,
    registry: ProviderRegistry,
    observations: Seq<ExecutableObservation>,
)
    requires
        request_for(r1, stage, policy),
        request_for(r2, stage, policy),
    ensures
        r1.ordered_candidates() == r2.ordered_candidates(),
        r1.ordered_selections() == r2.ordered_selections(),
        r1.spec_valid() == r2.spec_valid(),
        selections_representable(r1) == selections_representable(r2),
        forall|j: int| #[trigger] slot_registration(registry, r1, j) == slot_registration(registry, r2, j),
        forall|j: int|
            #[trigger] slot_available(registry, r1, observations, j) == slot_available(registry, r2, observations, j),
        forall|j: int|
            #[trigger] first_available(registry, r1, observations, j) == first_available(registry, r2, observations, j),
        forall|j: int|
            #[trigger] crate::registry::slot_reasons(registry, r1, observations, j) == crate::registry::slot_reasons(
                registry,
                r2,
                observations,
                j,
            ),
{
    assert(r1.ordered_candidates() =~= r2.ordered_candidates());
    assert forall|j: int| #[trigger] crate::registry::slot_reasons(registry, r1, observations, j)
        == crate::registry::slot_reasons(registry, r2, observations, j) by {
        match slot_registration(registry, r1, j) {
            Some(registration) => {
                assert(availability_reasons(registration, r1, observations[j]) =~= availability_reasons(
                    registration,
                    r2,
                    observations[j],
                ));
            },
            None => {},
        }
    }
    assert forall|j: int| #[trigger] slot_available(registry, r1, observations, j) == slot_available(registry, r2, observations, j) by {
        match slot_registration(registry, r1, j) {
            Some(registration) => {
                assert(availability_reasons(registration, r1, observations[j]) =~= availability_reasons(
                    registration,
                    r2,
                    observations[j],
                ));
            },
            None => {},
        }
    }
    assert forall|j: int| #[trigger] first_available(registry, r1, observations, j) == first_available(registry, r2, observations, j) by {
        assert(slot_available(registry, r1, observations, j) == slot_available(registry, r2, observations, j));
        if first_available(registry, r1, observations, j) {
            assert forall|i: int| 0 <= i < j implies !#[trigger] slot_available(registry, r2, observations, i) by {
                assert(slot_available(registry, r1, observations, i) == slot_available(registry, r2, observations, i));
            }
        }
        if first_available(registry, r2, observations, j) {
            assert forall|i: int| 0 <= i < j implies !#[trigger] slot_available(registry, r1, observations, i) by {
                assert(slot_available(registry, r1, observations, i) == slot_available(registry, r2, observations, i));
            }
        }
    }
}

/// The registration a stage's request selects under the policy: its first
/// available candidate's, when that candidate's executable has an identity;
/// `None` when the request cannot be resolved.
pub open spec fn chosen_registration(
    stage: AuthoredPipelineStage,
    registry: ProviderRegistry,
    policy: NormalizedPlanningPolicy,
    observations: Seq<ExecutableObservation>,
) -> Option<ProviderRegistration> {
    let request = choose|request: ProviderResolutionRequest| request_for(request, stage, policy);
    if request.spec_valid() && selections_representable(request) && exists|j: int|
        #[trigger] first_available(registry, request, observations, j) {
        let j = choose|j: int| #[trigger] first_available(registry, request, observations, j);
        if is_sha256_hex(observed_digest(observations[j])) {
            slot_registration(registry, request, j)
        } else {
            None
        }
    } else {
        None
    }
}

proof fn lemma_chosen_none(
    stage: AuthoredPipelineStage,
    registry: ProviderRegistry,
    policy: NormalizedPlanningPolicy,
    observations: Seq<ExecutableObservation>,
    request: ProviderResolutionRequest,
)
    requires
        request_for(request, stage, policy),
        request_unresolvable(request, registry, observations),
    ensures
        chosen_registration(stage, registry, policy, observations) is None,
{
    let chosen = choose|r: ProviderResolutionRequest| request_for(r, stage, policy);
    lemma_requests_agree(request, chosen, stage, policy, registry, observations);
    if chosen.spec_valid() && selections_representable(chosen) && exists|j: int|
        #[trigger] first_available(registry, chosen, observations, j) {
        let j = choose|j: int| #[trigger] first_available(registry, chosen, observations, j);
        assert(first_available(registry, request, observations, j));
    }
}

proof fn lemma_chosen_some(
    stage: AuthoredPipelineStage,
    registry: ProviderRegistry,
    policy: NormalizedPlanningPolicy,
    observations: Seq<ExecutableObservation>,
    request: ProviderResolutionRequest,
    j: int,
    registration: ProviderRegistration,
)
    requires
        request_for(request, stage, policy),
        request.spec_valid(),
        selections_representable(request),
        first_available(registry, request, observations, j),
        is_sha256_hex(observed_digest(observations[j])),
        slot_registration(registry, request, j) == Some(registration),
    ensures
        chosen_registration(stage, registry, policy, observations) == Some(registration),
{
    let chosen = choose|r: ProviderResolutionRequest| request_for(r, stage, policy);
    lemma_requests_agree(request, chosen, stage, policy, registry, observations);
    assert(first_available(registry, chosen, observations, j));
    let i = choose|i: int| #[trigger] first_available(registry, chosen, observations, i);
    assert(first_available(registry, request, observations, i));
    if i < j {
        assert(slot_available(registry, request, observations, i));
    } else if j < i {
        assert(slot_available(registry, request, observations, j));
    }
    assert(i == j);
}

/// The contracts after recording each authored artifact with its port's
/// type and stream role.
pub open spec fn record_authored_artifacts(
    table: Map<Seq<char>, ArtifactShape>,
    artifacts: Seq<ExpectedArtifact>,
    port: ArtifactPort,
) -> Map<Seq<char>, ArtifactShape>
    decreases artifacts.len(),
{
    if artifacts.len() == 0 {
        table
    } else {
        record_authored_artifacts(table, artifacts.drop_last(), port).insert(
            artifacts.last().id@,
            (port.artifact_type@, port.stream_role),
        )
    }
}

/// The contracts after recording each artifact of each authored output
/// binding with the contract of the port it binds.
pub open spec fn record_authored(
    table: Map<Seq<char>, ArtifactShape>,
    outputs: Seq<AuthoredOutputBinding>,
    ports: Seq<ArtifactPort>,
) -> Map<Seq<char>, ArtifactShape>
    decreases outputs.len(),
{
    if outputs.len() == 0 {
        table
    } else {
        record_authored_artifacts(
            record_authored(table, outputs.drop_last(), ports),
            outputs.last().artifacts@,
            port_named(ports, outputs.last().port@)->0,
        )
    }
}

/// The contracts known before stage `k` when every earlier stage resolves
/// and binds: the declared inputs, then each earlier stage's outputs with
/// the contracts of its selected capability's ports; `None` once a stage
/// cannot be resolved or bound.
pub open spec fn planned_table(
    configuration: PipelineV3Configuration,
    registry: ProviderRegistry,
    policy: NormalizedPlanningPolicy,
    observations: Seq<Vec<ExecutableObservation>>,
    k: int,
) -> Option<Map<Seq<char>, ArtifactShape>>
    decreases k,
{
    if k <= 0 {
        Some(authored_table(configuration.inputs@))
    } else {
        match planned_table(configuration, registry, policy, observations, k - 1) {
            None => None,
            Some(table) => {
                let stage = configuration.stages@[k - 1];
                match chosen_registration(stage, registry, policy, observations[k - 1]@) {
                    None => None,
                    Some(registration) => {
                        let capability = registration.spec_capability();
                        if stage_bindings_resolve(stage, capability, table) {
                            Some(record_authored(table, stage.outputs@, capability.outputs@))
                        } else {
                            None
                        }
                    },
                }
            },
        }
    }
}

proof fn lemma_planned_table_none(
    configuration: PipelineV3Configuration,
    registry: ProviderRegistry,
    policy: NormalizedPlanningPolicy,
    observations: Seq<Vec<ExecutableObservation>>,
    m: int,
    n: int,
)
    requires
        0 <= m <= n,
        planned_table(configuration, registry, policy, observations, m) is None,
    ensures
        planned_table(configuration, registry, policy, observations, n) is None,
    decreases n - m,
{
    if n > m {
        lemma_planned_table_none(configuration, registry, policy, observations, m, n - 1);
    }
}

proof fn lemma_record_planned_artifacts(
    table: Map<Seq<char>, ArtifactShape>,
    planned: Seq<PlannedExpectedArtifact>,
    authored: Seq<ExpectedArtifact>,
    port: ArtifactPort,
)
    requires
        planned.len() == authored.len(),
        forall|k: int|
            0 <= k < authored.len() ==> planned_artifact_matches(
                #[trigger] planned[k],
                authored[k].id@,
                authored[k].relative_path@,
                port,
            ),
    ensures
        record_artifacts(table, planned) == record_authored_artifacts(table, authored, port),
    decreases planned.len(),
{
    if planned.len() > 0 {
        let n = planned.len() - 1;
        assert(planned_artifact_matches(planned[n], authored[n].id@, authored[n].relative_path@, port));
        lemma_record_planned_artifacts(table, planned.drop_last(), authored.drop_last(), port);
    }
}

proof fn lemma_record_planned_outputs(
    table: Map<Seq<char>, ArtifactShape>,
    planned: Seq<PlannedOutputBinding>,
    authored: Seq<AuthoredOutputBinding>,
    ports: Seq<ArtifactPort>,
)
    requires
        planned.len() == authored.len(),
        forall|i: int| 0 <= i < authored.len() ==> planned_binding_matches(#[trigger] planned[i], authored[i], ports),
    ensures
        record_outputs(table, planned) == record_authored(table, authored, ports),
    decreases planned.len(),
{
    if planned.len() > 0 {
        let n = planned.len() - 1;
        assert(planned_binding_matches(planned[n], authored[n], ports));
        lemma_record_planned_outputs(table, planned.drop_last(), authored.drop_last(), ports);
        lemma_record_planned_artifacts(
            record_outputs(table, planned.drop_last()),
            planned[n].artifacts@,
            authored[n].artifacts@,
            port_named(ports, authored[n].port@)->0,
        );
    }
}

proof fn lemma_first_available_exists(
    registry: ProviderRegistry,
    request: ProviderResolutionRequest,
    observations: Seq<ExecutableObservation>,
    i: int,
)
    requires
        0 <= i < request.ordered_candidates().len(),
        slot_available(registry, request, observations, i),
    ensures
        exists|j: int| #[trigger] first_available(registry, request, observations, j),
    decreases i,
{
    if exists|j: int| 0 <= j < i && #[trigger] slot_available(registry, request, observations, j) {
        let j = choose|j: int| 0 <= j < i && #[trigger] slot_available(registry, request, observations, j);
        lemma_first_available_exists(registry, request, observations, j);
    } else {
        assert(first_available(registry, request, observations, i));
    }
}

fn copy_strings(values: &Vec<String>) -> (r: Vec<String>)
    ensures
        r@ == values@,
{
    let mut r: Vec<String> = Vec::new();
    let mut i: usize = 0;
    while i < values.len()
        invariant
            i <= values.len(),
            r@ == values@.take(i as int),
        decreases values.len() - i,
    {
        r.push(values[i].clone());
        assert(r@ =~= values@.take(i + 1));
        i = i + 1;
    }
    assert(values@.take(values@.len() as int) =~= values@);
    r
}

fn authored_input(identity: &PipelineInputIdentity) -> (r: AuthoredPipelineInput)
    ensures
        input_from_identity(r, *identity),
{
    AuthoredPipelineInput {
        id: identity.id.clone(),
        artifact_type: identity.artifact_type.clone(),
        artifact_role: identity.artifact_role,
        stream_role: identity.stream_role,
    }
}

fn copy_input_binding(b: &AuthoredInputBinding) -> (r: AuthoredInputBinding)
    ensures
        input_binding_same(r, *b),
{
    AuthoredInputBinding { port: b.port.clone(), artifacts: copy_strings(&b.artifacts) }
}

fn authored_output(p: &PlannedOutputBinding) -> (r: AuthoredOutputBinding)
    ensures
        output_from_planned(r, *p),
{
    let mut artifacts: Vec<ExpectedArtifact> = Vec::new();
    let mut k: usize = 0;
    while k < p.artifacts.len()
        invariant
            k <= p.artifacts.len(),
            artifacts@.len() == k,
            forall|j: int|
                0 <= j < k ==> (#[trigger] artifacts@[j]).id == p.artifacts@[j].id && artifacts@[j].relative_path
                    == p.artifacts@[j].relative_path,
        decreases p.artifacts.len() - k,
    {
        artifacts.push(ExpectedArtifact {
            id: p.artifacts[k].id.clone(),
            relative_path: p.artifacts[k].relative_path.clone(),
        });
        k = k + 1;
    }
    AuthoredOutputBinding { port: p.port.clone(), artifacts }
}

fn copy_validation(v: &crate::planning::ArtifactValidation) -> (r: crate::planning::ArtifactValidation)
    ensures
        r == *v,
{
    crate::planning::ArtifactValidation { id: v.id.clone(), artifact: v.artifact.clone(), contract: v.contract.clone() }
}

fn authored_stage(r: &ResolvedPipelineStage) -> (a: AuthoredPipelineStage)
    ensures
        stage_from_resolved(a, *r),
{
    let mut inputs: Vec<AuthoredInputBinding> = Vec::new();
    let mut i: usize = 0;
    while i < r.inputs.len()
        invariant
            i <= r.inputs.len(),
            inputs@.len() == i,
            forall|j: int| 0 <= j < i ==> input_binding_same(#[trigger] inputs@[j], r.inputs@[j]),
        decreases r.inputs.len() - i,
    {
        inputs.push(copy_input_binding(&r.inputs[i]));
        i = i + 1;
    }
    let mut outputs: Vec<AuthoredOutputBinding> = Vec::new();
    let mut o: usize = 0;
    while o < r.outputs.len()
        invariant
            o <= r.outputs.len(),
            outputs@.len() == o,
            forall|j: int| 0 <= j < o ==> output_from_planned(#[trigger] outputs@[j], r.outputs@[j]),
        decreases r.outputs.len() - o,
    {
        outputs.push(authored_output(&r.outputs[o]));
        o = o + 1;
    }
    let mut validations: Vec<crate::planning::ArtifactValidation> = Vec::new();
    let mut v: usize = 0;
    while v < r.validations.len()
        invariant
            v <= r.validations.len(),
            validations@ == r.validations@.take(v as int),
        decreases r.validations.len() - v,
    {
        validations.push(copy_validation(&r.validations[v]));
        assert(validations@ =~= r.validations@.take(v + 1));
        v = v + 1;
    }
    assert(r.validations@.take(r.validations@.len() as int) =~= r.validations@);
    let mut fallbacks: Vec<crate::provider_runtime::ProviderCandidate> = Vec::new();
    let mut f: usize = 0;
    while f < r.provider_selection.fallbacks.len()
        invariant
            f <= r.provider_selection.fallbacks.len(),
            fallbacks@ == r.provider_selection.fallbacks@.take(f as int),
        decreases r.provider_selection.fallbacks.len() - f,
    {
        fallbacks.push(r.provider_selection.fallbacks[f].duplicate());
        assert(fallbacks@ =~= r.provider_selection.fallbacks@.take(f + 1));
        f = f + 1;
    }
    assert(r.provider_selection.fallbacks@.take(r.provider_selection.fallbacks@.len() as int)
        =~= r.provider_selection.fallbacks@);
    let replacement = match &r.provider_selection.replacement {
        Some(c) => Some(c.duplicate()),
        None => None,
    };
    AuthoredPipelineStage {
        id: r.id.clone(),
        depends_on: copy_strings(&r.depends_on),
        capability: crate::planning::CapabilityRequirement {
            id: r.capability_requirement.id.clone(),
            version_requirement: r.capability_requirement.version_requirement.clone(),
        },
        provider: crate::planning::ProviderSelectionIntent {
            replacement,
            primary: r.provider_selection.primary.duplicate(),
            fallbacks,
        },
        inputs,
        outputs,
        validations,
    }
}

/// The authored configuration a payload records.
pub fn authored_configuration_from_plan(payload: &PipelineV3PlanPayload) -> (c: PipelineV3Configuration)
    ensures
        authored_from_plan(c, *payload),
{
    let mut inputs: Vec<AuthoredPipelineInput> = Vec::new();
    let mut i: usize = 0;
    while i < payload.inputs.len()
        invariant
            i <= payload.inputs.len(),
            inputs@.len() == i,
            forall|j: int| 0 <= j < i ==> input_from_identity(#[trigger] inputs@[j], payload.inputs@[j]),
        decreases payload.inputs.len() - i,
    {
        inputs.push(authored_input(&payload.inputs[i]));
        i = i + 1;
    }
    let mut stages: Vec<AuthoredPipelineStage> = Vec::new();
    let mut k: usize = 0;
    while k < payload.stages.len()
        invariant
            k <= payload.stages.len(),
            stages@.len() == k,
            forall|j: int| 0 <= j < k ==> stage_from_resolved(#[trigger] stages@[j], payload.stages@[j]),
        decreases payload.stages.len() - k,
    {
        stages.push(authored_stage(&payload.stages[k]));
        k = k + 1;
    }
    let mut outputs: Vec<FinalOutputRequirement> = Vec::new();
    let mut o: usize = 0;
    while o < payload.outputs.len()
        invariant
            o <= payload.outputs.len(),
            outputs@.len() == o,
            forall|j: int| 0 <= j < o ==> final_output_same(#[trigger] outputs@[j], payload.outputs@[j]),
        decreases payload.outputs.len() - o,
    {
        let out = &payload.outputs[o];
        outputs.push(FinalOutputRequirement {
            id: out.id.clone(),
            artifact: out.artifact.clone(),
            required_validations: copy_strings(&out.required_validations),
        });
        o = o + 1;
    }
    let description = String::new();
    PipelineV3Configuration {
        schema: payload.pipeline_schema.clone(),
        name: payload.pipeline_name.clone(),
        description,
        inputs,
        stages,
        outputs,
    }
}

fn plan_failure(code: PipelinePlanningDiagnosticCode, message: String, field: &str) -> (f: PipelinePlanningFailure)
    ensures
        f.category == ErrorCategory::Configuration,
        single_failure(f, ErrorCategory::Configuration, code, message@, None, Some(field@)),
{
    configuration_failure(code, message, None, field)
}

/// Check a payload: its schema, name, digests, policy, inputs, recorded
/// configuration, and every resolved stage in turn.
pub fn validate_plan_payload(payload: &PipelineV3PlanPayload) -> (r: Result<(), PipelinePlanningFailure>)
    ensures
        (payload_rules(*payload) && forall|c: PipelineV3Configuration| #[trigger]
            authored_from_plan(c, *payload) ==> configuration_matches(c, *payload)) ==> r is Ok,
        r is Ok ==> payload_rules(*payload) && exists|c: PipelineV3Configuration| #[trigger]
            authored_from_plan(c, *payload) && configuration_matches(c, *payload),
        r matches Err(f) ==> crate::planning::one_refusal(f),
{
    if !text_eq(payload.pipeline_schema.as_str(), PIPELINE_V3_SCHEMA) {
        return Err(plan_failure(
            PipelinePlanningDiagnosticCode::InvalidSchema,
            join2("resolved plan targets an unsupported pipeline schema; expected ", PIPELINE_V3_SCHEMA),
            "payload.pipeline_schema",
        ));
    }
    if !crate::text::text_is_printable(payload.pipeline_name.as_str()) {
        return Err(plan_failure(
            PipelinePlanningDiagnosticCode::InvalidResolvedPlan,
            owned("resolved plan pipeline_name must be non-empty and printable"),
            "payload.pipeline_name",
        ));
    }
    if !crate::text::text_is_sha256(payload.configuration_sha256.as_str()) {
        return Err(plan_failure(
            PipelinePlanningDiagnosticCode::DigestMismatch,
            owned("configuration_sha256 must be 64 lowercase hexadecimal characters"),
            "payload.configuration_sha256",
        ));
    }
    validate_normalized_policy(&payload.policy)?;
    let mut i: usize = 0;
    while i < payload.inputs.len()
        invariant
            i <= payload.inputs.len(),
            forall|j: int|
                0 <= j < i ==> is_sha256_hex((#[trigger] payload.inputs@[j]).content_sha256@) && (payload.inputs@[j].kind
                    == PipelineInputKind::File ==> payload.inputs@[j].file_count == 1),
        decreases payload.inputs.len() - i,
    {
        let input = &payload.inputs[i];
        if !crate::text::text_is_sha256(input.content_sha256.as_str()) {
            return Err(plan_failure(
                PipelinePlanningDiagnosticCode::DigestMismatch,
                owned("content_sha256 must be 64 lowercase hexadecimal characters"),
                "payload.inputs.content_sha256",
            ));
        }
        match input.kind {
            PipelineInputKind::File => {
                if input.file_count != 1 {
                    return Err(plan_failure(
                        PipelinePlanningDiagnosticCode::InvalidResolvedPlan,
                        join3("file input ", input.id.as_str(), " must report exactly one file"),
                        "payload.inputs.file_count",
                    ));
                }
            },
            PipelineInputKind::Directory => {},
        }
        i = i + 1;
    }
    let authored = authored_configuration_from_plan(payload);
    let expected = authored.configuration_sha256()?;
    if !text_eq(expected.as_str(), payload.configuration_sha256.as_str()) {
        return Err(plan_failure(
            PipelinePlanningDiagnosticCode::DigestMismatch,
            join2("configuration digest does not match resolved semantic intent; expected ", expected.as_str()),
            "payload.configuration_sha256",
        ));
    }
    assert(configuration_matches(authored, *payload));
    let inputs = &payload.inputs;
    let stages = &payload.stages;
    let mut table = ContractTable::new();
    let mut n: usize = 0;
    while n < inputs.len()
        invariant
            *inputs == payload.inputs,
            n <= inputs.len(),
            table.contracts() == identity_table(inputs@.take(n as int)),
        decreases inputs.len() - n,
    {
        let input = &inputs[n];
        table.insert(input.id.as_str(), input.artifact_type.as_str(), input.stream_role);
        assert(inputs@.take(n + 1).drop_last() =~= inputs@.take(n as int));
        assert(inputs@.take(n + 1).last() == *input);
        n = n + 1;
    }
    assert(inputs@.take(inputs@.len() as int) =~= inputs@);
    let mut k: usize = 0;
    while k < stages.len()
        invariant
            *inputs == payload.inputs,
            *stages == payload.stages,
            k <= stages.len(),
            table.contracts() == table_before(inputs@, stages@, k as int),
            forall|j: int|
                0 <= j < k ==> #[trigger] resolved_stage_valid(stages@[j], payload.policy, table_before(inputs@, stages@, j)),
        decreases stages.len() - k,
    {
        validate_resolved_stage(&stages[k], &payload.policy, &table)?;
        record_planned_outputs(&mut table, &stages[k].outputs);
        k = k + 1;
    }
    Ok(())
}

// ---------------------------------------------------------------------------
// The plan document
// ---------------------------------------------------------------------------

impl PipelineV3Plan {
    /// The envelope names the plan schema, the digest algorithm, and the
    /// canonicalization, and its digest is the payload's canonical digest.
    pub open spec fn envelope_valid(&self) -> bool {
        &&& self.schema@ == PIPELINE_PLAN_SCHEMA_V1@
        &&& self.algorithm@ == "sha256"@
        &&& self.canonicalization@ == CANONICAL_JSON_SCHEMA_V1@
        &&& is_sha256_hex(self.plan_sha256@)
        &&& self.plan_sha256@ == canonical_digest(pipeline_v3_plan_payload_json(self.payload))
    }

    /// A plan over a payload that passes validation, carrying the payload's
    /// canonical digest.
    pub(crate) fn new(payload: PipelineV3PlanPayload) -> (r: Result<Self, PipelinePlanningFailure>)
        ensures
            (payload_rules(payload) && forall|c: PipelineV3Configuration| #[trigger]
                authored_from_plan(c, payload) ==> configuration_matches(c, payload)) ==> r is Ok,
            r matches Ok(plan) ==> plan.payload == payload && plan.envelope_valid() && payload_rules(payload)
                && exists|c: PipelineV3Configuration| #[trigger]
                authored_from_plan(c, payload) && configuration_matches(c, payload),
            r matches Err(f) ==> crate::planning::one_refusal(f),
    {
        validate_plan_payload(&payload)?;
        let value = pipeline_v3_plan_payload_value(&payload);
        proof {
            lemma_pipeline_v3_plan_payload_encodable(payload);
        }
        let digest = encodable_sha256(&value);
        proof {
            reveal_strlit("sha256");
        }
        Ok(PipelineV3Plan {
            schema: owned(PIPELINE_PLAN_SCHEMA_V1),
            algorithm: owned("sha256"),
            canonicalization: owned(CANONICAL_JSON_SCHEMA_V1),
            plan_sha256: digest,
            payload,
        })
    }

    /// Recheck the schema, semantic payload, embedded locks, and digest.
    pub fn validate(&self) -> (r: Result<(), PipelinePlanningFailure>)
        ensures
            (self.envelope_valid() && payload_rules(self.payload) && forall|c: PipelineV3Configuration| #[trigger]
                authored_from_plan(c, self.payload) ==> configuration_matches(c, self.payload)) ==> r is Ok,
            r is Ok ==> self.envelope_valid() && payload_rules(self.payload) && exists|c: PipelineV3Configuration|
                #[trigger] authored_from_plan(c, self.payload) && configuration_matches(c, self.payload),
            r matches Err(f) ==> crate::planning::one_refusal(f),
    {
        if !text_eq(self.schema.as_str(), PIPELINE_PLAN_SCHEMA_V1) {
            return Err(plan_failure(
                PipelinePlanningDiagnosticCode::InvalidSchema,
                join2("unsupported resolved plan schema; expected ", PIPELINE_PLAN_SCHEMA_V1),
                "schema",
            ));
        }
        if !text_eq(self.algorithm.as_str(), "sha256") {
            return Err(plan_failure(
                PipelinePlanningDiagnosticCode::InvalidResolvedPlan,
                owned("unsupported plan digest algorithm; expected sha256"),
                "algorithm",
            ));
        }
        if !text_eq(self.canonicalization.as_str(), CANONICAL_JSON_SCHEMA_V1) {
            return Err(plan_failure(
                PipelinePlanningDiagnosticCode::InvalidResolvedPlan,
                join2("unsupported plan canonicalization; expected ", CANONICAL_JSON_SCHEMA_V1),
                "canonicalization",
            ));
        }
        if !crate::text::text_is_sha256(self.plan_sha256.as_str()) {
            return Err(plan_failure(
                PipelinePlanningDiagnosticCode::DigestMismatch,
                owned("plan_sha256 must be 64 lowercase hexadecimal characters"),
                "plan_sha256",
            ));
        }
        validate_plan_payload(&self.payload)?;
        let value = pipeline_v3_plan_payload_value(&self.payload);
        proof {
            lemma_pipeline_v3_plan_payload_encodable(self.payload);
        }
        let expected = encodable_sha256(&value);
        if !text_eq(expected.as_str(), self.plan_sha256.as_str()) {
            return Err(plan_failure(
                PipelinePlanningDiagnosticCode::DigestMismatch,
                join2("resolved plan digest does not match its canonical payload; expected ", expected.as_str()),
                "plan_sha256",
            ));
        }
        Ok(())
    }

    /// The complete plan with recursively sorted object keys, refused unless
    /// the plan validates.
    pub fn canonical_json_bytes(&self) -> (r: Result<Vec<u8>, PipelinePlanningFailure>)
        ensures
            (self.envelope_valid() && payload_rules(self.payload) && forall|c: PipelineV3Configuration| #[trigger]
                authored_from_plan(c, self.payload) ==> configuration_matches(c, self.payload)) ==> r is Ok,
            r is Ok ==> self.envelope_valid() && payload_rules(self.payload),
            r matches Ok(bytes) ==> bytes@ == canonical(pipeline_v3_plan_json(*self)) && well_ordered(
                pipeline_v3_plan_json(*self),
            ),
            r matches Err(f) ==> crate::planning::one_refusal(f),
    {
        self.validate()?;
        let value = pipeline_v3_plan_value(self);
        proof {
            lemma_pipeline_v3_plan_encodable(*self);
            crate::json::lemma_encodable_well_ordered(pipeline_v3_plan_json(*self));
        }
        let mut out: Vec<u8> = Vec::new();
        let ok = write_canonical(&mut out, &value);
        assert(ok);
        assert(out@ =~= canonical(json_of(value)));
        Ok(out)
    }
}

// ---------------------------------------------------------------------------
// Resolution
// ---------------------------------------------------------------------------

/// Runtime bindings name declared inputs by local id, each at most once,
/// and bind every declared input.
pub open spec fn input_bindings_valid(inputs: Seq<AuthoredPipelineInput>, bindings: Seq<PipelineInputBinding>) -> bool {
    &&& forall|i: int|
        0 <= i < bindings.len() ==> is_local_id((#[trigger] bindings[i]).artifact_id@) && input_ids(inputs).contains(
            bindings[i].artifact_id@,
        )
    &&& forall|i: int, j: int|
        0 <= i < j < bindings.len() ==> (#[trigger] bindings[i]).artifact_id@ != (#[trigger] bindings[j]).artifact_id@
    &&& forall|k: int| 0 <= k < inputs.len() ==> input_bound(bindings, (#[trigger] inputs[k]).id@)
}

/// Some binding supplies this input.
pub open spec fn input_bound(bindings: Seq<PipelineInputBinding>, id: Seq<char>) -> bool {
    exists|i: int| 0 <= i < bindings.len() && (#[trigger] bindings[i]).artifact_id@ == id
}

fn input_failure(code: PipelinePlanningDiagnosticCode, message: String, field: &str) -> (f: PipelinePlanningFailure)
    ensures
        f.category == ErrorCategory::Input,
        single_failure(f, ErrorCategory::Input, code, message@, None, Some(field@)),
{
    planning_failure(ErrorCategory::Input, code, message, None, Some(owned(field)), Vec::new())
}

/// Match the runtime bindings to the declared inputs: for each declared
/// input, the position of the binding that supplies it.
pub fn bind_inputs(configuration: &PipelineV3Configuration, bindings: &Vec<PipelineInputBinding>) -> (r: Result<
    Vec<usize>,
    PipelinePlanningFailure,
>)
    ensures
        r is Ok <==> input_bindings_valid(configuration.inputs@, bindings@),
        r matches Ok(positions) ==> positions@.len() == configuration.inputs@.len() && forall|k: int|
            0 <= k < positions@.len() ==> #[trigger] positions@[k] < bindings@.len() && bindings@[positions@[k] as int].artifact_id@
                == configuration.inputs@[k].id@,
        r matches Err(f) ==> f.category == ErrorCategory::Input || f.category == ErrorCategory::Configuration,
{
    let inputs = &configuration.inputs;
    let ghost declared = input_ids(inputs@);
    let mut i: usize = 0;
    while i < bindings.len()
        invariant
            *inputs == configuration.inputs,
            declared == input_ids(inputs@),
            i <= bindings.len(),
            forall|b: int|
                0 <= b < i ==> is_local_id((#[trigger] bindings@[b]).artifact_id@) && declared.contains(
                    bindings@[b].artifact_id@,
                ),
            forall|a: int, b: int|
                0 <= a < b < i ==> (#[trigger] bindings@[a]).artifact_id@ != (#[trigger] bindings@[b]).artifact_id@,
        decreases bindings.len() - i,
    {
        let binding = &bindings[i];
        validate_local_id(binding.artifact_id.as_str(), "runtime input binding id", None, "input_bindings.artifact_id")?;
        let mut d: usize = 0;
        while d < inputs.len()
            invariant
                *inputs == configuration.inputs,
                declared == input_ids(inputs@),
                *binding == bindings@[i as int],
                d <= inputs.len(),
                forall|x: int| 0 <= x < d ==> (#[trigger] inputs@[x]).id@ != binding.artifact_id@,
            ensures
                d <= inputs.len(),
                forall|x: int| 0 <= x < d ==> (#[trigger] inputs@[x]).id@ != binding.artifact_id@,
                d < inputs.len() ==> inputs@[d as int].id@ == binding.artifact_id@,
            decreases inputs.len() - d,
        {
            if text_eq(inputs[d].id.as_str(), binding.artifact_id.as_str()) {
                break;
            }
            d = d + 1;
        }
        if d == inputs.len() {
            proof {
                assert forall|x: int| 0 <= x < declared.len() implies declared[x] != binding.artifact_id@ by {
                    assert(declared[x] == inputs@[x].id@);
                }
            }
            return Err(input_failure(
                PipelinePlanningDiagnosticCode::UnexpectedInputBinding,
                join3("runtime input binding ", binding.artifact_id.as_str(), " is not declared by the pipeline"),
                "input_bindings.artifact_id",
            ));
        }
        assert(declared[d as int] == binding.artifact_id@);
        let mut j: usize = 0;
        while j < i
            invariant
                j <= i < bindings.len(),
                *binding == bindings@[i as int],
                forall|a: int| 0 <= a < j ==> (#[trigger] bindings@[a]).artifact_id@ != binding.artifact_id@,
            decreases i - j,
        {
            if text_eq(bindings[j].artifact_id.as_str(), binding.artifact_id.as_str()) {
                return Err(input_failure(
                    PipelinePlanningDiagnosticCode::UnexpectedInputBinding,
                    join3("runtime input ", binding.artifact_id.as_str(), " is bound more than once"),
                    "input_bindings.artifact_id",
                ));
            }
            j = j + 1;
        }
        i = i + 1;
    }
    let mut positions: Vec<usize> = Vec::new();
    let mut k: usize = 0;
    while k < inputs.len()
        invariant
            *inputs == configuration.inputs,
            declared == input_ids(inputs@),
            forall|b: int|
                0 <= b < bindings@.len() ==> is_local_id((#[trigger] bindings@[b]).artifact_id@) && declared.contains(
                    bindings@[b].artifact_id@,
                ),
            forall|a: int, b: int|
                0 <= a < b < bindings@.len() ==> (#[trigger] bindings@[a]).artifact_id@ != (#[trigger] bindings@[b]).artifact_id@,
            k <= inputs.len(),
            positions@.len() == k,
            forall|x: int|
                0 <= x < k ==> #[trigger] positions@[x] < bindings@.len() && bindings@[positions@[x] as int].artifact_id@
                    == inputs@[x].id@,
            forall|x: int| 0 <= x < k ==> input_bound(bindings@, (#[trigger] inputs@[x]).id@),
        decreases inputs.len() - k,
    {
        let input = &inputs[k];
        let mut b: usize = 0;
        while b < bindings.len()
            invariant
                *input == inputs@[k as int],
                b <= bindings.len(),
                forall|y: int| 0 <= y < b ==> (#[trigger] bindings@[y]).artifact_id@ != input.id@,
            ensures
                b <= bindings.len(),
                forall|y: int| 0 <= y < b ==> (#[trigger] bindings@[y]).artifact_id@ != input.id@,
                b < bindings.len() ==> bindings@[b as int].artifact_id@ == input.id@,
            decreases bindings.len() - b,
        {
            if text_eq(bindings[b].artifact_id.as_str(), input.id.as_str()) {
                break;
            }
            b = b + 1;
        }
        if b == bindings.len() {
            return Err(input_failure(
                PipelinePlanningDiagnosticCode::MissingInputBinding,
                join3("declared input ", input.id.as_str(), " has no runtime binding"),
                "inputs",
            ));
        }
        positions.push(b);
        assert(bindings@[b as int].artifact_id@ == inputs@[k as int].id@);
        k = k + 1;
    }
    proof {
        let ins = configuration.inputs@;
        let bs = bindings@;
        assert forall|i: int| 0 <= i < bs.len() implies is_local_id((#[trigger] bs[i]).artifact_id@) && input_ids(ins).contains(
            bs[i].artifact_id@,
        ) by {}
        assert forall|x: int| 0 <= x < ins.len() implies input_bound(bs, (#[trigger] ins[x]).id@) by {
            assert(bs[positions@[x] as int].artifact_id@ == ins[x].id@);
        }
        assert(input_bindings_valid(ins, bs));
    }
    Ok(positions)
}

// ---------------------------------------------------------------------------
// Copies that keep every member
// ---------------------------------------------------------------------------

fn copy_requirement(c: &crate::planning::CapabilityRequirement) -> (r: crate::planning::CapabilityRequirement)
    ensures
        r == *c,
{
    crate::planning::CapabilityRequirement { id: c.id.clone(), version_requirement: c.version_requirement.clone() }
}

fn copy_selection(p: &crate::planning::ProviderSelectionIntent) -> (r: crate::planning::ProviderSelectionIntent)
    ensures
        r.replacement == p.replacement,
        r.primary == p.primary,
        r.fallbacks@ == p.fallbacks@,
{
    let replacement = match &p.replacement {
        Some(c) => Some(c.duplicate()),
        None => None,
    };
    crate::planning::ProviderSelectionIntent {
        replacement,
        primary: p.primary.duplicate(),
        fallbacks: copy_candidates(&p.fallbacks),
    }
}

fn copy_input_bindings(v: &Vec<AuthoredInputBinding>) -> (r: Vec<AuthoredInputBinding>)
    ensures
        r@.len() == v@.len(),
        forall|i: int| 0 <= i < v@.len() ==> input_binding_same(#[trigger] r@[i], v@[i]),
{
    let mut r: Vec<AuthoredInputBinding> = Vec::new();
    let mut i: usize = 0;
    while i < v.len()
        invariant
            i <= v.len(),
            r@.len() == i,
            forall|j: int| 0 <= j < i ==> input_binding_same(#[trigger] r@[j], v@[j]),
        decreases v.len() - i,
    {
        r.push(copy_input_binding(&v[i]));
        i = i + 1;
    }
    r
}

fn copy_validations(v: &Vec<crate::planning::ArtifactValidation>) -> (r: Vec<crate::planning::ArtifactValidation>)
    ensures
        r@ == v@,
{
    let mut r: Vec<crate::planning::ArtifactValidation> = Vec::new();
    let mut i: usize = 0;
    while i < v.len()
        invariant
            i <= v.len(),
            r@ == v@.take(i as int),
        decreases v.len() - i,
    {
        r.push(copy_validation(&v[i]));
        assert(r@ =~= v@.take(i + 1));
        i = i + 1;
    }
    assert(v@.take(v@.len() as int) =~= v@);
    r
}

fn copy_final_outputs(v: &Vec<FinalOutputRequirement>) -> (r: Vec<FinalOutputRequirement>)
    ensures
        r@.len() == v@.len(),
        forall|i: int| 0 <= i < v@.len() ==> final_output_same(#[trigger] r@[i], v@[i]),
{
    let mut r: Vec<FinalOutputRequirement> = Vec::new();
    let mut i: usize = 0;
    while i < v.len()
        invariant
            i <= v.len(),
            r@.len() == i,
            forall|j: int| 0 <= j < i ==> final_output_same(#[trigger] r@[j], v@[j]),
        decreases v.len() - i,
    {
        r.push(FinalOutputRequirement {
            id: v[i].id.clone(),
            artifact: v[i].artifact.clone(),
            required_validations: copy_strings(&v[i].required_validations),
        });
        i = i + 1;
    }
    r
}

fn copy_ports(v: &Vec<ArtifactPort>) -> (r: Vec<ArtifactPort>)
    ensures
        r@ == v@,
{
    let mut r: Vec<ArtifactPort> = Vec::new();
    let mut i: usize = 0;
    while i < v.len()
        invariant
            i <= v.len(),
            r@ == v@.take(i as int),
        decreases v.len() - i,
    {
        let p = &v[i];
        r.push(ArtifactPort {
            name: p.name.clone(),
            artifact_type: p.artifact_type.clone(),
            artifact_role: p.artifact_role,
            stream_role: p.stream_role,
            cardinality: p.cardinality,
            immutable: p.immutable,
        });
        assert(r@ =~= v@.take(i + 1));
        i = i + 1;
    }
    assert(v@.take(v@.len() as int) =~= v@);
    r
}

fn copy_components(v: &Vec<ComponentRequirement>) -> (r: Vec<ComponentRequirement>)
    ensures
        r@ == v@,
{
    let mut r: Vec<ComponentRequirement> = Vec::new();
    let mut i: usize = 0;
    while i < v.len()
        invariant
            i <= v.len(),
            r@ == v@.take(i as int),
        decreases v.len() - i,
    {
        let c = &v[i];
        let sha256 = match &c.sha256 {
            Some(d) => Some(d.clone()),
            None => None,
        };
        r.push(ComponentRequirement { id: c.id.clone(), version_requirement: c.version_requirement.clone(), sha256 });
        assert(r@ =~= v@.take(i + 1));
        i = i + 1;
    }
    assert(v@.take(v@.len() as int) =~= v@);
    r
}

fn copy_effects(v: &Vec<SideEffect>) -> (r: Vec<SideEffect>)
    ensures
        r@ == v@,
{
    let mut r: Vec<SideEffect> = Vec::new();
    let mut i: usize = 0;
    while i < v.len()
        invariant
            i <= v.len(),
            r@ == v@.take(i as int),
        decreases v.len() - i,
    {
        r.push(v[i]);
        assert(r@ =~= v@.take(i + 1));
        i = i + 1;
    }
    assert(v@.take(v@.len() as int) =~= v@);
    r
}

/// Two capability declarations agree on every member.
pub open spec fn capability_same(a: CapabilityDeclaration, b: CapabilityDeclaration) -> bool {
    &&& a.id == b.id
    &&& a.version == b.version
    &&& a.kind == b.kind
    &&& a.configuration_schema == b.configuration_schema
    &&& a.inputs@ == b.inputs@
    &&& a.outputs@ == b.outputs@
    &&& a.batching == b.batching
    &&& a.max_concurrency == b.max_concurrency
    &&& a.requirements.tools@ == b.requirements.tools@
    &&& a.requirements.codecs@ == b.requirements.codecs@
    &&& a.requirements.models@ == b.requirements.models@
    &&& a.requirements.compute == b.requirements.compute
    &&& a.behavior.determinism == b.behavior.determinism
    &&& a.behavior.fidelity == b.behavior.fidelity
    &&& a.behavior.cacheable == b.behavior.cacheable
    &&& a.behavior.content_changes == b.behavior.content_changes
    &&& a.behavior.side_effects@ == b.behavior.side_effects@
    &&& a.lifecycle == b.lifecycle
}

fn copy_capability(c: &CapabilityDeclaration) -> (r: CapabilityDeclaration)
    ensures
        capability_same(r, *c),
{
    let compute = &c.requirements.compute;
    CapabilityDeclaration {
        id: c.id.clone(),
        version: c.version.clone(),
        kind: c.kind,
        configuration_schema: ConfigurationSchemaReference {
            id: c.configuration_schema.id.clone(),
            version: c.configuration_schema.version.clone(),
            sha256: c.configuration_schema.sha256.clone(),
        },
        inputs: copy_ports(&c.inputs),
        outputs: copy_ports(&c.outputs),
        batching: c.batching,
        max_concurrency: c.max_concurrency,
        requirements: ProviderRequirements {
            tools: copy_components(&c.requirements.tools),
            codecs: copy_components(&c.requirements.codecs),
            models: copy_components(&c.requirements.models),
            compute: ComputeRequirements {
                minimum_cpu_threads: compute.minimum_cpu_threads,
                minimum_memory_mib: compute.minimum_memory_mib,
                minimum_storage_mib: compute.minimum_storage_mib,
                gpu: compute.gpu,
                network: compute.network,
            },
        },
        behavior: CapabilityBehavior {
            determinism: c.behavior.determinism,
            fidelity: c.behavior.fidelity,
            cacheable: c.behavior.cacheable,
            content_changes: c.behavior.content_changes,
            side_effects: copy_effects(&c.behavior.side_effects),
        },
        lifecycle: c.lifecycle,
    }
}

fn copy_candidates(values: &Vec<ProviderCandidate>) -> (r: Vec<ProviderCandidate>)
    ensures
        r@ == values@,
{
    let mut r: Vec<ProviderCandidate> = Vec::new();
    let mut i: usize = 0;
    while i < values.len()
        invariant
            i <= values.len(),
            r@ == values@.take(i as int),
        decreases values.len() - i,
    {
        r.push(values[i].duplicate());
        assert(r@ =~= values@.take(i + 1));
        i = i + 1;
    }
    assert(values@.take(values@.len() as int) =~= values@);
    r
}

/// The prose-free record of a resolution attempt.
pub open spec fn attempt_recorded(p: PlannedProviderResolutionAttempt, a: ProviderResolutionAttempt) -> bool {
    &&& p.candidate == a.candidate
    &&& p.selection == a.selection
    &&& p.available == a.available
    &&& p.reason_codes@ == reason_codes(a.reasons@)
}

pub open spec fn attempts_recorded(p: Seq<PlannedProviderResolutionAttempt>, a: Seq<ProviderResolutionAttempt>) -> bool {
    &&& p.len() == a.len()
    &&& forall|i: int| 0 <= i < a.len() ==> attempt_recorded(#[trigger] p[i], a[i])
}

fn stable_attempts(attempts: &Vec<crate::provider_runtime::ProviderResolutionAttempt>) -> (r: Vec<
    PlannedProviderResolutionAttempt,
>)
    ensures
        attempts_recorded(r@, attempts@),
{
    let mut r: Vec<PlannedProviderResolutionAttempt> = Vec::new();
    let mut i: usize = 0;
    while i < attempts.len()
        invariant
            i <= attempts.len(),
            r@.len() == i,
            forall|j: int| 0 <= j < i ==> attempt_recorded(#[trigger] r@[j], attempts@[j]),
        decreases attempts.len() - i,
    {
        r.push(stable_resolution_attempt(&attempts[i]));
        i = i + 1;
    }
    r
}

/// A resolved stage is what resolving its authored stage under the policy
/// yields: the authored members kept, the outputs bound to the selected
/// capability's ports, that capability, the lock of the first available
/// candidate, and the record of every attempt up to it.
pub open spec fn stage_assembled(
    r: ResolvedPipelineStage,
    a: AuthoredPipelineStage,
    registry: ProviderRegistry,
    policy: NormalizedPlanningPolicy,
    observations: Seq<ExecutableObservation>,
) -> bool {
    &&& stage_from_resolved(a, r)
    &&& forall|i: int|
        0 <= i < r.outputs@.len() ==> planned_binding_matches(#[trigger] r.outputs@[i], a.outputs@[i], r.capability.outputs@)
    &&& chosen_registration(a, registry, policy, observations) matches Some(g) && capability_same(
        r.capability,
        g.spec_capability(),
    )
    &&& stage_provider_resolved(r, a, registry, policy, observations)
    &&& exists|request: ProviderResolutionRequest, j: int, attempts: Seq<ProviderResolutionAttempt>|
        #![trigger request_for(request, a, policy), first_available(registry, request, observations, j), attempts_match(attempts, registry, request, observations, j + 1)]
        {
            &&& request_for(request, a, policy)
            &&& first_available(registry, request, observations, j)
            &&& attempts_match(attempts, registry, request, observations, j + 1)
            &&& attempts_recorded(r.resolution_attempts@, attempts)
        }
}

/// The payload that resolving a configuration under a policy yields: the
/// schema, name, and semantic digest of the configuration, the policy, the
/// input identities, each stage assembled in order, and the final outputs.
pub open spec fn payload_assembled(
    payload: PipelineV3PlanPayload,
    configuration: PipelineV3Configuration,
    registry: ProviderRegistry,
    policy: NormalizedPlanningPolicy,
    observations: Seq<Vec<ExecutableObservation>>,
    identities: Seq<PipelineInputIdentity>,
) -> bool {
    &&& payload.pipeline_schema@ == PIPELINE_V3_SCHEMA@
    &&& payload.pipeline_name == configuration.name
    &&& payload.configuration_sha256@ == canonical_digest(pipeline_v3_configuration_json(configuration))
    &&& payload.policy == policy
    &&& payload.inputs@ == identities
    &&& payload.stages@.len() == configuration.stages@.len()
    &&& forall|k: int|
        0 <= k < payload.stages@.len() ==> stage_assembled(
            #[trigger] payload.stages@[k],
            configuration.stages@[k],
            registry,
            policy,
            observations[k]@,
        )
    &&& payload.outputs@.len() == configuration.outputs@.len()
    &&& forall|i: int| 0 <= i < payload.outputs@.len() ==> final_output_same(#[trigger] payload.outputs@[i], configuration.outputs@[i])
}

/// Two resolved stages that record the same authored stage, the same
/// selected capability, the same provider lock (every member of its payload,
/// its schema, algorithm, and digest), the same attempt record (candidate,
/// selection, and availability of each slot), and the same output bindings.
pub open spec fn resolved_stages_alike(s1: ResolvedPipelineStage, s2: ResolvedPipelineStage) -> bool {
    let l1 = s1.provider_lock.payload;
    let l2 = s2.provider_lock.payload;
    &&& s1.id == s2.id
    &&& s1.depends_on@ == s2.depends_on@
    &&& s1.capability_requirement == s2.capability_requirement
    &&& s1.provider_selection.replacement == s2.provider_selection.replacement
    &&& s1.provider_selection.primary == s2.provider_selection.primary
    &&& s1.provider_selection.fallbacks@ == s2.provider_selection.fallbacks@
    &&& s1.validations@ == s2.validations@
    &&& s1.inputs@.len() == s2.inputs@.len()
    &&& forall|i: int| 0 <= i < s1.inputs@.len() ==> input_binding_same(#[trigger] s1.inputs@[i], s2.inputs@[i])
    &&& s1.outputs@.len() == s2.outputs@.len()
    &&& forall|i: int|
        0 <= i < s1.outputs@.len() ==> (#[trigger] s1.outputs@[i]).port@ == s2.outputs@[i].port@
            && s1.outputs@[i].artifacts@.len() == s2.outputs@[i].artifacts@.len() && forall|k: int|
            0 <= k < s1.outputs@[i].artifacts@.len() ==> planned_artifacts_alike(
                #[trigger] s1.outputs@[i].artifacts@[k],
                s2.outputs@[i].artifacts@[k],
            )
    &&& capability_same(s1.capability, s2.capability)
    &&& l1.registration_id@ == l2.registration_id@
    &&& l1.provider == l2.provider
    &&& l1.capability == l2.capability
    &&& l1.configuration_schema == l2.configuration_schema
    &&& l1.effective_configuration_sha256 == l2.effective_configuration_sha256
    &&& l1.manifest_sha256@ == l2.manifest_sha256@
    &&& l1.implementation.id@ == l2.implementation.id@
    &&& l1.implementation.executable_sha256@ == l2.implementation.executable_sha256@
    &&& l1.tools@ == l2.tools@
    &&& l1.codecs@ == l2.codecs@
    &&& l1.models@ == l2.models@
    &&& l1.authorized_side_effects@ == l2.authorized_side_effects@
    &&& l1.selection == l2.selection
    &&& l1.offline == l2.offline
    &&& s1.provider_lock.schema@ == s2.provider_lock.schema@
    &&& s1.provider_lock.algorithm@ == s2.provider_lock.algorithm@
    &&& s1.provider_lock.lock_sha256@ == s2.provider_lock.lock_sha256@
    &&& s1.resolution_attempts@.len() == s2.resolution_attempts@.len()
    &&& forall|i: int|
        0 <= i < s1.resolution_attempts@.len() ==> (#[trigger] s1.resolution_attempts@[i]).candidate
            == s2.resolution_attempts@[i].candidate && s1.resolution_attempts@[i].selection
            == s2.resolution_attempts@[i].selection && s1.resolution_attempts@[i].available
            == s2.resolution_attempts@[i].available && s1.resolution_attempts@[i].reason_codes@
            == s2.resolution_attempts@[i].reason_codes@
}

/// Two planned artifacts with the same id, path, type, and roles.
pub open spec fn planned_artifacts_alike(a: PlannedExpectedArtifact, b: PlannedExpectedArtifact) -> bool {
    &&& a.id@ == b.id@
    &&& a.relative_path@ == b.relative_path@
    &&& a.artifact_type@ == b.artifact_type@
    &&& a.artifact_role == b.artifact_role
    &&& a.stream_role == b.stream_role
}

proof fn lemma_reason_codes_of_views(x: Seq<crate::provider_runtime::AvailabilityReason>, y: Seq<crate::provider_runtime::AvailabilityReason>)
    requires
        crate::registry::reasons_view(x) == crate::registry::reasons_view(y),
    ensures
        crate::planning::reason_codes(x) == crate::planning::reason_codes(y),
{
    let vx = crate::registry::reasons_view(x);
    let vy = crate::registry::reasons_view(y);
    assert(vx.len() == x.len() && vy.len() == y.len());
    assert forall|i: int| 0 <= i < x.len() implies x[i].code == y[i].code by {
        assert(vx[i] == vy[i]);
    }
    assert(crate::planning::reason_codes(x) =~= crate::planning::reason_codes(y));
}

proof fn lemma_first_available_unique(
    registry: ProviderRegistry,
    request: ProviderResolutionRequest,
    observations: Seq<ExecutableObservation>,
    i: int,
    j: int,
)
    requires
        first_available(registry, request, observations, i),
        first_available(registry, request, observations, j),
    ensures
        i == j,
{
    if i < j {
        assert(slot_available(registry, request, observations, i));
    } else if j < i {
        assert(slot_available(registry, request, observations, j));
    }
}

#[verifier::rlimit(40)]
proof fn lemma_sorted_components_unique(
    s1: Seq<crate::provider::ComponentIdentity>,
    s2: Seq<crate::provider::ComponentIdentity>,
    components: Seq<crate::provider::ComponentIdentity>,
)
    requires
        crate::registry::sorted_by_id(s1, components),
        crate::registry::sorted_by_id(s2, components),
    ensures
        s1 == s2,
    decreases s1.len(),
{
    if s1.len() == 0 || s2.len() == 0 {
        if s2.len() > 0 {
            assert(s2.contains(s2[0]));
            assert(components.contains(s2[0]));
            assert(s1.contains(s2[0]));
        }
        if s1.len() > 0 {
            assert(s1.contains(s1[0]));
            assert(components.contains(s1[0]));
            assert(s2.contains(s1[0]));
        }
        assert(s1 =~= s2);
    } else {
        let x = s1[0];
        let y = s2[0];
        assert(s1.contains(x));
        assert(components.contains(x));
        assert(s2.contains(x));
        assert(s2.contains(y));
        assert(components.contains(y));
        assert(s1.contains(y));
        let p = choose|p: int| 0 <= p < s2.len() && s2[p] == x;
        let q = choose|q: int| 0 <= q < s1.len() && s1[q] == y;
        crate::order::lemma_text_less_trichotomy(x.id@, y.id@);
        crate::order::lemma_text_less_trichotomy(x.id@, x.id@);
        if p > 0 {
            assert(crate::order::text_less(s2[0].id@, s2[p].id@));
            if q > 0 {
                assert(crate::order::text_less(s1[0].id@, s1[q].id@));
            }
        }
        assert(x == y);
        let t1 = s1.drop_first();
        let t2 = s2.drop_first();
        assert forall|c: crate::provider::ComponentIdentity| #[trigger] t2.contains(c) <==> t1.contains(c) by {
            if t2.contains(c) {
                let i = choose|i: int| 0 <= i < t2.len() && t2[i] == c;
                assert(s2[i + 1] == c);
                assert(s2.contains(c));
                assert(components.contains(c));
                assert(s1.contains(c));
                let m = choose|m: int| 0 <= m < s1.len() && s1[m] == c;
                if m == 0 {
                    assert(crate::order::text_less(s2[0].id@, s2[i + 1].id@));
                    crate::order::lemma_text_less_trichotomy(c.id@, c.id@);
                }
                assert(t1[m - 1] == c);
            }
            if t1.contains(c) {
                let i = choose|i: int| 0 <= i < t1.len() && t1[i] == c;
                assert(s1[i + 1] == c);
                assert(s1.contains(c));
                assert(components.contains(c));
                assert(s2.contains(c));
                let m = choose|m: int| 0 <= m < s2.len() && s2[m] == c;
                if m == 0 {
                    assert(crate::order::text_less(s1[0].id@, s1[i + 1].id@));
                    crate::order::lemma_text_less_trichotomy(c.id@, c.id@);
                }
                assert(t2[m - 1] == c);
            }
        }
        assert forall|i: int, j: int| 0 <= i < j < t1.len() implies crate::order::text_less(
            (#[trigger] t1[i]).id@,
            (#[trigger] t1[j]).id@,
        ) by {
            assert(t1[i] == s1[i + 1] && t1[j] == s1[j + 1]);
        }
        assert forall|i: int, j: int| 0 <= i < j < t2.len() implies crate::order::text_less(
            (#[trigger] t2[i]).id@,
            (#[trigger] t2[j]).id@,
        ) by {
            assert(t2[i] == s2[i + 1] && t2[j] == s2[j + 1]);
        }
        lemma_sorted_components_unique(t1, t2, t1);
        assert(s1 =~= s2) by {
            assert forall|i: int| 0 <= i < s1.len() implies s1[i] == s2[i] by {
                if i > 0 {
                    assert(s1[i] == t1[i - 1]);
                    assert(s2[i] == t2[i - 1]);
                }
            }
        }
    }
}

#[verifier::rlimit(40)]
proof fn lemma_ascending_effects_unique(e1: Seq<SideEffect>, e2: Seq<SideEffect>)
    requires
        crate::provider_runtime::effects_ascending(e1),
        crate::provider_runtime::effects_ascending(e2),
        forall|e: SideEffect| #[trigger] e1.contains(e) <==> e2.contains(e),
    ensures
        e1 == e2,
    decreases e1.len(),
{
    if e1.len() == 0 || e2.len() == 0 {
        if e2.len() > 0 {
            assert(e2.contains(e2[0]));
            assert(e1.contains(e2[0]));
        }
        if e1.len() > 0 {
            assert(e1.contains(e1[0]));
            assert(e2.contains(e1[0]));
        }
        assert(e1 =~= e2);
    } else {
        let x = e1[0];
        let y = e2[0];
        assert(e1.contains(x));
        assert(e2.contains(x));
        assert(e2.contains(y));
        assert(e1.contains(y));
        let p = choose|p: int| 0 <= p < e2.len() && e2[p] == x;
        let q = choose|q: int| 0 <= q < e1.len() && e1[q] == y;
        if p > 0 {
            assert(crate::provider::side_effect_rank(e2[0]) < crate::provider::side_effect_rank(e2[p]));
            if q > 0 {
                assert(crate::provider::side_effect_rank(e1[0]) < crate::provider::side_effect_rank(e1[q]));
            }
        }
        assert(x == y);
        let t1 = e1.drop_first();
        let t2 = e2.drop_first();
        assert forall|c: SideEffect| #[trigger] t1.contains(c) <==> t2.contains(c) by {
            if t2.contains(c) {
                let i = choose|i: int| 0 <= i < t2.len() && t2[i] == c;
                assert(e2[i + 1] == c);
                assert(e2.contains(c));
                assert(e1.contains(c));
                let m = choose|m: int| 0 <= m < e1.len() && e1[m] == c;
                if m == 0 {
                    assert(crate::provider::side_effect_rank(e2[0]) < crate::provider::side_effect_rank(e2[i + 1]));
                }
                assert(t1[m - 1] == c);
            }
            if t1.contains(c) {
                let i = choose|i: int| 0 <= i < t1.len() && t1[i] == c;
                assert(e1[i + 1] == c);
                assert(e1.contains(c));
                assert(e2.contains(c));
                let m = choose|m: int| 0 <= m < e2.len() && e2[m] == c;
                if m == 0 {
                    assert(crate::provider::side_effect_rank(e1[0]) < crate::provider::side_effect_rank(e1[i + 1]));
                }
                assert(t2[m - 1] == c);
            }
        }
        assert forall|i: int, j: int| 0 <= i < j < t1.len() implies crate::provider::side_effect_rank(#[trigger] t1[i])
            < crate::provider::side_effect_rank(#[trigger] t1[j]) by {
            assert(t1[i] == e1[i + 1] && t1[j] == e1[j + 1]);
        }
        assert forall|i: int, j: int| 0 <= i < j < t2.len() implies crate::provider::side_effect_rank(#[trigger] t2[i])
            < crate::provider::side_effect_rank(#[trigger] t2[j]) by {
            assert(t2[i] == e2[i + 1] && t2[j] == e2[j + 1]);
        }
        lemma_ascending_effects_unique(t1, t2);
        assert(e1 =~= e2) by {
            assert forall|i: int| 0 <= i < e1.len() implies e1[i] == e2[i] by {
                if i > 0 {
                    assert(e1[i] == t1[i - 1]);
                    assert(e2[i] == t2[i - 1]);
                }
            }
        }
    }
}

#[verifier::rlimit(40)]
proof fn lemma_stage_assembly_determined(
    s1: ResolvedPipelineStage,
    s2: ResolvedPipelineStage,
    a: AuthoredPipelineStage,
    registry: ProviderRegistry,
    policy: NormalizedPlanningPolicy,
    policy2: NormalizedPlanningPolicy,
    observations: Seq<ExecutableObservation>,
)
    requires
        stage_assembled(s1, a, registry, policy, observations),
        stage_assembled(s2, a, registry, policy2, observations),
        policy.host == policy2.host,
        policy.offline == policy2.offline,
        policy.allowed_side_effects@ == policy2.allowed_side_effects@,
    ensures
        resolved_stages_alike(s1, s2),
{
    let (q1, j1) = choose|q: ProviderResolutionRequest, j: int|
        #![trigger request_for(q, a, policy), first_available(registry, q, observations, j)]
        {
            &&& request_for(q, a, policy)
            &&& q.spec_valid()
            &&& first_available(registry, q, observations, j)
            &&& is_sha256_hex(observed_digest(observations[j]))
            &&& slot_registration(registry, q, j) is Some
            &&& s1.provider_lock.spec_valid()
            &&& lock_payload_for(
                s1.provider_lock.payload,
                slot_registration(registry, q, j)->0,
                q,
                observations[j],
                q.ordered_selections()[j],
            )
        };
    let (q2, j2) = choose|q: ProviderResolutionRequest, j: int|
        #![trigger request_for(q, a, policy2), first_available(registry, q, observations, j)]
        {
            &&& request_for(q, a, policy2)
            &&& q.spec_valid()
            &&& first_available(registry, q, observations, j)
            &&& is_sha256_hex(observed_digest(observations[j]))
            &&& slot_registration(registry, q, j) is Some
            &&& s2.provider_lock.spec_valid()
            &&& lock_payload_for(
                s2.provider_lock.payload,
                slot_registration(registry, q, j)->0,
                q,
                observations[j],
                q.ordered_selections()[j],
            )
        };
    assert(request_for(q2, a, policy));
    lemma_requests_agree(q1, q2, a, policy, registry, observations);
    lemma_first_available_unique(registry, q1, observations, j1, j2);
    let registration = slot_registration(registry, q1, j1)->0;
    let capability = registration.spec_capability();
    let inventory = registration.spec_components();
    let l1 = s1.provider_lock.payload;
    let l2 = s2.provider_lock.payload;
    lemma_sorted_components_unique(
        l1.tools@,
        l2.tools@,
        crate::registry::matched_components(capability.requirements.tools@, inventory.tools@),
    );
    lemma_sorted_components_unique(
        l1.codecs@,
        l2.codecs@,
        crate::registry::matched_components(capability.requirements.codecs@, inventory.codecs@),
    );
    lemma_sorted_components_unique(
        l1.models@,
        l2.models@,
        crate::registry::matched_components(capability.requirements.models@, inventory.models@),
    );
    lemma_ascending_effects_unique(l1.authorized_side_effects@, l2.authorized_side_effects@);
    assert(crate::canonical::provider_lock_payload_json(l1) == crate::canonical::provider_lock_payload_json(l2));
    let c1 = choose|r: ProviderResolutionRequest| request_for(r, a, policy);
    let c2 = choose|r: ProviderResolutionRequest| request_for(r, a, policy2);
    assert(request_for(c2, a, policy));
    lemma_requests_agree(c1, q1, a, policy, registry, observations);
    lemma_requests_agree(c2, q1, a, policy, registry, observations);
    let i1 = choose|j: int| #[trigger] first_available(registry, c1, observations, j);
    let i2 = choose|j: int| #[trigger] first_available(registry, c2, observations, j);
    lemma_first_available_unique(registry, q1, observations, i1, j1);
    lemma_first_available_unique(registry, q1, observations, i2, j1);
    assert(chosen_registration(a, registry, policy, observations) == chosen_registration(a, registry, policy2, observations));
    let (t1, k1, at1) = choose|request: ProviderResolutionRequest, j: int, attempts: Seq<ProviderResolutionAttempt>|
        #![trigger request_for(request, a, policy), first_available(registry, request, observations, j), attempts_match(attempts, registry, request, observations, j + 1)]
        {
            &&& request_for(request, a, policy)
            &&& first_available(registry, request, observations, j)
            &&& attempts_match(attempts, registry, request, observations, j + 1)
            &&& attempts_recorded(s1.resolution_attempts@, attempts)
        };
    let (t2, k2, at2) = choose|request: ProviderResolutionRequest, j: int, attempts: Seq<ProviderResolutionAttempt>|
        #![trigger request_for(request, a, policy2), first_available(registry, request, observations, j), attempts_match(attempts, registry, request, observations, j + 1)]
        {
            &&& request_for(request, a, policy2)
            &&& first_available(registry, request, observations, j)
            &&& attempts_match(attempts, registry, request, observations, j + 1)
            &&& attempts_recorded(s2.resolution_attempts@, attempts)
        };
    assert(request_for(t2, a, policy));
    lemma_requests_agree(t1, q1, a, policy, registry, observations);
    lemma_requests_agree(t2, q1, a, policy, registry, observations);
    lemma_requests_agree(t1, t2, a, policy, registry, observations);
    lemma_first_available_unique(registry, q1, observations, k1, j1);
    lemma_first_available_unique(registry, q1, observations, k2, j1);
    assert forall|i: int| 0 <= i < s1.resolution_attempts@.len() implies (#[trigger] s1.resolution_attempts@[i]).candidate
        == s2.resolution_attempts@[i].candidate && s1.resolution_attempts@[i].selection
        == s2.resolution_attempts@[i].selection && s1.resolution_attempts@[i].available
        == s2.resolution_attempts@[i].available && s1.resolution_attempts@[i].reason_codes@
        == s2.resolution_attempts@[i].reason_codes@ by {
        assert(attempt_recorded(s1.resolution_attempts@[i], at1[i]));
        assert(attempt_recorded(s2.resolution_attempts@[i], at2[i]));
        assert(attempt_matches(at1[i], registry, t1, observations, i));
        assert(attempt_matches(at2[i], registry, t2, observations, i));
        assert(crate::registry::slot_reasons(registry, t1, observations, i) == crate::registry::slot_reasons(
            registry,
            t2,
            observations,
            i,
        ));
        lemma_reason_codes_of_views(at1[i].reasons@, at2[i].reasons@);
    }
    assert forall|i: int| 0 <= i < s1.inputs@.len() implies input_binding_same(#[trigger] s1.inputs@[i], s2.inputs@[i]) by {
        assert(input_binding_same(a.inputs@[i], s1.inputs@[i]));
        assert(input_binding_same(a.inputs@[i], s2.inputs@[i]));
    }
    let c1 = chosen_registration(a, registry, policy, observations)->0.spec_capability();
    assert(capability_same(s1.capability, c1));
    assert(capability_same(s2.capability, c1));
    assert forall|i: int| 0 <= i < s1.outputs@.len() implies (#[trigger] s1.outputs@[i]).port@ == s2.outputs@[i].port@
        && s1.outputs@[i].artifacts@.len() == s2.outputs@[i].artifacts@.len() && forall|k: int|
        0 <= k < s1.outputs@[i].artifacts@.len() ==> planned_artifacts_alike(
            #[trigger] s1.outputs@[i].artifacts@[k],
            s2.outputs@[i].artifacts@[k],
        ) by {
        assert(output_from_planned(a.outputs@[i], s1.outputs@[i]));
        assert(output_from_planned(a.outputs@[i], s2.outputs@[i]));
        assert(planned_binding_matches(s1.outputs@[i], a.outputs@[i], s1.capability.outputs@));
        assert(planned_binding_matches(s2.outputs@[i], a.outputs@[i], s2.capability.outputs@));
        assert forall|k: int| 0 <= k < s1.outputs@[i].artifacts@.len() implies planned_artifacts_alike(
            #[trigger] s1.outputs@[i].artifacts@[k],
            s2.outputs@[i].artifacts@[k],
        ) by {
            assert(a.outputs@[i].artifacts@[k].id@ == s1.outputs@[i].artifacts@[k].id@);
            assert(a.outputs@[i].artifacts@[k].id@ == s2.outputs@[i].artifacts@[k].id@);
        }
    }
}

proof fn lemma_alike_stage_json(s1: ResolvedPipelineStage, s2: ResolvedPipelineStage)
    requires
        resolved_stages_alike(s1, s2),
    ensures
        crate::canonical::resolved_pipeline_stage_json(s1) == crate::canonical::resolved_pipeline_stage_json(s2),
{
    let fi = |e: AuthoredInputBinding| crate::canonical::authored_input_binding_json(e);
    assert(s1.inputs@.map_values(fi) =~= s2.inputs@.map_values(fi)) by {
        assert forall|i: int| 0 <= i < s1.inputs@.len() implies fi(s1.inputs@[i]) == fi(s2.inputs@[i]) by {
            assert(input_binding_same(s1.inputs@[i], s2.inputs@[i]));
        }
    }
    let fa = |e: PlannedExpectedArtifact| crate::canonical::planned_expected_artifact_json(e);
    let fo = |e: PlannedOutputBinding| crate::canonical::planned_output_binding_json(e);
    assert(s1.outputs@.map_values(fo) =~= s2.outputs@.map_values(fo)) by {
        assert forall|i: int| 0 <= i < s1.outputs@.len() implies fo(s1.outputs@[i]) == fo(s2.outputs@[i]) by {
            let x = s1.outputs@[i].artifacts@;
            let y = s2.outputs@[i].artifacts@;
            assert(x.map_values(fa) =~= y.map_values(fa)) by {
                assert forall|k: int| 0 <= k < x.len() implies fa(x[k]) == fa(y[k]) by {
                    assert(planned_artifacts_alike(x[k], y[k]));
                }
            }
        }
    }
    let ft = |e: PlannedProviderResolutionAttempt| crate::canonical::planned_provider_resolution_attempt_json(e);
    assert(s1.resolution_attempts@.map_values(ft) =~= s2.resolution_attempts@.map_values(ft)) by {
        assert forall|i: int| 0 <= i < s1.resolution_attempts@.len() implies ft(s1.resolution_attempts@[i]) == ft(
            s2.resolution_attempts@[i],
        ) by {
            assert(s1.resolution_attempts@[i].reason_codes@ == s2.resolution_attempts@[i].reason_codes@);
        }
    }
    assert(crate::canonical::capability_declaration_json(s1.capability) == crate::canonical::capability_declaration_json(
        s2.capability,
    ));
    assert(crate::canonical::provider_lock_payload_json(s1.provider_lock.payload)
        == crate::canonical::provider_lock_payload_json(s2.provider_lock.payload));
    assert(crate::canonical::provider_lock_json(s1.provider_lock) == crate::canonical::provider_lock_json(s2.provider_lock));
    assert(crate::canonical::provider_selection_intent_json(s1.provider_selection)
        == crate::canonical::provider_selection_intent_json(s2.provider_selection));
}

/// Resolution is a function of what it is given: two payloads assembled
/// from the same configuration, registry, planning context, executable
/// observations, and input content identities agree in their schema, name,
/// semantic digest, policy, inputs, and final outputs, and stage by stage in the
/// authored stage, the selected capability, the provider lock, the attempt
/// record, and the output bindings; their canonical JSON forms are equal.
/// The requirements are what `resolve_pipeline_v3` ensures of every plan it
/// returns.
pub proof fn lemma_resolution_is_deterministic(
    p1: PipelineV3PlanPayload,
    p2: PipelineV3PlanPayload,
    configuration: PipelineV3Configuration,
    registry: ProviderRegistry,
    context: PipelinePlanningContext,
    observations: Seq<Vec<ExecutableObservation>>,
    identities: Seq<PipelineInputIdentity>,
)
    requires
        policy_from(p1.policy, context),
        policy_from(p2.policy, context),
        payload_assembled(p1, configuration, registry, p1.policy, observations, identities),
        payload_assembled(p2, configuration, registry, p2.policy, observations, identities),
    ensures
        p1.pipeline_schema@ == p2.pipeline_schema@,
        p1.pipeline_name == p2.pipeline_name,
        p1.configuration_sha256@ == p2.configuration_sha256@,
        p1.policy.host == p2.policy.host,
        p1.policy.offline == p2.policy.offline,
        p1.policy.allowed_side_effects@ == p2.policy.allowed_side_effects@,
        p1.inputs@ == p2.inputs@,
        p1.stages@.len() == p2.stages@.len(),
        forall|k: int| 0 <= k < p1.stages@.len() ==> resolved_stages_alike(#[trigger] p1.stages@[k], p2.stages@[k]),
        p1.outputs@.len() == p2.outputs@.len(),
        forall|i: int| 0 <= i < p1.outputs@.len() ==> final_output_same(#[trigger] p1.outputs@[i], p2.outputs@[i]),
        pipeline_v3_plan_payload_json(p1) == pipeline_v3_plan_payload_json(p2),
{
    assert forall|e: SideEffect| #[trigger] p1.policy.allowed_side_effects@.contains(e) <==> p2.policy.allowed_side_effects@.contains(e) by {
        if p1.policy.allowed_side_effects@.contains(e) {
            assert(context.allowed_side_effects@.contains(e));
        }
        if p2.policy.allowed_side_effects@.contains(e) {
            assert(context.allowed_side_effects@.contains(e));
        }
    }
    lemma_ascending_effects_unique(p1.policy.allowed_side_effects@, p2.policy.allowed_side_effects@);
    assert forall|k: int| 0 <= k < p1.stages@.len() implies resolved_stages_alike(#[trigger] p1.stages@[k], p2.stages@[k]) by {
        lemma_stage_assembly_determined(
            p1.stages@[k],
            p2.stages@[k],
            configuration.stages@[k],
            registry,
            p1.policy,
            p2.policy,
            observations[k]@,
        );
    }
    assert forall|i: int| 0 <= i < p1.outputs@.len() implies final_output_same(#[trigger] p1.outputs@[i], p2.outputs@[i]) by {
        assert(final_output_same(p1.outputs@[i], configuration.outputs@[i]));
        assert(final_output_same(p2.outputs@[i], configuration.outputs@[i]));
    }
    let fs = |e: ResolvedPipelineStage| crate::canonical::resolved_pipeline_stage_json(e);
    assert(p1.stages@.map_values(fs) =~= p2.stages@.map_values(fs)) by {
        assert forall|k: int| 0 <= k < p1.stages@.len() implies fs(p1.stages@[k]) == fs(p2.stages@[k]) by {
            lemma_alike_stage_json(p1.stages@[k], p2.stages@[k]);
        }
    }
    let ff = |e: FinalOutputRequirement| crate::canonical::final_output_requirement_json(e);
    assert(p1.outputs@.map_values(ff) =~= p2.outputs@.map_values(ff)) by {
        assert forall|i: int| 0 <= i < p1.outputs@.len() implies ff(p1.outputs@[i]) == ff(p2.outputs@[i]) by {
            assert(final_output_same(p1.outputs@[i], p2.outputs@[i]));
        }
    }
    assert(crate::canonical::normalized_planning_policy_json(p1.policy)
        == crate::canonical::normalized_planning_policy_json(p2.policy));
}

/// Two plans that `resolve_pipeline_v3` returns for the same configuration,
/// registry, planning context, executable observations, and input content
/// identities are the same plan: the same JSON form, so the same canonical
/// bytes and the same plan digest. Host paths are not among its inputs, so
/// inputs bound at different paths to the same content give the same plan.
pub proof fn lemma_resolved_plans_equal(
    plan1: PipelineV3Plan,
    plan2: PipelineV3Plan,
    configuration: PipelineV3Configuration,
    registry: ProviderRegistry,
    context: PipelinePlanningContext,
    observations: Seq<Vec<ExecutableObservation>>,
    identities: Seq<PipelineInputIdentity>,
)
    requires
        policy_from(plan1.payload.policy, context),
        policy_from(plan2.payload.policy, context),
        payload_assembled(plan1.payload, configuration, registry, plan1.payload.policy, observations, identities),
        payload_assembled(plan2.payload, configuration, registry, plan2.payload.policy, observations, identities),
        plan1.envelope_valid(),
        plan2.envelope_valid(),
    ensures
        pipeline_v3_plan_json(plan1) == pipeline_v3_plan_json(plan2),
        plan1.plan_sha256@ == plan2.plan_sha256@,
{
    lemma_resolution_is_deterministic(
        plan1.payload,
        plan2.payload,
        configuration,
        registry,
        context,
        observations,
        identities,
    );
}

/// A payload passes plan validation.
pub open spec fn payload_validates(payload: PipelineV3PlanPayload) -> bool {
    payload_rules(payload) && forall|c: PipelineV3Configuration| #[trigger]
        authored_from_plan(c, payload) ==> configuration_matches(c, payload)
}

/// Resolve every stage, in order, to its first available provider, and
/// bind its outputs to the selected capability's ports. `observations[k]`
/// holds what was observed of each candidate executable of stage `k`, in
/// precedence order.
#[verifier::rlimit(60)]
#[verifier::spinoff_prover]
pub fn resolve_plan_stages(
    configuration: &PipelineV3Configuration,
    registry: &ProviderRegistry,
    policy: &NormalizedPlanningPolicy,
    observations: &Vec<Vec<ExecutableObservation>>,
) -> (r: Result<Vec<ResolvedPipelineStage>, PipelinePlanningFailure>)
    requires
        configuration.spec_valid(),
        observations@.len() == configuration.stages@.len(),
        forall|k: int|
            0 <= k < observations@.len() ==> (#[trigger] observations@[k])@.len() == intent_candidates(
                configuration.stages@[k].provider,
            ).len(),
    ensures
        r matches Ok(stages) ==> stages@.len() == configuration.stages@.len() && forall|k: int|
            0 <= k < stages@.len() ==> stage_assembled(
                #[trigger] stages@[k],
                configuration.stages@[k],
                *registry,
                *policy,
                observations@[k]@,
            ),
        r matches Err(f) ==> f.category == ErrorCategory::Configuration || (f.category == ErrorCategory::Dependency
            && f.diagnostics@.len() == 1 && f.diagnostics@[0].code == PipelinePlanningDiagnosticCode::ProviderUnavailable
            && exists|k: int|
            0 <= k < configuration.stages@.len() && f.diagnostics@[0].stage == Some(
                (#[trigger] configuration.stages@[k]).id,
            ) && stage_unresolvable(configuration.stages@[k], *registry, *policy, observations@[k]@)),
        r is Ok <==> planned_table(*configuration, *registry, *policy, observations@, configuration.stages@.len() as int) is Some,
{
    let ghost count = configuration.stages@.len() as int;
    let mut table = ContractTable::new();
    let inputs = &configuration.inputs;
    let mut n: usize = 0;
    assert(inputs@.take(0) =~= Seq::<AuthoredPipelineInput>::empty());
    while n < inputs.len()
        invariant
            n <= inputs.len(),
            table.contracts() == authored_table(inputs@.take(n as int)),
        decreases inputs.len() - n,
    {
        table.insert(inputs[n].id.as_str(), inputs[n].artifact_type.as_str(), inputs[n].stream_role);
        assert(inputs@.take(n + 1).drop_last() =~= inputs@.take(n as int));
        assert(inputs@.take(n + 1).last() == inputs@[n as int]);
        n = n + 1;
    }
    assert(inputs@.take(inputs@.len() as int) =~= inputs@);
    let mut stages: Vec<ResolvedPipelineStage> = Vec::new();
    let mut k: usize = 0;
    while k < configuration.stages.len()
        invariant
            configuration.spec_valid(),
            observations@.len() == configuration.stages@.len(),
            forall|j: int|
                0 <= j < observations@.len() ==> (#[trigger] observations@[j])@.len() == intent_candidates(
                    configuration.stages@[j].provider,
                ).len(),
            k <= configuration.stages.len(),
            stages@.len() == k,
            count == configuration.stages@.len(),
            planned_table(*configuration, *registry, *policy, observations@, k as int) == Some(table.contracts()),
            forall|j: int|
                0 <= j < k ==> stage_assembled(
                    #[trigger] stages@[j],
                    configuration.stages@[j],
                    *registry,
                    *policy,
                    observations@[j]@,
                ),
        decreases configuration.stages.len() - k,
    {
        let ghost before = table.contracts();
        let stage = &configuration.stages[k];
        assert(crate::authored::stage_valid(configuration.inputs@, configuration.stages@, k as int));
        let replacement = match &stage.provider.replacement {
            Some(c) => Some(c.duplicate()),
            None => None,
        };
        let request = ProviderResolutionRequest {
            capability_id: stage.capability.id.clone(),
            capability_version_requirement: stage.capability.version_requirement.clone(),
            replacement,
            primary: stage.provider.primary.duplicate(),
            fallbacks: copy_candidates(&stage.provider.fallbacks),
            allowed_side_effects: policy.allowed_side_effects.clone(),
            offline: policy.offline,
            host: policy.host.clone(),
        };
        assert(request.ordered_candidates() == intent_candidates(stage.provider));
        assert(request_for(request, *stage, *policy));
        let resolved = match registry.resolve(&request, &observations[k]) {
            Ok(resolved) => resolved,
            Err(failure) => {
                assert(request_unresolvable(request, *registry, observations@[k as int]@));
                assert(stage_unresolvable(*stage, *registry, *policy, observations@[k as int]@));
                proof {
                    lemma_chosen_none(*stage, *registry, *policy, observations@[k as int]@, request);
                    lemma_planned_table_none(*configuration, *registry, *policy, observations@, k + 1, count);
                }
                return Err(planning_failure(
                    ErrorCategory::Dependency,
                    PipelinePlanningDiagnosticCode::ProviderUnavailable,
                    failure.message,
                    Some(stage.id.clone()),
                    Some(owned("provider")),
                    failure.attempts,
                ));
            },
        };
        let ghost obs = observations@[k as int]@;
        proof {
            assert(request.spec_valid() && selections_representable(request));
            let i = choose|i: int|
                0 <= i < request.ordered_candidates().len() && #[trigger] slot_available(*registry, request, obs, i);
            lemma_first_available_exists(*registry, request, obs, i);
        }
        let ghost j = choose|j: int| #[trigger] first_available(*registry, request, obs, j);
        assert(first_available(*registry, request, obs, j));
        proof {
            lemma_chosen_some(*stage, *registry, *policy, obs, request, j, resolved.spec_registration());
        }
        let selected = resolved.registration().capability();
        let outputs = match resolve_stage_bindings(stage, selected, &table) {
            Ok(outputs) => outputs,
            Err(f) => {
                proof {
                    lemma_planned_table_none(*configuration, *registry, *policy, observations@, k + 1, count);
                }
                return Err(f);
            },
        };
        let capability = copy_capability(selected);
        record_planned_outputs(&mut table, &outputs);
        proof {
            lemma_record_planned_outputs(before, outputs@, stage.outputs@, selected.outputs@);
        }
        let resolution_attempts = stable_attempts(resolved.attempts());
        let ghost spec_attempts = resolved.spec_attempts();
        let provider_lock = resolved.into_provider_lock();
        let next = ResolvedPipelineStage {
            id: stage.id.clone(),
            depends_on: copy_strings(&stage.depends_on),
            capability_requirement: copy_requirement(&stage.capability),
            capability,
            provider_selection: copy_selection(&stage.provider),
            resolution_attempts,
            provider_lock,
            inputs: copy_input_bindings(&stage.inputs),
            outputs,
            validations: copy_validations(&stage.validations),
        };
        proof {
            assert forall|i: int| 0 <= i < stage.outputs@.len() implies output_from_planned(
                #[trigger] stage.outputs@[i],
                next.outputs@[i],
            ) by {
                lemma_planned_records_authored(next.outputs@[i], stage.outputs@[i], selected.outputs@);
            }
            assert(stage_from_resolved(*stage, next));
            assert(attempts_match(spec_attempts, *registry, request, obs, j + 1));
            assert(stage_assembled(next, *stage, *registry, *policy, obs));
        }
        stages.push(next);
        k = k + 1;
    }
    Ok(stages)
}

/// Resolve a configuration into a deterministic, self-validating plan over
/// the identities of its declared inputs (in declaration order).
/// `observations[k]` holds what was observed of each candidate executable
/// of stage `k`, in precedence order.
pub fn resolve_pipeline_v3(
    configuration: &PipelineV3Configuration,
    registry: &ProviderRegistry,
    context: &PipelinePlanningContext,
    observations: &Vec<Vec<ExecutableObservation>>,
    input_identities: Vec<PipelineInputIdentity>,
) -> (r: Result<PipelineV3Plan, PipelinePlanningFailure>)
    requires
        observations@.len() == configuration.stages@.len(),
        forall|k: int|
            0 <= k < observations@.len() ==> (#[trigger] observations@[k])@.len() == intent_candidates(
                configuration.stages@[k].provider,
            ).len(),
    ensures
        !configuration.spec_valid() ==> r is Err,
        (forall|policy: NormalizedPlanningPolicy|
            #[trigger] policy_from(policy, *context) ==> planned_table(
                *configuration,
                *registry,
                policy,
                observations@,
                configuration.stages@.len() as int,
            ) is None) ==> r is Err,
        r matches Ok(plan) ==> {
            &&& policy_from(plan.payload.policy, *context)
            &&& planned_table(
                *configuration,
                *registry,
                plan.payload.policy,
                observations@,
                configuration.stages@.len() as int,
            ) is Some
            &&& plan.envelope_valid()
            &&& payload_rules(plan.payload)
            &&& exists|c: PipelineV3Configuration| #[trigger]
                authored_from_plan(c, plan.payload) && configuration_matches(c, plan.payload)
            &&& plan.payload.pipeline_name == configuration.name
            &&& plan.payload.configuration_sha256@ == canonical_digest(pipeline_v3_configuration_json(*configuration))
            &&& plan.payload.inputs@ == input_identities@
            &&& plan.payload.stages@.len() == configuration.stages@.len()
            &&& forall|k: int|
                0 <= k < plan.payload.stages@.len() ==> (#[trigger] plan.payload.stages@[k]).id == configuration.stages@[k].id
                    && stage_provider_resolved(
                    plan.payload.stages@[k],
                    configuration.stages@[k],
                    *registry,
                    plan.payload.policy,
                    observations@[k]@,
                )
        },
        r matches Ok(plan) ==> payload_assembled(
            plan.payload,
            *configuration,
            *registry,
            plan.payload.policy,
            observations@,
            input_identities@,
        ),
        configuration.spec_valid() && (exists|policy: NormalizedPlanningPolicy| #[trigger] policy_from(policy, *context))
            && (forall|policy: NormalizedPlanningPolicy|
            #[trigger] policy_from(policy, *context) ==> planned_table(
                *configuration,
                *registry,
                policy,
                observations@,
                configuration.stages@.len() as int,
            ) is Some) && r is Err ==> exists|payload: PipelineV3PlanPayload|
            #![trigger payload_validates(payload)]
            policy_from(payload.policy, *context) && payload_assembled(
                payload,
                *configuration,
                *registry,
                payload.policy,
                observations@,
                input_identities@,
            ) && !payload_validates(payload),
        r matches Err(f) ==> f.category == ErrorCategory::Configuration || (f.category == ErrorCategory::Dependency
            && f.diagnostics@.len() == 1 && f.diagnostics@[0].code == PipelinePlanningDiagnosticCode::ProviderUnavailable
            && exists|k: int, policy: NormalizedPlanningPolicy|
            0 <= k < configuration.stages@.len() && #[trigger] policy_from(policy, *context) && f.diagnostics@[0].stage
                == Some((#[trigger] configuration.stages@[k]).id) && stage_unresolvable(
                configuration.stages@[k],
                *registry,
                policy,
                observations@[k]@,
            )),
{
    configuration.validate()?;
    let policy = normalize_policy(context)?;
    assert(policy_from(policy, *context));
    let stages = match resolve_plan_stages(configuration, registry, &policy, observations) {
        Ok(stages) => stages,
        Err(f) => {
            proof {
                if f.category == ErrorCategory::Dependency {
                    let k = choose|k: int|
                        0 <= k < configuration.stages@.len() && f.diagnostics@[0].stage == Some(
                            (#[trigger] configuration.stages@[k]).id,
                        ) && stage_unresolvable(configuration.stages@[k], *registry, policy, observations@[k]@);
                    assert(policy_from(policy, *context) && f.diagnostics@[0].stage == Some(configuration.stages@[k].id));
                }
            }
            return Err(f);
        },
    };
    let digest = configuration.configuration_sha256()?;
    let payload = PipelineV3PlanPayload {
        pipeline_schema: owned(PIPELINE_V3_SCHEMA),
        pipeline_name: configuration.name.clone(),
        configuration_sha256: digest,
        policy,
        inputs: input_identities,
        stages,
        outputs: copy_final_outputs(&configuration.outputs),
    };
    assert(payload_assembled(payload, *configuration, *registry, policy, observations@, payload.inputs@));
    let plan = PipelineV3Plan::new(payload);
    proof {
        if plan is Err {
            assert(policy_from(payload.policy, *context));
            assert(!payload_validates(payload));
        }
    }
    plan
}

} // verus!
