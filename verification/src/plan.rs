//! Resolution of an authored Pipeline v3 configuration into a
//! deterministic plan, and the checks that a resolved plan must pass: port
//! bindings, provider resolution evidence, locked inventories, and digests.
use vstd::prelude::*;

use crate::error::ErrorCategory;
use crate::authored::{intent_candidate_at, intent_candidates};
use crate::planning::{
    AuthoredInputBinding, AuthoredOutputBinding, AuthoredPipelineStage, PipelinePlanningDiagnosticCode,
    PipelinePlanningFailure, PlannedExpectedArtifact, PlannedOutputBinding, PlannedProviderResolutionAttempt,
    ProviderSelectionIntent, ResolvedPipelineStage, availability_codes_consistent, cardinality_accepts,
    configuration_failure, single_failure, validate_availability_code_combination, validate_cardinality,
};
use crate::provider_runtime::{ProviderSelection, ProviderSelectionSource, selection_order};
use crate::order::{text_less, text_lt};
use crate::planning::NormalizedPlanningPolicy;
use crate::provider::{
    ArtifactPort, CapabilityDeclaration, ComponentIdentity, ComponentRequirement, ComputeRequirements,
    ConfigurationSchemaReference, RequirementLevel, SideEffect, StreamRole, capability_valid, contains_effect,
    is_provider_id, schema_key, schema_reference_valid, validate_capability, validate_configuration_schema,
    validate_provider_id, validate_semantic_version,
};
use crate::provider_runtime::{effects_ascending, effects_strictly_ascending};
use crate::provider_runtime::HostResources;
use crate::text::has_control;
use crate::versioning::{parses_as_requirement, parses_as_version, requirement_matches, semver_matches, semver_parses, semver_requirement_parses};
use crate::text::{join3, owned, text_eq};

verus! {

broadcast use vstd::seq_lib::group_seq_properties;

// ---------------------------------------------------------------------------
// Artifact contracts known while planning
// ---------------------------------------------------------------------------

/// The type and stream role recorded for an artifact.
pub type ArtifactShape = (Seq<char>, Option<StreamRole>);

/// Later entries replace earlier entries for the same artifact id.
pub open spec fn table_map(entries: Seq<(String, String, Option<StreamRole>)>) -> Map<Seq<char>, ArtifactShape>
    decreases entries.len(),
{
    if entries.len() == 0 {
        Map::empty()
    } else {
        let last = entries.last();
        table_map(entries.drop_last()).insert(last.0@, (last.1@, last.2))
    }
}

/// The artifact contracts known so far: for each artifact id, its type
/// and stream role.
pub struct ContractTable {
    pub entries: Vec<(String, String, Option<StreamRole>)>,
}

impl ContractTable {
    pub open spec fn contracts(&self) -> Map<Seq<char>, ArtifactShape> {
        table_map(self.entries@)
    }

    pub fn new() -> (t: Self)
        ensures
            t.contracts() == Map::<Seq<char>, ArtifactShape>::empty(),
    {
        ContractTable { entries: Vec::new() }
    }

    /// Record (or replace) the contract of an artifact.
    pub fn insert(&mut self, id: &str, artifact_type: &str, stream_role: Option<StreamRole>)
        ensures
            final(self).contracts() == old(self).contracts().insert(id@, (artifact_type@, stream_role)),
    {
        let ghost before = self.entries@;
        self.entries.push((owned(id), owned(artifact_type), stream_role));
        assert(self.entries@.drop_last() =~= before);
    }

    /// The position of the entry that holds the artifact's contract.
    pub fn find(&self, id: &str) -> (r: Option<usize>)
        ensures
            r is Some <==> self.contracts().dom().contains(id@),
            r matches Some(i) ==> i < self.entries@.len() && self.contracts()[id@] == (
                self.entries@[i as int].1@,
                self.entries@[i as int].2,
            ),
    {
        let mut found: Option<usize> = None;
        let mut i: usize = 0;
        while i < self.entries.len()
            invariant
                i <= self.entries.len(),
                found is Some <==> table_map(self.entries@.take(i as int)).dom().contains(id@),
                found matches Some(k) ==> k < i && table_map(self.entries@.take(i as int))[id@] == (
                    self.entries@[k as int].1@,
                    self.entries@[k as int].2,
                ),
            decreases self.entries.len() - i,
        {
            proof {
                assert(self.entries@.take(i + 1).drop_last() =~= self.entries@.take(i as int));
                assert(self.entries@.take(i + 1).last() == self.entries@[i as int]);
            }
            if text_eq(self.entries[i].0.as_str(), id) {
                found = Some(i);
            }
            i = i + 1;
        }
        assert(self.entries@.take(self.entries@.len() as int) =~= self.entries@);
        found
    }
}

// ---------------------------------------------------------------------------
// Port bindings
// ---------------------------------------------------------------------------

/// The last declared port with this name.
pub open spec fn port_named(ports: Seq<ArtifactPort>, name: Seq<char>) -> Option<ArtifactPort>
    decreases ports.len(),
{
    if ports.len() == 0 {
        None
    } else if ports.last().name@ == name {
        Some(ports.last())
    } else {
        port_named(ports.drop_last(), name)
    }
}

/// The number of artifacts bound to the first binding of this port, or
/// zero when the port is not bound.
pub open spec fn bound_count(names: Seq<Seq<char>>, counts: Seq<usize>, name: Seq<char>) -> int
    decreases names.len(),
{
    if names.len() == 0 || counts.len() == 0 {
        0
    } else if names[0] == name {
        counts[0] as int
    } else {
        bound_count(names.drop_first(), counts.drop_first(), name)
    }
}

pub open spec fn input_ports(bindings: Seq<AuthoredInputBinding>) -> Seq<Seq<char>> {
    bindings.map_values(|b: AuthoredInputBinding| b.port@)
}

pub open spec fn input_counts(bindings: Seq<AuthoredInputBinding>) -> Seq<usize> {
    bindings.map_values(|b: AuthoredInputBinding| b.artifacts@.len() as usize)
}

pub open spec fn output_ports(bindings: Seq<AuthoredOutputBinding>) -> Seq<Seq<char>> {
    bindings.map_values(|b: AuthoredOutputBinding| b.port@)
}

pub open spec fn output_counts(bindings: Seq<AuthoredOutputBinding>) -> Seq<usize> {
    bindings.map_values(|b: AuthoredOutputBinding| b.artifacts@.len() as usize)
}

pub open spec fn planned_ports(bindings: Seq<PlannedOutputBinding>) -> Seq<Seq<char>> {
    bindings.map_values(|b: PlannedOutputBinding| b.port@)
}

pub open spec fn planned_counts(bindings: Seq<PlannedOutputBinding>) -> Seq<usize> {
    bindings.map_values(|b: PlannedOutputBinding| b.artifacts@.len() as usize)
}

/// The artifact is known with exactly the port's type and stream role.
pub open spec fn artifact_fits(table: Map<Seq<char>, ArtifactShape>, id: Seq<char>, port: ArtifactPort) -> bool {
    &&& table.dom().contains(id)
    &&& table[id].0 == port.artifact_type@
    &&& table[id].1 == port.stream_role
}

/// Every input binding names a declared input port, and every artifact it
/// binds fits that port.
pub open spec fn inputs_resolve(
    bindings: Seq<AuthoredInputBinding>,
    ports: Seq<ArtifactPort>,
    table: Map<Seq<char>, ArtifactShape>,
) -> bool {
    forall|i: int|
        0 <= i < bindings.len() ==> port_named(ports, (#[trigger] bindings[i]).port@) is Some && forall|x: int|
            0 <= x < bindings[i].artifacts@.len() ==> artifact_fits(
                table,
                (#[trigger] bindings[i].artifacts@[x])@,
                port_named(ports, bindings[i].port@)->0,
            )
}

/// Every declared port receives a number of artifacts its cardinality
/// accepts.
pub open spec fn cardinalities_hold(ports: Seq<ArtifactPort>, names: Seq<Seq<char>>, counts: Seq<usize>) -> bool {
    forall|j: int|
        0 <= j < ports.len() ==> cardinality_accepts(
            (#[trigger] ports[j]).cardinality,
            bound_count(names, counts, ports[j].name@),
        )
}

/// Every bound port name is a declared port.
pub open spec fn ports_declared(names: Seq<Seq<char>>, ports: Seq<ArtifactPort>) -> bool {
    forall|i: int| 0 <= i < names.len() ==> port_named(ports, #[trigger] names[i]) is Some
}

/// The stage's bindings agree with the capability's declared ports.
pub open spec fn stage_bindings_resolve(
    stage: AuthoredPipelineStage,
    capability: CapabilityDeclaration,
    table: Map<Seq<char>, ArtifactShape>,
) -> bool {
    &&& inputs_resolve(stage.inputs@, capability.inputs@, table)
    &&& cardinalities_hold(capability.inputs@, input_ports(stage.inputs@), input_counts(stage.inputs@))
    &&& ports_declared(output_ports(stage.outputs@), capability.outputs@)
    &&& cardinalities_hold(capability.outputs@, output_ports(stage.outputs@), output_counts(stage.outputs@))
}

/// A planned artifact: the authored id and path with the port's contract.
pub open spec fn planned_artifact_matches(
    planned: PlannedExpectedArtifact,
    id: Seq<char>,
    relative_path: Seq<char>,
    port: ArtifactPort,
) -> bool {
    &&& planned.id@ == id
    &&& planned.relative_path@ == relative_path
    &&& planned.artifact_type@ == port.artifact_type@
    &&& planned.artifact_role == port.artifact_role
    &&& planned.stream_role == port.stream_role
}

/// A planned binding: the authored binding with each artifact carrying the
/// contract of its port.
pub open spec fn planned_binding_matches(
    planned: PlannedOutputBinding,
    binding: AuthoredOutputBinding,
    ports: Seq<ArtifactPort>,
) -> bool {
    let port = port_named(ports, binding.port@)->0;
    &&& planned.port@ == binding.port@
    &&& planned.artifacts@.len() == binding.artifacts@.len()
    &&& forall|k: int|
        0 <= k < binding.artifacts@.len() ==> planned_artifact_matches(
            #[trigger] planned.artifacts@[k],
            binding.artifacts@[k].id@,
            binding.artifacts@[k].relative_path@,
            port,
        )
}

/// The position of the last port with this name.
pub fn find_port(ports: &Vec<ArtifactPort>, name: &str) -> (r: Option<usize>)
    ensures
        r is Some <==> port_named(ports@, name@) is Some,
        r matches Some(i) ==> i < ports@.len() && port_named(ports@, name@) == Some(ports@[i as int]),
{
    let mut found: Option<usize> = None;
    let mut i: usize = 0;
    while i < ports.len()
        invariant
            i <= ports.len(),
            found is Some <==> port_named(ports@.take(i as int), name@) is Some,
            found matches Some(k) ==> k < i && port_named(ports@.take(i as int), name@) == Some(ports@[k as int]),
        decreases ports.len() - i,
    {
        proof {
            assert(ports@.take(i + 1).drop_last() =~= ports@.take(i as int));
            assert(ports@.take(i + 1).last() == ports@[i as int]);
        }
        if text_eq(ports[i].name.as_str(), name) {
            found = Some(i);
        }
        i = i + 1;
    }
    assert(ports@.take(ports@.len() as int) =~= ports@);
    found
}

fn count_of(names: &Vec<String>, counts: &Vec<usize>, name: &str) -> (r: usize)
    requires
        names@.len() == counts@.len(),
    ensures
        r == bound_count(crate::order::texts(names@), counts@, name@),
{
    let ghost tn = crate::order::texts(names@);
    let mut i: usize = 0;
    while i < names.len()
        invariant
            names@.len() == counts@.len(),
            tn == crate::order::texts(names@),
            i <= names.len(),
            bound_count(tn, counts@, name@) == bound_count(tn.skip(i as int), counts@.skip(i as int), name@),
        decreases names.len() - i,
    {
        assert(tn.skip(i as int).drop_first() =~= tn.skip(i + 1));
        assert(counts@.skip(i as int).drop_first() =~= counts@.skip(i + 1));
        assert(tn.skip(i as int)[0] == names@[i as int]@);
        if text_eq(names[i].as_str(), name) {
            return counts[i];
        }
        i = i + 1;
    }
    0
}

/// Check that every declared port receives an acceptable number of
/// artifacts.
fn check_cardinalities(
    stage: &str,
    ports: &Vec<ArtifactPort>,
    names: &Vec<String>,
    counts: &Vec<usize>,
    direction: &str,
) -> (r: Result<(), PipelinePlanningFailure>)
    requires
        names@.len() == counts@.len(),
    ensures
        r is Ok <==> cardinalities_hold(ports@, crate::order::texts(names@), counts@),
        r matches Err(f) ==> crate::planning::one_refusal(f),
{
    let mut j: usize = 0;
    while j < ports.len()
        invariant
            names@.len() == counts@.len(),
            j <= ports.len(),
            forall|k: int|
                0 <= k < j ==> cardinality_accepts(
                    (#[trigger] ports@[k]).cardinality,
                    bound_count(crate::order::texts(names@), counts@, ports@[k].name@),
                ),
        decreases ports.len() - j,
    {
        let port = &ports[j];
        let count = count_of(names, counts, port.name.as_str());
        validate_cardinality(stage, port, count, direction)?;
        j = j + 1;
    }
    Ok(())
}

/// Check that every bound port name is declared.
fn check_ports_declared(stage: &str, names: &Vec<String>, ports: &Vec<ArtifactPort>, direction: &str) -> (r: Result<
    (),
    PipelinePlanningFailure,
>)
    ensures
        r is Ok <==> ports_declared(crate::order::texts(names@), ports@),
        r matches Err(f) ==> crate::planning::one_refusal(f),
{
    let mut i: usize = 0;
    while i < names.len()
        invariant
            i <= names.len(),
            forall|k: int| 0 <= k < i ==> port_named(ports@, #[trigger] crate::order::texts(names@)[k]) is Some,
        decreases names.len() - i,
    {
        assert(crate::order::texts(names@)[i as int] == names@[i as int]@);
        if find_port(ports, names[i].as_str()).is_none() {
            let mut message = join3("stage ", stage, " binds undeclared capability ");
            message.append(direction);
            message.append(" port ");
            message.append(names[i].as_str());
            return Err(configuration_failure(
                PipelinePlanningDiagnosticCode::UnknownPort,
                message,
                Some(stage),
                direction,
            ));
        }
        i = i + 1;
    }
    Ok(())
}

fn same_stream_role(a: Option<StreamRole>, b: Option<StreamRole>) -> (r: bool)
    ensures
        r == (a == b),
{
    match (a, b) {
        (None, None) => true,
        (Some(x), Some(y)) => x == y,
        _ => false,
    }
}

/// Check the input bindings against the declared input ports and the known
/// artifact contracts.
fn check_input_bindings(
    stage: &str,
    bindings: &Vec<AuthoredInputBinding>,
    ports: &Vec<ArtifactPort>,
    table: &ContractTable,
) -> (r: Result<(), PipelinePlanningFailure>)
    ensures
        r is Ok <==> inputs_resolve(bindings@, ports@, table.contracts()),
        r matches Err(f) ==> crate::planning::one_refusal(f),
{
    let ghost m = table.contracts();
    let mut i: usize = 0;
    while i < bindings.len()
        invariant
            m == table.contracts(),
            i <= bindings.len(),
            forall|k: int|
                0 <= k < i ==> port_named(ports@, (#[trigger] bindings@[k]).port@) is Some && forall|x: int|
                    0 <= x < bindings@[k].artifacts@.len() ==> artifact_fits(
                        m,
                        (#[trigger] bindings@[k].artifacts@[x])@,
                        port_named(ports@, bindings@[k].port@)->0,
                    ),
        decreases bindings.len() - i,
    {
        let binding = &bindings[i];
        let p = match find_port(ports, binding.port.as_str()) {
            Some(p) => p,
            None => {
                let mut message = join3("stage ", stage, " binds undeclared capability input port ");
                message.append(binding.port.as_str());
                return Err(configuration_failure(PipelinePlanningDiagnosticCode::UnknownPort, message, Some(stage), "inputs"));
            },
        };
        let port = &ports[p];
        let mut x: usize = 0;
        while x < binding.artifacts.len()
            invariant
                m == table.contracts(),
                i < bindings@.len(),
                *binding == bindings@[i as int],
                p < ports@.len(),
                *port == ports@[p as int],
                port_named(ports@, binding.port@) == Some(ports@[p as int]),
                x <= binding.artifacts.len(),
                forall|y: int| 0 <= y < x ==> artifact_fits(m, (#[trigger] binding.artifacts@[y])@, *port),
            decreases binding.artifacts.len() - x,
        {
            let artifact_id = binding.artifacts[x].as_str();
            match table.find(artifact_id) {
                Some(e) => {
                    let entry = &table.entries[e];
                    if !text_eq(entry.1.as_str(), port.artifact_type.as_str()) {
                        let mut message = join3("stage ", stage, " input port ");
                        message.append(port.name.as_str());
                        message.append(" requires artifact type ");
                        message.append(port.artifact_type.as_str());
                        message.append(", but ");
                        message.append(artifact_id);
                        message.append(" is ");
                        message.append(entry.1.as_str());
                        return Err(configuration_failure(
                            PipelinePlanningDiagnosticCode::ArtifactTypeMismatch,
                            message,
                            Some(stage),
                            "input",
                        ));
                    }
                    if !same_stream_role(entry.2, port.stream_role) {
                        let mut message = join3("stage ", stage, " input port ");
                        message.append(port.name.as_str());
                        message.append(" requires another stream role than ");
                        message.append(artifact_id);
                        message.append(" has");
                        return Err(configuration_failure(
                            PipelinePlanningDiagnosticCode::StreamRoleMismatch,
                            message,
                            Some(stage),
                            "input",
                        ));
                    }
                },
                None => {
                    let mut message = join3("stage ", stage, " input port ");
                    message.append(binding.port.as_str());
                    message.append(" references unknown artifact ");
                    message.append(artifact_id);
                    return Err(configuration_failure(
                        PipelinePlanningDiagnosticCode::UnknownArtifact,
                        message,
                        Some(stage),
                        "inputs",
                    ));
                },
            }
            x = x + 1;
        }
        i = i + 1;
    }
    Ok(())
}

fn input_shape(bindings: &Vec<AuthoredInputBinding>) -> (r: (Vec<String>, Vec<usize>))
    ensures
        crate::order::texts(r.0@) == input_ports(bindings@),
        r.1@ == input_counts(bindings@),
        r.0@.len() == r.1@.len(),
{
    let mut names: Vec<String> = Vec::new();
    let mut counts: Vec<usize> = Vec::new();
    let mut i: usize = 0;
    while i < bindings.len()
        invariant
            i <= bindings.len(),
            crate::order::texts(names@) == input_ports(bindings@.take(i as int)),
            counts@ == input_counts(bindings@.take(i as int)),
            names@.len() == i,
            counts@.len() == i,
        decreases bindings.len() - i,
    {
        let ghost before = names@;
        names.push(bindings[i].port.clone());
        counts.push(bindings[i].artifacts.len());
        assert(crate::order::texts(names@) =~= crate::order::texts(before).push(bindings@[i as int].port@));
        assert(input_ports(bindings@.take(i + 1)) =~= input_ports(bindings@.take(i as int)).push(bindings@[i as int].port@));
        assert(counts@ =~= input_counts(bindings@.take(i + 1)));
        i = i + 1;
    }
    assert(bindings@.take(bindings@.len() as int) =~= bindings@);
    (names, counts)
}

fn output_shape(bindings: &Vec<AuthoredOutputBinding>) -> (r: (Vec<String>, Vec<usize>))
    ensures
        crate::order::texts(r.0@) == output_ports(bindings@),
        r.1@ == output_counts(bindings@),
        r.0@.len() == r.1@.len(),
{
    let mut names: Vec<String> = Vec::new();
    let mut counts: Vec<usize> = Vec::new();
    let mut i: usize = 0;
    while i < bindings.len()
        invariant
            i <= bindings.len(),
            crate::order::texts(names@) == output_ports(bindings@.take(i as int)),
            counts@ == output_counts(bindings@.take(i as int)),
            names@.len() == i,
            counts@.len() == i,
        decreases bindings.len() - i,
    {
        let ghost before = names@;
        names.push(bindings[i].port.clone());
        counts.push(bindings[i].artifacts.len());
        assert(crate::order::texts(names@) =~= crate::order::texts(before).push(bindings@[i as int].port@));
        assert(output_ports(bindings@.take(i + 1)) =~= output_ports(bindings@.take(i as int)).push(bindings@[i as int].port@));
        assert(counts@ =~= output_counts(bindings@.take(i + 1)));
        i = i + 1;
    }
    assert(bindings@.take(bindings@.len() as int) =~= bindings@);
    (names, counts)
}

fn plan_binding(binding: &AuthoredOutputBinding, port: &ArtifactPort) -> (r: PlannedOutputBinding)
    ensures
        r.port@ == binding.port@,
        r.artifacts@.len() == binding.artifacts@.len(),
        forall|k: int|
            0 <= k < binding.artifacts@.len() ==> planned_artifact_matches(
                #[trigger] r.artifacts@[k],
                binding.artifacts@[k].id@,
                binding.artifacts@[k].relative_path@,
                *port,
            ),
{
    let mut artifacts: Vec<PlannedExpectedArtifact> = Vec::new();
    let mut k: usize = 0;
    while k < binding.artifacts.len()
        invariant
            k <= binding.artifacts.len(),
            artifacts@.len() == k,
            forall|j: int|
                0 <= j < k ==> planned_artifact_matches(
                    #[trigger] artifacts@[j],
                    binding.artifacts@[j].id@,
                    binding.artifacts@[j].relative_path@,
                    *port,
                ),
        decreases binding.artifacts.len() - k,
    {
        let a = &binding.artifacts[k];
        artifacts.push(PlannedExpectedArtifact {
            id: a.id.clone(),
            relative_path: a.relative_path.clone(),
            artifact_type: port.artifact_type.clone(),
            artifact_role: port.artifact_role,
            stream_role: port.stream_role,
        });
        k = k + 1;
    }
    PlannedOutputBinding { port: binding.port.clone(), artifacts }
}

/// Check a stage's bindings against its selected capability's ports and
/// the known artifact contracts, and give each output artifact its port's
/// contract.
pub fn resolve_stage_bindings(
    stage: &AuthoredPipelineStage,
    capability: &CapabilityDeclaration,
    table: &ContractTable,
) -> (r: Result<Vec<PlannedOutputBinding>, PipelinePlanningFailure>)
    ensures
        r is Ok <==> stage_bindings_resolve(*stage, *capability, table.contracts()),
        r matches Ok(outputs) ==> outputs@.len() == stage.outputs@.len() && forall|i: int|
            0 <= i < outputs@.len() ==> planned_binding_matches(
                #[trigger] outputs@[i],
                stage.outputs@[i],
                capability.outputs@,
            ),
        r matches Err(f) ==> crate::planning::one_refusal(f),
{
    let sid = stage.id.as_str();
    check_input_bindings(sid, &stage.inputs, &capability.inputs, table)?;
    let (in_names, in_counts) = input_shape(&stage.inputs);
    check_cardinalities(sid, &capability.inputs, &in_names, &in_counts, "input")?;
    let (out_names, out_counts) = output_shape(&stage.outputs);
    check_ports_declared(sid, &out_names, &capability.outputs, "output")?;
    let mut outputs: Vec<PlannedOutputBinding> = Vec::new();
    let mut i: usize = 0;
    while i < stage.outputs.len()
        invariant
            i <= stage.outputs.len(),
            ports_declared(output_ports(stage.outputs@), capability.outputs@),
            outputs@.len() == i,
            forall|k: int|
                0 <= k < i ==> planned_binding_matches(
                    #[trigger] outputs@[k],
                    stage.outputs@[k],
                    capability.outputs@,
                ),
        decreases stage.outputs.len() - i,
    {
        let binding = &stage.outputs[i];
        assert(output_ports(stage.outputs@)[i as int] == binding.port@);
        let p = find_port(&capability.outputs, binding.port.as_str()).unwrap();
        outputs.push(plan_binding(binding, &capability.outputs[p]));
        i = i + 1;
    }
    check_cardinalities(sid, &capability.outputs, &out_names, &out_counts, "output")?;
    Ok(outputs)
}

// ---------------------------------------------------------------------------
// Provider resolution evidence
// ---------------------------------------------------------------------------

/// The selection slot of each candidate of an intent, in precedence order.
pub open spec fn intent_selections(provider: ProviderSelectionIntent) -> Seq<ProviderSelection> {
    selection_order(provider.replacement is Some, provider.fallbacks@.len())
}

/// Slot `k` is the candidate and selection that the stage's lock records.
pub open spec fn lock_slot(stage: ResolvedPipelineStage, k: int) -> bool {
    let provider = stage.provider_selection;
    &&& 0 <= k < intent_candidates(provider).len()
    &&& intent_candidates(provider)[k].registration_id@ == stage.provider_lock.payload.registration_id@
    &&& intent_selections(provider)[k] == stage.provider_lock.payload.selection
}

/// Attempt `i` records slot `i`, available exactly when it is the selected
/// slot `k`, with reasons exactly when it is not, and those reasons
/// consistent.
pub open spec fn attempt_evidence_ok(
    attempt: PlannedProviderResolutionAttempt,
    provider: ProviderSelectionIntent,
    i: int,
    k: int,
) -> bool {
    &&& attempt.candidate.registration_id@ == intent_candidates(provider)[i].registration_id@
    &&& attempt.selection == intent_selections(provider)[i]
    &&& attempt.available == (i == k)
    &&& i == k ==> attempt.reason_codes@.len() == 0
    &&& i != k ==> attempt.reason_codes@.len() > 0 && availability_codes_consistent(attempt.reason_codes@)
}

/// The evidence of a resolved stage: every slot up to the locked one, in
/// precedence order, and nothing after it.
pub open spec fn resolution_evidence_valid(stage: ResolvedPipelineStage) -> bool {
    let provider = stage.provider_selection;
    let attempts = stage.resolution_attempts@;
    &&& provider.fallbacks@.len() <= u32::MAX + 1
    &&& exists|k: int|
        #[trigger] lock_slot(stage, k) && attempts.len() == k + 1 && forall|i: int|
            0 <= i <= k ==> attempt_evidence_ok(#[trigger] attempts[i], provider, i, k)
}

/// No two precedence slots share a selection.
pub proof fn lemma_selections_distinct(has_replacement: bool, fallbacks: nat, i: int, j: int)
    requires
        0 <= i < j < selection_order(has_replacement, fallbacks).len(),
        fallbacks <= u32::MAX + 1,
    ensures
        selection_order(has_replacement, fallbacks)[i] != selection_order(has_replacement, fallbacks)[j],
{
    let s = selection_order(has_replacement, fallbacks);
    let head: int = if has_replacement { 1 } else { 0 };
    if i >= head + 1 {
        assert(s[i].fallback_index == Some((i - head - 1) as u32));
        assert(s[j].fallback_index == Some((j - head - 1) as u32));
    }
}

fn intent_selection_at(provider: &ProviderSelectionIntent, k: usize) -> (s: ProviderSelection)
    requires
        k < intent_candidates(*provider).len(),
        provider.fallbacks@.len() <= u32::MAX + 1,
    ensures
        s == intent_selections(*provider)[k as int],
{
    let head: usize = if provider.replacement.is_some() { 1 } else { 0 };
    if k < head {
        ProviderSelection { source: ProviderSelectionSource::Replacement, fallback_index: None }
    } else if k == head {
        ProviderSelection { source: ProviderSelectionSource::Primary, fallback_index: None }
    } else {
        let index = k - head - 1;
        assert(index <= u32::MAX);
        ProviderSelection { source: ProviderSelectionSource::Fallback, fallback_index: Some(index as u32) }
    }
}

fn evidence_failure(stage: &str, message: &str, field: &str) -> (f: PipelinePlanningFailure)
    ensures
        f.category == ErrorCategory::Configuration,
        single_failure(
            f,
            ErrorCategory::Configuration,
            PipelinePlanningDiagnosticCode::InvalidResolvedPlan,
            "stage "@ + stage@ + message@,
            Some(stage@),
            Some(field@),
        ),
{
    configuration_failure(
        PipelinePlanningDiagnosticCode::InvalidResolvedPlan,
        join3("stage ", stage, message),
        Some(stage),
        field,
    )
}

/// Check that a stage's resolution evidence follows the authored provider
/// precedence up to the locked selection.
pub fn validate_resolution_evidence(stage: &ResolvedPipelineStage) -> (r: Result<(), PipelinePlanningFailure>)
    ensures
        r is Ok <==> resolution_evidence_valid(*stage),
        r matches Err(f) ==> crate::planning::one_refusal(f),
{
    let sid = stage.id.as_str();
    let provider = &stage.provider_selection;
    let attempts = &stage.resolution_attempts;
    let lock = &stage.provider_lock.payload;
    if provider.fallbacks.len() as u64 > 4294967296u64 {
        return Err(evidence_failure(sid, " contains too many fallback providers", "provider_selection.fallbacks"));
    }
    let head: usize = if provider.replacement.is_some() { 2 } else { 1 };
    let count: usize = if provider.fallbacks.len() <= usize::MAX - head {
        head + provider.fallbacks.len()
    } else {
        usize::MAX
    };
    assert(count <= intent_candidates(*provider).len());
    assert(count < intent_candidates(*provider).len() ==> count == usize::MAX);
    let mut k: usize = 0;
    while k < count
        invariant
            count <= intent_candidates(*provider).len(),
            provider.fallbacks@.len() <= u32::MAX + 1,
            *provider == stage.provider_selection,
            *lock == stage.provider_lock.payload,
            k <= count,
            forall|j: int| 0 <= j < k ==> !#[trigger] lock_slot(*stage, j),
        ensures
            k <= count,
            forall|j: int| 0 <= j < k ==> !#[trigger] lock_slot(*stage, j),
            k < count ==> lock_slot(*stage, k as int),
        decreases count - k,
    {
        let candidate = intent_candidate_at(provider, k);
        let selection = intent_selection_at(provider, k);
        if text_eq(candidate.registration_id.as_str(), lock.registration_id.as_str()) && selection == lock.selection {
            break;
        }
        k = k + 1;
    }
    if k == count {
        let attempt_count = attempts.len();
        proof {
            assert forall|j: int| #[trigger] lock_slot(*stage, j) implies attempts@.len() != j + 1 by {
                assert(j >= count);
                assert(j < intent_candidates(*provider).len());
                assert(count == usize::MAX);
                assert(attempts@.len() == attempt_count);
            }
        }
        return Err(evidence_failure(
            sid,
            " provider lock selection is absent from authored provider policy",
            "provider_lock.payload.selection",
        ));
    }
    proof {
        assert forall|j: int| #[trigger] lock_slot(*stage, j) implies j == k by {
            if j != k {
                assert(lock_slot(*stage, k as int));
                if j < k {
                } else {
                    lemma_selections_distinct(provider.replacement is Some, provider.fallbacks@.len(), k as int, j);
                }
            }
        }
    }
    if attempts.len() != k + 1 {
        return Err(evidence_failure(sid, " resolution evidence does not end at the selected provider", "resolution_attempts"));
    }
    let mut i: usize = 0;
    while i < attempts.len()
        invariant
            count <= intent_candidates(*provider).len(),
            provider.fallbacks@.len() <= u32::MAX + 1,
            *provider == stage.provider_selection,
            *attempts == stage.resolution_attempts,
            attempts@.len() == k + 1,
            k < count,
            lock_slot(*stage, k as int),
            forall|j: int| #[trigger] lock_slot(*stage, j) ==> j == k,
            i <= attempts.len(),
            forall|j: int| 0 <= j < i ==> attempt_evidence_ok(#[trigger] attempts@[j], *provider, j, k as int),
        decreases attempts.len() - i,
    {
        let attempt = &attempts[i];
        let candidate = intent_candidate_at(provider, i);
        let selection = intent_selection_at(provider, i);
        if !text_eq(attempt.candidate.registration_id.as_str(), candidate.registration_id.as_str())
            || attempt.selection != selection {
            return Err(evidence_failure(
                sid,
                " resolution attempt violates provider precedence",
                "resolution_attempts",
            ));
        }
        let selected = i == k;
        if attempt.available != selected || (selected && attempt.reason_codes.len() != 0) || (!selected
            && attempt.reason_codes.len() == 0) {
            return Err(evidence_failure(
                sid,
                " resolution attempt has contradictory availability evidence",
                "resolution_attempts",
            ));
        }
        if !selected {
            validate_availability_code_combination(&attempt.reason_codes, Some(sid))?;
        }
        i = i + 1;
    }
    Ok(())
}

// ---------------------------------------------------------------------------
// Locked component inventories and host resources
// ---------------------------------------------------------------------------

/// The first component with this id.
pub open spec fn component_with_id(inventory: Seq<ComponentIdentity>, id: Seq<char>) -> Option<ComponentIdentity>
    decreases inventory.len(),
{
    if inventory.len() == 0 {
        None
    } else if inventory[0].id@ == id {
        Some(inventory[0])
    } else {
        component_with_id(inventory.drop_first(), id)
    }
}

/// Ordered by id, then by version.
pub open spec fn identity_less(a: ComponentIdentity, b: ComponentIdentity) -> bool {
    text_less(a.id@, b.id@) || (a.id@ == b.id@ && text_less(a.version@, b.version@))
}

/// Each component precedes the next one.
pub open spec fn inventory_sorted(inventory: Seq<ComponentIdentity>) -> bool {
    forall|i: int, j: int|
        0 <= i && j == i + 1 && j < inventory.len() ==> identity_less(#[trigger] inventory[i], #[trigger] inventory[j])
}

/// The first locked component with the requirement's id satisfies its
/// version requirement and, when it names one, its digest.
pub open spec fn requirement_locked(requirement: ComponentRequirement, inventory: Seq<ComponentIdentity>) -> bool {
    match component_with_id(inventory, requirement.id@) {
        None => false,
        Some(c) => {
            &&& !has_control(requirement.version_requirement@)
            &&& semver_requirement_parses(requirement.version_requirement@)
            &&& !has_control(c.version@)
            &&& semver_parses(c.version@)
            &&& semver_matches(requirement.version_requirement@, c.version@)
            &&& requirement.sha256 matches Some(d) ==> (c.sha256 matches Some(e) && e@ == d@)
        },
    }
}

/// The inventory is exactly the sorted set of components the requirements
/// name.
pub open spec fn inventory_exact(requirements: Seq<ComponentRequirement>, inventory: Seq<ComponentIdentity>) -> bool {
    &&& requirements.len() == inventory.len()
    &&& inventory_sorted(inventory)
    &&& forall|i: int| 0 <= i < requirements.len() ==> requirement_locked(#[trigger] requirements[i], inventory)
}

fn find_component(inventory: &Vec<ComponentIdentity>, id: &str) -> (r: Option<usize>)
    ensures
        r is None <==> component_with_id(inventory@, id@) is None,
        r matches Some(i) ==> i < inventory@.len() && component_with_id(inventory@, id@) == Some(inventory@[i as int]),
{
    let mut i: usize = 0;
    while i < inventory.len()
        invariant
            i <= inventory.len(),
            component_with_id(inventory@, id@) == component_with_id(inventory@.skip(i as int), id@),
        decreases inventory.len() - i,
    {
        assert(inventory@.skip(i as int).drop_first() =~= inventory@.skip(i + 1));
        assert(inventory@.skip(i as int)[0] == inventory@[i as int]);
        if text_eq(inventory[i].id.as_str(), id) {
            return Some(i);
        }
        i = i + 1;
    }
    None
}

fn identity_lt(a: &ComponentIdentity, b: &ComponentIdentity) -> (r: bool)
    ensures
        r == identity_less(*a, *b),
{
    text_lt(a.id.as_str(), b.id.as_str()) || (text_eq(a.id.as_str(), b.id.as_str()) && text_lt(
        a.version.as_str(),
        b.version.as_str(),
    ))
}

fn inventory_failure(stage: &str, message: &str, field: &str) -> (f: PipelinePlanningFailure)
    ensures
        f.category == ErrorCategory::Configuration,
        single_failure(
            f,
            ErrorCategory::Configuration,
            PipelinePlanningDiagnosticCode::InvalidResolvedPlan,
            "stage "@ + stage@ + " "@ + message@,
            Some(stage@),
            Some(field@),
        ),
{
    let mut text = join3("stage ", stage, " ");
    text.append(message);
    configuration_failure(PipelinePlanningDiagnosticCode::InvalidResolvedPlan, text, Some(stage), field)
}

/// Check that a locked inventory is exactly the sorted requirement set.
pub fn validate_component_inventory(
    stage: &str,
    kind: &str,
    requirements: &Vec<ComponentRequirement>,
    inventory: &Vec<ComponentIdentity>,
) -> (r: Result<(), PipelinePlanningFailure>)
    ensures
        r is Ok <==> inventory_exact(requirements@, inventory@),
        r matches Err(f) ==> crate::planning::one_refusal(f),
{
    if requirements.len() != inventory.len() {
        return Err(inventory_failure(stage, "locked inventory is not the exact sorted requirement set", kind));
    }
    let mut i: usize = 1;
    while i < inventory.len()
        invariant
            1 <= i,
            i <= inventory.len() || inventory.len() == 0,
            forall|a: int, b: int|
                0 <= a && b == a + 1 && b < i && b < inventory@.len() ==> identity_less(
                    #[trigger] inventory@[a],
                    #[trigger] inventory@[b],
                ),
        decreases inventory.len() - i,
    {
        if !identity_lt(&inventory[i - 1], &inventory[i]) {
            return Err(inventory_failure(stage, "locked inventory is not the exact sorted requirement set", kind));
        }
        i = i + 1;
    }
    let mut k: usize = 0;
    while k < requirements.len()
        invariant
            k <= requirements.len(),
            inventory_sorted(inventory@),
            forall|a: int| 0 <= a < k ==> requirement_locked(#[trigger] requirements@[a], inventory@),
        decreases requirements.len() - k,
    {
        let requirement = &requirements[k];
        let c = match find_component(inventory, requirement.id.as_str()) {
            Some(c) => c,
            None => {
                return Err(inventory_failure(stage, "locked inventory omits a required component", kind));
            },
        };
        let component = &inventory[c];
        if crate::text::text_has_control(requirement.version_requirement.as_str()) {
            return Err(inventory_failure(stage, "has a version requirement with control characters", "capability.requirements"));
        }
        if !parses_as_requirement(requirement.version_requirement.as_str()) {
            return Err(inventory_failure(stage, "has an invalid version requirement", "capability.requirements"));
        }
        if crate::text::text_has_control(component.version.as_str()) {
            return Err(inventory_failure(stage, "locked version contains control characters", kind));
        }
        if !parses_as_version(component.version.as_str()) {
            return Err(inventory_failure(stage, "locked component has an invalid version", kind));
        }
        let digest_ok = match &requirement.sha256 {
            Some(d) => match &component.sha256 {
                Some(e) => text_eq(e.as_str(), d.as_str()),
                None => false,
            },
            None => true,
        };
        if !requirement_matches(requirement.version_requirement.as_str(), component.version.as_str()) || !digest_ok {
            return Err(inventory_failure(stage, "locked component does not satisfy its exact requirement", kind));
        }
        k = k + 1;
    }
    Ok(())
}

/// The host and offline policy cover the capability's compute needs.
pub open spec fn resources_cover(compute: ComputeRequirements, host: HostResources, offline: bool) -> bool {
    &&& host.cpu_threads >= compute.minimum_cpu_threads
    &&& host.memory_mib >= compute.minimum_memory_mib
    &&& host.storage_mib >= compute.minimum_storage_mib
    &&& (compute.gpu != RequirementLevel::Required || host.gpu_available)
    &&& (compute.network != RequirementLevel::Required || host.network_available)
    &&& (!offline || compute.network == RequirementLevel::Forbidden)
}

/// The stage's requirements fit the plan policy, and its lock holds
/// exactly the required tools, codecs, and models.
pub open spec fn requirements_locked(stage: ResolvedPipelineStage, policy: NormalizedPlanningPolicy) -> bool {
    let requirements = stage.capability.requirements;
    let lock = stage.provider_lock.payload;
    &&& resources_cover(requirements.compute, policy.host, policy.offline)
    &&& inventory_exact(requirements.tools@, lock.tools@)
    &&& inventory_exact(requirements.codecs@, lock.codecs@)
    &&& inventory_exact(requirements.models@, lock.models@)
}

pub fn validate_resolved_requirements(
    stage: &ResolvedPipelineStage,
    policy: &NormalizedPlanningPolicy,
) -> (r: Result<(), PipelinePlanningFailure>)
    ensures
        r is Ok <==> requirements_locked(*stage, *policy),
        r matches Err(f) ==> crate::planning::one_refusal(f),
{
    let compute = &stage.capability.requirements.compute;
    let host = &policy.host;
    let available = host.cpu_threads >= compute.minimum_cpu_threads && host.memory_mib >= compute.minimum_memory_mib
        && host.storage_mib >= compute.minimum_storage_mib && (compute.gpu != RequirementLevel::Required
        || host.gpu_available) && (compute.network != RequirementLevel::Required || host.network_available) && (
    !policy.offline || compute.network == RequirementLevel::Forbidden);
    if !available {
        return Err(inventory_failure(
            stage.id.as_str(),
            "capability requirements exceed the plan host or offline policy",
            "capability.requirements.compute",
        ));
    }
    let requirements = &stage.capability.requirements;
    let lock = &stage.provider_lock.payload;
    validate_component_inventory(stage.id.as_str(), "provider_lock.payload.tools", &requirements.tools, &lock.tools)?;
    validate_component_inventory(stage.id.as_str(), "provider_lock.payload.codecs", &requirements.codecs, &lock.codecs)?;
    validate_component_inventory(stage.id.as_str(), "provider_lock.payload.models", &requirements.models, &lock.models)
}

// ---------------------------------------------------------------------------
// Resolved stages
// ---------------------------------------------------------------------------

/// Each planned output artifact carries exactly its port's contract.
pub open spec fn planned_outputs_match_ports(outputs: Seq<PlannedOutputBinding>, ports: Seq<ArtifactPort>) -> bool {
    forall|i: int, k: int|
        0 <= i < outputs.len() && 0 <= k < outputs[i].artifacts@.len() ==> {
            let port = port_named(ports, outputs[i].port@)->0;
            let a = #[trigger] outputs[i].artifacts@[k];
            &&& a.artifact_type@ == port.artifact_type@
            &&& a.artifact_role == port.artifact_role
            &&& a.stream_role == port.stream_role
        }
}

/// The stage's bindings are what resolving its authored bindings against
/// its capability yields.
pub open spec fn resolved_bindings_consistent(stage: ResolvedPipelineStage, table: Map<Seq<char>, ArtifactShape>) -> bool {
    let capability = stage.capability;
    &&& inputs_resolve(stage.inputs@, capability.inputs@, table)
    &&& cardinalities_hold(capability.inputs@, input_ports(stage.inputs@), input_counts(stage.inputs@))
    &&& ports_declared(planned_ports(stage.outputs@), capability.outputs@)
    &&& cardinalities_hold(capability.outputs@, planned_ports(stage.outputs@), planned_counts(stage.outputs@))
    &&& planned_outputs_match_ports(stage.outputs@, capability.outputs@)
}

/// The resolved capability is one a manifest of the locked provider could
/// declare on its own configuration schema.
pub open spec fn embedded_capability_valid(stage: ResolvedPipelineStage) -> bool {
    let provider = stage.provider_lock.payload.provider;
    let capability = stage.capability;
    &&& is_provider_id(provider.id@)
    &&& semver_parses(provider.version@)
    &&& schema_reference_valid(capability.configuration_schema)
    &&& capability_valid(capability, seq![capability.configuration_schema])
}

/// The lock authorizes exactly the capability's side effects, in ascending
/// order, and only effects the plan policy allows.
pub open spec fn lock_effects_valid(stage: ResolvedPipelineStage, policy: NormalizedPlanningPolicy) -> bool {
    let locked = stage.provider_lock.payload.authorized_side_effects@;
    let declared = stage.capability.behavior.side_effects@;
    &&& effects_ascending(locked)
    &&& forall|e: SideEffect| #[trigger] locked.contains(e) <==> declared.contains(e)
    &&& forall|e: SideEffect| #[trigger] locked.contains(e) ==> policy.allowed_side_effects@.contains(e)
}

/// Every rule a resolved stage satisfies, given the artifact contracts known
/// before it.
pub open spec fn resolved_stage_valid(
    stage: ResolvedPipelineStage,
    policy: NormalizedPlanningPolicy,
    table: Map<Seq<char>, ArtifactShape>,
) -> bool {
    let requirement = stage.capability_requirement;
    let capability = stage.capability;
    let lock = stage.provider_lock.payload;
    &&& capability.id@ == requirement.id@
    &&& !has_control(requirement.version_requirement@)
    &&& semver_requirement_parses(requirement.version_requirement@)
    &&& !has_control(capability.version@)
    &&& semver_parses(capability.version@)
    &&& semver_matches(requirement.version_requirement@, capability.version@)
    &&& embedded_capability_valid(stage)
    &&& stage.provider_lock.spec_valid()
    &&& lock.capability.id@ == capability.id@
    &&& lock.capability.version@ == capability.version@
    &&& schema_key(lock.configuration_schema) == schema_key(capability.configuration_schema)
    &&& lock.offline == policy.offline
    &&& lock_effects_valid(stage, policy)
    &&& requirements_locked(stage, policy)
    &&& resolution_evidence_valid(stage)
    &&& resolved_bindings_consistent(stage, table)
}

fn stage_failure(stage: &str, message: &str, field: &str) -> (f: PipelinePlanningFailure)
    ensures
        f.category == ErrorCategory::Configuration,
        single_failure(
            f,
            ErrorCategory::Configuration,
            PipelinePlanningDiagnosticCode::InvalidResolvedPlan,
            "stage "@ + stage@ + " "@ + message@,
            Some(stage@),
            Some(field@),
        ),
{
    inventory_failure(stage, message, field)
}

fn embedded_capability_check(stage: &ResolvedPipelineStage) -> (r: Result<(), PipelinePlanningFailure>)
    ensures
        r is Ok <==> embedded_capability_valid(*stage),
        r matches Err(f) ==> crate::planning::one_refusal(f),
{
    let sid = stage.id.as_str();
    let provider = &stage.provider_lock.payload.provider;
    let capability = &stage.capability;
    let checked = match validate_provider_id(provider.id.as_str()) {
        Ok(()) => match validate_semantic_version(provider.version.as_str(), "provider version") {
            Ok(()) => match validate_configuration_schema(&capability.configuration_schema) {
                Ok(()) => {
                    let schema = ConfigurationSchemaReference {
                        id: capability.configuration_schema.id.clone(),
                        version: capability.configuration_schema.version.clone(),
                        sha256: capability.configuration_schema.sha256.clone(),
                    };
                    let mut schemas: Vec<ConfigurationSchemaReference> = Vec::new();
                    schemas.push(schema);
                    assert(schemas@ =~= seq![capability.configuration_schema]);
                    validate_capability(capability, &schemas)
                },
                Err(e) => Err(e),
            },
            Err(e) => Err(e),
        },
        Err(e) => Err(e),
    };
    match checked {
        Ok(()) => Ok(()),
        Err(e) => Err(stage_failure(sid, "embeds a capability its provider manifest could not declare", "capability")),
    }
}

fn lock_effects_check(stage: &ResolvedPipelineStage, policy: &NormalizedPlanningPolicy) -> (r: bool)
    ensures
        r == lock_effects_valid(*stage, *policy),
{
    let locked = &stage.provider_lock.payload.authorized_side_effects;
    let declared = &stage.capability.behavior.side_effects;
    if !effects_strictly_ascending(locked) {
        return false;
    }
    let mut i: usize = 0;
    while i < locked.len()
        invariant
            *locked == stage.provider_lock.payload.authorized_side_effects,
            *declared == stage.capability.behavior.side_effects,
            i <= locked.len(),
            forall|k: int|
                0 <= k < i ==> declared@.contains(#[trigger] locked@[k]) && policy.allowed_side_effects@.contains(
                    locked@[k],
                ),
        decreases locked.len() - i,
    {
        if !contains_effect(declared, locked[i]) || !contains_effect(&policy.allowed_side_effects, locked[i]) {
            assert(locked@.contains(locked@[i as int]));
            return false;
        }
        i = i + 1;
    }
    let mut j: usize = 0;
    while j < declared.len()
        invariant
            *locked == stage.provider_lock.payload.authorized_side_effects,
            *declared == stage.capability.behavior.side_effects,
            j <= declared.len(),
            forall|k: int| 0 <= k < j ==> locked@.contains(#[trigger] declared@[k]),
        decreases declared.len() - j,
    {
        if !contains_effect(locked, declared[j]) {
            assert(declared@.contains(declared@[j as int]));
            return false;
        }
        j = j + 1;
    }
    proof {
        assert forall|e: SideEffect| #[trigger] locked@.contains(e) implies declared@.contains(e)
            && policy.allowed_side_effects@.contains(e) by {
            let k = choose|k: int| 0 <= k < locked@.len() && locked@[k] == e;
        }
        assert forall|e: SideEffect| #[trigger] declared@.contains(e) implies locked@.contains(e) by {
            let k = choose|k: int| 0 <= k < declared@.len() && declared@[k] == e;
        }
    }
    true
}

fn planned_shape(bindings: &Vec<PlannedOutputBinding>) -> (r: (Vec<String>, Vec<usize>))
    ensures
        crate::order::texts(r.0@) == planned_ports(bindings@),
        r.1@ == planned_counts(bindings@),
        r.0@.len() == r.1@.len(),
{
    let mut names: Vec<String> = Vec::new();
    let mut counts: Vec<usize> = Vec::new();
    let mut i: usize = 0;
    while i < bindings.len()
        invariant
            i <= bindings.len(),
            crate::order::texts(names@) == planned_ports(bindings@.take(i as int)),
            counts@ == planned_counts(bindings@.take(i as int)),
            names@.len() == i,
            counts@.len() == i,
        decreases bindings.len() - i,
    {
        let ghost before = names@;
        names.push(bindings[i].port.clone());
        counts.push(bindings[i].artifacts.len());
        assert(crate::order::texts(names@) =~= crate::order::texts(before).push(bindings@[i as int].port@));
        assert(planned_ports(bindings@.take(i + 1)) =~= planned_ports(bindings@.take(i as int)).push(bindings@[i as int].port@));
        assert(counts@ =~= planned_counts(bindings@.take(i + 1)));
        i = i + 1;
    }
    assert(bindings@.take(bindings@.len() as int) =~= bindings@);
    (names, counts)
}

fn check_planned_contracts(outputs: &Vec<PlannedOutputBinding>, ports: &Vec<ArtifactPort>) -> (r: bool)
    requires
        ports_declared(planned_ports(outputs@), ports@),
    ensures
        r == planned_outputs_match_ports(outputs@, ports@),
{
    let mut i: usize = 0;
    while i < outputs.len()
        invariant
            i <= outputs.len(),
            ports_declared(planned_ports(outputs@), ports@),
            forall|b: int, k: int|
                0 <= b < i && 0 <= k < outputs@[b].artifacts@.len() ==> {
                    let port = port_named(ports@, outputs@[b].port@)->0;
                    let a = #[trigger] outputs@[b].artifacts@[k];
                    &&& a.artifact_type@ == port.artifact_type@
                    &&& a.artifact_role == port.artifact_role
                    &&& a.stream_role == port.stream_role
                },
        decreases outputs.len() - i,
    {
        let binding = &outputs[i];
        assert(planned_ports(outputs@)[i as int] == binding.port@);
        let p = find_port(ports, binding.port.as_str()).unwrap();
        let port = &ports[p];
        let mut k: usize = 0;
        while k < binding.artifacts.len()
            invariant
                i < outputs@.len(),
                *binding == outputs@[i as int],
                p < ports@.len(),
                *port == ports@[p as int],
                port_named(ports@, binding.port@) == Some(ports@[p as int]),
                k <= binding.artifacts.len(),
                forall|j: int|
                    0 <= j < k ==> {
                        let a = #[trigger] binding.artifacts@[j];
                        &&& a.artifact_type@ == port.artifact_type@
                        &&& a.artifact_role == port.artifact_role
                        &&& a.stream_role == port.stream_role
                    },
            decreases binding.artifacts.len() - k,
        {
            let a = &binding.artifacts[k];
            if !text_eq(a.artifact_type.as_str(), port.artifact_type.as_str()) || a.artifact_role != port.artifact_role
                || !same_stream_role(a.stream_role, port.stream_role) {
                return false;
            }
            k = k + 1;
        }
        i = i + 1;
    }
    true
}

/// Check that a stage's recorded bindings are the resolution of its
/// authored bindings against its capability.
fn check_resolved_bindings(stage: &ResolvedPipelineStage, table: &ContractTable) -> (r: Result<
    (),
    PipelinePlanningFailure,
>)
    ensures
        r is Ok <==> resolved_bindings_consistent(*stage, table.contracts()),
        r matches Err(f) ==> crate::planning::one_refusal(f),
{
    let sid = stage.id.as_str();
    let capability = &stage.capability;
    check_input_bindings(sid, &stage.inputs, &capability.inputs, table)?;
    let (in_names, in_counts) = input_shape(&stage.inputs);
    check_cardinalities(sid, &capability.inputs, &in_names, &in_counts, "input")?;
    let (out_names, out_counts) = planned_shape(&stage.outputs);
    check_ports_declared(sid, &out_names, &capability.outputs, "output")?;
    check_cardinalities(sid, &capability.outputs, &out_names, &out_counts, "output")?;
    if !check_planned_contracts(&stage.outputs, &capability.outputs) {
        return Err(stage_failure(sid, "resolved outputs do not match its selected capability ports", "outputs"));
    }
    Ok(())
}

/// Check one resolved stage against the plan policy and the artifact
/// contracts known before it.
pub fn validate_resolved_stage(
    stage: &ResolvedPipelineStage,
    policy: &NormalizedPlanningPolicy,
    table: &ContractTable,
) -> (r: Result<(), PipelinePlanningFailure>)
    ensures
        r is Ok <==> resolved_stage_valid(*stage, *policy, table.contracts()),
        r matches Err(f) ==> crate::planning::one_refusal(f),
{
    let sid = stage.id.as_str();
    let requirement = &stage.capability_requirement;
    let capability = &stage.capability;
    let lock = &stage.provider_lock.payload;
    if !text_eq(capability.id.as_str(), requirement.id.as_str()) {
        return Err(stage_failure(sid, "resolved capability does not match its required capability", "capability"));
    }
    if crate::text::text_has_control(requirement.version_requirement.as_str()) {
        return Err(stage_failure(
            sid,
            "contains a capability version requirement with control characters",
            "capability_requirement.version_requirement",
        ));
    }
    if !parses_as_requirement(requirement.version_requirement.as_str()) {
        return Err(stage_failure(
            sid,
            "contains an invalid capability version requirement",
            "capability_requirement.version_requirement",
        ));
    }
    if crate::text::text_has_control(capability.version.as_str()) {
        return Err(stage_failure(sid, "contains a resolved capability version with control characters", "capability.version"));
    }
    if !parses_as_version(capability.version.as_str()) {
        return Err(stage_failure(sid, "contains an invalid resolved capability version", "capability.version"));
    }
    if !requirement_matches(requirement.version_requirement.as_str(), capability.version.as_str()) {
        return Err(stage_failure(sid, "resolved capability version does not satisfy its requirement", "capability.version"));
    }
    embedded_capability_check(stage)?;
    if stage.provider_lock.validate().is_err() {
        return Err(stage_failure(sid, "carries an invalid provider lock", "provider_lock"));
    }
    if !text_eq(lock.capability.id.as_str(), capability.id.as_str()) || !text_eq(
        lock.capability.version.as_str(),
        capability.version.as_str(),
    ) || !crate::provider::same_schema(&lock.configuration_schema, &capability.configuration_schema) {
        return Err(stage_failure(sid, "provider lock does not match its resolved capability declaration", "provider_lock"));
    }
    if lock.offline != policy.offline {
        return Err(stage_failure(sid, "provider lock offline policy differs from the plan", "provider_lock.payload.offline"));
    }
    if !lock_effects_check(stage, policy) {
        return Err(stage_failure(
            sid,
            "provider lock side effects do not match its capability and plan policy",
            "provider_lock.payload.authorized_side_effects",
        ));
    }
    validate_resolved_requirements(stage, policy)?;
    validate_resolution_evidence(stage)?;
    check_resolved_bindings(stage, table)
}

} // verus!
