//! The rules of an authored Pipeline v3 configuration: identifiers, the
//! ordered dependency graph, artifact bindings and paths, validations, and
//! final outputs.
use vstd::prelude::*;

use crate::error::ErrorCategory;
use crate::planning::{
    ArtifactValidation, AuthoredInputBinding, AuthoredOutputBinding, AuthoredPipelineInput,
    AuthoredPipelineStage, CapabilityRequirement, ExpectedArtifact, FinalOutputRequirement,
    PIPELINE_V3_SCHEMA, PipelinePlanningDiagnosticCode, PipelinePlanningFailure, PipelineV3Configuration,
    ProviderSelectionIntent, artifact_path_valid, artifact_type_valid, configuration_failure,
    one_refusal, paths_overlap, paths_overlap_spec, planning_failure, refusal_at, single_failure, validate_artifact_relative_path,
    validate_artifact_type, validate_local_id,
};
use crate::provider::is_capability_id;
use crate::provider_runtime::{ProviderCandidate, candidate_order, registration_ids};
use crate::text::{
    decimal, has_control, is_local_id, is_printable_text, is_sha256_hex, is_token, join2, join3, member_field,
    member_path, owned, text_eq,
};
use crate::versioning::semver_requirement_parses;
use crate::canonical::{lemma_pipeline_v3_configuration_encodable, pipeline_v3_configuration_json, pipeline_v3_configuration_value};
use crate::json::{canonical_digest, encodable_sha256};

verus! {

broadcast use vstd::seq_lib::group_seq_properties;

/// A valid capability id, and a version requirement without control
/// characters that `semver` accepts.
pub open spec fn capability_requirement_valid(capability: CapabilityRequirement) -> bool {
    &&& is_capability_id(capability.id@)
    &&& !has_control(capability.version_requirement@)
    &&& semver_requirement_parses(capability.version_requirement@)
}

pub fn validate_capability_requirement(capability: &CapabilityRequirement, stage: &str, index: usize) -> (r: Result<
    (),
    PipelinePlanningFailure,
>)
    ensures
        r is Ok <==> capability_requirement_valid(*capability),
        r matches Err(f) ==> one_refusal(f),
{
    if let Err(error) = crate::provider::validate_capability_id(capability.id.as_str()) {
        return Err(configuration_failure(
            PipelinePlanningDiagnosticCode::InvalidIdentifier,
            error.to_text(),
            Some(stage),
            member_field("stages", index, ".capability.id").as_str(),
        ));
    }
    if crate::text::text_has_control(capability.version_requirement.as_str()) {
        return Err(configuration_failure(
            PipelinePlanningDiagnosticCode::InvalidConfiguration,
            owned("capability version requirement must not contain control characters"),
            Some(stage),
            member_field("stages", index, ".capability.version_requirement").as_str(),
        ));
    }
    if !crate::versioning::parses_as_requirement(capability.version_requirement.as_str()) {
        return Err(configuration_failure(
            PipelinePlanningDiagnosticCode::InvalidConfiguration,
            join2("invalid capability version requirement ", capability.version_requirement.as_str()),
            Some(stage),
            member_field("stages", index, ".capability.version_requirement").as_str(),
        ));
    }
    Ok(())
}

/// The candidates of a selection intent in precedence order.
pub open spec fn intent_candidates(provider: ProviderSelectionIntent) -> Seq<ProviderCandidate> {
    candidate_order(provider.replacement, provider.primary, provider.fallbacks@)
}

/// Every candidate a token, and no candidate named twice.
pub open spec fn provider_selection_valid(provider: ProviderSelectionIntent) -> bool {
    let ids = registration_ids(intent_candidates(provider));
    &&& provider.fallbacks@.len() + 2 <= usize::MAX
    &&& forall|i: int| 0 <= i < ids.len() ==> is_token(#[trigger] ids[i])
    &&& forall|i: int, j: int| 0 <= i < j < ids.len() ==> #[trigger] ids[i] != #[trigger] ids[j]
}

pub(crate) fn intent_candidate_at(provider: &ProviderSelectionIntent, i: usize) -> (c: &ProviderCandidate)
    requires
        i < intent_candidates(*provider).len(),
    ensures
        *c == intent_candidates(*provider)[i as int],
{
    match &provider.replacement {
        Some(r) => {
            if i == 0 {
                r
            } else if i == 1 {
                &provider.primary
            } else {
                &provider.fallbacks[i - 2]
            }
        },
        None => {
            if i == 0 {
                &provider.primary
            } else {
                &provider.fallbacks[i - 1]
            }
        },
    }
}

pub fn validate_provider_selection(provider: &ProviderSelectionIntent, stage: &str, index: usize) -> (r: Result<
    (),
    PipelinePlanningFailure,
>)
    ensures
        r is Ok <==> provider_selection_valid(*provider),
        r matches Err(f) ==> one_refusal(f),
{
    if provider.fallbacks.len() > usize::MAX - 2 {
        return Err(configuration_failure(
            PipelinePlanningDiagnosticCode::InvalidConfiguration,
            owned("stage provider fallback list exceeds the addressable size"),
            Some(stage),
            member_field("stages", index, ".provider.fallbacks").as_str(),
        ));
    }
    let head: usize = if provider.replacement.is_some() { 2 } else { 1 };
    let count = head + provider.fallbacks.len();
    let ghost ids = registration_ids(intent_candidates(*provider));
    let mut i: usize = 0;
    while i < count
        invariant
            i <= count,
            count == intent_candidates(*provider).len(),
            ids == registration_ids(intent_candidates(*provider)),
            forall|k: int| 0 <= k < i ==> is_token(#[trigger] ids[k]),
            forall|k: int, l: int| 0 <= k < l < i ==> #[trigger] ids[k] != #[trigger] ids[l],
        decreases count - i,
    {
        let ci = intent_candidate_at(provider, i);
        assert(ids[i as int] == ci.registration_id@);
        if !crate::text::text_is_token(ci.registration_id.as_str()) {
            let slot = if i + 1 == head {
                ".provider.primary"
            } else if i + 1 < head {
                ".provider.replacement"
            } else {
                ".provider.fallbacks"
            };
            return Err(configuration_failure(
                PipelinePlanningDiagnosticCode::InvalidIdentifier,
                owned("provider registration_id must be a non-empty token"),
                Some(stage),
                member_field("stages", index, slot).as_str(),
            ));
        }
        let mut j: usize = 0;
        while j < i
            invariant
                j <= i < count,
                count == intent_candidates(*provider).len(),
                ids == registration_ids(intent_candidates(*provider)),
                *ci == intent_candidates(*provider)[i as int],
                forall|k: int| 0 <= k < j ==> #[trigger] ids[k] != ids[i as int],
            decreases i - j,
        {
            let cj = intent_candidate_at(provider, j);
            assert(ids[j as int] == cj.registration_id@);
            assert(ids[i as int] == ci.registration_id@);
            if text_eq(cj.registration_id.as_str(), ci.registration_id.as_str()) {
                let mut message = join3("stage ", stage, " provider candidate ");
                message.append(ci.registration_id.as_str());
                message.append(" appears more than once");
                return Err(configuration_failure(
                    PipelinePlanningDiagnosticCode::InvalidConfiguration,
                    message,
                    Some(stage),
                    member_field("stages", index, ".provider").as_str(),
                ));
            }
            j = j + 1;
        }
        i = i + 1;
    }
    Ok(())
}

// ---------------------------------------------------------------------------
// Declared inputs and stage identities
// ---------------------------------------------------------------------------

pub open spec fn input_ids(inputs: Seq<AuthoredPipelineInput>) -> Seq<Seq<char>> {
    inputs.map_values(|i: AuthoredPipelineInput| i.id@)
}

pub open spec fn stage_ids(stages: Seq<AuthoredPipelineStage>) -> Seq<Seq<char>> {
    stages.map_values(|s: AuthoredPipelineStage| s.id@)
}

/// No text occurs twice.
pub open spec fn distinct(texts: Seq<Seq<char>>) -> bool {
    forall|i: int, j: int| 0 <= i < j < texts.len() ==> #[trigger] texts[i] != #[trigger] texts[j]
}

/// Local ids, valid artifact types, each id once.
pub open spec fn inputs_valid(inputs: Seq<AuthoredPipelineInput>) -> bool {
    &&& forall|i: int| 0 <= i < inputs.len() ==> is_local_id((#[trigger] inputs[i]).id@) && artifact_type_valid(
        inputs[i].artifact_type@,
    )
    &&& distinct(input_ids(inputs))
}

fn validate_inputs(inputs: &Vec<AuthoredPipelineInput>) -> (r: Result<(), PipelinePlanningFailure>)
    ensures
        r is Ok <==> inputs_valid(inputs@),
        r matches Err(f) ==> one_refusal(f),
{
    let ghost ids = input_ids(inputs@);
    let mut i: usize = 0;
    while i < inputs.len()
        invariant
            i <= inputs.len(),
            ids == input_ids(inputs@),
            forall|k: int| 0 <= k < i ==> is_local_id((#[trigger] inputs@[k]).id@) && artifact_type_valid(
                inputs@[k].artifact_type@,
            ),
            forall|k: int, l: int| 0 <= k < l < i ==> #[trigger] ids[k] != #[trigger] ids[l],
        decreases inputs.len() - i,
    {
        let input = &inputs[i];
        validate_local_id(input.id.as_str(), "input id", None, member_field("inputs", i, ".id").as_str())?;
        validate_artifact_type(input.artifact_type.as_str(), None, member_field("inputs", i, ".artifact_type").as_str())?;
        let mut j: usize = 0;
        while j < i
            invariant
                j <= i < inputs.len(),
                ids == input_ids(inputs@),
                *input == inputs@[i as int],
                forall|k: int| 0 <= k < j ==> #[trigger] ids[k] != ids[i as int],
            decreases i - j,
        {
            assert(ids[j as int] == inputs@[j as int].id@);
            assert(ids[i as int] == inputs@[i as int].id@);
            if text_eq(inputs[j].id.as_str(), input.id.as_str()) {
                assert(ids[j as int] == ids[i as int]);
                return Err(configuration_failure(
                    PipelinePlanningDiagnosticCode::DuplicateIdentifier,
                    join3("artifact id ", input.id.as_str(), " is declared more than once"),
                    None,
                    member_field("inputs", i, ".id").as_str(),
                ));
            }
            j = j + 1;
        }
        i = i + 1;
    }
    Ok(())
}

/// Local ids, each stage id once.
pub open spec fn stage_ids_valid(stages: Seq<AuthoredPipelineStage>) -> bool {
    &&& forall|i: int| 0 <= i < stages.len() ==> is_local_id((#[trigger] stages[i]).id@)
    &&& distinct(stage_ids(stages))
}

fn validate_stage_ids(stages: &Vec<AuthoredPipelineStage>) -> (r: Result<(), PipelinePlanningFailure>)
    ensures
        r is Ok <==> stage_ids_valid(stages@),
        r matches Err(f) ==> one_refusal(f),
{
    let ghost ids = stage_ids(stages@);
    let mut i: usize = 0;
    while i < stages.len()
        invariant
            i <= stages.len(),
            ids == stage_ids(stages@),
            forall|k: int| 0 <= k < i ==> is_local_id((#[trigger] stages@[k]).id@),
            forall|k: int, l: int| 0 <= k < l < i ==> #[trigger] ids[k] != #[trigger] ids[l],
        decreases stages.len() - i,
    {
        validate_local_id(stages[i].id.as_str(), "stage id", None, member_field("stages", i, ".id").as_str())?;
        let mut j: usize = 0;
        while j < i
            invariant
                j <= i < stages.len(),
                ids == stage_ids(stages@),
                forall|k: int| 0 <= k < j ==> #[trigger] ids[k] != ids[i as int],
            decreases i - j,
        {
            let sj = &stages[j];
            let si = &stages[i];
            assert(ids[j as int] == sj.id@);
            assert(ids[i as int] == si.id@);
            if text_eq(sj.id.as_str(), si.id.as_str()) {
                assert(ids[j as int] == ids[i as int]);
                return Err(configuration_failure(
                    PipelinePlanningDiagnosticCode::DuplicateIdentifier,
                    join3("stage id ", stages[i].id.as_str(), " is declared more than once"),
                    Some(stages[i].id.as_str()),
                    member_field("stages", i, ".id").as_str(),
                ));
            }
            j = j + 1;
        }
        i = i + 1;
    }
    Ok(())
}

// ---------------------------------------------------------------------------
// Dependencies
// ---------------------------------------------------------------------------

/// The index of the first stage with this id, or -1.
pub open spec fn stage_index(stages: Seq<AuthoredPipelineStage>, id: Seq<char>) -> int
    decreases stages.len(),
{
    if stages.len() == 0 {
        -1
    } else {
        let i = stage_index(stages.drop_last(), id);
        if i >= 0 {
            i
        } else if stages.last().id@ == id {
            stages.len() - 1
        } else {
            -1
        }
    }
}

proof fn lemma_stage_index_unique(stages: Seq<AuthoredPipelineStage>, id: Seq<char>, k: int)
    requires
        distinct(stage_ids(stages)),
        0 <= k < stages.len(),
        stages[k].id@ == id,
    ensures
        stage_index(stages, id) == k,
    decreases stages.len(),
{
    let dl = stages.drop_last();
    assert(stage_ids(dl) =~= stage_ids(stages).drop_last());
    if k < stages.len() - 1 {
        lemma_stage_index_unique(dl, id, k);
    } else {
        assert forall|j: int| 0 <= j < dl.len() implies (#[trigger] dl[j]).id@ != id by {
            assert(stage_ids(stages)[j] != stage_ids(stages)[k]);
        }
        lemma_stage_index_absent(dl, id);
    }
}

proof fn lemma_stage_index_absent(stages: Seq<AuthoredPipelineStage>, id: Seq<char>)
    requires
        forall|k: int| 0 <= k < stages.len() ==> (#[trigger] stages[k]).id@ != id,
    ensures
        stage_index(stages, id) == -1,
    decreases stages.len(),
{
    if stages.len() > 0 {
        lemma_stage_index_absent(stages.drop_last(), id);
    }
}

/// Dependencies name earlier stages, each at most once.
pub open spec fn dependencies_valid(stages: Seq<AuthoredPipelineStage>, k: int) -> bool {
    let deps = stages[k].depends_on@;
    &&& forall|i: int, j: int| 0 <= i < j < deps.len() ==> (#[trigger] deps[i])@ != (#[trigger] deps[j])@
    &&& forall|i: int| 0 <= i < deps.len() ==> 0 <= #[trigger] stage_index(stages, deps[i]@) < k
}

/// Dependency `n` of stage `k` repeats an earlier dependency of the stage,
/// or names no earlier stage.
pub open spec fn dependency_refused(stages: Seq<AuthoredPipelineStage>, k: int, n: int) -> bool {
    let deps = stages[k].depends_on@;
    ||| exists|m: int| 0 <= m < n && #[trigger] deps[m]@ == deps[n]@
    ||| !(0 <= stage_index(stages, deps[n]@) < k)
}

/// Dependency `n` is the first refused dependency of stage `k`.
pub open spec fn first_refused_dependency(stages: Seq<AuthoredPipelineStage>, k: int, n: int) -> bool {
    &&& 0 <= n < stages[k].depends_on@.len()
    &&& dependency_refused(stages, k, n)
    &&& forall|m: int| 0 <= m < n ==> !#[trigger] dependency_refused(stages, k, m)
}

/// The code of a refused dependency: a repeat, a stage that is not earlier
/// (itself or a later one), or a name that no stage has.
pub open spec fn dependency_refusal_code(
    stages: Seq<AuthoredPipelineStage>,
    k: int,
    n: int,
) -> PipelinePlanningDiagnosticCode {
    let deps = stages[k].depends_on@;
    if exists|m: int| 0 <= m < n && #[trigger] deps[m]@ == deps[n]@ {
        PipelinePlanningDiagnosticCode::InvalidDependency
    } else if stage_index(stages, deps[n]@) >= 0 {
        PipelinePlanningDiagnosticCode::ForwardDependency
    } else {
        PipelinePlanningDiagnosticCode::UnknownDependency
    }
}

/// The message of a refused dependency.
pub open spec fn dependency_refusal_message(stages: Seq<AuthoredPipelineStage>, k: int, n: int) -> Seq<char> {
    let id = stages[k].id@;
    let d = stages[k].depends_on@[n]@;
    let code = dependency_refusal_code(stages, k, n);
    if code == PipelinePlanningDiagnosticCode::InvalidDependency {
        "stage "@ + id + " declares dependency "@ + d + " more than once"@
    } else if code == PipelinePlanningDiagnosticCode::ForwardDependency {
        "stage "@ + id + " depends on "@ + d + ", which is not earlier in the ordered stage list"@
    } else {
        "stage "@ + id + " depends on unknown stage "@ + d
    }
}

/// The field of dependency `n` of stage `k`.
pub open spec fn dependency_field(k: int, n: int) -> Seq<char> {
    member_path(member_path("stages"@, k as nat, ".depends_on"@), n as nat, ""@)
}

/// Every stage that stage `k` depends on, directly or transitively.
pub open spec fn ancestors_of(stages: Seq<AuthoredPipelineStage>, k: int) -> Set<Seq<char>>
    decreases k, 1int, 0int,
{
    if 0 <= k < stages.len() {
        dependency_ancestors(stages, k, stages[k].depends_on@.len() as int)
    } else {
        Set::empty()
    }
}

/// The ancestors contributed by the first `n` dependencies of stage `k`.
pub open spec fn dependency_ancestors(stages: Seq<AuthoredPipelineStage>, k: int, n: int) -> Set<Seq<char>>
    decreases k, 0int, n,
{
    if n <= 0 || !(0 <= k < stages.len()) || n > stages[k].depends_on@.len() {
        Set::empty()
    } else {
        let d = stages[k].depends_on@[n - 1]@;
        let j = stage_index(stages, d);
        let earlier = if 0 <= j < k {
            ancestors_of(stages, j)
        } else {
            Set::empty()
        };
        dependency_ancestors(stages, k, n - 1).insert(d).union(earlier)
    }
}

proof fn lemma_stage_index_found(stages: Seq<AuthoredPipelineStage>, id: Seq<char>)
    ensures
        stage_index(stages, id) >= 0 ==> stage_index(stages, id) < stages.len() && stages[stage_index(stages, id)].id@
            == id,
        stage_index(stages, id) >= -1,
    decreases stages.len(),
{
    if stages.len() > 0 {
        lemma_stage_index_found(stages.drop_last(), id);
    }
}

/// `v` holds exactly the texts of `set`.
pub open spec fn represents(v: Seq<String>, set: Set<Seq<char>>) -> bool {
    forall|x: Seq<char>| #[trigger] crate::order::texts(v).contains(x) <==> set.contains(x)
}

fn push_text(dst: &mut Vec<String>, x: &String)
    ensures
        forall|y: Seq<char>| #[trigger] crate::order::texts(final(dst)@).contains(y) <==> (crate::order::texts(
            old(dst)@,
        ).contains(y) || y == x@),
{
    let ghost before = crate::order::texts(dst@);
    dst.push(x.clone());
    let ghost after = crate::order::texts(dst@);
    assert(after =~= before.push(x@));
    assert forall|y: Seq<char>| #[trigger] after.contains(y) <==> (before.contains(y) || y == x@) by {
        if after.contains(y) {
            let i = choose|i: int| 0 <= i < after.len() && after[i] == y;
            if i < before.len() {
                assert(before[i] == y);
            }
        }
        if before.contains(y) {
            let i = choose|i: int| 0 <= i < before.len() && before[i] == y;
            assert(after[i] == y);
        }
        if y == x@ {
            assert(after[before.len() as int] == y);
        }
    }
}

fn extend_texts(dst: &mut Vec<String>, src: &Vec<String>)
    ensures
        forall|y: Seq<char>| #[trigger] crate::order::texts(final(dst)@).contains(y) <==> (crate::order::texts(
            old(dst)@,
        ).contains(y) || crate::order::texts(src@).contains(y)),
{
    let ghost start = crate::order::texts(dst@);
    let mut i: usize = 0;
    while i < src.len()
        invariant
            i <= src.len(),
            forall|y: Seq<char>| #[trigger] crate::order::texts(dst@).contains(y) <==> (start.contains(y)
                || crate::order::texts(src@.take(i as int)).contains(y)),
        decreases src.len() - i,
    {
        let ghost prev = crate::order::texts(src@.take(i as int));
        push_text(dst, &src[i]);
        assert(crate::order::texts(src@.take(i + 1)) =~= prev.push(src@[i as int]@));
        assert forall|y: Seq<char>| #[trigger] crate::order::texts(src@.take(i + 1)).contains(y) <==> (prev.contains(y)
            || y == src@[i as int]@) by {
            let next = crate::order::texts(src@.take(i + 1));
            if next.contains(y) {
                let m = choose|m: int| 0 <= m < next.len() && next[m] == y;
                if m < prev.len() {
                    assert(prev[m] == y);
                }
            }
            if prev.contains(y) {
                let m = choose|m: int| 0 <= m < prev.len() && prev[m] == y;
                assert(next[m] == y);
            }
            if y == src@[i as int]@ {
                assert(next[i as int] == y);
            }
        }
        i = i + 1;
    }
    assert(src@.take(src.len() as int) =~= src@);
}

proof fn lemma_first_refused_is(stages: Seq<AuthoredPipelineStage>, k: int, n: int)
    requires
        0 <= n < stages[k].depends_on@.len(),
        dependency_refused(stages, k, n),
        forall|i: int| 0 <= i < n ==> !#[trigger] dependency_refused(stages, k, i),
    ensures
        first_refused_dependency(stages, k, n),
        forall|n0: int| #[trigger] first_refused_dependency(stages, k, n0) ==> n0 == n,
{
    assert forall|n0: int| #[trigger] first_refused_dependency(stages, k, n0) implies n0 == n by {
        if n0 < n {
            assert(!dependency_refused(stages, k, n0));
        }
        if n0 > n {
            assert(!dependency_refused(stages, k, n));
        }
    }
}

/// The path of a field of a member of a stage's list:
/// `stages[stage].list[index]` followed by `rest`.
fn stage_member_field(stage: usize, list: &str, index: usize, rest: &str) -> String {
    let within = member_field("stages", stage, list);
    member_field(within.as_str(), index, rest)
}

/// The path of a field of a member of a stage's nested list:
/// `stages[stage].list[index].inner[position]` followed by `rest`.
fn stage_nested_field(stage: usize, list: &str, index: usize, inner: &str, position: usize, rest: &str) -> String {
    let within = stage_member_field(stage, list, index, inner);
    member_field(within.as_str(), position, rest)
}

/// Where artifact `t` of a stage's outputs, counted across its bindings in
/// order, is declared: its binding and its position there.
fn artifact_position(stage: &AuthoredPipelineStage, t: usize) -> (usize, usize) {
    let mut remaining = t;
    let mut b: usize = 0;
    while b < stage.outputs.len()
        decreases stage.outputs.len() - b,
    {
        let n = stage.outputs[b].artifacts.len();
        if remaining < n {
            return (b, remaining);
        }
        remaining = remaining - n;
        b = b + 1;
    }
    (b, remaining)
}

/// Some stage has this id.
fn stage_named(stages: &Vec<AuthoredPipelineStage>, id: &str) -> (r: bool)
    ensures
        r <==> stage_index(stages@, id@) >= 0,
{
    proof {
        lemma_stage_index_found(stages@, id@);
    }
    let mut i: usize = 0;
    while i < stages.len()
        invariant
            i <= stages.len(),
            forall|j: int| 0 <= j < i ==> (#[trigger] stages@[j]).id@ != id@,
        decreases stages.len() - i,
    {
        if text_eq(stages[i].id.as_str(), id) {
            proof {
                if stage_index(stages@, id@) < 0 {
                    lemma_stage_index_absent_means(stages@, id@, i as int);
                }
            }
            return true;
        }
        i = i + 1;
    }
    proof {
        lemma_stage_index_absent(stages@, id@);
    }
    false
}

proof fn lemma_stage_index_absent_means(stages: Seq<AuthoredPipelineStage>, id: Seq<char>, k: int)
    requires
        0 <= k < stages.len(),
        stages[k].id@ == id,
    ensures
        stage_index(stages, id) >= 0,
    decreases stages.len(),
{
    if k < stages.len() - 1 {
        lemma_stage_index_absent_means(stages.drop_last(), id, k);
    }
}

/// Check stage `k`'s dependencies and collect every stage it depends on,
/// given the ancestors of each earlier stage.
fn stage_dependencies(
    stages: &Vec<AuthoredPipelineStage>,
    k: usize,
    ancestors: &Vec<Vec<String>>,
) -> (r: Result<Vec<String>, PipelinePlanningFailure>)
    requires
        k < stages@.len(),
        stage_ids_valid(stages@),
        ancestors@.len() == k,
        forall|j: int| 0 <= j < k ==> represents(#[trigger] ancestors@[j]@, ancestors_of(stages@, j)),
    ensures
        r is Ok <==> dependencies_valid(stages@, k as int),
        r matches Ok(a) ==> represents(a@, ancestors_of(stages@, k as int)),
        r matches Err(f) ==> one_refusal(f),
        forall|n: int|
            #[trigger] first_refused_dependency(stages@, k as int, n) ==> (r matches Err(f) && single_failure(
                f,
                ErrorCategory::Configuration,
                dependency_refusal_code(stages@, k as int, n),
                dependency_refusal_message(stages@, k as int, n),
                Some(stages@[k as int].id@),
                Some(dependency_field(k as int, n)),
            )),
{
    let stage = &stages[k];
    let deps = &stage.depends_on;
    let mut result: Vec<String> = Vec::new();
    let mut n: usize = 0;
    while n < deps.len()
        invariant
            k < stages@.len(),
            *stage == stages@[k as int],
            *deps == stage.depends_on,
            stage_ids_valid(stages@),
            ancestors@.len() == k,
            forall|j: int| 0 <= j < k ==> represents(#[trigger] ancestors@[j]@, ancestors_of(stages@, j)),
            n <= deps.len(),
            represents(result@, dependency_ancestors(stages@, k as int, n as int)),
            forall|i: int, j: int| 0 <= i < j < n ==> (#[trigger] deps@[i])@ != (#[trigger] deps@[j])@,
            forall|i: int| 0 <= i < n ==> 0 <= #[trigger] stage_index(stages@, deps@[i]@) < k,
        decreases deps.len() - n,
    {
        let dependency = &deps[n];
        assert forall|i: int| 0 <= i < n implies !#[trigger] dependency_refused(stages@, k as int, i) by {
            if exists|m: int| 0 <= m < i && #[trigger] deps@[m]@ == deps@[i]@ {
                let m = choose|m: int| 0 <= m < i && #[trigger] deps@[m]@ == deps@[i]@;
                assert(deps@[m]@ != deps@[i]@);
            }
        }
        let mut m: usize = 0;
        while m < n
            invariant
                m <= n < deps.len(),
                k < stages@.len(),
                *stage == stages@[k as int],
                *deps == stage.depends_on,
                *dependency == deps@[n as int],
                forall|i: int| 0 <= i < m ==> (#[trigger] deps@[i])@ != deps@[n as int]@,
                forall|i: int| 0 <= i < n ==> !#[trigger] dependency_refused(stages@, k as int, i),
            decreases n - m,
        {
            if text_eq(deps[m].as_str(), dependency.as_str()) {
                let mut message = join3("stage ", stage.id.as_str(), " declares dependency ");
                message.append(dependency.as_str());
                message.append(" more than once");
                let within = member_field("stages", k, ".depends_on");
                assert(deps@[m as int]@ == deps@[n as int]@);
                assert(dependency_refusal_code(stages@, k as int, n as int) == PipelinePlanningDiagnosticCode::InvalidDependency);
                proof {
                    lemma_first_refused_is(stages@, k as int, n as int);
                }
                return Err(configuration_failure(
                    PipelinePlanningDiagnosticCode::InvalidDependency,
                    message,
                    Some(stage.id.as_str()),
                    member_field(within.as_str(), n, "").as_str(),
                ));
            }
            m = m + 1;
        }
        let mut j: usize = 0;
        while j < k
            invariant
                j <= k < stages@.len(),
                n < deps@.len(),
                *dependency == deps@[n as int],
                forall|i: int| 0 <= i < j ==> (#[trigger] stages@[i]).id@ != dependency@,
            ensures
                j <= k,
                forall|i: int| 0 <= i < j ==> (#[trigger] stages@[i]).id@ != dependency@,
                j < k ==> stages@[j as int].id@ == dependency@,
            decreases k - j,
        {
            if text_eq(stages[j].id.as_str(), dependency.as_str()) {
                break;
            }
            j = j + 1;
        }
        proof {
            lemma_stage_index_found(stages@, dependency@);
            if j < k {
                lemma_stage_index_unique(stages@, dependency@, j as int);
            }
        }
        if j == k {
            let named = stage_named(stages, dependency.as_str());
            proof {
                assert forall|i: int| 0 <= i < n implies (#[trigger] deps@[i])@ != deps@[n as int]@ by {}
                lemma_first_refused_is(stages@, k as int, n as int);
            }
            let within = member_field("stages", k, ".depends_on");
            let field = member_field(within.as_str(), n, "");
            if named {
                let mut message = join3("stage ", stage.id.as_str(), " depends on ");
                message.append(dependency.as_str());
                message.append(", which is not earlier in the ordered stage list");
                return Err(configuration_failure(
                    PipelinePlanningDiagnosticCode::ForwardDependency,
                    message,
                    Some(stage.id.as_str()),
                    field.as_str(),
                ));
            }
            let mut message = join3("stage ", stage.id.as_str(), " depends on unknown stage ");
            message.append(dependency.as_str());
            return Err(configuration_failure(
                PipelinePlanningDiagnosticCode::UnknownDependency,
                message,
                Some(stage.id.as_str()),
                field.as_str(),
            ));
        }
        let ghost before = crate::order::texts(result@);
        push_text(&mut result, dependency);
        extend_texts(&mut result, &ancestors[j]);
        proof {
            let next = dependency_ancestors(stages@, k as int, n + 1);
            assert(next == dependency_ancestors(stages@, k as int, n as int).insert(dependency@).union(
                ancestors_of(stages@, j as int),
            ));
            assert(represents(ancestors@[j as int]@, ancestors_of(stages@, j as int)));
        }
        n = n + 1;
    }
    Ok(result)
}

// ---------------------------------------------------------------------------
// Artifacts produced by stages
// ---------------------------------------------------------------------------

/// The expected artifacts of output bindings, in binding order.
pub open spec fn binding_artifacts(bindings: Seq<AuthoredOutputBinding>) -> Seq<ExpectedArtifact>
    decreases bindings.len(),
{
    if bindings.len() == 0 {
        Seq::empty()
    } else {
        binding_artifacts(bindings.drop_last()) + bindings.last().artifacts@
    }
}

/// Every artifact the stages produce, with the index of its stage, in
/// stage order.
pub open spec fn produced(stages: Seq<AuthoredPipelineStage>) -> Seq<(ExpectedArtifact, int)>
    decreases stages.len(),
{
    if stages.len() == 0 {
        Seq::empty()
    } else {
        produced(stages.drop_last()) + binding_artifacts(stages.last().outputs@).map_values(
            |a: ExpectedArtifact| (a, stages.len() - 1),
        )
    }
}

pub open spec fn produced_ids(entries: Seq<(ExpectedArtifact, int)>) -> Seq<Seq<char>> {
    entries.map_values(|e: (ExpectedArtifact, int)| e.0.id@)
}

/// Every artifact id: declared inputs, then produced artifacts.
pub open spec fn all_artifact_ids(inputs: Seq<AuthoredPipelineInput>, stages: Seq<AuthoredPipelineStage>) -> Seq<
    Seq<char>,
> {
    input_ids(inputs) + produced_ids(produced(stages))
}

/// No two produced artifact paths overlap.
pub open spec fn paths_disjoint(entries: Seq<(ExpectedArtifact, int)>) -> bool {
    forall|i: int, j: int|
        0 <= i < j < entries.len() ==> !paths_overlap_spec(
            (#[trigger] entries[i]).0.relative_path@,
            (#[trigger] entries[j]).0.relative_path@,
        )
}

/// An artifact declared as an input or produced by a stage before `k`.
pub open spec fn known_before(
    inputs: Seq<AuthoredPipelineInput>,
    stages: Seq<AuthoredPipelineStage>,
    k: int,
    id: Seq<char>,
) -> bool {
    input_ids(inputs).contains(id) || produced_ids(produced(stages.take(k))).contains(id)
}

/// If an earlier stage produced the artifact, stage `k` depends on it.
pub open spec fn producer_is_ancestor(stages: Seq<AuthoredPipelineStage>, k: int, id: Seq<char>) -> bool {
    let entries = produced(stages.take(k));
    forall|m: int|
        0 <= m < entries.len() && (#[trigger] entries[m]).0.id@ == id ==> ancestors_of(stages, k).contains(
            stages[entries[m].1].id@,
        )
}

/// Input bindings of stage `k`: distinct local ports, each binding at
/// least one distinct artifact that is already known and whose producer is
/// an ancestor.
pub open spec fn input_bindings_valid(
    inputs: Seq<AuthoredPipelineInput>,
    stages: Seq<AuthoredPipelineStage>,
    k: int,
) -> bool {
    let bindings = stages[k].inputs@;
    &&& forall|i: int| 0 <= i < bindings.len() ==> is_local_id((#[trigger] bindings[i]).port@) && bindings[i].artifacts@.len() > 0
    &&& forall|i: int, j: int| 0 <= i < j < bindings.len() ==> (#[trigger] bindings[i]).port@ != (#[trigger] bindings[j]).port@
    &&& forall|i: int, x: int, y: int|
        0 <= i < bindings.len() && 0 <= x < y < bindings[i].artifacts@.len() ==> (#[trigger] bindings[i].artifacts@[x])@
            != (#[trigger] bindings[i].artifacts@[y])@
    &&& forall|i: int, x: int|
        0 <= i < bindings.len() && 0 <= x < bindings[i].artifacts@.len() ==> known_before(
            inputs,
            stages,
            k,
            (#[trigger] bindings[i].artifacts@[x])@,
        ) && producer_is_ancestor(stages, k, bindings[i].artifacts@[x]@)
}

/// Output bindings of stage `k`: distinct local ports, each declaring at
/// least one artifact with a local id and a safe path.
pub open spec fn output_bindings_valid(stages: Seq<AuthoredPipelineStage>, k: int) -> bool {
    let bindings = stages[k].outputs@;
    &&& forall|i: int| 0 <= i < bindings.len() ==> is_local_id((#[trigger] bindings[i]).port@) && bindings[i].artifacts@.len() > 0
    &&& forall|i: int, j: int| 0 <= i < j < bindings.len() ==> (#[trigger] bindings[i]).port@ != (#[trigger] bindings[j]).port@
    &&& forall|i: int, x: int|
        0 <= i < bindings.len() && 0 <= x < bindings[i].artifacts@.len() ==> is_local_id(
            (#[trigger] bindings[i].artifacts@[x]).id@,
        ) && artifact_path_valid(bindings[i].artifacts@[x].relative_path@)
}

/// Every validation the stages declare, in stage order.
pub open spec fn produced_validations(stages: Seq<AuthoredPipelineStage>) -> Seq<ArtifactValidation>
    decreases stages.len(),
{
    if stages.len() == 0 {
        Seq::empty()
    } else {
        produced_validations(stages.drop_last()) + stages.last().validations@
    }
}

pub open spec fn validation_ids(validations: Seq<ArtifactValidation>) -> Seq<Seq<char>> {
    validations.map_values(|v: ArtifactValidation| v.id@)
}

/// Validations of stage `k`: local ids, a printable contract, and an
/// artifact that the stage itself produces.
pub open spec fn stage_validations_valid(stages: Seq<AuthoredPipelineStage>, k: int) -> bool {
    let validations = stages[k].validations@;
    let outputs = binding_artifacts(stages[k].outputs@);
    forall|i: int|
        0 <= i < validations.len() ==> is_local_id((#[trigger] validations[i]).id@) && outputs.map_values(
            |a: ExpectedArtifact| a.id@,
        ).contains(validations[i].artifact@) && is_printable_text(validations[i].contract@)
}

/// Every per-stage rule of stage `k`.
pub open spec fn stage_valid(inputs: Seq<AuthoredPipelineInput>, stages: Seq<AuthoredPipelineStage>, k: int) -> bool {
    &&& dependencies_valid(stages, k)
    &&& capability_requirement_valid(stages[k].capability)
    &&& provider_selection_valid(stages[k].provider)
    &&& input_bindings_valid(inputs, stages, k)
    &&& output_bindings_valid(stages, k)
    &&& stage_validations_valid(stages, k)
}

/// A final output: local id, a known artifact, and at least one distinct
/// required validation, each a declared validation of that same artifact.
/// Some produced validation carries this id and checks this artifact.
pub open spec fn validation_checks(validations: Seq<ArtifactValidation>, id: Seq<char>, artifact: Seq<char>) -> bool {
    exists|m: int| 0 <= m < validations.len() && (#[trigger] validations[m]).id@ == id && validations[m].artifact@ == artifact
}

pub open spec fn final_output_valid(
    output: FinalOutputRequirement,
    inputs: Seq<AuthoredPipelineInput>,
    stages: Seq<AuthoredPipelineStage>,
) -> bool {
    let required = output.required_validations@;
    let validations = produced_validations(stages);
    &&& is_local_id(output.id@)
    &&& all_artifact_ids(inputs, stages).contains(output.artifact@)
    &&& required.len() > 0
    &&& forall|i: int, j: int| 0 <= i < j < required.len() ==> (#[trigger] required[i])@ != (#[trigger] required[j])@
    &&& forall|i: int| 0 <= i < required.len() ==> validation_checks(validations, (#[trigger] required[i])@, output.artifact@)
}

impl PipelineV3Configuration {
    /// Every graph, artifact, path, selection, and final-output rule.
    pub open spec fn spec_valid(&self) -> bool {
        let inputs = self.inputs@;
        let stages = self.stages@;
        let outputs = self.outputs@;
        &&& self.schema@ == PIPELINE_V3_SCHEMA@
        &&& is_printable_text(self.name@)
        &&& inputs.len() > 0
        &&& stages.len() > 0
        &&& outputs.len() > 0
        &&& inputs_valid(inputs)
        &&& stage_ids_valid(stages)
        &&& forall|k: int| 0 <= k < stages.len() ==> #[trigger] stage_valid(inputs, stages, k)
        &&& distinct(all_artifact_ids(inputs, stages))
        &&& paths_disjoint(produced(stages))
        &&& distinct(validation_ids(produced_validations(stages)))
        &&& forall|i: int| 0 <= i < outputs.len() ==> final_output_valid(#[trigger] outputs[i], inputs, stages)
        &&& distinct(outputs.map_values(|o: FinalOutputRequirement| o.id@))
    }
}

// ---------------------------------------------------------------------------
// Incremental checking
// ---------------------------------------------------------------------------

/// Artifacts tagged with the index of the stage that produces them.
pub open spec fn tagged(artifacts: Seq<ExpectedArtifact>, k: int) -> Seq<(ExpectedArtifact, int)> {
    artifacts.map_values(|a: ExpectedArtifact| (a, k))
}

proof fn lemma_produced_step(stages: Seq<AuthoredPipelineStage>, k: int)
    requires
        0 <= k < stages.len(),
    ensures
        produced(stages.take(k + 1)) == produced(stages.take(k)) + tagged(binding_artifacts(stages[k].outputs@), k),
{
    assert(stages.take(k + 1).drop_last() =~= stages.take(k));
    assert(stages.take(k + 1).last() == stages[k]);
}

proof fn lemma_binding_step(bindings: Seq<AuthoredOutputBinding>, b: int)
    requires
        0 <= b < bindings.len(),
    ensures
        binding_artifacts(bindings.take(b + 1)) == binding_artifacts(bindings.take(b)) + bindings[b].artifacts@,
{
    assert(bindings.take(b + 1).drop_last() =~= bindings.take(b));
    assert(bindings.take(b + 1).last() == bindings[b]);
}

proof fn lemma_validations_step(stages: Seq<AuthoredPipelineStage>, k: int)
    requires
        0 <= k < stages.len(),
    ensures
        produced_validations(stages.take(k + 1)) == produced_validations(stages.take(k)) + stages[k].validations@,
{
    assert(stages.take(k + 1).drop_last() =~= stages.take(k));
    assert(stages.take(k + 1).last() == stages[k]);
}

/// `p` is a prefix of `s`.
pub open spec fn is_prefix<A>(p: Seq<A>, s: Seq<A>) -> bool {
    p.len() <= s.len() && s.take(p.len() as int) == p
}

proof fn lemma_produced_prefix(stages: Seq<AuthoredPipelineStage>, k: int)
    requires
        0 <= k <= stages.len(),
    ensures
        is_prefix(produced(stages.take(k)), produced(stages)),
    decreases stages.len() - k,
{
    if k == stages.len() {
        assert(stages.take(k) =~= stages);
        assert(produced(stages).take(produced(stages).len() as int) =~= produced(stages));
    } else {
        lemma_produced_prefix(stages, k + 1);
        lemma_produced_step(stages, k);
        let a = produced(stages.take(k));
        let b = produced(stages.take(k + 1));
        let c = produced(stages);
        assert(c.take(a.len() as int) =~= b.take(a.len() as int));
        assert(b.take(a.len() as int) =~= a);
    }
}

proof fn lemma_validations_prefix(stages: Seq<AuthoredPipelineStage>, k: int)
    requires
        0 <= k <= stages.len(),
    ensures
        is_prefix(produced_validations(stages.take(k)), produced_validations(stages)),
    decreases stages.len() - k,
{
    if k == stages.len() {
        assert(stages.take(k) =~= stages);
        assert(produced_validations(stages).take(produced_validations(stages).len() as int) =~= produced_validations(
            stages,
        ));
    } else {
        lemma_validations_prefix(stages, k + 1);
        lemma_validations_step(stages, k);
        let a = produced_validations(stages.take(k));
        let b = produced_validations(stages.take(k + 1));
        let c = produced_validations(stages);
        assert(c.take(a.len() as int) =~= b.take(a.len() as int));
        assert(b.take(a.len() as int) =~= a);
    }
}

/// The texts of the identifiers known so far: declared inputs, then the
/// produced artifacts.
pub open spec fn known_ids(inputs: Seq<AuthoredPipelineInput>, entries: Seq<(ExpectedArtifact, int)>) -> Seq<Seq<char>> {
    input_ids(inputs) + produced_ids(entries)
}

pub open spec fn entry_paths(entries: Seq<(ExpectedArtifact, int)>) -> Seq<Seq<char>> {
    entries.map_values(|e: (ExpectedArtifact, int)| e.0.relative_path@)
}

pub open spec fn entry_stages(entries: Seq<(ExpectedArtifact, int)>) -> Seq<int> {
    entries.map_values(|e: (ExpectedArtifact, int)| e.1)
}

/// Running record of the artifacts seen so far.
pub struct ArtifactLedger {
    pub ids: Vec<String>,
    pub paths: Vec<String>,
    pub stages: Vec<usize>,
}

impl ArtifactLedger {
    /// The ledger records the inputs and then exactly these produced entries.
    pub open spec fn records(&self, inputs: Seq<AuthoredPipelineInput>, entries: Seq<(ExpectedArtifact, int)>) -> bool {
        &&& crate::order::texts(self.ids@) == known_ids(inputs, entries)
        &&& crate::order::texts(self.paths@) == entry_paths(entries)
        &&& self.stages@.map_values(|s: usize| s as int) == entry_stages(entries)
    }
}

fn record_artifact(
    ledger: &mut ArtifactLedger,
    artifact: &ExpectedArtifact,
    k: usize,
    Ghost(inputs): Ghost<Seq<AuthoredPipelineInput>>,
    Ghost(entries): Ghost<Seq<(ExpectedArtifact, int)>>,
)
    requires
        old(ledger).records(inputs, entries),
    ensures
        final(ledger).records(inputs, entries.push((*artifact, k as int))),
{
    ledger.ids.push(artifact.id.clone());
    ledger.paths.push(artifact.relative_path.clone());
    ledger.stages.push(k);
    let ghost next = entries.push((*artifact, k as int));
    assert(crate::order::texts(ledger.ids@) =~= crate::order::texts(old(ledger).ids@).push(artifact.id@));
    assert(produced_ids(next) =~= produced_ids(entries).push(artifact.id@));
    assert(known_ids(inputs, next) =~= known_ids(inputs, entries).push(artifact.id@));
    assert(crate::order::texts(ledger.ids@) =~= known_ids(inputs, next));
    assert(crate::order::texts(ledger.paths@) =~= crate::order::texts(old(ledger).paths@).push(artifact.relative_path@));
    assert(entry_paths(next) =~= entry_paths(entries).push(artifact.relative_path@));
    assert(crate::order::texts(ledger.paths@) =~= entry_paths(next));
    assert(ledger.stages@ =~= old(ledger).stages@.push(k));
    assert(ledger.stages@.map_values(|s: usize| s as int) =~= old(ledger).stages@.map_values(|s: usize| s as int).push(
        k as int,
    ));
    assert(entry_stages(next) =~= entry_stages(entries).push(k as int));
    assert(ledger.stages@.map_values(|s: usize| s as int) =~= entry_stages(next));
}

fn duplicate_expected(a: &ExpectedArtifact) -> (r: ExpectedArtifact)
    ensures
        r == *a,
{
    ExpectedArtifact { id: a.id.clone(), relative_path: a.relative_path.clone() }
}

/// The expected artifacts of a stage's output bindings, in order.
fn stage_artifact_list(stage: &AuthoredPipelineStage) -> (r: Vec<ExpectedArtifact>)
    ensures
        r@ == binding_artifacts(stage.outputs@),
{
    let mut r: Vec<ExpectedArtifact> = Vec::new();
    let mut b: usize = 0;
    while b < stage.outputs.len()
        invariant
            b <= stage.outputs.len(),
            r@ == binding_artifacts(stage.outputs@.take(b as int)),
        decreases stage.outputs.len() - b,
    {
        proof {
            lemma_binding_step(stage.outputs@, b as int);
        }
        let artifacts = &stage.outputs[b].artifacts;
        let ghost start = r@;
        let mut t: usize = 0;
        while t < artifacts.len()
            invariant
                t <= artifacts.len(),
                r@ == start + artifacts@.take(t as int),
            decreases artifacts.len() - t,
        {
            r.push(duplicate_expected(&artifacts[t]));
            assert(r@ =~= start + artifacts@.take(t + 1));
            t = t + 1;
        }
        assert(artifacts@.take(artifacts.len() as int) =~= artifacts@);
        b = b + 1;
    }
    assert(stage.outputs@.take(stage.outputs.len() as int) =~= stage.outputs@);
    r
}

/// Local checks of one stage's output bindings.
fn check_output_ports(stage: &AuthoredPipelineStage, index: usize) -> (r: Result<(), PipelinePlanningFailure>)
    ensures
        r is Ok <==> ({
            let bindings = stage.outputs@;
            &&& forall|i: int| 0 <= i < bindings.len() ==> is_local_id((#[trigger] bindings[i]).port@) && bindings[i].artifacts@.len() > 0
            &&& forall|i: int, j: int| 0 <= i < j < bindings.len() ==> (#[trigger] bindings[i]).port@ != (#[trigger] bindings[j]).port@
            &&& forall|i: int, x: int|
                0 <= i < bindings.len() && 0 <= x < bindings[i].artifacts@.len() ==> is_local_id(
                    (#[trigger] bindings[i].artifacts@[x]).id@,
                ) && artifact_path_valid(bindings[i].artifacts@[x].relative_path@)
        }),
        r matches Err(f) ==> one_refusal(f),
{
    let bindings = &stage.outputs;
    let sid = stage.id.as_str();
    let mut i: usize = 0;
    while i < bindings.len()
        invariant
            i <= bindings.len(),
            *bindings == stage.outputs,
            forall|k: int| 0 <= k < i ==> is_local_id((#[trigger] bindings@[k]).port@) && bindings@[k].artifacts@.len() > 0,
            forall|k: int, j: int| 0 <= k < j < i ==> (#[trigger] bindings@[k]).port@ != (#[trigger] bindings@[j]).port@,
            forall|k: int, x: int|
                0 <= k < i && 0 <= x < bindings@[k].artifacts@.len() ==> is_local_id(
                    (#[trigger] bindings@[k].artifacts@[x]).id@,
                ) && artifact_path_valid(bindings@[k].artifacts@[x].relative_path@),
        decreases bindings.len() - i,
    {
        let binding = &bindings[i];
        validate_local_id(binding.port.as_str(), "output port", Some(sid), stage_member_field(index, ".outputs", i, ".port").as_str())?;
        let mut j: usize = 0;
        while j < i
            invariant
                j <= i < bindings.len(),
                *bindings == stage.outputs,
                *binding == bindings@[i as int],
                forall|k: int| 0 <= k < j ==> (#[trigger] bindings@[k]).port@ != bindings@[i as int].port@,
            decreases i - j,
        {
            if text_eq(bindings[j].port.as_str(), binding.port.as_str()) {
                let mut message = join3("stage ", sid, " binds output port ");
                message.append(binding.port.as_str());
                message.append(" more than once");
                let field = stage_member_field(index, ".outputs", i, ".port");
                return Err(configuration_failure(PipelinePlanningDiagnosticCode::InvalidBinding, message, Some(sid), field.as_str()));
            }
            j = j + 1;
        }
        if binding.artifacts.len() == 0 {
            let mut message = join3("stage ", sid, " output port ");
            message.append(binding.port.as_str());
            message.append(" must declare at least one artifact");
            let field = stage_member_field(index, ".outputs", i, ".artifacts");
            return Err(configuration_failure(PipelinePlanningDiagnosticCode::InvalidBinding, message, Some(sid), field.as_str()));
        }
        let mut t: usize = 0;
        while t < binding.artifacts.len()
            invariant
                t <= binding.artifacts.len(),
                i < bindings.len(),
                *bindings == stage.outputs,
                *binding == bindings@[i as int],
                forall|x: int|
                    0 <= x < t ==> is_local_id((#[trigger] binding.artifacts@[x]).id@) && artifact_path_valid(
                        binding.artifacts@[x].relative_path@,
                    ),
            decreases binding.artifacts.len() - t,
        {
            let artifact = &binding.artifacts[t];
            validate_local_id(
                artifact.id.as_str(),
                "artifact id",
                Some(sid),
                stage_nested_field(index, ".outputs", i, ".artifacts", t, ".id").as_str(),
            )?;
            validate_artifact_relative_path(
                artifact.relative_path.as_str(),
                Some(sid),
                stage_nested_field(index, ".outputs", i, ".artifacts", t, ".relative_path").as_str(),
            )?;
            t = t + 1;
        }
        i = i + 1;
    }
    Ok(())
}

proof fn lemma_prefix_distinct(p: Seq<Seq<char>>, s: Seq<Seq<char>>, i: int, j: int)
    requires
        is_prefix(p, s),
        0 <= i < j < p.len(),
        p[i] == p[j],
    ensures
        !distinct(s),
{
    assert(s[i] == p[i] && s[j] == p[j]);
}

/// The first position holding this text.
fn find_text(values: &Vec<String>, text: &str) -> (r: Option<usize>)
    ensures
        match r {
            Some(m) => m < values@.len() && crate::order::texts(values@)[m as int] == text@,
            None => !crate::order::texts(values@).contains(text@),
        },
{
    let mut m: usize = 0;
    while m < values.len()
        invariant
            m <= values@.len(),
            forall|x: int| 0 <= x < m ==> (#[trigger] crate::order::texts(values@)[x]) != text@,
        decreases values@.len() - m,
    {
        if text_eq(values[m].as_str(), text) {
            return Some(m);
        }
        m = m + 1;
    }
    None
}

/// The first recorded path that overlaps `path`.
fn find_overlap(paths: &Vec<String>, path: &str) -> (r: Option<usize>)
    ensures
        match r {
            Some(q) => q < paths@.len() && paths_overlap_spec(crate::order::texts(paths@)[q as int], path@),
            None => forall|x: int|
                0 <= x < paths@.len() ==> !paths_overlap_spec(#[trigger] crate::order::texts(paths@)[x], path@),
        },
{
    let mut q: usize = 0;
    while q < paths.len()
        invariant
            q <= paths@.len(),
            forall|x: int| 0 <= x < q ==> !paths_overlap_spec(#[trigger] crate::order::texts(paths@)[x], path@),
        decreases paths@.len() - q,
    {
        if paths_overlap(paths[q].as_str(), path) {
            return Some(q);
        }
        q = q + 1;
    }
    None
}

/// Record the artifacts of stage `k`, refusing an id already known or a
/// path that overlaps one already recorded.
fn record_stage_artifacts(
    stages: &Vec<AuthoredPipelineStage>,
    k: usize,
    ledger: &mut ArtifactLedger,
    Ghost(inputs): Ghost<Seq<AuthoredPipelineInput>>,
) -> (r: Result<(), PipelinePlanningFailure>)
    requires
        k < stages@.len(),
        old(ledger).records(inputs, produced(stages@.take(k as int))),
        distinct(known_ids(inputs, produced(stages@.take(k as int)))),
        paths_disjoint(produced(stages@.take(k as int))),
    ensures
        r is Ok <==> distinct(known_ids(inputs, produced(stages@.take(k + 1)))) && paths_disjoint(
            produced(stages@.take(k + 1)),
        ),
        r is Ok ==> final(ledger).records(inputs, produced(stages@.take(k + 1))),
        r matches Err(f) ==> one_refusal(f),
{
    let stage = &stages[k];
    let sid = stage.id.as_str();
    let list = stage_artifact_list(stage);
    let ghost base = produced(stages@.take(k as int));
    let ghost full = produced(stages@.take(k + 1));
    proof {
        lemma_produced_step(stages@, k as int);
    }
    let mut t: usize = 0;
    while t < list.len()
        invariant
            k < stages@.len(),
            *stage == stages@[k as int],
            list@ == binding_artifacts(stage.outputs@),
            base == produced(stages@.take(k as int)),
            full == base + tagged(list@, k as int),
            full == produced(stages@.take(k + 1)),
            t <= list.len(),
            ledger.records(inputs, base + tagged(list@.take(t as int), k as int)),
            distinct(known_ids(inputs, base + tagged(list@.take(t as int), k as int))),
            paths_disjoint(base + tagged(list@.take(t as int), k as int)),
        decreases list.len() - t,
    {
        let artifact = &list[t];
        let ghost cur = base + tagged(list@.take(t as int), k as int);
        let ghost next = base + tagged(list@.take(t + 1), k as int);
        assert(next =~= cur.push((*artifact, k as int)));
        assert(is_prefix(next, full)) by {
            assert(full.take(next.len() as int) =~= next);
        }
        proof {
            assert(produced_ids(next) =~= produced_ids(cur).push(artifact.id@));
            assert(known_ids(inputs, next) =~= known_ids(inputs, cur).push(artifact.id@));
            assert(entry_paths(next) =~= entry_paths(cur).push(artifact.relative_path@));
        }
        if let Some(m) = find_text(&ledger.ids, artifact.id.as_str()) {
            proof {
                let ids_next = known_ids(inputs, next);
                assert(ids_next[m as int] == ids_next[ids_next.len() - 1]);
                assert(is_prefix(ids_next, known_ids(inputs, full))) by {
                    assert(produced_ids(full).take(produced_ids(next).len() as int) =~= produced_ids(next));
                    assert(known_ids(inputs, full).take(ids_next.len() as int) =~= ids_next);
                }
                lemma_prefix_distinct(ids_next, known_ids(inputs, full), m as int, ids_next.len() - 1);
            }
            let (b, x) = artifact_position(stage, t);
            return Err(configuration_failure(
                PipelinePlanningDiagnosticCode::DuplicateIdentifier,
                join3("artifact id ", artifact.id.as_str(), " is declared more than once"),
                Some(sid),
                stage_nested_field(k, ".outputs", b, ".artifacts", x, ".id").as_str(),
            ));
        }
        if let Some(q) = find_overlap(&ledger.paths, artifact.relative_path.as_str()) {
            proof {
                assert(full[q as int] == next[q as int]);
                assert(full[cur.len() as int] == next[cur.len() as int]);
                assert(entry_paths(cur)[q as int] == cur[q as int].0.relative_path@);
                assert(!paths_disjoint(full));
            }
            let mut message = join3("artifact ", artifact.id.as_str(), " path ");
            message.append(artifact.relative_path.as_str());
            message.append(" overlaps an earlier artifact path");
            let (b, x) = artifact_position(stage, t);
            return Err(configuration_failure(
                PipelinePlanningDiagnosticCode::ArtifactPathOverlap,
                message,
                Some(sid),
                stage_nested_field(k, ".outputs", b, ".artifacts", x, ".relative_path").as_str(),
            ));
        }
        proof {
            assert(produced_ids(next) =~= produced_ids(cur).push(artifact.id@));
            assert(known_ids(inputs, next) =~= known_ids(inputs, cur).push(artifact.id@));
            assert forall|i: int, j: int| 0 <= i < j < next.len() implies !paths_overlap_spec(
                (#[trigger] next[i]).0.relative_path@,
                (#[trigger] next[j]).0.relative_path@,
            ) by {
                if j == cur.len() {
                    assert(entry_paths(cur)[i] == cur[i].0.relative_path@);
                    assert(crate::order::texts(ledger.paths@)[i] == entry_paths(cur)[i]);
                    assert(next[i] == cur[i]);
                    assert(next[j].0 == *artifact);
                } else {
                    assert(next[i] == cur[i] && next[j] == cur[j]);
                }
            }
        }
        record_artifact(ledger, artifact, k, Ghost(inputs), Ghost(cur));
        t = t + 1;
    }
    assert(list@.take(list.len() as int) =~= list@);
    Ok(())
}

/// Check one bound input artifact of stage `k`: it is known, and if an
/// earlier stage produced it, that stage is an ancestor.
fn check_bound_artifact(
    stages: &Vec<AuthoredPipelineStage>,
    k: usize,
    ledger: &ArtifactLedger,
    input_count: usize,
    ancestors: &Vec<String>,
    artifact_id: &str,
    binding_index: usize,
    artifact_index: usize,
    Ghost(inputs): Ghost<Seq<AuthoredPipelineInput>>,
) -> (r: Result<(), PipelinePlanningFailure>)
    requires
        k < stages@.len(),
        input_count == inputs.len(),
        ledger.records(inputs, produced(stages@.take(k as int))),
        distinct(known_ids(inputs, produced(stages@.take(k as int)))),
        represents(ancestors@, ancestors_of(stages@, k as int)),
    ensures
        r is Ok <==> known_before(inputs, stages@, k as int, artifact_id@) && producer_is_ancestor(
            stages@,
            k as int,
            artifact_id@,
        ),
        r matches Err(f) ==> one_refusal(f),
{
    let ghost entries = produced(stages@.take(k as int));
    let ghost ids = known_ids(inputs, entries);
    let sid = stages[k].id.as_str();
    assert(ids.len() == input_ids(inputs).len() + produced_ids(entries).len());
    let found = find_text(&ledger.ids, artifact_id);
    let m = match found {
        Some(m) => m,
        None => {
            proof {
                if input_ids(inputs).contains(artifact_id@) {
                    let x = choose|x: int| 0 <= x < input_ids(inputs).len() && input_ids(inputs)[x] == artifact_id@;
                    assert(ids[x] == artifact_id@);
                }
                if produced_ids(entries).contains(artifact_id@) {
                    let x = choose|x: int| 0 <= x < produced_ids(entries).len() && produced_ids(entries)[x] == artifact_id@;
                    assert(ids[input_ids(inputs).len() + x] == artifact_id@);
                }
            }
            let mut message = join3("stage ", sid, " input references unknown artifact ");
            message.append(artifact_id);
            let field = stage_nested_field(k, ".inputs", binding_index, ".artifacts", artifact_index, "");
            return Err(configuration_failure(PipelinePlanningDiagnosticCode::UnknownArtifact, message, Some(sid), field.as_str()));
        },
    };
    if m < input_count {
        proof {
            assert(ids[m as int] == input_ids(inputs)[m as int]);
            assert(input_ids(inputs).contains(artifact_id@));
            assert forall|x: int| 0 <= x < entries.len() && (#[trigger] entries[x]).0.id@ == artifact_id@ implies ancestors_of(
                stages@,
                k as int,
            ).contains(stages@[entries[x].1].id@) by {
                assert(ids[input_ids(inputs).len() + x] == produced_ids(entries)[x]);
                assert(ids[m as int] == ids[input_ids(inputs).len() + x]);
            }
        }
        return Ok(());
    }
    let position = m - input_count;
    proof {
        assert(ids[m as int] == produced_ids(entries)[position as int]);
        assert(produced_ids(entries).contains(artifact_id@));
        assert(produced_ids(entries).len() == entries.len());
        assert(entry_stages(entries).len() == entries.len());
        assert(ledger.stages@.map_values(|s: usize| s as int).len() == ledger.stages@.len());
        assert(position < ledger.stages@.len());
        assert(entry_stages(entries)[position as int] == entries[position as int].1);
        assert(ledger.stages@.map_values(|s: usize| s as int)[position as int] == ledger.stages@[position as int] as int);
    }
    let producer = ledger.stages[position];
    proof {
        lemma_entry_stage_bound(stages@, k as int, position as int);
    }
    let producer_id = stages[producer].id.as_str();
    match find_text(ancestors, producer_id) {
        Some(n) => {
            proof {
                assert(crate::order::texts(ancestors@)[n as int] == producer_id@);
                assert(crate::order::texts(ancestors@).contains(producer_id@));
                assert(ancestors_of(stages@, k as int).contains(producer_id@));
                assert(producer as int == entries[position as int].1);
                assert forall|x: int| 0 <= x < entries.len() && (#[trigger] entries[x]).0.id@ == artifact_id@ implies ancestors_of(
                    stages@,
                    k as int,
                ).contains(stages@[entries[x].1].id@) by {
                    assert(ids[input_ids(inputs).len() + x] == produced_ids(entries)[x]);
                    if x != position {
                        assert(ids[input_ids(inputs).len() + x] == ids[m as int]);
                    }
                }
            }
            Ok(())
        },
        None => {
            let mut message = join3("stage ", sid, " consumes artifact ");
            message.append(artifact_id);
            message.append(" from ");
            message.append(producer_id);
            message.append(" without depending on it");
            let field = stage_nested_field(k, ".inputs", binding_index, ".artifacts", artifact_index, "");
            Err(configuration_failure(PipelinePlanningDiagnosticCode::InvalidDependency, message, Some(sid), field.as_str()))
        },
    }
}

/// Produced entries before stage `k` come from earlier stages.
proof fn lemma_entry_stage_bound(stages: Seq<AuthoredPipelineStage>, k: int, x: int)
    requires
        0 <= k <= stages.len(),
        0 <= x < produced(stages.take(k)).len(),
    ensures
        0 <= produced(stages.take(k))[x].1 < k,
    decreases k,
{
    if k > 0 {
        lemma_produced_step(stages, k - 1);
        let before = produced(stages.take(k - 1));
        assert(stages.take(k).take(k - 1) =~= stages.take(k - 1));
        if x < before.len() {
            lemma_entry_stage_bound(stages, k - 1, x);
        }
    }
}

/// Check the input bindings of stage `k`.
fn check_input_bindings(
    stages: &Vec<AuthoredPipelineStage>,
    k: usize,
    ledger: &ArtifactLedger,
    input_count: usize,
    ancestors: &Vec<String>,
    Ghost(inputs): Ghost<Seq<AuthoredPipelineInput>>,
) -> (r: Result<(), PipelinePlanningFailure>)
    requires
        k < stages@.len(),
        input_count == inputs.len(),
        ledger.records(inputs, produced(stages@.take(k as int))),
        distinct(known_ids(inputs, produced(stages@.take(k as int)))),
        represents(ancestors@, ancestors_of(stages@, k as int)),
    ensures
        r is Ok <==> input_bindings_valid(inputs, stages@, k as int),
        r matches Err(f) ==> one_refusal(f),
{
    let stage = &stages[k];
    let sid = stage.id.as_str();
    let bindings = &stage.inputs;
    let mut i: usize = 0;
    while i < bindings.len()
        invariant
            k < stages@.len(),
            *stage == stages@[k as int],
            *bindings == stage.inputs,
            input_count == inputs.len(),
            ledger.records(inputs, produced(stages@.take(k as int))),
            distinct(known_ids(inputs, produced(stages@.take(k as int)))),
            represents(ancestors@, ancestors_of(stages@, k as int)),
            i <= bindings.len(),
            forall|j: int| 0 <= j < i ==> is_local_id((#[trigger] bindings@[j]).port@) && bindings@[j].artifacts@.len() > 0,
            forall|a: int, b: int| 0 <= a < b < i ==> (#[trigger] bindings@[a]).port@ != (#[trigger] bindings@[b]).port@,
            forall|j: int, x: int, y: int|
                0 <= j < i && 0 <= x < y < bindings@[j].artifacts@.len() ==> (#[trigger] bindings@[j].artifacts@[x])@
                    != (#[trigger] bindings@[j].artifacts@[y])@,
            forall|j: int, x: int|
                0 <= j < i && 0 <= x < bindings@[j].artifacts@.len() ==> known_before(
                    inputs,
                    stages@,
                    k as int,
                    (#[trigger] bindings@[j].artifacts@[x])@,
                ) && producer_is_ancestor(stages@, k as int, bindings@[j].artifacts@[x]@),
        decreases bindings.len() - i,
    {
        let binding = &bindings[i];
        validate_local_id(binding.port.as_str(), "input port", Some(sid), stage_member_field(k, ".inputs", i, ".port").as_str())?;
        let mut j: usize = 0;
        while j < i
            invariant
                j <= i < bindings.len(),
                k < stages@.len(),
                *stage == stages@[k as int],
                *bindings == stage.inputs,
                *binding == bindings@[i as int],
                forall|a: int| 0 <= a < j ==> (#[trigger] bindings@[a]).port@ != bindings@[i as int].port@,
            decreases i - j,
        {
            if text_eq(bindings[j].port.as_str(), binding.port.as_str()) {
                let mut message = join3("stage ", sid, " binds input port ");
                message.append(binding.port.as_str());
                message.append(" more than once");
                let field = stage_member_field(k, ".inputs", i, ".port");
                return Err(configuration_failure(PipelinePlanningDiagnosticCode::InvalidBinding, message, Some(sid), field.as_str()));
            }
            j = j + 1;
        }
        if binding.artifacts.len() == 0 {
            let mut message = join3("stage ", sid, " input port ");
            message.append(binding.port.as_str());
            message.append(" must bind at least one artifact");
            let field = stage_member_field(k, ".inputs", i, ".artifacts");
            return Err(configuration_failure(PipelinePlanningDiagnosticCode::InvalidBinding, message, Some(sid), field.as_str()));
        }
        let artifacts = &binding.artifacts;
        let mut x: usize = 0;
        while x < artifacts.len()
            invariant
                k < stages@.len(),
                i < bindings.len(),
                *stage == stages@[k as int],
                *bindings == stage.inputs,
                *binding == bindings@[i as int],
                *artifacts == binding.artifacts,
                input_count == inputs.len(),
                ledger.records(inputs, produced(stages@.take(k as int))),
                distinct(known_ids(inputs, produced(stages@.take(k as int)))),
                represents(ancestors@, ancestors_of(stages@, k as int)),
                x <= artifacts.len(),
                forall|a: int, b: int| 0 <= a < b < x ==> (#[trigger] artifacts@[a])@ != (#[trigger] artifacts@[b])@,
                forall|a: int|
                    0 <= a < x ==> known_before(inputs, stages@, k as int, (#[trigger] artifacts@[a])@)
                        && producer_is_ancestor(stages@, k as int, artifacts@[a]@),
            decreases artifacts.len() - x,
        {
            let artifact_id = &artifacts[x];
            let mut y: usize = 0;
            while y < x
                invariant
                    y <= x < artifacts.len(),
                    k < stages@.len(),
                    i < bindings.len(),
                    *stage == stages@[k as int],
                    *bindings == stage.inputs,
                    *binding == bindings@[i as int],
                    *artifacts == binding.artifacts,
                    *artifact_id == artifacts@[x as int],
                    forall|a: int| 0 <= a < y ==> (#[trigger] artifacts@[a])@ != artifacts@[x as int]@,
                decreases x - y,
            {
                if text_eq(artifacts[y].as_str(), artifact_id.as_str()) {
                    let mut message = join3("stage ", sid, " binds artifact ");
                    message.append(artifact_id.as_str());
                    message.append(" more than once on one port");
                    let field = stage_nested_field(k, ".inputs", i, ".artifacts", x, "");
                    return Err(configuration_failure(PipelinePlanningDiagnosticCode::InvalidBinding, message, Some(sid), field.as_str()));
                }
                y = y + 1;
            }
            check_bound_artifact(stages, k, ledger, input_count, ancestors, artifact_id.as_str(), i, x, Ghost(inputs))?;
            x = x + 1;
        }
        i = i + 1;
    }
    Ok(())
}

/// Running record of the validations seen so far.
pub struct ValidationLedger {
    pub ids: Vec<String>,
    pub artifacts: Vec<String>,
}

pub open spec fn validation_artifacts(validations: Seq<ArtifactValidation>) -> Seq<Seq<char>> {
    validations.map_values(|v: ArtifactValidation| v.artifact@)
}

impl ValidationLedger {
    pub open spec fn records(&self, validations: Seq<ArtifactValidation>) -> bool {
        &&& crate::order::texts(self.ids@) == validation_ids(validations)
        &&& crate::order::texts(self.artifacts@) == validation_artifacts(validations)
    }
}

/// Whether the stage itself produces an artifact with this id.
fn stage_produces(list: &Vec<ExpectedArtifact>, id: &str) -> (r: bool)
    ensures
        r == list@.map_values(|a: ExpectedArtifact| a.id@).contains(id@),
{
    let mut i: usize = 0;
    while i < list.len()
        invariant
            i <= list.len(),
            forall|x: int| 0 <= x < i ==> (#[trigger] list@[x]).id@ != id@,
        decreases list.len() - i,
    {
        if text_eq(list[i].id.as_str(), id) {
            assert(list@.map_values(|a: ExpectedArtifact| a.id@)[i as int] == id@);
            return true;
        }
        i = i + 1;
    }
    proof {
        let m = list@.map_values(|a: ExpectedArtifact| a.id@);
        if m.contains(id@) {
            let x = choose|x: int| 0 <= x < m.len() && #[trigger] m[x] == id@;
            assert(list@[x].id@ == id@);
        }
    }
    false
}

/// Check the validations of stage `k` and record them.
fn check_stage_validations(
    stages: &Vec<AuthoredPipelineStage>,
    k: usize,
    ledger: &mut ValidationLedger,
) -> (r: Result<(), PipelinePlanningFailure>)
    requires
        k < stages@.len(),
        old(ledger).records(produced_validations(stages@.take(k as int))),
        distinct(validation_ids(produced_validations(stages@.take(k as int)))),
    ensures
        r is Ok <==> stage_validations_valid(stages@, k as int) && distinct(
            validation_ids(produced_validations(stages@.take(k + 1))),
        ),
        r is Ok ==> final(ledger).records(produced_validations(stages@.take(k + 1))),
        r matches Err(f) ==> one_refusal(f),
{
    let stage = &stages[k];
    let sid = stage.id.as_str();
    let list = stage_artifact_list(stage);
    let validations = &stage.validations;
    let ghost base = produced_validations(stages@.take(k as int));
    let ghost full = produced_validations(stages@.take(k + 1));
    proof {
        lemma_validations_step(stages@, k as int);
    }
    let mut i: usize = 0;
    while i < validations.len()
        invariant
            k < stages@.len(),
            *stage == stages@[k as int],
            *validations == stage.validations,
            list@ == binding_artifacts(stage.outputs@),
            base == produced_validations(stages@.take(k as int)),
            full == base + validations@,
            full == produced_validations(stages@.take(k + 1)),
            i <= validations.len(),
            ledger.records(base + validations@.take(i as int)),
            distinct(validation_ids(base + validations@.take(i as int))),
            forall|x: int|
                0 <= x < i ==> is_local_id((#[trigger] validations@[x]).id@) && list@.map_values(
                    |a: ExpectedArtifact| a.id@,
                ).contains(validations@[x].artifact@) && is_printable_text(validations@[x].contract@),
        decreases validations.len() - i,
    {
        let validation = &validations[i];
        let ghost cur = base + validations@.take(i as int);
        let ghost next = base + validations@.take(i + 1);
        assert(next =~= cur.push(*validation));
        assert(validation_ids(next) =~= validation_ids(cur).push(validation.id@));
        assert(validation_artifacts(next) =~= validation_artifacts(cur).push(validation.artifact@));
        validate_local_id(validation.id.as_str(), "validation id", Some(sid), stage_member_field(k, ".validations", i, ".id").as_str())?;
        if !stage_produces(&list, validation.artifact.as_str()) {
            let mut message = join3("stage ", sid, " validation ");
            message.append(validation.id.as_str());
            message.append(" must reference an artifact produced by that stage");
            let field = stage_member_field(k, ".validations", i, ".artifact");
            return Err(configuration_failure(PipelinePlanningDiagnosticCode::InvalidValidation, message, Some(sid), field.as_str()));
        }
        if !crate::text::text_is_printable(validation.contract.as_str()) {
            let mut message = join3("stage ", sid, " validation ");
            message.append(validation.id.as_str());
            message.append(" contract must be non-empty and printable");
            let field = stage_member_field(k, ".validations", i, ".contract");
            return Err(configuration_failure(PipelinePlanningDiagnosticCode::InvalidValidation, message, Some(sid), field.as_str()));
        }
        if let Some(m) = find_text(&ledger.ids, validation.id.as_str()) {
            proof {
                let ids_next = validation_ids(next);
                assert(ids_next[m as int] == ids_next[ids_next.len() - 1]);
                assert(is_prefix(ids_next, validation_ids(full))) by {
                    assert(validation_ids(full).take(ids_next.len() as int) =~= ids_next);
                }
                lemma_prefix_distinct(ids_next, validation_ids(full), m as int, ids_next.len() - 1);
            }
            return Err(configuration_failure(
                PipelinePlanningDiagnosticCode::DuplicateIdentifier,
                join3("validation id ", validation.id.as_str(), " is declared more than once"),
                Some(sid),
                stage_member_field(k, ".validations", i, ".id").as_str(),
            ));
        }
        ledger.ids.push(validation.id.clone());
        ledger.artifacts.push(validation.artifact.clone());
        assert(crate::order::texts(ledger.ids@) =~= validation_ids(next));
        assert(crate::order::texts(ledger.artifacts@) =~= validation_artifacts(next));
        i = i + 1;
    }
    assert(validations@.take(validations.len() as int) =~= validations@);
    Ok(())
}

/// Check the final outputs against every known artifact and validation.
fn check_final_outputs(
    outputs: &Vec<FinalOutputRequirement>,
    known: &Vec<String>,
    ledger: &ValidationLedger,
    Ghost(inputs): Ghost<Seq<AuthoredPipelineInput>>,
    Ghost(stages): Ghost<Seq<AuthoredPipelineStage>>,
) -> (r: Result<(), PipelinePlanningFailure>)
    requires
        crate::order::texts(known@) == all_artifact_ids(inputs, stages),
        ledger.records(produced_validations(stages)),
        distinct(validation_ids(produced_validations(stages))),
    ensures
        r is Ok <==> (forall|i: int| 0 <= i < outputs@.len() ==> final_output_valid(#[trigger] outputs@[i], inputs, stages))
            && distinct(outputs@.map_values(|o: FinalOutputRequirement| o.id@)),
        r matches Err(f) ==> one_refusal(f),
{
    let ghost ids = outputs@.map_values(|o: FinalOutputRequirement| o.id@);
    let ghost validations = produced_validations(stages);
    let mut i: usize = 0;
    while i < outputs.len()
        invariant
            i <= outputs.len(),
            ids == outputs@.map_values(|o: FinalOutputRequirement| o.id@),
            validations == produced_validations(stages),
            crate::order::texts(known@) == all_artifact_ids(inputs, stages),
            ledger.records(validations),
            distinct(validation_ids(validations)),
            forall|x: int| 0 <= x < i ==> final_output_valid(#[trigger] outputs@[x], inputs, stages),
            forall|a: int, b: int| 0 <= a < b < i ==> #[trigger] ids[a] != #[trigger] ids[b],
        decreases outputs.len() - i,
    {
        let output = &outputs[i];
        validate_local_id(output.id.as_str(), "output id", None, member_field("outputs", i, ".id").as_str())?;
        let mut j: usize = 0;
        while j < i
            invariant
                j <= i < outputs.len(),
                ids == outputs@.map_values(|o: FinalOutputRequirement| o.id@),
                *output == outputs@[i as int],
                forall|a: int| 0 <= a < j ==> #[trigger] ids[a] != ids[i as int],
            decreases i - j,
        {
            assert(ids[j as int] == outputs@[j as int].id@);
            assert(ids[i as int] == output.id@);
            if text_eq(outputs[j].id.as_str(), output.id.as_str()) {
                return Err(configuration_failure(
                    PipelinePlanningDiagnosticCode::DuplicateIdentifier,
                    join3("final output id ", output.id.as_str(), " is declared more than once"),
                    None,
                    member_field("outputs", i, ".id").as_str(),
                ));
            }
            j = j + 1;
        }
        match find_text(known, output.artifact.as_str()) {
            Some(m) => {
                assert(crate::order::texts(known@)[m as int] == output.artifact@);
                assert(all_artifact_ids(inputs, stages).contains(output.artifact@));
            },
            None => {
                let mut message = join3("final output ", output.id.as_str(), " references unknown artifact ");
                message.append(output.artifact.as_str());
                let field = member_field("outputs", i, ".artifact");
                return Err(configuration_failure(PipelinePlanningDiagnosticCode::InvalidFinalOutput, message, None, field.as_str()));
            },
        }
        let required = &output.required_validations;
        if required.len() == 0 {
            return Err(configuration_failure(
                PipelinePlanningDiagnosticCode::InvalidFinalOutput,
                join3("final output ", output.id.as_str(), " must require at least one validation"),
                None,
                member_field("outputs", i, ".required_validations").as_str(),
            ));
        }
        let mut x: usize = 0;
        while x < required.len()
            invariant
                i < outputs.len(),
                *output == outputs@[i as int],
                *required == output.required_validations,
                is_local_id(output.id@),
                all_artifact_ids(inputs, stages).contains(output.artifact@),
                required@.len() > 0,
                validations == produced_validations(stages),
                ledger.records(validations),
                distinct(validation_ids(validations)),
                x <= required.len(),
                forall|a: int, b: int| 0 <= a < b < x ==> (#[trigger] required@[a])@ != (#[trigger] required@[b])@,
                forall|a: int| 0 <= a < x ==> validation_checks(validations, (#[trigger] required@[a])@, output.artifact@),
            decreases required.len() - x,
        {
            let validation_id = &required[x];
            let mut y: usize = 0;
            while y < x
                invariant
                    y <= x < required.len(),
                    i < outputs.len(),
                    *output == outputs@[i as int],
                    *required == output.required_validations,
                    *validation_id == required@[x as int],
                    forall|a: int| 0 <= a < y ==> (#[trigger] required@[a])@ != required@[x as int]@,
                decreases x - y,
            {
                if text_eq(required[y].as_str(), validation_id.as_str()) {
                    let mut message = join3("final output ", output.id.as_str(), " requires validation ");
                    message.append(validation_id.as_str());
                    message.append(" more than once");
                    return Err(configuration_failure(
                        PipelinePlanningDiagnosticCode::InvalidFinalOutput,
                        message,
                        None,
                        member_field(member_field("outputs", i, ".required_validations").as_str(), x, "").as_str(),
                    ));
                }
                y = y + 1;
            }
            match find_text(&ledger.ids, validation_id.as_str()) {
                Some(m) => {
                    proof {
                        assert(crate::order::texts(ledger.ids@).len() == ledger.ids@.len());
                        assert(validation_ids(validations).len() == validations.len());
                        assert(crate::order::texts(ledger.artifacts@).len() == ledger.artifacts@.len());
                        assert(validation_artifacts(validations).len() == validations.len());
                        assert(validation_ids(validations)[m as int] == validations[m as int].id@);
                        assert(crate::order::texts(ledger.artifacts@)[m as int] == validations[m as int].artifact@);
                    }
                    if !text_eq(ledger.artifacts[m].as_str(), output.artifact.as_str()) {
                        proof {
                            assert forall|n: int| 0 <= n < validations.len() && (#[trigger] validations[n]).id@ == validation_id@ implies validations[n].artifact@ != output.artifact@ by {
                                assert(validation_ids(validations)[n] == validations[n].id@);
                                if n != m {
                                    assert(validation_ids(validations)[n] == validation_ids(validations)[m as int]);
                                }
                            }
                        }
                        let mut message = join3("final output ", output.id.as_str(), " requires validation ");
                        message.append(validation_id.as_str());
                        message.append(" for a different artifact");
                        return Err(configuration_failure(
                        PipelinePlanningDiagnosticCode::InvalidFinalOutput,
                        message,
                        None,
                        member_field(member_field("outputs", i, ".required_validations").as_str(), x, "").as_str(),
                    ));
                    }
                },
                None => {
                    proof {
                        assert forall|n: int| 0 <= n < validations.len() implies (#[trigger] validations[n]).id@ != validation_id@ by {
                            assert(validation_ids(validations)[n] == validations[n].id@);
                        }
                    }
                    let mut message = join3("final output ", output.id.as_str(), " requires unknown validation ");
                    message.append(validation_id.as_str());
                    return Err(configuration_failure(
                        PipelinePlanningDiagnosticCode::InvalidFinalOutput,
                        message,
                        None,
                        member_field(member_field("outputs", i, ".required_validations").as_str(), x, "").as_str(),
                    ));
                },
            }
            x = x + 1;
        }
        assert(outputs@[i as int] == *output);
        assert(final_output_valid(outputs@[i as int], inputs, stages));
        i = i + 1;
    }
    Ok(())
}

proof fn lemma_valid_prefix(inputs: Seq<AuthoredPipelineInput>, stages: Seq<AuthoredPipelineStage>, k: int)
    requires
        0 <= k <= stages.len(),
        distinct(all_artifact_ids(inputs, stages)),
        paths_disjoint(produced(stages)),
        distinct(validation_ids(produced_validations(stages))),
    ensures
        distinct(known_ids(inputs, produced(stages.take(k)))),
        paths_disjoint(produced(stages.take(k))),
        distinct(validation_ids(produced_validations(stages.take(k)))),
{
    lemma_produced_prefix(stages, k);
    lemma_validations_prefix(stages, k);
    let p = produced(stages.take(k));
    let s = produced(stages);
    assert forall|i: int| 0 <= i < p.len() implies #[trigger] p[i] == s[i] by {
        assert(s.take(p.len() as int)[i] == s[i]);
    }
    let kp = known_ids(inputs, p);
    let ks = all_artifact_ids(inputs, stages);
    assert forall|i: int, j: int| 0 <= i < j < kp.len() implies #[trigger] kp[i] != #[trigger] kp[j] by {
        assert(kp[i] == ks[i]);
        assert(kp[j] == ks[j]);
    }
    assert forall|i: int, j: int| 0 <= i < j < p.len() implies !paths_overlap_spec(
        (#[trigger] p[i]).0.relative_path@,
        (#[trigger] p[j]).0.relative_path@,
    ) by {
        assert(p[i] == s[i] && p[j] == s[j]);
    }
    let vp = produced_validations(stages.take(k));
    let vs = produced_validations(stages);
    assert forall|i: int| 0 <= i < vp.len() implies #[trigger] vp[i] == vs[i] by {
        assert(vs.take(vp.len() as int)[i] == vs[i]);
    }
    let ip = validation_ids(vp);
    let is = validation_ids(vs);
    assert forall|i: int, j: int| 0 <= i < j < ip.len() implies #[trigger] ip[i] != #[trigger] ip[j] by {
        assert(ip[i] == is[i]);
        assert(ip[j] == is[j]);
    }
}

/// The checks made before any stage: schema, name, non-empty lists,
/// declared inputs, and stage ids.
pub open spec fn preamble_valid(c: PipelineV3Configuration) -> bool {
    &&& c.schema@ == PIPELINE_V3_SCHEMA@
    &&& is_printable_text(c.name@)
    &&& c.inputs@.len() > 0
    &&& c.stages@.len() > 0
    &&& c.outputs@.len() > 0
    &&& inputs_valid(c.inputs@)
    &&& stage_ids_valid(c.stages@)
}

/// Every check of the first `k` stages passes: each stage's own rules, and
/// the ids, paths, and validation ids they declare so far.
pub open spec fn stages_pass(inputs: Seq<AuthoredPipelineInput>, stages: Seq<AuthoredPipelineStage>, k: int) -> bool {
    &&& forall|j: int| 0 <= j < k ==> #[trigger] stage_valid(inputs, stages, j)
    &&& distinct(known_ids(inputs, produced(stages.take(k))))
    &&& paths_disjoint(produced(stages.take(k)))
    &&& distinct(validation_ids(produced_validations(stages.take(k))))
}

/// When the checks of the first `k` stages pass, a stage whose first refused
/// dependency decides the refusal is stage `k` itself, or a later stage,
/// and then stage `k` passes every check.
proof fn lemma_refused_stage_order(inputs: Seq<AuthoredPipelineInput>, stages: Seq<AuthoredPipelineStage>, k: int)
    requires
        0 <= k < stages.len(),
        stages_pass(inputs, stages, k),
    ensures
        forall|k0: int, n0: int|
            0 <= k0 < stages.len() && stages_pass(inputs, stages, k0) && #[trigger] first_refused_dependency(
                stages,
                k0,
                n0,
            ) ==> k0 == k || (k0 > k && stage_valid(inputs, stages, k) && distinct(
                known_ids(inputs, produced(stages.take(k + 1))),
            ) && paths_disjoint(produced(stages.take(k + 1))) && distinct(
                validation_ids(produced_validations(stages.take(k + 1))),
            )),
{
    assert forall|k0: int, n0: int|
        0 <= k0 < stages.len() && stages_pass(inputs, stages, k0) && #[trigger] first_refused_dependency(
            stages,
            k0,
            n0,
        ) implies k0 == k || (k0 > k && stage_valid(inputs, stages, k) && distinct(
            known_ids(inputs, produced(stages.take(k + 1))),
        ) && paths_disjoint(produced(stages.take(k + 1))) && distinct(
            validation_ids(produced_validations(stages.take(k + 1))),
        )) by {
        if k0 < k {
            assert(stage_valid(inputs, stages, k0));
            lemma_no_refused_dependency(stages, k0, n0);
        } else if k0 > k {
            let t = stages.take(k0);
            assert(t.take(k + 1) =~= stages.take(k + 1));
            assert(all_artifact_ids(inputs, t) == known_ids(inputs, produced(t)));
            lemma_valid_prefix(inputs, t, k + 1);
        }
    }
}

proof fn lemma_no_refused_dependency(stages: Seq<AuthoredPipelineStage>, k: int, n: int)
    requires
        dependencies_valid(stages, k),
    ensures
        !first_refused_dependency(stages, k, n),
{
    let deps = stages[k].depends_on@;
    if 0 <= n < deps.len() && exists|m: int| 0 <= m < n && #[trigger] deps[m]@ == deps[n]@ {
        let m = choose|m: int| 0 <= m < n && #[trigger] deps[m]@ == deps[n]@;
        assert(deps[m]@ != deps[n]@);
    }
}

/// What validating a configuration answers: success exactly when it is
/// valid; otherwise one diagnostic, whose code, stage, and field name the
/// first rule refused among the document-level rules and the dependency
/// rule.
pub open spec fn validation_outcome(c: PipelineV3Configuration, r: Result<(), PipelinePlanningFailure>) -> bool {
    let schema_ok = c.schema@ == PIPELINE_V3_SCHEMA@;
    let name_ok = is_printable_text(c.name@);
    &&& (r is Ok <==> c.spec_valid())
    &&& (r matches Err(f) ==> one_refusal(f))
    &&& (!schema_ok ==> (r matches Err(f) && single_failure(
        f,
        ErrorCategory::Configuration,
        PipelinePlanningDiagnosticCode::InvalidSchema,
        "unsupported pipeline schema; expected "@ + PIPELINE_V3_SCHEMA@,
        None,
        Some("schema"@),
    )))
    &&& (schema_ok && !name_ok ==> (r matches Err(f) && single_failure(
        f,
        ErrorCategory::Configuration,
        PipelinePlanningDiagnosticCode::InvalidConfiguration,
        "pipeline name must be non-empty and printable"@,
        None,
        Some("name"@),
    )))
    &&& (schema_ok && name_ok && c.inputs@.len() == 0 ==> (r matches Err(f) && single_failure(
        f,
        ErrorCategory::Configuration,
        PipelinePlanningDiagnosticCode::InvalidConfiguration,
        "Pipeline v3 must declare at least one input"@,
        None,
        Some("inputs"@),
    )))
    &&& (schema_ok && name_ok && c.inputs@.len() > 0 && c.stages@.len() == 0 ==> (r matches Err(f) && single_failure(
        f,
        ErrorCategory::Configuration,
        PipelinePlanningDiagnosticCode::InvalidConfiguration,
        "Pipeline v3 must declare at least one stage"@,
        None,
        Some("stages"@),
    )))
    &&& (schema_ok && name_ok && c.inputs@.len() > 0 && c.stages@.len() > 0 && c.outputs@.len() == 0 ==> (
    r matches Err(f) && single_failure(
        f,
        ErrorCategory::Configuration,
        PipelinePlanningDiagnosticCode::InvalidFinalOutput,
        "Pipeline v3 must declare at least one final output"@,
        None,
        Some("outputs"@),
    )))
    &&& (forall|k: int, n: int|
        preamble_valid(c) && 0 <= k < c.stages@.len() && stages_pass(c.inputs@, c.stages@, k)
            && #[trigger] first_refused_dependency(c.stages@, k, n) ==> (r matches Err(f) && single_failure(
            f,
            ErrorCategory::Configuration,
            dependency_refusal_code(c.stages@, k, n),
            dependency_refusal_message(c.stages@, k, n),
            Some(c.stages@[k].id@),
            Some(dependency_field(k, n)),
        )))
}

/// A result with its success value set aside.
pub open spec fn outcome_only<T>(r: Result<T, PipelinePlanningFailure>) -> Result<(), PipelinePlanningFailure> {
    match r {
        Ok(_) => Ok(()),
        Err(f) => Err(f),
    }
}

impl PipelineV3Configuration {
    /// Validate the graph, artifact, path, selection, and final-output rules
    /// that need no provider registry.
    pub fn validate(&self) -> (r: Result<(), PipelinePlanningFailure>)
        ensures
            validation_outcome(*self, r),
    {
        let ghost inputs = self.inputs@;
        let ghost stages = self.stages@;
        if !text_eq(self.schema.as_str(), PIPELINE_V3_SCHEMA) {
            return Err(configuration_failure(
                PipelinePlanningDiagnosticCode::InvalidSchema,
                join2("unsupported pipeline schema; expected ", PIPELINE_V3_SCHEMA),
                None,
                "schema",
            ));
        }
        if !crate::text::text_is_printable(self.name.as_str()) {
            return Err(configuration_failure(
                PipelinePlanningDiagnosticCode::InvalidConfiguration,
                owned("pipeline name must be non-empty and printable"),
                None,
                "name",
            ));
        }
        if self.inputs.len() == 0 {
            return Err(configuration_failure(
                PipelinePlanningDiagnosticCode::InvalidConfiguration,
                owned("Pipeline v3 must declare at least one input"),
                None,
                "inputs",
            ));
        }
        if self.stages.len() == 0 {
            return Err(configuration_failure(
                PipelinePlanningDiagnosticCode::InvalidConfiguration,
                owned("Pipeline v3 must declare at least one stage"),
                None,
                "stages",
            ));
        }
        if self.outputs.len() == 0 {
            return Err(configuration_failure(
                PipelinePlanningDiagnosticCode::InvalidFinalOutput,
                owned("Pipeline v3 must declare at least one final output"),
                None,
                "outputs",
            ));
        }
        validate_inputs(&self.inputs)?;
        validate_stage_ids(&self.stages)?;
        let mut ledger = ArtifactLedger { ids: Vec::new(), paths: Vec::new(), stages: Vec::new() };
        let mut n: usize = 0;
        while n < self.inputs.len()
            invariant
                n <= self.inputs.len(),
                inputs == self.inputs@,
                crate::order::texts(ledger.ids@) == input_ids(inputs.take(n as int)),
                ledger.paths@.len() == 0,
                ledger.stages@.len() == 0,
            decreases self.inputs.len() - n,
        {
            let ghost before = ledger.ids@;
            ledger.ids.push(self.inputs[n].id.clone());
            assert(ledger.ids@ =~= before.push(self.inputs@[n as int].id));
            assert(crate::order::texts(ledger.ids@) =~= crate::order::texts(before).push(inputs[n as int].id@));
            assert(input_ids(inputs.take(n + 1)) =~= input_ids(inputs.take(n as int)).push(inputs[n as int].id@));
            n = n + 1;
        }
        proof {
            assert(inputs.take(inputs.len() as int) =~= inputs);
            assert(stages.take(0) =~= Seq::<AuthoredPipelineStage>::empty());
            assert(produced(stages.take(0)) =~= Seq::<(ExpectedArtifact, int)>::empty());
            assert(known_ids(inputs, produced(stages.take(0))) =~= input_ids(inputs));
            assert(crate::order::texts(ledger.paths@) =~= entry_paths(produced(stages.take(0))));
            assert(ledger.stages@.map_values(|s: usize| s as int) =~= entry_stages(produced(stages.take(0))));
            assert(produced_validations(stages.take(0)) =~= Seq::<ArtifactValidation>::empty());
        }
        let mut validations = ValidationLedger { ids: Vec::new(), artifacts: Vec::new() };
        proof {
            assert(crate::order::texts(validations.ids@) =~= validation_ids(produced_validations(stages.take(0))));
            assert(crate::order::texts(validations.artifacts@) =~= validation_artifacts(produced_validations(stages.take(0))));
        }
        let input_count = self.inputs.len();
        let mut ancestors: Vec<Vec<String>> = Vec::new();
        let mut k: usize = 0;
        while k < self.stages.len()
            invariant
                k <= self.stages.len(),
                inputs == self.inputs@,
                stages == self.stages@,
                preamble_valid(*self),
                input_count == inputs.len(),
                inputs_valid(inputs),
                stage_ids_valid(stages),
                ledger.records(inputs, produced(stages.take(k as int))),
                distinct(known_ids(inputs, produced(stages.take(k as int)))),
                paths_disjoint(produced(stages.take(k as int))),
                validations.records(produced_validations(stages.take(k as int))),
                distinct(validation_ids(produced_validations(stages.take(k as int)))),
                ancestors@.len() == k,
                forall|j: int| 0 <= j < k ==> represents(#[trigger] ancestors@[j]@, ancestors_of(stages, j)),
                forall|j: int| 0 <= j < k ==> #[trigger] stage_valid(inputs, stages, j),
            decreases self.stages.len() - k,
        {
            let stage = &self.stages[k];
            let sid = stage.id.as_str();
            proof {
                assert(stages_pass(inputs, stages, k as int));
                lemma_refused_stage_order(inputs, stages, k as int);
                if self.spec_valid() {
                    assert(stage_valid(inputs, stages, k as int));
                    lemma_valid_prefix(inputs, stages, k + 1);
                }
            }
            let stage_ancestors = stage_dependencies(&self.stages, k, &ancestors)?;
            proof {
                assert forall|n0: int| !#[trigger] first_refused_dependency(stages, k as int, n0) by {
                    lemma_no_refused_dependency(stages, k as int, n0);
                }
            }
            validate_capability_requirement(&stage.capability, sid, k)?;
            validate_provider_selection(&stage.provider, sid, k)?;
            check_input_bindings(&self.stages, k, &ledger, input_count, &stage_ancestors, Ghost(inputs))?;
            check_output_ports(stage, k)?;
            record_stage_artifacts(&self.stages, k, &mut ledger, Ghost(inputs))?;
            check_stage_validations(&self.stages, k, &mut validations)?;
            assert(stage_valid(inputs, stages, k as int));
            ancestors.push(stage_ancestors);
            k = k + 1;
        }
        proof {
            assert(stages.take(stages.len() as int) =~= stages);
            assert forall|k0: int, n0: int| 0 <= k0 < stages.len() implies !#[trigger] first_refused_dependency(
                stages,
                k0,
                n0,
            ) by {
                assert(stage_valid(inputs, stages, k0));
                lemma_no_refused_dependency(stages, k0, n0);
            }
        }
        check_final_outputs(&self.outputs, &ledger.ids, &validations, Ghost(inputs), Ghost(stages))?;
        Ok(())
    }
}

impl PipelineV3Configuration {
    /// The digest of the configuration's semantic intent: every member but
    /// the human description, canonically encoded. Refused unless the
    /// configuration is valid.
    pub fn configuration_sha256(&self) -> (r: Result<String, PipelinePlanningFailure>)
        ensures
            r is Ok <==> self.spec_valid(),
            r matches Ok(d) ==> d@ == canonical_digest(pipeline_v3_configuration_json(*self)) && is_sha256_hex(d@),
            validation_outcome(*self, outcome_only(r)),
    {
        self.validate()?;
        let value = pipeline_v3_configuration_value(self);
        proof {
            lemma_pipeline_v3_configuration_encodable(*self);
        }
        Ok(encodable_sha256(&value))
    }
}

// ---------------------------------------------------------------------------
// Recognising the document version
// ---------------------------------------------------------------------------

/// The diagnosis of a document's root before it is read as Pipeline v3:
/// `version` is `None` without a `version` key, else the key's value as an
/// unsigned integer when it is one; `schema` is the `schema` value when it
/// is a string. `None` means the document declares Pipeline v3.
pub open spec fn version_diagnosis(
    root_is_mapping: bool,
    version: Option<Option<u64>>,
    schema: Option<Seq<char>>,
    has_renderflow: bool,
) -> Option<PipelinePlanningDiagnosticCode> {
    if !root_is_mapping {
        Some(PipelinePlanningDiagnosticCode::InvalidConfiguration)
    } else if version is Some {
        if version == Some(Some(2u64)) {
            Some(PipelinePlanningDiagnosticCode::LegacyPipelineV2)
        } else {
            Some(PipelinePlanningDiagnosticCode::UnsupportedVersion)
        }
    } else {
        match schema {
            Some(s) => if s == PIPELINE_V3_SCHEMA@ {
                if has_renderflow {
                    Some(PipelinePlanningDiagnosticCode::RenderflowRemoved)
                } else {
                    None
                }
            } else if s == "aniflow.pipeline/v2"@ {
                Some(PipelinePlanningDiagnosticCode::LegacyPipelineV2)
            } else {
                Some(PipelinePlanningDiagnosticCode::InvalidSchema)
            },
            None => Some(PipelinePlanningDiagnosticCode::InvalidSchema),
        }
    }
}

/// The field a version diagnosis names: the root, the legacy `version`
/// key, the removed `renderflow` key, or the `schema` key.
pub open spec fn version_field(
    root_is_mapping: bool,
    version: Option<Option<u64>>,
    schema: Option<Seq<char>>,
    has_renderflow: bool,
) -> Seq<char> {
    if !root_is_mapping {
        "root"@
    } else if version is Some {
        "version"@
    } else if schema == Some(PIPELINE_V3_SCHEMA@) && has_renderflow {
        "renderflow"@
    } else {
        "schema"@
    }
}

pub open spec fn schema_text(schema: Option<&str>) -> Option<Seq<char>> {
    match schema {
        Some(t) => Some(t@),
        None => None,
    }
}

/// Tell a Pipeline v3 document from a legacy or foreign one by its root
/// mapping, before its fields are read.
pub fn diagnose_pipeline_version(
    root_is_mapping: bool,
    version: Option<Option<u64>>,
    schema: Option<&str>,
    has_renderflow: bool,
) -> (r: Result<(), PipelinePlanningFailure>)
    ensures
        r is Ok <==> version_diagnosis(root_is_mapping, version, schema_text(schema), has_renderflow) is None,
        r matches Err(f) ==> f.category == ErrorCategory::Configuration && f.diagnostics@.len() == 1 && Some(
            f.diagnostics@[0].code,
        ) == version_diagnosis(root_is_mapping, version, schema_text(schema), has_renderflow) && refusal_at(
            f,
            f.diagnostics@[0].code,
            None,
            version_field(root_is_mapping, version, schema_text(schema), has_renderflow),
        ),
{
    proof {
        reveal_strlit("aniflow.pipeline/v2");
    }
    let legacy = "this is a Pipeline v2 document; keep using the v2 plan/run surface or migrate to schema aniflow.pipeline/v3";
    if !root_is_mapping {
        return Err(configuration_failure(
            PipelinePlanningDiagnosticCode::InvalidConfiguration,
            owned("Pipeline v3 YAML root must be a mapping"),
            None,
            "root",
        ));
    }
    match version {
        Some(value) => {
            let is_two = match value {
                Some(n) => n == 2,
                None => false,
            };
            if is_two {
                return Err(configuration_failure(
                    PipelinePlanningDiagnosticCode::LegacyPipelineV2,
                    owned(legacy),
                    None,
                    "version",
                ));
            }
            return Err(configuration_failure(
                PipelinePlanningDiagnosticCode::UnsupportedVersion,
                owned("Pipeline v3 uses `schema: aniflow.pipeline/v3`; remove the legacy version field"),
                None,
                "version",
            ));
        },
        None => {},
    }
    match schema {
        Some(s) => {
            if text_eq(s, PIPELINE_V3_SCHEMA) {
                if has_renderflow {
                    Err(configuration_failure(
                        PipelinePlanningDiagnosticCode::RenderflowRemoved,
                        owned("renderflow was removed from Pipeline v3; compose cross-holon work in flow instead"),
                        None,
                        "renderflow",
                    ))
                } else {
                    Ok(())
                }
            } else if text_eq(s, "aniflow.pipeline/v2") {
                Err(configuration_failure(PipelinePlanningDiagnosticCode::LegacyPipelineV2, owned(legacy), None, "schema"))
            } else {
                Err(configuration_failure(
                    PipelinePlanningDiagnosticCode::InvalidSchema,
                    join2("unsupported pipeline schema; expected ", PIPELINE_V3_SCHEMA),
                    None,
                    "schema",
                ))
            }
        },
        None => Err(configuration_failure(
            PipelinePlanningDiagnosticCode::InvalidSchema,
            join3("Pipeline v3 requires `schema: ", PIPELINE_V3_SCHEMA, "`"),
            None,
            "schema",
        )),
    }
}

} // verus!
