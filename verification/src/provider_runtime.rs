//! Deterministic provider resolution and the evidence contracts of bounded
//! provider execution: locks, events, and execution reports.
use vstd::prelude::*;

use crate::error::{Error, ErrorCategory};
use crate::provider::{
    CapabilityDeclaration, CapabilityReference, ComponentIdentity, ConfigurationSchemaReference,
    ProviderReference, SideEffect, component_identities_valid, is_capability_id, is_provider_id,
    provider_reference_valid, capability_reference_valid, schema_reference_valid, distinct_effects,
    side_effect_rank, side_effect_rank_exec, require_nonempty, require_schema, require_sha256,
    require_token, validate_capability_id, validate_capability_reference,
    validate_component_identities, validate_configuration_schema, validate_provider_reference,
    validate_semantic_version, contains_effect, effects_distinct,
};
use crate::text::{
    chars_of, is_blank, is_sha256_hex, is_token, join2, join3, owned, text_eq, text_is_blank,
    text_is_token, contains_text, replace_all, text_contains, replace_text, is_control,
};
use crate::versioning::{semver_parses, semver_requirement_parses, parses_as_requirement};
use crate::json::{encodable_sha256, canonical_digest, value_encodable};
use crate::canonical::provider_lock_payload_json;
use crate::canonical::{provider_lock_payload_value, lemma_provider_lock_payload_encodable};

verus! {

broadcast use vstd::seq_lib::group_seq_properties;

pub const PROVIDER_LOCK_SCHEMA_V1: &'static str = "aniflow.provider-lock/v1";
pub const PROVIDER_EVENT_SCHEMA_V1: &'static str = "aniflow.provider-event/v1";
pub const PROVIDER_EXECUTION_REPORT_SCHEMA_V1: &'static str = "aniflow.provider-execution-report/v1";

/// Exact component identities observed for a registered implementation.
#[derive(Debug, Clone)]
pub struct ComponentInventory {
    pub tools: Vec<ComponentIdentity>,
    pub codecs: Vec<ComponentIdentity>,
    pub models: Vec<ComponentIdentity>,
}

impl Default for ComponentInventory {
    fn default() -> (inventory: Self)
        ensures
            inventory.tools@.len() == 0,
            inventory.codecs@.len() == 0,
            inventory.models@.len() == 0,
    {
        ComponentInventory { tools: Vec::new(), codecs: Vec::new(), models: Vec::new() }
    }
}

/// One identity per id, each with a semantic version, ascending by id then
/// version.
pub open spec fn runtime_components_valid(components: Seq<ComponentIdentity>) -> bool {
    &&& component_identities_valid(components)
    &&& forall|i: int| 0 <= i < components.len() ==> semver_parses((#[trigger] components[i]).version@)
    &&& forall|i: int, j: int|
        0 <= i < j < components.len() ==> (#[trigger] components[i]).id@ != (#[trigger] components[j]).id@
}

pub fn validate_runtime_components(components: &Vec<ComponentIdentity>, kind: &str) -> (r: Result<(), Error>)
    ensures
        r is Ok <==> runtime_components_valid(components@),
        r matches Err(e) ==> e.spec_category() == ErrorCategory::Configuration,
{
    validate_component_identities(components, kind)?;
    let mut i: usize = 0;
    while i < components.len()
        invariant
            i <= components.len(),
            forall|k: int| 0 <= k < i ==> semver_parses((#[trigger] components@[k]).version@),
            forall|k: int, l: int|
                0 <= k < l < i ==> (#[trigger] components@[k]).id@ != (#[trigger] components@[l]).id@,
        decreases components.len() - i,
    {
        validate_semantic_version(components[i].version.as_str(), kind)?;
        let mut j: usize = 0;
        while j < i
            invariant
                j <= i < components.len(),
                forall|k: int| 0 <= k < j ==> (#[trigger] components@[k]).id@ != components@[i as int].id@,
            decreases i - j,
        {
            if text_eq(components[j].id.as_str(), components[i].id.as_str()) {
                return Err(crate::error::invalid(join3(
                    "runtime ",
                    kind,
                    " inventory must contain one exact identity per id",
                )));
            }
            j = j + 1;
        }
        i = i + 1;
    }
    Ok(())
}

impl ComponentInventory {
    pub open spec fn spec_valid(&self) -> bool {
        runtime_components_valid(self.tools@) && runtime_components_valid(self.codecs@)
            && runtime_components_valid(self.models@)
    }

    pub fn validate(&self) -> (r: Result<(), Error>)
        ensures
            r is Ok <==> self.spec_valid(),
            r matches Err(e) ==> e.spec_category() == ErrorCategory::Configuration,
    {
        validate_runtime_components(&self.tools, "tool")?;
        validate_runtime_components(&self.codecs, "codec")?;
        validate_runtime_components(&self.models, "model")
    }
}

/// Caller-observed local capacity used for deterministic availability checks.
#[derive(Debug, Clone, Copy, PartialEq, Eq, Structural)]
pub struct HostResources {
    pub cpu_threads: u16,
    pub memory_mib: u64,
    pub storage_mib: u64,
    pub gpu_available: bool,
    pub network_available: bool,
}

impl HostResources {
    pub fn validate(&self) -> (r: Result<(), Error>)
        ensures
            r is Ok <==> self.cpu_threads != 0,
            r matches Err(e) ==> e.spec_category() == ErrorCategory::Configuration,
    {
        if self.cpu_threads == 0 {
            return Err(crate::error::invalid(owned("host cpu_threads must be at least 1")));
        }
        Ok(())
    }
}

/// Registry lookup key used by a primary, replacement, or fallback slot.
#[derive(Debug, Clone)]
pub struct ProviderCandidate {
    pub registration_id: String,
}

impl ProviderCandidate {
    pub fn duplicate(&self) -> (r: Self)
        ensures
            r == *self,
    {
        ProviderCandidate { registration_id: self.registration_id.clone() }
    }
}

/// Deterministic origin of the selected provider.
#[derive(Debug, Clone, Copy, PartialEq, Eq, Structural)]
pub enum ProviderSelectionSource {
    Replacement,
    Primary,
    Fallback,
}

/// Exact precedence slot considered during resolution.
#[derive(Debug, Clone, Copy, PartialEq, Eq, Structural)]
pub struct ProviderSelection {
    pub source: ProviderSelectionSource,
    pub fallback_index: Option<u32>,
}

impl ProviderSelection {
    pub open spec fn spec_valid(&self) -> bool {
        (self.source == ProviderSelectionSource::Fallback) == (self.fallback_index is Some)
    }

    pub fn replacement() -> (s: Self)
        ensures
            s == (ProviderSelection { source: ProviderSelectionSource::Replacement, fallback_index: None }),
            s.spec_valid(),
    {
        ProviderSelection { source: ProviderSelectionSource::Replacement, fallback_index: None }
    }

    pub fn primary() -> (s: Self)
        ensures
            s == (ProviderSelection { source: ProviderSelectionSource::Primary, fallback_index: None }),
            s.spec_valid(),
    {
        ProviderSelection { source: ProviderSelectionSource::Primary, fallback_index: None }
    }

    /// The selection of the fallback at `index`; indices beyond `u32` are refused.
    pub fn fallback(index: usize) -> (r: Result<Self, Error>)
        ensures
            r is Ok <==> index <= u32::MAX,
            r matches Ok(s) ==> s == (ProviderSelection {
                source: ProviderSelectionSource::Fallback,
                fallback_index: Some(index as u32),
            }) && s.spec_valid(),
    {
        if index > (u32::MAX as usize) {
            return Err(crate::error::invalid(owned("fallback candidate count exceeds the v1 contract limit")));
        }
        Ok(ProviderSelection { source: ProviderSelectionSource::Fallback, fallback_index: Some(index as u32) })
    }

    pub fn validate(&self) -> (r: Result<(), Error>)
        ensures
            r is Ok <==> self.spec_valid(),
            r matches Err(e) ==> e.spec_category() == ErrorCategory::Configuration,
    {
        let fallback = self.source == ProviderSelectionSource::Fallback;
        let indexed = match self.fallback_index {
            Some(_) => true,
            None => false,
        };
        if fallback == indexed {
            Ok(())
        } else {
            Err(crate::error::invalid(owned("fallback_index must be present only for a fallback selection")))
        }
    }
}

/// Complete standalone resolution policy for one capability invocation.
#[derive(Debug)]
pub struct ProviderResolutionRequest {
    pub capability_id: String,
    pub capability_version_requirement: String,
    pub replacement: Option<ProviderCandidate>,
    pub primary: ProviderCandidate,
    pub fallbacks: Vec<ProviderCandidate>,
    pub allowed_side_effects: Vec<SideEffect>,
    pub offline: bool,
    pub host: HostResources,
}

/// Candidates in precedence order: replacement, primary, fallbacks.
pub open spec fn candidate_order(
    replacement: Option<ProviderCandidate>,
    primary: ProviderCandidate,
    fallbacks: Seq<ProviderCandidate>,
) -> Seq<ProviderCandidate> {
    (match replacement {
        Some(c) => seq![c],
        None => Seq::<ProviderCandidate>::empty(),
    }) + seq![primary] + fallbacks
}

/// The selection slot of each candidate in precedence order.
pub open spec fn selection_order(has_replacement: bool, fallbacks: nat) -> Seq<ProviderSelection> {
    (if has_replacement {
        seq![ProviderSelection { source: ProviderSelectionSource::Replacement, fallback_index: None }]
    } else {
        Seq::<ProviderSelection>::empty()
    }) + seq![ProviderSelection { source: ProviderSelectionSource::Primary, fallback_index: None }]
        + Seq::new(
        fallbacks,
        |i: int| ProviderSelection { source: ProviderSelectionSource::Fallback, fallback_index: Some(i as u32) },
    )
}

pub open spec fn registration_ids(candidates: Seq<ProviderCandidate>) -> Seq<Seq<char>> {
    candidates.map_values(|c: ProviderCandidate| c.registration_id@)
}

impl ProviderResolutionRequest {
    pub open spec fn ordered_candidates(&self) -> Seq<ProviderCandidate> {
        candidate_order(self.replacement, self.primary, self.fallbacks@)
    }

    pub open spec fn ordered_selections(&self) -> Seq<ProviderSelection> {
        selection_order(self.replacement is Some, self.fallbacks@.len())
    }

    pub open spec fn spec_valid(&self) -> bool {
        let ids = registration_ids(self.ordered_candidates());
        &&& is_capability_id(self.capability_id@)
        &&& semver_requirement_parses(self.capability_version_requirement@)
        &&& self.host.cpu_threads != 0
        &&& forall|i: int| 0 <= i < ids.len() ==> is_token(#[trigger] ids[i])
        &&& forall|i: int, j: int| 0 <= i < j < ids.len() ==> #[trigger] ids[i] != #[trigger] ids[j]
        &&& distinct_effects(self.allowed_side_effects@)
    }

    /// Number of precedence slots: the replacement, if any, the primary, and
    /// each fallback.
    pub fn candidate_count(&self) -> (n: usize)
        requires
            self.fallbacks@.len() + 2 <= usize::MAX,
        ensures
            n == self.ordered_candidates().len(),
    {
        let head: usize = if self.replacement.is_some() { 2 } else { 1 };
        head + self.fallbacks.len()
    }

    /// The candidate in precedence slot `i`.
    pub fn candidate_at(&self, i: usize) -> (c: &ProviderCandidate)
        requires
            i < self.ordered_candidates().len(),
        ensures
            *c == self.ordered_candidates()[i as int],
    {
        match &self.replacement {
            Some(r) => {
                if i == 0 {
                    r
                } else if i == 1 {
                    &self.primary
                } else {
                    &self.fallbacks[i - 2]
                }
            },
            None => {
                if i == 0 {
                    &self.primary
                } else {
                    &self.fallbacks[i - 1]
                }
            },
        }
    }

    /// Check the capability, version requirement, host, candidates, and
    /// allowed side effects.
    pub fn validate(&self) -> (r: Result<(), Error>)
        requires
            self.fallbacks@.len() + 2 <= usize::MAX,
        ensures
            r is Ok <==> self.spec_valid(),
            r matches Err(e) ==> e.spec_category() == ErrorCategory::Configuration,
    {
        validate_capability_id(self.capability_id.as_str())?;
        if !parses_as_requirement(self.capability_version_requirement.as_str()) {
            return Err(crate::error::invalid(join2(
                "invalid capability version requirement ",
                self.capability_version_requirement.as_str(),
            )));
        }
        self.host.validate()?;
        let count = self.candidate_count();
        let ghost ids = registration_ids(self.ordered_candidates());
        let mut i: usize = 0;
        while i < count
            invariant
                i <= count,
                count == self.ordered_candidates().len(),
                ids == registration_ids(self.ordered_candidates()),
                forall|k: int| 0 <= k < i ==> is_token(#[trigger] ids[k]),
                forall|k: int, l: int| 0 <= k < l < i ==> #[trigger] ids[k] != #[trigger] ids[l],
            decreases count - i,
        {
            let ci = self.candidate_at(i);
            assert(ids[i as int] == ci.registration_id@);
            require_token(ci.registration_id.as_str(), "candidate registration_id")?;
            let mut j: usize = 0;
            while j < i
                invariant
                    j <= i < count,
                    count == self.ordered_candidates().len(),
                    ids == registration_ids(self.ordered_candidates()),
                    *ci == self.ordered_candidates()[i as int],
                    forall|k: int| 0 <= k < j ==> #[trigger] ids[k] != ids[i as int],
                decreases i - j,
            {
                let cj = self.candidate_at(j);
                assert(ids[j as int] == cj.registration_id@);
                assert(ids[i as int] == ci.registration_id@);
                if text_eq(cj.registration_id.as_str(), ci.registration_id.as_str()) {
                    return Err(crate::error::invalid(join3(
                        "candidate registration ",
                        ci.registration_id.as_str(),
                        " appears more than once",
                    )));
                }
                j = j + 1;
            }
            i = i + 1;
        }
        if !effects_distinct(&self.allowed_side_effects) {
            return Err(crate::error::invalid(owned("allowed_side_effects contains a duplicate")));
        }
        Ok(())
    }
}

/// Stable machine reason for an unavailable candidate.
#[derive(Debug, Clone, Copy, PartialEq, Eq, Structural)]
pub enum AvailabilityCode {
    NotRegistered,
    CapabilityMismatch,
    VersionMismatch,
    ExecutableUnavailable,
    ExecutableNotRegularFile,
    ExecutableNotRunnable,
    ComponentMissing,
    ComponentVersionMismatch,
    ComponentDigestMismatch,
    InsufficientCpu,
    InsufficientMemory,
    InsufficientStorage,
    GpuUnavailable,
    NetworkUnavailable,
    OfflineIncompatible,
    SideEffectDenied,
}

/// Actionable, non-secret detail for one availability rejection.
#[derive(Debug, Clone)]
pub struct AvailabilityReason {
    pub code: AvailabilityCode,
    pub detail: String,
}

/// Evidence for one precedence slot, including successful selection.
#[derive(Debug, Clone)]
pub struct ProviderResolutionAttempt {
    pub candidate: ProviderCandidate,
    pub selection: ProviderSelection,
    pub available: bool,
    pub reasons: Vec<AvailabilityReason>,
}

/// Typed resolution failure with every attempted candidate retained in order.
#[derive(Debug)]
pub struct ProviderResolutionFailure {
    pub message: String,
    pub attempts: Vec<ProviderResolutionAttempt>,
}

/// Exact executable implementation identity retained in a provider lock.
#[derive(Debug, Clone)]
pub struct ProviderImplementationIdentity {
    pub id: String,
    pub executable_sha256: String,
}

/// Canonical material covered by `lock_sha256`.
#[derive(Debug, Clone)]
pub struct ProviderLockPayload {
    pub registration_id: String,
    pub provider: ProviderReference,
    pub capability: CapabilityReference,
    pub configuration_schema: ConfigurationSchemaReference,
    pub effective_configuration_sha256: String,
    pub manifest_sha256: String,
    pub implementation: ProviderImplementationIdentity,
    pub tools: Vec<ComponentIdentity>,
    pub codecs: Vec<ComponentIdentity>,
    pub models: Vec<ComponentIdentity>,
    pub authorized_side_effects: Vec<SideEffect>,
    pub selection: ProviderSelection,
    pub offline: bool,
}

/// Self-validating local authority and compatibility record.
#[derive(Debug, Clone)]
pub struct ProviderLock {
    pub schema: String,
    pub algorithm: String,
    pub lock_sha256: String,
    pub payload: ProviderLockPayload,
}

/// Strictly ascending by declaration order, hence unique.
pub open spec fn effects_ascending(effects: Seq<SideEffect>) -> bool {
    forall|i: int, j: int| 0 <= i < j < effects.len() ==> side_effect_rank(#[trigger] effects[i]) < side_effect_rank(#[trigger] effects[j])
}

impl ProviderLockPayload {
    pub open spec fn spec_valid(&self) -> bool {
        &&& is_token(self.registration_id@)
        &&& provider_reference_valid(self.provider)
        &&& capability_reference_valid(self.capability)
        &&& schema_reference_valid(self.configuration_schema)
        &&& is_sha256_hex(self.effective_configuration_sha256@)
        &&& is_sha256_hex(self.manifest_sha256@)
        &&& is_token(self.implementation.id@)
        &&& is_sha256_hex(self.implementation.executable_sha256@)
        &&& runtime_components_valid(self.tools@)
        &&& runtime_components_valid(self.codecs@)
        &&& runtime_components_valid(self.models@)
        &&& effects_ascending(self.authorized_side_effects@)
        &&& !(self.offline && self.authorized_side_effects@.contains(SideEffect::Network))
        &&& self.selection.spec_valid()
    }

    pub fn validate(&self) -> (r: Result<(), Error>)
        ensures
            r is Ok <==> self.spec_valid(),
            r matches Err(e) ==> e.spec_category() == ErrorCategory::Configuration,
    {
        require_token(self.registration_id.as_str(), "registration_id")?;
        validate_provider_reference(&self.provider)?;
        validate_capability_reference(&self.capability)?;
        validate_configuration_schema(&self.configuration_schema)?;
        require_sha256(self.effective_configuration_sha256.as_str(), "effective_configuration_sha256")?;
        require_sha256(self.manifest_sha256.as_str(), "manifest_sha256")?;
        require_token(self.implementation.id.as_str(), "implementation id")?;
        require_sha256(self.implementation.executable_sha256.as_str(), "implementation executable_sha256")?;
        validate_runtime_components(&self.tools, "tool")?;
        validate_runtime_components(&self.codecs, "codec")?;
        validate_runtime_components(&self.models, "model")?;
        if !effects_strictly_ascending(&self.authorized_side_effects) {
            return Err(crate::error::invalid(owned("authorized_side_effects must be unique and sorted")));
        }
        if self.offline && contains_effect(&self.authorized_side_effects, SideEffect::Network) {
            return Err(crate::error::invalid(owned(
                "an offline provider lock cannot authorize the network side effect",
            )));
        }
        self.selection.validate()
    }
}

/// Whether each side effect ranks strictly below the next.
pub fn effects_strictly_ascending(effects: &Vec<SideEffect>) -> (r: bool)
    ensures
        r == effects_ascending(effects@),
{
    let mut i: usize = 1;
    if effects.len() == 0 {
        return true;
    }
    while i < effects.len()
        invariant
            1 <= i <= effects.len(),
            forall|a: int, b: int| 0 <= a < b < i ==> side_effect_rank(#[trigger] effects@[a]) < side_effect_rank(#[trigger] effects@[b]),
        decreases effects.len() - i,
    {
        if side_effect_rank_exec(effects[i - 1]) >= side_effect_rank_exec(effects[i]) {
            return false;
        }
        assert forall|a: int, b: int| 0 <= a < b < i + 1 implies side_effect_rank(#[trigger] effects@[a]) < side_effect_rank(#[trigger] effects@[b]) by {
            if b == i && a < i - 1 {
                assert(side_effect_rank(effects@[a]) < side_effect_rank(effects@[i - 1]));
            }
        }
        i = i + 1;
    }
    true
}

/// The side effect at position `rank` of the declaration order.
fn effect_with_rank(rank: u8) -> (e: SideEffect)
    requires
        rank < 8,
    ensures
        side_effect_rank(e) == rank,
{
    match rank {
        0 => SideEffect::FilesystemRead,
        1 => SideEffect::FilesystemWrite,
        2 => SideEffect::EnvironmentRead,
        3 => SideEffect::Subprocess,
        4 => SideEffect::Network,
        5 => SideEffect::Ai,
        6 => SideEffect::Gpu,
        _ => SideEffect::Publish,
    }
}

/// The side effects of `effects`, each once, in declaration order.
pub fn sorted_effects(effects: &Vec<SideEffect>) -> (r: Vec<SideEffect>)
    ensures
        effects_ascending(r@),
        forall|e: SideEffect| #[trigger] r@.contains(e) <==> effects@.contains(e),
{
    let mut r: Vec<SideEffect> = Vec::new();
    let mut rank: u8 = 0;
    while rank < 8
        invariant
            rank <= 8,
            effects_ascending(r@),
            forall|j: int| 0 <= j < r@.len() ==> side_effect_rank(#[trigger] r@[j]) < rank,
            forall|e: SideEffect| #[trigger] r@.contains(e) <==> (effects@.contains(e) && side_effect_rank(e) < rank),
        decreases 8 - rank,
    {
        let e = effect_with_rank(rank);
        let ghost old_r = r@;
        if contains_effect(effects, e) {
            r.push(e);
            assert forall|x: SideEffect| #[trigger] r@.contains(x) <==> (effects@.contains(x) && side_effect_rank(x) < rank + 1) by {
                if x != e {
                    lemma_rank_injective(x, e);
                }
                if r@.contains(x) && x != e {
                    let a = choose|a: int| 0 <= a < r@.len() && r@[a] == x;
                    assert(old_r[a] == x);
                    assert(old_r.contains(x));
                }
                if old_r.contains(x) {
                    let a = choose|a: int| 0 <= a < old_r.len() && old_r[a] == x;
                    assert(r@[a] == x);
                }
                if x == e {
                    assert(r@[old_r.len() as int] == x);
                }
            }
        } else {
            assert forall|x: SideEffect| #[trigger] r@.contains(x) <==> (effects@.contains(x) && side_effect_rank(x) < rank + 1) by {
                if x != e {
                    lemma_rank_injective(x, e);
                }
            }
        }
        rank = rank + 1;
    }
    assert forall|e: SideEffect| #[trigger] r@.contains(e) <==> effects@.contains(e) by {
        assert(0 <= side_effect_rank(e) < 8);
    }
    r
}

proof fn lemma_rank_injective(a: SideEffect, b: SideEffect)
    requires
        a != b,
    ensures
        side_effect_rank(a) != side_effect_rank(b),
{
}

impl ProviderLock {
    /// Schema, algorithm, a valid payload, and a digest equal to the
    /// canonical digest of that payload.
    pub open spec fn spec_valid(&self) -> bool {
        &&& self.schema@ == PROVIDER_LOCK_SCHEMA_V1@
        &&& self.algorithm@ == "sha256"@
        &&& is_sha256_hex(self.lock_sha256@)
        &&& self.payload.spec_valid()
        &&& self.lock_sha256@ == canonical_digest(provider_lock_payload_json(self.payload))
    }

    /// A lock over a validated payload, carrying the payload's canonical
    /// digest.
    pub fn new(payload: ProviderLockPayload) -> (r: Result<Self, Error>)
        ensures
            r is Ok <==> payload.spec_valid(),
            r matches Ok(lock) ==> lock.spec_valid() && lock.payload == payload,
            r matches Err(e) ==> e.spec_category() == ErrorCategory::Configuration,
    {
        payload.validate()?;
        proof {
            lemma_provider_lock_payload_encodable(payload);
        }
        let digest = encodable_sha256(&provider_lock_payload_value(&payload));
        proof {
            reveal_strlit("sha256");
        }
        Ok(ProviderLock {
            schema: owned(PROVIDER_LOCK_SCHEMA_V1),
            algorithm: owned("sha256"),
            lock_sha256: digest,
            payload,
        })
    }

    /// Check the schema, algorithm, payload, and that the digest matches the
    /// canonical payload.
    pub fn validate(&self) -> (r: Result<(), Error>)
        ensures
            r is Ok <==> self.spec_valid(),
            r matches Err(e) ==> e.spec_category() == ErrorCategory::Configuration,
    {
        require_schema(self.schema.as_str(), PROVIDER_LOCK_SCHEMA_V1)?;
        if !text_eq(self.algorithm.as_str(), "sha256") {
            return Err(crate::error::invalid(join3(
                "unsupported provider lock algorithm ",
                self.algorithm.as_str(),
                "; expected sha256",
            )));
        }
        require_sha256(self.lock_sha256.as_str(), "lock_sha256")?;
        self.payload.validate()?;
        proof {
            lemma_provider_lock_payload_encodable(self.payload);
        }
        let expected = encodable_sha256(&provider_lock_payload_value(&self.payload));
        if !text_eq(expected.as_str(), self.lock_sha256.as_str()) {
            return Err(crate::error::invalid(join2(
                "provider lock does not match its canonical payload; expected ",
                expected.as_str(),
            )));
        }
        Ok(())
    }
}

} // verus!
