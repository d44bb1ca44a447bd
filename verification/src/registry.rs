//! Explicit provider registrations and the deterministic resolution of a
//! capability request to exactly one registered implementation.
//!
//! Registering never launches anything. Resolution reads only what the
//! registry holds and what the caller observed of each candidate's
//! executable, and records the evidence of every precedence slot it tried.
use vstd::prelude::*;

use crate::error::{Error, ErrorCategory};
use crate::pipeline::is_absolute_path;
use crate::provider::{
    CapabilityDeclaration, ComponentIdentity, ComponentRequirement, ProviderConfiguration, component_requirements_valid,
    ProviderManifest, RequirementLevel, SideEffect, schema_key, same_schema, CapabilityReference,
    ConfigurationSchemaReference, ProviderReference, manifest_sha256,
};
use crate::order::text_less;
use crate::provider_runtime::{
    AvailabilityCode, AvailabilityReason, ComponentInventory, ProviderImplementationIdentity, ProviderLock,
    ProviderLockPayload, ProviderResolutionAttempt, ProviderResolutionFailure, ProviderResolutionRequest,
    ProviderSelection, ProviderSelectionSource, effects_ascending, runtime_components_valid, sorted_effects,
};
use crate::canonical::provider_manifest_json;
use crate::json::canonical_digest;
use crate::versioning::{semver_matches, semver_parses, semver_requirement_parses};
use crate::text::{chars_of, decimal, decimal_string, is_token, join2, join3, owned, text_eq};

verus! {

broadcast use vstd::seq_lib::group_seq_properties;

/// Index `i` names a capability of `manifest` with the configuration's
/// capability id and version.
pub open spec fn declares_capability(
    manifest: ProviderManifest,
    configuration: ProviderConfiguration,
    i: int,
) -> bool {
    &&& 0 <= i < manifest.capabilities@.len()
    &&& manifest.capabilities@[i].id@ == configuration.capability.id@
    &&& manifest.capabilities@[i].version@ == configuration.capability.version@
}

/// Everything a registration must satisfy before it can be resolved.
pub open spec fn registration_valid(
    registration_id: Seq<char>,
    manifest: ProviderManifest,
    configuration: ProviderConfiguration,
    executable: Seq<char>,
    implementation_id: Seq<char>,
    components: ComponentInventory,
) -> bool {
    &&& is_token(registration_id)
    &&& is_token(implementation_id)
    &&& manifest.spec_valid()
    &&& configuration.spec_valid()
    &&& components.spec_valid()
    &&& is_absolute_path(executable)
    &&& configuration.provider.id@ == manifest.provider.id@
    &&& configuration.provider.version@ == manifest.provider.version@
    &&& exists|i: int|
        #[trigger] declares_capability(manifest, configuration, i) && schema_key(
            manifest.capabilities@[i].configuration_schema,
        ) == schema_key(configuration.configuration_schema)
    &&& exists|j: int|
        0 <= j < manifest.configuration_schemas@.len() && schema_key(
            #[trigger] manifest.configuration_schemas@[j],
        ) == schema_key(configuration.configuration_schema)
}

/// One explicit local implementation. Registering never launches it.
#[derive(Debug)]
pub struct ProviderRegistration {
    registration_id: String,
    manifest: ProviderManifest,
    configuration: ProviderConfiguration,
    executable: String,
    implementation_id: String,
    components: ComponentInventory,
    capability_index: usize,
}

impl ProviderRegistration {
    #[verifier::type_invariant]
    closed spec fn registration_invariant(self) -> bool {
        &&& registration_valid(
            self.registration_id@,
            self.manifest,
            self.configuration,
            self.executable@,
            self.implementation_id@,
            self.components,
        )
        &&& declares_capability(self.manifest, self.configuration, self.capability_index as int)
        &&& schema_key(self.manifest.capabilities@[self.capability_index as int].configuration_schema)
            == schema_key(self.configuration.configuration_schema)
    }

    pub closed spec fn spec_registration_id(&self) -> Seq<char> {
        self.registration_id@
    }

    pub closed spec fn spec_manifest(&self) -> ProviderManifest {
        self.manifest
    }

    pub closed spec fn spec_configuration(&self) -> ProviderConfiguration {
        self.configuration
    }

    pub closed spec fn spec_executable(&self) -> Seq<char> {
        self.executable@
    }

    pub closed spec fn spec_implementation_id(&self) -> Seq<char> {
        self.implementation_id@
    }

    pub closed spec fn spec_components(&self) -> ComponentInventory {
        self.components
    }

    /// The manifest capability that the configuration selects.
    pub closed spec fn spec_capability(&self) -> CapabilityDeclaration {
        self.manifest.capabilities@[self.capability_index as int]
    }

    /// What every registration satisfies.
    pub open spec fn spec_valid(&self) -> bool {
        &&& registration_valid(
            self.spec_registration_id(),
            self.spec_manifest(),
            self.spec_configuration(),
            self.spec_executable(),
            self.spec_implementation_id(),
            self.spec_components(),
        )
        &&& exists|i: int|
            #[trigger] declares_capability(self.spec_manifest(), self.spec_configuration(), i)
                && self.spec_capability() == self.spec_manifest().capabilities@[i]
        &&& schema_key(self.spec_capability().configuration_schema) == schema_key(
            self.spec_configuration().configuration_schema,
        )
    }

    /// The registration invariant, for a registration held by the caller.
    pub fn check_valid(&self)
        ensures
            self.spec_valid(),
    {
        proof {
            use_type_invariant(self);
            assert(declares_capability(self.manifest, self.configuration, self.capability_index as int));
        }
    }

    /// Register an implementation of the capability that `configuration`
    /// selects from `manifest`, after validating every part.
    pub fn new(
        registration_id: String,
        manifest: ProviderManifest,
        configuration: ProviderConfiguration,
        executable: String,
        implementation_id: String,
        components: ComponentInventory,
    ) -> (r: Result<Self, Error>)
        ensures
            r is Ok <==> registration_valid(
                registration_id@,
                manifest,
                configuration,
                executable@,
                implementation_id@,
                components,
            ),
            r matches Ok(g) ==> g.spec_registration_id() == registration_id@ && g.spec_manifest() == manifest
                && g.spec_configuration() == configuration && g.spec_executable() == executable@
                && g.spec_implementation_id() == implementation_id@ && g.spec_components() == components
                && g.spec_valid(),
            r matches Err(e) ==> e.spec_category() == ErrorCategory::Configuration,
    {
        crate::provider::require_token(registration_id.as_str(), "registration_id")?;
        crate::provider::require_token(implementation_id.as_str(), "implementation_id")?;
        manifest.validate()?;
        configuration.validate()?;
        components.validate()?;
        let path = chars_of(executable.as_str());
        if !(path.len() > 0 && path[0] == '/') {
            return Err(crate::error::invalid(owned("registered provider executable must be an absolute path")));
        }
        if !text_eq(configuration.provider.id.as_str(), manifest.provider.id.as_str()) || !text_eq(
            configuration.provider.version.as_str(),
            manifest.provider.version.as_str(),
        ) {
            return Err(crate::error::invalid(owned("provider configuration identity does not match its manifest")));
        }
        let capabilities = &manifest.capabilities;
        let mut index: usize = 0;
        while index < capabilities.len()
            invariant
                index <= capabilities.len(),
                capabilities@ == manifest.capabilities@,
                forall|k: int| 0 <= k < index ==> !#[trigger] declares_capability(manifest, configuration, k),
            ensures
                index <= capabilities.len(),
                forall|k: int| 0 <= k < index ==> !#[trigger] declares_capability(manifest, configuration, k),
                index < capabilities.len() ==> declares_capability(manifest, configuration, index as int),
            decreases capabilities.len() - index,
        {
            if text_eq(capabilities[index].id.as_str(), configuration.capability.id.as_str()) && text_eq(
                capabilities[index].version.as_str(),
                configuration.capability.version.as_str(),
            ) {
                break;
            }
            index = index + 1;
        }
        if index == capabilities.len() {
            return Err(crate::error::invalid(owned(
                "provider configuration capability is not declared by its manifest",
            )));
        }
        assert(declares_capability(manifest, configuration, index as int));
        if !same_schema(&capabilities[index].configuration_schema, &configuration.configuration_schema) {
            proof {
                assert forall|i: int| #[trigger] declares_capability(manifest, configuration, i) implies i
                    == index by {
                    if i != index {
                        if i < index {
                        } else {
                            assert(capabilities@[index as int].id@ != capabilities@[i].id@);
                        }
                    }
                }
            }
            return Err(crate::error::invalid(owned(
                "provider configuration schema does not match its capability declaration",
            )));
        }
        let schemas = &manifest.configuration_schemas;
        let mut j: usize = 0;
        while j < schemas.len()
            invariant
                j <= schemas.len(),
                schemas@ == manifest.configuration_schemas@,
                forall|k: int|
                    0 <= k < j ==> schema_key(#[trigger] schemas@[k]) != schema_key(
                        configuration.configuration_schema,
                    ),
            ensures
                j <= schemas.len(),
                forall|k: int|
                    0 <= k < j ==> schema_key(#[trigger] schemas@[k]) != schema_key(
                        configuration.configuration_schema,
                    ),
                j < schemas.len() ==> schema_key(schemas@[j as int]) == schema_key(configuration.configuration_schema),
            decreases schemas.len() - j,
        {
            if same_schema(&schemas[j], &configuration.configuration_schema) {
                break;
            }
            j = j + 1;
        }
        if j == schemas.len() {
            return Err(crate::error::invalid(owned(
                "provider configuration schema is not declared by its manifest",
            )));
        }
        let registration = ProviderRegistration {
            registration_id,
            manifest,
            configuration,
            executable,
            implementation_id,
            components,
            capability_index: index,
        };
        Ok(registration)
    }

    pub fn registration_id(&self) -> (r: &str)
        ensures
            r@ == self.spec_registration_id(),
    {
        self.registration_id.as_str()
    }

    pub fn manifest(&self) -> (r: &ProviderManifest)
        ensures
            *r == self.spec_manifest(),
    {
        &self.manifest
    }

    pub fn configuration(&self) -> (r: &ProviderConfiguration)
        ensures
            *r == self.spec_configuration(),
    {
        &self.configuration
    }

    /// The absolute path of the registered executable.
    pub fn executable(&self) -> (r: &str)
        ensures
            r@ == self.spec_executable(),
    {
        self.executable.as_str()
    }

    pub fn implementation_id(&self) -> (r: &str)
        ensures
            r@ == self.spec_implementation_id(),
    {
        self.implementation_id.as_str()
    }

    pub fn components(&self) -> (r: &ComponentInventory)
        ensures
            *r == self.spec_components(),
    {
        &self.components
    }

    /// The registered capability declaration.
    pub fn capability(&self) -> (r: &CapabilityDeclaration)
        ensures
            *r == self.spec_capability(),
    {
        proof {
            use_type_invariant(self);
        }
        &self.manifest.capabilities[self.capability_index]
    }
}

/// No two registrations share an id.
pub open spec fn unique_registration_ids(regs: Seq<ProviderRegistration>) -> bool {
    forall|i: int, j: int|
        0 <= i < j < regs.len() ==> (#[trigger] regs[i]).spec_registration_id() != (#[trigger] regs[j]).spec_registration_id()
}

/// The registration with this id, if any.
pub open spec fn find_registration(regs: Seq<ProviderRegistration>, id: Seq<char>) -> Option<ProviderRegistration> {
    if exists|i: int| 0 <= i < regs.len() && (#[trigger] regs[i]).spec_registration_id() == id {
        Some(regs[choose|i: int| 0 <= i < regs.len() && (#[trigger] regs[i]).spec_registration_id() == id])
    } else {
        None
    }
}

proof fn lemma_find_registration(regs: Seq<ProviderRegistration>, id: Seq<char>, i: int)
    requires
        unique_registration_ids(regs),
        0 <= i < regs.len(),
        regs[i].spec_registration_id() == id,
    ensures
        find_registration(regs, id) == Some(regs[i]),
{
    let c = choose|k: int| 0 <= k < regs.len() && (#[trigger] regs[k]).spec_registration_id() == id;
    if c != i {
        if c < i {
            assert(regs[c].spec_registration_id() != regs[i].spec_registration_id());
        } else {
            assert(regs[i].spec_registration_id() != regs[c].spec_registration_id());
        }
    }
}

proof fn lemma_find_no_registration(regs: Seq<ProviderRegistration>, id: Seq<char>)
    requires
        forall|k: int| 0 <= k < regs.len() ==> (#[trigger] regs[k]).spec_registration_id() != id,
    ensures
        find_registration(regs, id) is None,
{
}

/// Explicit registry. It performs no filesystem search or manifest execution.
#[derive(Debug)]
pub struct ProviderRegistry {
    registrations: Vec<ProviderRegistration>,
}

impl ProviderRegistry {
    #[verifier::type_invariant]
    closed spec fn registry_invariant(self) -> bool {
        unique_registration_ids(self.registrations@)
    }

    /// The registrations in the order they were registered.
    pub closed spec fn spec_registrations(&self) -> Seq<ProviderRegistration> {
        self.registrations@
    }

    /// The registration registered under `id`, if any.
    pub open spec fn lookup(&self, id: Seq<char>) -> Option<ProviderRegistration> {
        find_registration(self.spec_registrations(), id)
    }

    /// An empty registry.
    pub fn new() -> (r: Self)
        ensures
            forall|id: Seq<char>| #[trigger] r.lookup(id) is None,
    {
        ProviderRegistry { registrations: Vec::new() }
    }

    /// Add a registration under its id; an id that is already registered is
    /// refused and the registry is left unchanged.
    pub fn register(&mut self, registration: ProviderRegistration) -> (r: Result<(), Error>)
        ensures
            r is Err <==> old(self).lookup(registration.spec_registration_id()) is Some,
            r is Ok ==> final(self).lookup(registration.spec_registration_id()) == Some(registration),
            r is Ok ==> forall|id: Seq<char>|
                id != registration.spec_registration_id() ==> #[trigger] final(self).lookup(id) == old(
                    self,
                ).lookup(id),
            r is Err ==> final(self).spec_registrations() == old(self).spec_registrations(),
            r matches Err(e) ==> e.spec_category() == ErrorCategory::Configuration,
    {
        proof {
            use_type_invariant(&*self);
        }
        let mut i: usize = 0;
        while i < self.registrations.len()
            invariant
                i <= self.registrations.len(),
                forall|k: int|
                    0 <= k < i ==> (#[trigger] self.registrations@[k]).spec_registration_id()
                        != registration.spec_registration_id(),
            decreases self.registrations.len() - i,
        {
            if text_eq(self.registrations[i].registration_id.as_str(), registration.registration_id.as_str()) {
                let e = crate::error::invalid(join3(
                    "provider registration ",
                    registration.registration_id.as_str(),
                    " already exists",
                ));
                assert(self.spec_registrations()[i as int].spec_registration_id() == registration.spec_registration_id());
                return Err(e);
            }
            i = i + 1;
        }
        let ghost old_regs = self.registrations@;
        let ghost id = registration.spec_registration_id();
        let mut regs_vec: Vec<ProviderRegistration> = Vec::new();
        std::mem::swap(&mut regs_vec, &mut self.registrations);
        assert(regs_vec@ == old_regs);
        regs_vec.push(registration);
        proof {
            let regs = regs_vec@;
            assert forall|a: int, b: int| 0 <= a < b < regs.len() implies (#[trigger] regs[a]).spec_registration_id()
                != (#[trigger] regs[b]).spec_registration_id() by {
                if b < old_regs.len() {
                    assert(regs[a] == old_regs[a] && regs[b] == old_regs[b]);
                } else {
                    assert(regs[a] == old_regs[a]);
                }
            }
        }
        self.registrations = regs_vec;
        proof {
            let regs = self.registrations@;
            assert(unique_registration_ids(regs));
            assert(regs[old_regs.len() as int].spec_registration_id() == id);
            lemma_find_registration(regs, id, old_regs.len() as int);
            assert forall|o: Seq<char>| o != id implies #[trigger] self.lookup(o) == old(self).lookup(o) by {
                if exists|k: int| 0 <= k < old_regs.len() && (#[trigger] old_regs[k]).spec_registration_id() == o {
                    let k = choose|k: int| 0 <= k < old_regs.len() && (#[trigger] old_regs[k]).spec_registration_id() == o;
                    assert(regs[k] == old_regs[k]);
                    lemma_find_registration(regs, o, k);
                    lemma_find_registration(old_regs, o, k);
                } else {
                    assert forall|k: int| 0 <= k < regs.len() implies (#[trigger] regs[k]).spec_registration_id() != o by {
                        if k < old_regs.len() {
                            assert(regs[k] == old_regs[k]);
                        }
                    }
                    lemma_find_no_registration(regs, o);
                }
            }
        }
        Ok(())
    }

    /// The registration registered under `id`, if any.
    pub fn registration(&self, id: &str) -> (r: Option<&ProviderRegistration>)
        ensures
            match r {
                Some(g) => self.lookup(id@) == Some(*g),
                None => self.lookup(id@) is None,
            },
    {
        let mut i: usize = 0;
        while i < self.registrations.len()
            invariant
                i <= self.registrations.len(),
                forall|k: int| 0 <= k < i ==> (#[trigger] self.registrations@[k]).spec_registration_id() != id@,
            decreases self.registrations.len() - i,
        {
            if text_eq(self.registrations[i].registration_id.as_str(), id) {
                proof {
                    use_type_invariant(self);
                    lemma_find_registration(self.registrations@, id@, i as int);
                }
                return Some(&self.registrations[i]);
            }
            i = i + 1;
        }
        None
    }
}

// ---------------------------------------------------------------------------
// Availability assessment
// ---------------------------------------------------------------------------

/// What the caller observed of a registered executable: its SHA-256 digest,
/// or why it has none.
#[derive(Debug)]
pub enum ExecutableObservation {
    /// Its metadata could not be read.
    Unavailable,
    /// It is not a regular file.
    NotRegularFile,
    /// It has no execute permission.
    NotRunnable,
    /// It could not be read for its identity.
    Unreadable,
    /// The lowercase hexadecimal SHA-256 digest of its bytes.
    Identified(String),
}

/// A reason as its code and detail text.
pub open spec fn reason_view(reason: AvailabilityReason) -> (AvailabilityCode, Seq<char>) {
    (reason.code, reason.detail@)
}

pub open spec fn reasons_view(reasons: Seq<AvailabilityReason>) -> Seq<(AvailabilityCode, Seq<char>)> {
    reasons.map_values(|r: AvailabilityReason| reason_view(r))
}

/// The identity of an observed executable, or the reason it has none.
pub open spec fn executable_outcome(observation: ExecutableObservation) -> Result<
    Seq<char>,
    (AvailabilityCode, Seq<char>),
> {
    match observation {
        ExecutableObservation::Unavailable => Err(
            (AvailabilityCode::ExecutableUnavailable, "registered executable is unavailable"@),
        ),
        ExecutableObservation::NotRegularFile => Err(
            (AvailabilityCode::ExecutableNotRegularFile, "registered executable is not a regular file"@),
        ),
        ExecutableObservation::NotRunnable => Err(
            (AvailabilityCode::ExecutableNotRunnable, "registered executable has no execute permission"@),
        ),
        ExecutableObservation::Unreadable => Err(
            (AvailabilityCode::ExecutableUnavailable, "registered executable could not be read for identity"@),
        ),
        ExecutableObservation::Identified(digest) => Ok(digest@),
    }
}

fn availability(code: AvailabilityCode, detail: String) -> (r: AvailabilityReason)
    ensures
        reason_view(r) == (code, detail@),
{
    AvailabilityReason { code, detail }
}

/// The executable identity of an observation, or its availability reason.
pub fn executable_identity(observation: &ExecutableObservation) -> (r: Result<String, AvailabilityReason>)
    ensures
        match r {
            Ok(d) => executable_outcome(*observation) == Ok::<Seq<char>, (AvailabilityCode, Seq<char>)>(d@),
            Err(reason) => executable_outcome(*observation) == Err::<Seq<char>, (AvailabilityCode, Seq<char>)>(
                reason_view(reason),
            ),
        },
{
    match observation {
        ExecutableObservation::Unavailable => Err(
            availability(AvailabilityCode::ExecutableUnavailable, owned("registered executable is unavailable")),
        ),
        ExecutableObservation::NotRegularFile => Err(
            availability(
                AvailabilityCode::ExecutableNotRegularFile,
                owned("registered executable is not a regular file"),
            ),
        ),
        ExecutableObservation::NotRunnable => Err(
            availability(
                AvailabilityCode::ExecutableNotRunnable,
                owned("registered executable has no execute permission"),
            ),
        ),
        ExecutableObservation::Unreadable => Err(
            availability(
                AvailabilityCode::ExecutableUnavailable,
                owned("registered executable could not be read for identity"),
            ),
        ),
        ExecutableObservation::Identified(digest) => Ok(digest.clone()),
    }
}

fn push_reason(reasons: &mut Vec<AvailabilityReason>, code: AvailabilityCode, detail: String)
    ensures
        reasons_view(final(reasons)@) == reasons_view(old(reasons)@).push((code, detail@)),
{
    let r = availability(code, detail);
    reasons.push(r);
    assert(reasons_view(final(reasons)@) =~= reasons_view(old(reasons)@).push((code, r.detail@)));
}

/// The first inventory component with this id.
pub open spec fn first_component(inventory: Seq<ComponentIdentity>, id: Seq<char>) -> Option<ComponentIdentity>
    decreases inventory.len(),
{
    if inventory.len() == 0 {
        None
    } else if inventory[0].id@ == id {
        Some(inventory[0])
    } else {
        first_component(inventory.drop_first(), id)
    }
}

/// Whether the component's version satisfies the requirement's range.
pub open spec fn component_version_satisfies(requirement: ComponentRequirement, component: ComponentIdentity) -> bool {
    semver_requirement_parses(requirement.version_requirement@) && semver_parses(component.version@)
        && semver_matches(requirement.version_requirement@, component.version@)
}

/// The component that satisfies one requirement, or the reason none does.
pub open spec fn requirement_outcome(
    requirement: ComponentRequirement,
    inventory: Seq<ComponentIdentity>,
    kind: Seq<char>,
) -> Result<ComponentIdentity, (AvailabilityCode, Seq<char>)> {
    match first_component(inventory, requirement.id@) {
        None => Err(
            (AvailabilityCode::ComponentMissing, "required "@ + kind + " "@ + requirement.id@ + " is unavailable"@),
        ),
        Some(c) => if !component_version_satisfies(requirement, c) {
            Err(
                (
                    AvailabilityCode::ComponentVersionMismatch,
                    kind + " "@ + c.id@ + " version "@ + c.version@ + " does not satisfy "@
                        + requirement.version_requirement@,
                ),
            )
        } else if (match requirement.sha256 {
            Some(d) => !(c.sha256 matches Some(e) && e@ == d@),
            None => false,
        }) {
            Err((AvailabilityCode::ComponentDigestMismatch, kind + " "@ + c.id@ + " digest does not match"@))
        } else {
            Ok(c)
        },
    }
}

/// The reasons, in requirement order, for the requirements that no
/// component satisfies.
pub open spec fn component_reasons(
    requirements: Seq<ComponentRequirement>,
    inventory: Seq<ComponentIdentity>,
    kind: Seq<char>,
) -> Seq<(AvailabilityCode, Seq<char>)>
    decreases requirements.len(),
{
    if requirements.len() == 0 {
        Seq::empty()
    } else {
        component_reasons(requirements.drop_last(), inventory, kind) + match requirement_outcome(
            requirements.last(),
            inventory,
            kind,
        ) {
            Ok(_) => Seq::empty(),
            Err(r) => seq![r],
        }
    }
}

/// The satisfying components, in requirement order.
pub open spec fn matched_components(
    requirements: Seq<ComponentRequirement>,
    inventory: Seq<ComponentIdentity>,
) -> Seq<ComponentIdentity>
    decreases requirements.len(),
{
    if requirements.len() == 0 {
        Seq::empty()
    } else {
        matched_components(requirements.drop_last(), inventory) + match requirement_outcome(
            requirements.last(),
            inventory,
            Seq::empty(),
        ) {
            Ok(c) => seq![c],
            Err(_) => Seq::empty(),
        }
    }
}

/// `sorted` holds exactly the components of `components`, strictly ascending
/// by id.
pub open spec fn sorted_by_id(sorted: Seq<ComponentIdentity>, components: Seq<ComponentIdentity>) -> bool {
    &&& forall|i: int, j: int| 0 <= i < j < sorted.len() ==> text_less((#[trigger] sorted[i]).id@, (#[trigger] sorted[j]).id@)
    &&& forall|c: ComponentIdentity| #[trigger] sorted.contains(c) <==> components.contains(c)
}

proof fn lemma_outcome_kind_free(
    requirement: ComponentRequirement,
    inventory: Seq<ComponentIdentity>,
    kind: Seq<char>,
)
    ensures
        requirement_outcome(requirement, inventory, kind) is Ok <==> requirement_outcome(requirement, inventory, Seq::empty()) is Ok,
        requirement_outcome(requirement, inventory, kind) matches Ok(c) ==> requirement_outcome(requirement, inventory, Seq::empty()) == Ok::<ComponentIdentity, (AvailabilityCode, Seq<char>)>(c),
{
}

fn duplicate_component(c: &ComponentIdentity) -> (r: ComponentIdentity)
    ensures
        r == *c,
{
    let sha256 = match &c.sha256 {
        Some(d) => Some(d.clone()),
        None => None,
    };
    ComponentIdentity { id: c.id.clone(), version: c.version.clone(), sha256 }
}

/// The first inventory component with this id.
fn find_component<'a>(inventory: &'a Vec<ComponentIdentity>, id: &str) -> (r: Option<&'a ComponentIdentity>)
    ensures
        match r {
            Some(c) => first_component(inventory@, id@) == Some(*c),
            None => first_component(inventory@, id@) is None,
        },
{
    let mut i: usize = 0;
    while i < inventory.len()
        invariant
            i <= inventory.len(),
            first_component(inventory@, id@) == first_component(inventory@.skip(i as int), id@),
        decreases inventory.len() - i,
    {
        assert(inventory@.skip(i as int)[0] == inventory@[i as int]);
        assert(inventory@.skip(i as int).drop_first() =~= inventory@.skip(i + 1));
        if text_eq(inventory[i].id.as_str(), id) {
            return Some(&inventory[i]);
        }
        i = i + 1;
    }
    None
}

/// Inserts a component whose id is new into a vector ascending by id.
fn insert_component_by_id(v: &mut Vec<ComponentIdentity>, x: ComponentIdentity)
    requires
        forall|i: int, j: int| 0 <= i < j < old(v)@.len() ==> text_less((#[trigger] old(v)@[i]).id@, (#[trigger] old(v)@[j]).id@),
        forall|i: int| 0 <= i < old(v)@.len() ==> (#[trigger] old(v)@[i]).id@ != x.id@,
    ensures
        forall|i: int, j: int| 0 <= i < j < final(v)@.len() ==> text_less((#[trigger] final(v)@[i]).id@, (#[trigger] final(v)@[j]).id@),
        forall|c: ComponentIdentity| #[trigger] final(v)@.contains(c) <==> (old(v)@.contains(c) || c == x),
{
    let ghost old_v = v@;
    let mut k: usize = 0;
    while k < v.len() && crate::order::text_lt(v[k].id.as_str(), x.id.as_str())
        invariant
            k <= v.len(),
            v@ == old_v,
            forall|i: int| 0 <= i < k ==> text_less((#[trigger] v@[i]).id@, x.id@),
        decreases v.len() - k,
    {
        k = k + 1;
    }
    if k < v.len() {
        proof {
            crate::order::lemma_text_less_trichotomy(v@[k as int].id@, x.id@);
        }
    }
    let ghost xv = x;
    v.insert(k, x);
    assert(v@ =~= old_v.insert(k as int, xv));
    assert forall|i: int, j: int| 0 <= i < j < v@.len() implies text_less((#[trigger] v@[i]).id@, (#[trigger] v@[j]).id@) by {
        let t = v@;
        if j < k {
            assert(t[i] == old_v[i] && t[j] == old_v[j]);
        } else if j == k {
            assert(t[i] == old_v[i]);
        } else if i == k {
            assert(t[j] == old_v[j - 1]);
            if j - 1 > k {
                crate::order::lemma_text_less_transitive(xv.id@, old_v[k as int].id@, old_v[j - 1].id@);
            }
        } else if i < k {
            assert(t[i] == old_v[i] && t[j] == old_v[j - 1]);
        } else {
            assert(t[i] == old_v[i - 1] && t[j] == old_v[j - 1]);
        }
    }
    assert forall|c: ComponentIdentity| #[trigger] v@.contains(c) <==> (old_v.contains(c) || c == xv) by {
        let t = v@;
        if c == xv {
            assert(t[k as int] == c);
        }
        if old_v.contains(c) {
            let i = choose|i: int| 0 <= i < old_v.len() && old_v[i] == c;
            if i < k {
                assert(t[i] == c);
            } else {
                assert(t[i + 1] == c);
            }
        }
        if t.contains(c) {
            let i = choose|i: int| 0 <= i < t.len() && t[i] == c;
            if i < k {
                assert(old_v[i] == c);
            } else if i > k {
                assert(old_v[i - 1] == c);
            }
        }
    }
}

proof fn lemma_first_component_id(inventory: Seq<ComponentIdentity>, id: Seq<char>)
    ensures
        first_component(inventory, id) matches Some(c) ==> c.id@ == id,
    decreases inventory.len(),
{
    if inventory.len() > 0 && inventory[0].id@ != id {
        lemma_first_component_id(inventory.drop_first(), id);
    }
}

/// Match each requirement against the inventory, appending a reason for
/// each unsatisfied one; the satisfying components come back ascending by id.
fn match_components(
    requirements: &Vec<ComponentRequirement>,
    inventory: &Vec<ComponentIdentity>,
    kind: &str,
    reasons: &mut Vec<AvailabilityReason>,
) -> (matched: Vec<ComponentIdentity>)
    requires
        component_requirements_valid(requirements@),
    ensures
        reasons_view(final(reasons)@) == reasons_view(old(reasons)@) + component_reasons(
            requirements@,
            inventory@,
            kind@,
        ),
        sorted_by_id(matched@, matched_components(requirements@, inventory@)),
{
    let ghost start = reasons_view(reasons@);
    let mut matched: Vec<ComponentIdentity> = Vec::new();
    let mut i: usize = 0;
    while i < requirements.len()
        invariant
            i <= requirements.len(),
            component_requirements_valid(requirements@),
            reasons_view(reasons@) == start + component_reasons(requirements@.take(i as int), inventory@, kind@),
            forall|a: int, b: int| 0 <= a < b < matched@.len() ==> text_less((#[trigger] matched@[a]).id@, (#[trigger] matched@[b]).id@),
            forall|c: ComponentIdentity| #[trigger] matched@.contains(c) <==> matched_components(requirements@.take(i as int), inventory@).contains(c),
            forall|j: int| 0 <= j < matched@.len() ==> exists|k: int| 0 <= k < i && (#[trigger] matched@[j]).id@ == (#[trigger] requirements@[k]).id@,
        decreases requirements.len() - i,
    {
        let requirement = &requirements[i];
        let ghost prefix = requirements@.take(i as int);
        let ghost next = requirements@.take(i + 1);
        assert(next.drop_last() =~= prefix);
        assert(next.last() == *requirement);
        let ghost outcome = requirement_outcome(*requirement, inventory@, kind@);
        proof {
            lemma_outcome_kind_free(*requirement, inventory@, kind@);
            lemma_first_component_id(inventory@, requirement.id@);
        }
        let found = find_component(inventory, requirement.id.as_str());
        match found {
            None => {
                push_reason(reasons, AvailabilityCode::ComponentMissing, {
                    let mut m = join3("required ", kind, " ");
                    m.append(requirement.id.as_str());
                    m.append(" is unavailable");
                    m
                });
                assert(reasons_view(reasons@) =~= start + component_reasons(next, inventory@, kind@));
                assert(matched_components(next, inventory@) =~= matched_components(prefix, inventory@));
            },
            Some(component) => {
                let version_matches = crate::versioning::parses_as_requirement(requirement.version_requirement.as_str())
                    && crate::versioning::parses_as_version(component.version.as_str())
                    && crate::versioning::requirement_matches(
                    requirement.version_requirement.as_str(),
                    component.version.as_str(),
                );
                if !version_matches {
                    push_reason(reasons, AvailabilityCode::ComponentVersionMismatch, {
                        let mut m = join3(kind, " ", component.id.as_str());
                        m.append(" version ");
                        m.append(component.version.as_str());
                        m.append(" does not satisfy ");
                        m.append(requirement.version_requirement.as_str());
                        m
                    });
                    assert(reasons_view(reasons@) =~= start + component_reasons(next, inventory@, kind@));
                    assert(matched_components(next, inventory@) =~= matched_components(prefix, inventory@));
                } else {
                    let digest_mismatch = match &requirement.sha256 {
                        Some(required) => match &component.sha256 {
                            Some(actual) => !text_eq(actual.as_str(), required.as_str()),
                            None => true,
                        },
                        None => false,
                    };
                    if digest_mismatch {
                        push_reason(reasons, AvailabilityCode::ComponentDigestMismatch, {
                            let mut m = join3(kind, " ", component.id.as_str());
                            m.append(" digest does not match");
                            m
                        });
                        assert(reasons_view(reasons@) =~= start + component_reasons(next, inventory@, kind@));
                        assert(matched_components(next, inventory@) =~= matched_components(prefix, inventory@));
                    } else {
                        let c = duplicate_component(component);
                        let ghost old_matched = matched@;
                        proof {
                            assert forall|j: int| 0 <= j < old_matched.len() implies (#[trigger] old_matched[j]).id@ != c.id@ by {
                                let k = choose|k: int| 0 <= k < i && (#[trigger] old_matched[j]).id@ == (#[trigger] requirements@[k]).id@;
                                assert(requirements@[k].id@ != requirements@[i as int].id@);
                            }
                        }
                        insert_component_by_id(&mut matched, c);
                        assert(reasons_view(reasons@) =~= start + component_reasons(next, inventory@, kind@));
                        assert(matched_components(next, inventory@) =~= matched_components(prefix, inventory@).push(c));
                        proof {
                            assert forall|j: int| 0 <= j < matched@.len() implies exists|k: int| 0 <= k < i + 1 && (#[trigger] matched@[j]).id@ == (#[trigger] requirements@[k]).id@ by {
                                let x = matched@[j];
                                assert(matched@.contains(x));
                                if x == c {
                                    assert(requirements@[i as int].id@ == x.id@);
                                } else {
                                    assert(old_matched.contains(x));
                                    let m = choose|m: int| 0 <= m < old_matched.len() && old_matched[m] == x;
                                    let k = choose|k: int| 0 <= k < i && (#[trigger] old_matched[m]).id@ == (#[trigger] requirements@[k]).id@;
                                    assert(requirements@[k].id@ == x.id@);
                                }
                            }
                        }
                    }
                }
            },
        }
        i = i + 1;
    }
    assert(requirements@.take(requirements.len() as int) =~= requirements@);
    matched
}

/// The reasons that the capability's identity or version does not fit the
/// request.
pub open spec fn capability_reasons(
    capability: CapabilityDeclaration,
    request: ProviderResolutionRequest,
) -> Seq<(AvailabilityCode, Seq<char>)> {
    (if capability.id@ != request.capability_id@ {
        seq![
            (
                AvailabilityCode::CapabilityMismatch,
                "registered capability "@ + capability.id@ + " does not match requested capability "@
                    + request.capability_id@,
            ),
        ]
    } else {
        Seq::empty()
    }) + (if !semver_parses(capability.version@) {
        seq![(AvailabilityCode::VersionMismatch, "registered capability version is invalid"@)]
    } else if !semver_matches(request.capability_version_requirement@, capability.version@) {
        seq![
            (
                AvailabilityCode::VersionMismatch,
                "capability version "@ + capability.version@ + " does not satisfy "@
                    + request.capability_version_requirement@,
            ),
        ]
    } else {
        Seq::empty()
    })
}

fn check_capability(
    capability: &CapabilityDeclaration,
    request: &ProviderResolutionRequest,
    reasons: &mut Vec<AvailabilityReason>,
)
    requires
        semver_requirement_parses(request.capability_version_requirement@),
    ensures
        reasons_view(final(reasons)@) == reasons_view(old(reasons)@) + capability_reasons(*capability, *request),
{
    let ghost start = reasons_view(reasons@);
    if !text_eq(capability.id.as_str(), request.capability_id.as_str()) {
        push_reason(reasons, AvailabilityCode::CapabilityMismatch, {
            let mut m = join3("registered capability ", capability.id.as_str(), " does not match requested capability ");
            m.append(request.capability_id.as_str());
            m
        });
    }
    let ghost middle = reasons_view(reasons@);
    if !crate::versioning::parses_as_version(capability.version.as_str()) {
        push_reason(reasons, AvailabilityCode::VersionMismatch, owned("registered capability version is invalid"));
    } else if !crate::versioning::requirement_matches(
        request.capability_version_requirement.as_str(),
        capability.version.as_str(),
    ) {
        push_reason(reasons, AvailabilityCode::VersionMismatch, {
            let mut m = join3("capability version ", capability.version.as_str(), " does not satisfy ");
            m.append(request.capability_version_requirement.as_str());
            m
        });
    }
    assert(reasons_view(reasons@) =~= start + capability_reasons(*capability, *request));
}

/// The reasons that the observed host cannot meet the capability's CPU,
/// memory, and storage minimums.
pub open spec fn capacity_reasons(
    capability: CapabilityDeclaration,
    request: ProviderResolutionRequest,
) -> Seq<(AvailabilityCode, Seq<char>)> {
    let compute = capability.requirements.compute;
    let host = request.host;
    (if host.cpu_threads < compute.minimum_cpu_threads {
        seq![
            (
                AvailabilityCode::InsufficientCpu,
                "provider requires "@ + decimal(compute.minimum_cpu_threads as nat)
                    + " CPU threads; host observation has "@ + decimal(host.cpu_threads as nat),
            ),
        ]
    } else {
        Seq::empty()
    }) + (if host.memory_mib < compute.minimum_memory_mib {
        seq![
            (
                AvailabilityCode::InsufficientMemory,
                "provider requires "@ + decimal(compute.minimum_memory_mib as nat)
                    + " MiB memory; host observation has "@ + decimal(host.memory_mib as nat) + " MiB"@,
            ),
        ]
    } else {
        Seq::empty()
    }) + (if host.storage_mib < compute.minimum_storage_mib {
        seq![
            (
                AvailabilityCode::InsufficientStorage,
                "provider requires "@ + decimal(compute.minimum_storage_mib as nat)
                    + " MiB storage; host observation has "@ + decimal(host.storage_mib as nat) + " MiB"@,
            ),
        ]
    } else {
        Seq::empty()
    })
}

/// The reasons that the observed host or the offline policy cannot serve the
/// capability's GPU and network requirements and declared network use.
pub open spec fn device_reasons(
    capability: CapabilityDeclaration,
    request: ProviderResolutionRequest,
) -> Seq<(AvailabilityCode, Seq<char>)> {
    let compute = capability.requirements.compute;
    let host = request.host;
    (if compute.gpu == RequirementLevel::Required && !host.gpu_available {
        seq![(AvailabilityCode::GpuUnavailable, "provider requires a GPU but the host observation has none"@)]
    } else {
        Seq::empty()
    }) + (if compute.network == RequirementLevel::Required && !host.network_available {
        seq![
            (
                AvailabilityCode::NetworkUnavailable,
                "provider requires network access but the host observation has none"@,
            ),
        ]
    } else {
        Seq::empty()
    }) + (if request.offline && (compute.network != RequirementLevel::Forbidden
        || capability.behavior.side_effects@.contains(SideEffect::Network)) {
        seq![
            (
                AvailabilityCode::OfflineIncompatible,
                "provider declares network use and cannot receive an offline lock"@,
            ),
        ]
    } else {
        Seq::empty()
    })
}

/// The reasons that the observed host or the offline policy cannot serve the
/// capability's compute requirements and declared network use.
pub open spec fn compute_reasons(
    capability: CapabilityDeclaration,
    request: ProviderResolutionRequest,
) -> Seq<(AvailabilityCode, Seq<char>)> {
    capacity_reasons(capability, request) + device_reasons(capability, request)
}

fn check_capacity(
    capability: &CapabilityDeclaration,
    request: &ProviderResolutionRequest,
    reasons: &mut Vec<AvailabilityReason>,
)
    ensures
        reasons_view(final(reasons)@) == reasons_view(old(reasons)@) + capacity_reasons(*capability, *request),
{
    let ghost start = reasons_view(reasons@);
    let compute = &capability.requirements.compute;
    let host = &request.host;
    if host.cpu_threads < compute.minimum_cpu_threads {
        push_reason(reasons, AvailabilityCode::InsufficientCpu, {
            let mut m = join2("provider requires ", decimal_string(compute.minimum_cpu_threads as u64).as_str());
            m.append(" CPU threads; host observation has ");
            m.append(decimal_string(host.cpu_threads as u64).as_str());
            m
        });
    }
    if host.memory_mib < compute.minimum_memory_mib {
        push_reason(reasons, AvailabilityCode::InsufficientMemory, {
            let mut m = join2("provider requires ", decimal_string(compute.minimum_memory_mib).as_str());
            m.append(" MiB memory; host observation has ");
            m.append(decimal_string(host.memory_mib).as_str());
            m.append(" MiB");
            m
        });
    }
    if host.storage_mib < compute.minimum_storage_mib {
        push_reason(reasons, AvailabilityCode::InsufficientStorage, {
            let mut m = join2("provider requires ", decimal_string(compute.minimum_storage_mib).as_str());
            m.append(" MiB storage; host observation has ");
            m.append(decimal_string(host.storage_mib).as_str());
            m.append(" MiB");
            m
        });
    }
    assert(reasons_view(reasons@) =~= start + capacity_reasons(*capability, *request));
}

fn check_devices(
    capability: &CapabilityDeclaration,
    request: &ProviderResolutionRequest,
    reasons: &mut Vec<AvailabilityReason>,
)
    ensures
        reasons_view(final(reasons)@) == reasons_view(old(reasons)@) + device_reasons(*capability, *request),
{
    let ghost start = reasons_view(reasons@);
    let compute = &capability.requirements.compute;
    let host = &request.host;
    if compute.gpu == RequirementLevel::Required && !host.gpu_available {
        push_reason(
            reasons,
            AvailabilityCode::GpuUnavailable,
            owned("provider requires a GPU but the host observation has none"),
        );
    }
    if compute.network == RequirementLevel::Required && !host.network_available {
        push_reason(
            reasons,
            AvailabilityCode::NetworkUnavailable,
            owned("provider requires network access but the host observation has none"),
        );
    }
    if request.offline && (compute.network != RequirementLevel::Forbidden || crate::provider::contains_effect(
        &capability.behavior.side_effects,
        SideEffect::Network,
    )) {
        push_reason(
            reasons,
            AvailabilityCode::OfflineIncompatible,
            owned("provider declares network use and cannot receive an offline lock"),
        );
    }
    assert(reasons_view(reasons@) =~= start + device_reasons(*capability, *request));
}

/// The name a side effect is written with in a human-readable reason.
pub open spec fn side_effect_debug_name(effect: SideEffect) -> Seq<char> {
    match effect {
        SideEffect::FilesystemRead => "FilesystemRead"@,
        SideEffect::FilesystemWrite => "FilesystemWrite"@,
        SideEffect::EnvironmentRead => "EnvironmentRead"@,
        SideEffect::Subprocess => "Subprocess"@,
        SideEffect::Network => "Network"@,
        SideEffect::Ai => "Ai"@,
        SideEffect::Gpu => "Gpu"@,
        SideEffect::Publish => "Publish"@,
    }
}

fn side_effect_debug_text(effect: SideEffect) -> (r: &'static str)
    ensures
        r@ == side_effect_debug_name(effect),
{
    proof {
        reveal_strlit("FilesystemRead");
        reveal_strlit("FilesystemWrite");
        reveal_strlit("EnvironmentRead");
        reveal_strlit("Subprocess");
        reveal_strlit("Network");
        reveal_strlit("Ai");
        reveal_strlit("Gpu");
        reveal_strlit("Publish");
    }
    match effect {
        SideEffect::FilesystemRead => "FilesystemRead",
        SideEffect::FilesystemWrite => "FilesystemWrite",
        SideEffect::EnvironmentRead => "EnvironmentRead",
        SideEffect::Subprocess => "Subprocess",
        SideEffect::Network => "Network",
        SideEffect::Ai => "Ai",
        SideEffect::Gpu => "Gpu",
        SideEffect::Publish => "Publish",
    }
}

/// One reason, in declaration order, for each declared side effect that the
/// request does not allow.
pub open spec fn effect_reasons(effects: Seq<SideEffect>, allowed: Seq<SideEffect>) -> Seq<(AvailabilityCode, Seq<char>)>
    decreases effects.len(),
{
    if effects.len() == 0 {
        Seq::empty()
    } else {
        effect_reasons(effects.drop_last(), allowed) + if allowed.contains(effects.last()) {
            Seq::empty()
        } else {
            seq![
                (
                    AvailabilityCode::SideEffectDenied,
                    "provider side effect "@ + side_effect_debug_name(effects.last()) + " is not authorized"@,
                ),
            ]
        }
    }
}

fn check_effects(effects: &Vec<SideEffect>, allowed: &Vec<SideEffect>, reasons: &mut Vec<AvailabilityReason>)
    ensures
        reasons_view(final(reasons)@) == reasons_view(old(reasons)@) + effect_reasons(effects@, allowed@),
{
    let ghost start = reasons_view(reasons@);
    let mut i: usize = 0;
    while i < effects.len()
        invariant
            i <= effects.len(),
            reasons_view(reasons@) == start + effect_reasons(effects@.take(i as int), allowed@),
        decreases effects.len() - i,
    {
        let ghost next = effects@.take(i + 1);
        assert(next.drop_last() =~= effects@.take(i as int));
        if !crate::provider::contains_effect(allowed, effects[i]) {
            push_reason(reasons, AvailabilityCode::SideEffectDenied, join3(
                "provider side effect ",
                side_effect_debug_text(effects[i]),
                " is not authorized",
            ));
        }
        assert(reasons_view(reasons@) =~= start + effect_reasons(next, allowed@));
        i = i + 1;
    }
    assert(effects@.take(effects.len() as int) =~= effects@);
}

/// The reason the executable observation rules the candidate out, if any.
pub open spec fn executable_reasons(observation: ExecutableObservation) -> Seq<(AvailabilityCode, Seq<char>)> {
    match executable_outcome(observation) {
        Ok(_) => Seq::empty(),
        Err(r) => seq![r],
    }
}

/// Every reason, in check order, that a registration cannot serve the
/// request: capability identity and version, executable, tools, codecs,
/// models, host compute and offline policy, then denied side effects.
pub open spec fn availability_reasons(
    registration: ProviderRegistration,
    request: ProviderResolutionRequest,
    observation: ExecutableObservation,
) -> Seq<(AvailabilityCode, Seq<char>)> {
    let capability = registration.spec_capability();
    let inventory = registration.spec_components();
    capability_reasons(capability, request) + executable_reasons(observation) + component_reasons(
        capability.requirements.tools@,
        inventory.tools@,
        "tool"@,
    ) + component_reasons(capability.requirements.codecs@, inventory.codecs@, "codec"@) + component_reasons(
        capability.requirements.models@,
        inventory.models@,
        "model"@,
    ) + compute_reasons(capability, request) + effect_reasons(
        capability.behavior.side_effects@,
        request.allowed_side_effects@,
    )
}

/// The executable identity and matched components of a registration that
/// can serve the request, or every reason that it cannot.
pub fn assess_availability(
    registration: &ProviderRegistration,
    request: &ProviderResolutionRequest,
    observation: &ExecutableObservation,
) -> (r: Result<(String, ComponentInventory), Vec<AvailabilityReason>>)
    requires
        semver_requirement_parses(request.capability_version_requirement@),
    ensures
        r is Ok <==> availability_reasons(*registration, *request, *observation).len() == 0,
        r matches Ok(found) ==> {
            let capability = registration.spec_capability();
            let inventory = registration.spec_components();
            &&& executable_outcome(*observation) == Ok::<Seq<char>, (AvailabilityCode, Seq<char>)>(found.0@)
            &&& sorted_by_id(found.1.tools@, matched_components(capability.requirements.tools@, inventory.tools@))
            &&& sorted_by_id(found.1.codecs@, matched_components(capability.requirements.codecs@, inventory.codecs@))
            &&& sorted_by_id(found.1.models@, matched_components(capability.requirements.models@, inventory.models@))
        },
        r matches Err(reasons) ==> reasons_view(reasons@) == availability_reasons(*registration, *request, *observation),
{
    registration.check_valid();
    let capability = registration.capability();
    let inventory = registration.components();
    proof {
        let i = choose|i: int| #[trigger] declares_capability(registration.spec_manifest(), registration.spec_configuration(), i)
            && registration.spec_capability() == registration.spec_manifest().capabilities@[i];
        assert(crate::provider::capability_valid(
            registration.spec_manifest().capabilities@[i],
            registration.spec_manifest().configuration_schemas@,
        ));
    }
    let mut reasons: Vec<AvailabilityReason> = Vec::new();
    check_capability(capability, request, &mut reasons);
    let ghost after_capability = reasons_view(reasons@);
    let executable = executable_identity(observation);
    let digest = match executable {
        Ok(d) => Some(d),
        Err(reason) => {
            let ghost v = reason_view(reason);
            reasons.push(reason);
            assert(reasons_view(reasons@) =~= after_capability.push(v));
            None
        },
    };
    assert(reasons_view(reasons@) =~= capability_reasons(*capability, *request) + executable_reasons(*observation));
    let tools = match_components(&capability.requirements.tools, &inventory.tools, "tool", &mut reasons);
    let codecs = match_components(&capability.requirements.codecs, &inventory.codecs, "codec", &mut reasons);
    let models = match_components(&capability.requirements.models, &inventory.models, "model", &mut reasons);
    check_capacity(capability, request, &mut reasons);
    check_devices(capability, request, &mut reasons);
    check_effects(&capability.behavior.side_effects, &request.allowed_side_effects, &mut reasons);
    assert(reasons_view(reasons@) =~= availability_reasons(*registration, *request, *observation));
    if reasons.len() == 0 {
        match digest {
            Some(d) => {
                return Ok((d, ComponentInventory { tools, codecs, models }));
            },
            None => {},
        }
    }
    Err(reasons)
}

// ---------------------------------------------------------------------------
// Resolution
// ---------------------------------------------------------------------------

/// The registration that precedence slot `k` names, if registered.
pub open spec fn slot_registration(
    registry: ProviderRegistry,
    request: ProviderResolutionRequest,
    k: int,
) -> Option<ProviderRegistration> {
    registry.lookup(request.ordered_candidates()[k].registration_id@)
}

/// Every reason that slot `k` cannot be selected.
pub open spec fn slot_reasons(
    registry: ProviderRegistry,
    request: ProviderResolutionRequest,
    observations: Seq<ExecutableObservation>,
    k: int,
) -> Seq<(AvailabilityCode, Seq<char>)> {
    match slot_registration(registry, request, k) {
        None => seq![(AvailabilityCode::NotRegistered, "candidate is not explicitly registered"@)],
        Some(registration) => availability_reasons(registration, request, observations[k]),
    }
}

/// Whether slot `k` names a registration that can serve the request.
pub open spec fn slot_available(
    registry: ProviderRegistry,
    request: ProviderResolutionRequest,
    observations: Seq<ExecutableObservation>,
    k: int,
) -> bool {
    slot_registration(registry, request, k) is Some && slot_reasons(registry, request, observations, k).len() == 0
}

/// The evidence recorded for slot `k`.
pub open spec fn attempt_matches(
    attempt: ProviderResolutionAttempt,
    registry: ProviderRegistry,
    request: ProviderResolutionRequest,
    observations: Seq<ExecutableObservation>,
    k: int,
) -> bool {
    &&& attempt.candidate == request.ordered_candidates()[k]
    &&& attempt.selection == request.ordered_selections()[k]
    &&& attempt.available == slot_available(registry, request, observations, k)
    &&& reasons_view(attempt.reasons@) == slot_reasons(registry, request, observations, k)
}

/// The evidence of the first `n` slots, in precedence order.
pub open spec fn attempts_match(
    attempts: Seq<ProviderResolutionAttempt>,
    registry: ProviderRegistry,
    request: ProviderResolutionRequest,
    observations: Seq<ExecutableObservation>,
    n: int,
) -> bool {
    &&& attempts.len() == n
    &&& forall|k: int| 0 <= k < n ==> attempt_matches(#[trigger] attempts[k], registry, request, observations, k)
}

/// Slot `k` is available and no earlier slot is.
pub open spec fn first_available(
    registry: ProviderRegistry,
    request: ProviderResolutionRequest,
    observations: Seq<ExecutableObservation>,
    k: int,
) -> bool {
    &&& 0 <= k < request.ordered_candidates().len()
    &&& slot_available(registry, request, observations, k)
    &&& forall|j: int| 0 <= j < k ==> !#[trigger] slot_available(registry, request, observations, j)
}

/// Every fallback index fits the selection record.
pub open spec fn selections_representable(request: ProviderResolutionRequest) -> bool {
    request.fallbacks@.len() <= u32::MAX + 1
}

/// The executable digest observed for slot `k`.
pub open spec fn observed_digest(observation: ExecutableObservation) -> Seq<char> {
    match executable_outcome(observation) {
        Ok(d) => d,
        Err(_) => Seq::empty(),
    }
}

/// The lock payload that selecting `registration` in `selection` records.
pub open spec fn lock_payload_for(
    payload: ProviderLockPayload,
    registration: ProviderRegistration,
    request: ProviderResolutionRequest,
    observation: ExecutableObservation,
    selection: ProviderSelection,
) -> bool {
    let configuration = registration.spec_configuration();
    let capability = registration.spec_capability();
    let inventory = registration.spec_components();
    &&& payload.registration_id@ == registration.spec_registration_id()
    &&& payload.provider == configuration.provider
    &&& payload.capability == configuration.capability
    &&& payload.configuration_schema == configuration.configuration_schema
    &&& payload.effective_configuration_sha256 == configuration.effective_configuration_sha256
    &&& payload.manifest_sha256@ == canonical_digest(provider_manifest_json(registration.spec_manifest()))
    &&& payload.implementation.id@ == registration.spec_implementation_id()
    &&& payload.implementation.executable_sha256@ == observed_digest(observation)
    &&& sorted_by_id(payload.tools@, matched_components(capability.requirements.tools@, inventory.tools@))
    &&& sorted_by_id(payload.codecs@, matched_components(capability.requirements.codecs@, inventory.codecs@))
    &&& sorted_by_id(payload.models@, matched_components(capability.requirements.models@, inventory.models@))
    &&& effects_ascending(payload.authorized_side_effects@)
    &&& forall|e: SideEffect| #[trigger] payload.authorized_side_effects@.contains(e)
        <==> capability.behavior.side_effects@.contains(e)
    &&& payload.selection == selection
    &&& payload.offline == request.offline
}

/// Resolution result that can execute only its selected registration.
#[derive(Debug)]
pub struct ResolvedProvider<'a> {
    registration: &'a ProviderRegistration,
    provider_lock: ProviderLock,
    attempts: Vec<ProviderResolutionAttempt>,
}

impl<'a> ResolvedProvider<'a> {
    pub closed spec fn spec_registration(&self) -> ProviderRegistration {
        *self.registration
    }

    pub closed spec fn spec_provider_lock(&self) -> ProviderLock {
        self.provider_lock
    }

    pub closed spec fn spec_attempts(&self) -> Seq<ProviderResolutionAttempt> {
        self.attempts@
    }

    pub fn registration(&self) -> (r: &ProviderRegistration)
        ensures
            *r == self.spec_registration(),
    {
        self.registration
    }

    pub fn provider_lock(&self) -> (r: &ProviderLock)
        ensures
            *r == self.spec_provider_lock(),
    {
        &self.provider_lock
    }

    /// The lock, taken out of the resolution.
    pub fn into_provider_lock(self) -> (r: ProviderLock)
        ensures
            r == self.spec_provider_lock(),
    {
        self.provider_lock
    }

    pub fn attempts(&self) -> (r: &Vec<ProviderResolutionAttempt>)
        ensures
            r@ == self.spec_attempts(),
    {
        &self.attempts
    }
}

fn duplicate_provider_reference(r: &ProviderReference) -> (d: ProviderReference)
    ensures
        d == *r,
{
    ProviderReference { id: r.id.clone(), version: r.version.clone() }
}

fn duplicate_capability_reference(r: &CapabilityReference) -> (d: CapabilityReference)
    ensures
        d == *r,
{
    CapabilityReference { id: r.id.clone(), version: r.version.clone() }
}

fn duplicate_schema_reference(r: &ConfigurationSchemaReference) -> (d: ConfigurationSchemaReference)
    ensures
        d == *r,
{
    ConfigurationSchemaReference { id: r.id.clone(), version: r.version.clone(), sha256: r.sha256.clone() }
}

/// The selection record of precedence slot `k`.
fn selection_at(request: &ProviderResolutionRequest, k: usize) -> (s: ProviderSelection)
    requires
        k < request.ordered_candidates().len(),
        selections_representable(*request),
    ensures
        s == request.ordered_selections()[k as int],
{
    let head: usize = if request.replacement.is_some() { 1 } else { 0 };
    if k < head {
        ProviderSelection::replacement()
    } else if k == head {
        ProviderSelection::primary()
    } else {
        let index = k - head - 1;
        assert(index <= u32::MAX);
        ProviderSelection { source: ProviderSelectionSource::Fallback, fallback_index: Some(index as u32) }
    }
}

proof fn lemma_matched_in_inventory(requirements: Seq<ComponentRequirement>, inventory: Seq<ComponentIdentity>, c: ComponentIdentity)
    requires
        matched_components(requirements, inventory).contains(c),
    ensures
        inventory.contains(c),
    decreases requirements.len(),
{
    let prefix = matched_components(requirements.drop_last(), inventory);
    if prefix.contains(c) {
        lemma_matched_in_inventory(requirements.drop_last(), inventory, c);
    } else {
        let outcome = requirement_outcome(requirements.last(), inventory, Seq::empty());
        assert(outcome == Ok::<ComponentIdentity, (AvailabilityCode, Seq<char>)>(c));
        lemma_first_component_in(inventory, requirements.last().id@);
    }
}

proof fn lemma_first_component_in(inventory: Seq<ComponentIdentity>, id: Seq<char>)
    ensures
        first_component(inventory, id) matches Some(c) ==> inventory.contains(c),
    decreases inventory.len(),
{
    if inventory.len() > 0 {
        if inventory[0].id@ == id {
            assert(inventory[0] == inventory[0]);
        } else {
            lemma_first_component_in(inventory.drop_first(), id);
            if let Some(c) = first_component(inventory.drop_first(), id) {
                let i = choose|i: int| 0 <= i < inventory.drop_first().len() && inventory.drop_first()[i] == c;
                assert(inventory[i + 1] == c);
            }
        }
    }
}

/// Components matched from a valid inventory and sorted by id form a valid
/// runtime inventory.
proof fn lemma_sorted_matched_valid(
    sorted: Seq<ComponentIdentity>,
    requirements: Seq<ComponentRequirement>,
    inventory: Seq<ComponentIdentity>,
)
    requires
        sorted_by_id(sorted, matched_components(requirements, inventory)),
        runtime_components_valid(inventory),
    ensures
        runtime_components_valid(sorted),
{
    assert forall|i: int| 0 <= i < sorted.len() implies inventory.contains(#[trigger] sorted[i]) by {
        assert(sorted.contains(sorted[i]));
        lemma_matched_in_inventory(requirements, inventory, sorted[i]);
    }
    assert forall|i: int| 0 <= i < sorted.len() implies is_token((#[trigger] sorted[i]).id@) && !crate::text::is_blank(
        sorted[i].version@,
    ) && (sorted[i].sha256 matches Some(d) ==> crate::text::is_sha256_hex(d@)) && semver_parses(sorted[i].version@) by {
        assert(inventory.contains(sorted[i]));
        let j = choose|j: int| 0 <= j < inventory.len() && inventory[j] == sorted[i];
        assert(semver_parses(inventory[j].version@));
    }
    assert forall|i: int| 0 <= i < sorted.len() - 1 implies crate::provider::component_pair_less(
        #[trigger] sorted[i],
        sorted[i + 1],
    ) by {
        assert(text_less(sorted[i].id@, sorted[i + 1].id@));
    }
    assert forall|i: int, j: int| 0 <= i < j < sorted.len() implies (#[trigger] sorted[i]).id@ != (
    #[trigger] sorted[j]).id@ by {
        crate::order::lemma_text_less_trichotomy(sorted[i].id@, sorted[j].id@);
    }
}

impl ProviderRegistry {
    /// Resolve the request to the first available precedence slot:
    /// replacement, primary, then each fallback. `observations[k]` is what
    /// the caller observed of the executable registered for slot `k`.
    #[verifier::rlimit(40)]
    #[verifier::spinoff_prover]
    pub fn resolve<'a>(
        &'a self,
        request: &ProviderResolutionRequest,
        observations: &Vec<ExecutableObservation>,
    ) -> (r: Result<ResolvedProvider<'a>, ProviderResolutionFailure>)
        requires
            observations@.len() == request.ordered_candidates().len(),
            request.fallbacks@.len() + 2 <= usize::MAX,
        ensures
            !request.spec_valid() || !selections_representable(*request) ==> (r matches Err(f)
                && f.attempts@.len() == 0),
            request.spec_valid() && selections_representable(*request) && (forall|k: int|
                0 <= k < request.ordered_candidates().len() ==> !#[trigger] slot_available(
                    *self,
                    *request,
                    observations@,
                    k,
                )) ==> (r matches Err(f) && attempts_match(
                f.attempts@,
                *self,
                *request,
                observations@,
                request.ordered_candidates().len() as int,
            )),
            forall|k: int|
                request.spec_valid() && selections_representable(*request) && #[trigger] first_available(
                    *self,
                    *request,
                    observations@,
                    k,
                ) ==> {
                    &&& (r is Ok <==> crate::text::is_sha256_hex(observed_digest(observations@[k])))
                    &&& (r matches Ok(resolved) ==> {
                        &&& attempts_match(resolved.spec_attempts(), *self, *request, observations@, k + 1)
                        &&& slot_registration(*self, *request, k) == Some(resolved.spec_registration())
                        &&& resolved.spec_provider_lock().spec_valid()
                        &&& lock_payload_for(
                            resolved.spec_provider_lock().payload,
                            resolved.spec_registration(),
                            *request,
                            observations@[k],
                            request.ordered_selections()[k],
                        )
                    })
                    &&& (r matches Err(f) ==> attempts_match(f.attempts@, *self, *request, observations@, k + 1))
                },
    {
        match request.validate() {
            Ok(()) => {},
            Err(error) => {
                return Err(ProviderResolutionFailure { message: error.to_text(), attempts: Vec::new() });
            },
        }
        if request.fallbacks.len() > 0 && request.fallbacks.len() - 1 > (u32::MAX as usize) {
            return Err(ProviderResolutionFailure {
                message: owned("fallback candidate count exceeds the v1 contract limit"),
                attempts: Vec::new(),
            });
        }
        let count = request.candidate_count();
        let mut attempts: Vec<ProviderResolutionAttempt> = Vec::new();
        let mut k: usize = 0;
        while k < count
            invariant
                k <= count,
                count == request.ordered_candidates().len(),
                observations@.len() == count,
                request.spec_valid(),
                selections_representable(*request),
                attempts_match(attempts@, *self, *request, observations@, k as int),
                forall|j: int| 0 <= j < k ==> !#[trigger] slot_available(*self, *request, observations@, j),
            decreases count - k,
        {
            let candidate = request.candidate_at(k);
            let selection = selection_at(request, k);
            let ghost before = attempts@;
            match self.registration(candidate.registration_id.as_str()) {
                None => {
                    let mut reasons: Vec<AvailabilityReason> = Vec::new();
                    push_reason(&mut reasons, AvailabilityCode::NotRegistered, owned("candidate is not explicitly registered"));
                    assert(reasons_view(reasons@) =~= seq![(AvailabilityCode::NotRegistered, "candidate is not explicitly registered"@)]);
                    attempts.push(ProviderResolutionAttempt {
                        candidate: candidate.duplicate(),
                        selection,
                        available: false,
                        reasons,
                    });
                },
                Some(registration) => {
                    registration.check_valid();
                    let assessment = assess_availability(registration, request, &observations[k]);
                    match assessment {
                        Err(reasons) => {
                            attempts.push(ProviderResolutionAttempt {
                                candidate: candidate.duplicate(),
                                selection,
                                available: false,
                                reasons,
                            });
                        },
                        Ok((digest, components)) => {
                            let reasons: Vec<AvailabilityReason> = Vec::new();
                            assert(reasons_view(reasons@) =~= Seq::<(AvailabilityCode, Seq<char>)>::empty());
                            attempts.push(ProviderResolutionAttempt {
                                candidate: candidate.duplicate(),
                                selection,
                                available: true,
                                reasons,
                            });
                            proof {
                                assert forall|j: int| 0 <= j < k + 1 implies attempt_matches(
                                    #[trigger] attempts@[j],
                                    *self,
                                    *request,
                                    observations@,
                                    j,
                                ) by {
                                    if j < k {
                                        assert(attempts@[j] == before[j]);
                                    }
                                }
                            }
                            let capability = registration.capability();
                            let configuration = registration.configuration();
                            let payload = ProviderLockPayload {
                                registration_id: owned(registration.registration_id()),
                                provider: duplicate_provider_reference(&configuration.provider),
                                capability: duplicate_capability_reference(&configuration.capability),
                                configuration_schema: duplicate_schema_reference(&configuration.configuration_schema),
                                effective_configuration_sha256: configuration.effective_configuration_sha256.clone(),
                                manifest_sha256: manifest_sha256(registration.manifest()),
                                implementation: ProviderImplementationIdentity {
                                    id: owned(registration.implementation_id()),
                                    executable_sha256: digest,
                                },
                                tools: components.tools,
                                codecs: components.codecs,
                                models: components.models,
                                authorized_side_effects: sorted_effects(&capability.behavior.side_effects),
                                selection,
                                offline: request.offline,
                            };
                            proof {
                                let inventory = registration.spec_components();
                                let cap = registration.spec_capability();
                                lemma_sorted_matched_valid(payload.tools@, cap.requirements.tools@, inventory.tools@);
                                lemma_sorted_matched_valid(payload.codecs@, cap.requirements.codecs@, inventory.codecs@);
                                lemma_sorted_matched_valid(payload.models@, cap.requirements.models@, inventory.models@);
                                assert(compute_reasons(cap, *request).len() == 0);
                                assert(device_reasons(cap, *request).len() == 0);
                                if request.offline && payload.authorized_side_effects@.contains(SideEffect::Network) {
                                    assert(cap.behavior.side_effects@.contains(SideEffect::Network));
                                }
                                assert(first_available(*self, *request, observations@, k as int));
                            }
                            match ProviderLock::new(payload) {
                                Ok(provider_lock) => {
                                    return Ok(ResolvedProvider { registration, provider_lock, attempts });
                                },
                                Err(error) => {
                                    return Err(ProviderResolutionFailure { message: error.to_text(), attempts });
                                },
                            }
                        },
                    }
                },
            }
            proof {
                assert forall|j: int| 0 <= j < k + 1 implies attempt_matches(
                    #[trigger] attempts@[j],
                    *self,
                    *request,
                    observations@,
                    j,
                ) by {
                    if j < k {
                        assert(attempts@[j] == before[j]);
                    }
                }
            }
            k = k + 1;
        }
        proof {
            assert forall|j: int| #![trigger first_available(*self, *request, observations@, j)]
                0 <= j < count implies !first_available(*self, *request, observations@, j) by {}
        }
        let mut message = join3(
            "no registered provider is available for ",
            request.capability_id.as_str(),
            " ",
        );
        message.append(request.capability_version_requirement.as_str());
        Err(ProviderResolutionFailure { message, attempts })
    }
}

} // verus!
