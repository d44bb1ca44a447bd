//! The closed provider-invocation request handed to a Pipeline v3 provider
//! executable: typed artifact bindings on absolute normalized paths, and the
//! fixed direct-argv shape that carries the request path.
use vstd::prelude::*;

use crate::error::{Error, ErrorCategory};
use crate::execution::ArtifactKind;
use crate::planning::lowercase;
use crate::provider::{ArtifactRole, ProviderConfiguration, StreamRole, require_sha256};
use crate::text::{has_control, has_space, is_local_id, is_sha256_hex, is_token, owned, text_eq};
use crate::planning::unicode_lowercase;

verus! {

broadcast use vstd::seq_lib::group_seq_properties;

/// Closed JSON request understood by Pipeline v3 provider executables.
pub const PROVIDER_INVOCATION_SCHEMA_V1: &'static str = "aniflow.provider-invocation/v1";
/// Exact execution semantics used by the v1 provider-invocation ABI.
pub const PROVIDER_INVOCATION_EXECUTION_SEMANTICS_V1: &'static str = "aniflow.provider-invocation/direct-argv/v1";
/// Built-in validation contract proving immutable artifact integrity.
pub const ARTIFACT_INTEGRITY_VALIDATION_CONTRACT_V1: &'static str = "aniflow.validation/artifact-integrity/v1";
/// Fixed direct-argv option followed by the absolute invocation request path.
pub const PROVIDER_INVOCATION_ARGUMENT: &'static str = "--aniflow-invocation";

// ---------------------------------------------------------------------------
// Absolute paths and their components
// ---------------------------------------------------------------------------

/// The pieces of a path between `/` separators, empty pieces included.
pub open spec fn split_pieces(s: Seq<char>, current: Seq<char>, done: Seq<Seq<char>>) -> Seq<Seq<char>>
    decreases s.len(),
{
    if s.len() == 0 {
        done.push(current)
    } else if s[0] == '/' {
        split_pieces(s.drop_first(), Seq::empty(), done.push(current))
    } else {
        split_pieces(s.drop_first(), current.push(s[0]), done)
    }
}

pub open spec fn pieces(s: Seq<char>) -> Seq<Seq<char>> {
    split_pieces(s, Seq::empty(), Seq::empty())
}

/// A piece that names a directory entry: not empty and not `.`.
pub open spec fn is_named_piece(p: Seq<char>) -> bool {
    p.len() > 0 && p != seq!['.']
}

/// The named components of a path, each folded to lowercase, in order.
pub open spec fn folded_components(pieces: Seq<Seq<char>>) -> Seq<Seq<char>>
    decreases pieces.len(),
{
    if pieces.len() == 0 {
        Seq::empty()
    } else {
        let rest = folded_components(pieces.drop_last());
        if is_named_piece(pieces.last()) {
            rest.push(unicode_lowercase(pieces.last()))
        } else {
            rest
        }
    }
}

/// An absolute path that never steps to a parent and holds no control
/// character.
pub open spec fn absolute_path_valid(path: Seq<char>) -> bool {
    &&& path.len() > 0
    &&& path[0] == '/'
    &&& forall|i: int| 0 <= i < pieces(path).len() ==> #[trigger] pieces(path)[i] != seq!['.', '.']
    &&& !has_control(path)
}

/// `p` is a prefix of `s`.
pub open spec fn is_component_prefix(p: Seq<Seq<char>>, s: Seq<Seq<char>>) -> bool {
    p.len() <= s.len() && s.take(p.len() as int) == p
}

/// Two absolute paths overlap when, component by component and folded to
/// lowercase, one lies within the other.
pub open spec fn absolute_paths_overlap(left: Seq<char>, right: Seq<char>) -> bool {
    let l = folded_components(pieces(left));
    let r = folded_components(pieces(right));
    is_component_prefix(l, r) || is_component_prefix(r, l)
}

/// The pieces of `path`, separated at each `/`.
pub(crate) fn path_pieces(path: &str) -> (r: Vec<Vec<char>>)
    ensures
        r@.map_values(|p: Vec<char>| p@) == pieces(path@),
{
    let chars = crate::text::chars_of(path);
    let mut done: Vec<Vec<char>> = Vec::new();
    let mut current: Vec<char> = Vec::new();
    let mut i: usize = 0;
    assert(chars@.skip(0) =~= chars@);
    assert(current@ =~= Seq::<char>::empty());
    assert(done@.map_values(|p: Vec<char>| p@) =~= Seq::<Seq<char>>::empty());
    while i < chars.len()
        invariant
            chars@ == path@,
            i <= chars.len(),
            split_pieces(chars@.skip(i as int), current@, done@.map_values(|p: Vec<char>| p@)) == pieces(path@),
        decreases chars.len() - i,
    {
        let c = chars[i];
        assert(chars@.skip(i as int).drop_first() =~= chars@.skip(i + 1));
        assert(chars@.skip(i as int)[0] == c);
        if c == '/' {
            let finished = current;
            current = Vec::new();
            let ghost before = done@;
            done.push(finished);
            assert(done@.map_values(|p: Vec<char>| p@) =~= before.map_values(|p: Vec<char>| p@).push(finished@));
            assert(current@ =~= Seq::<char>::empty());
        } else {
            current.push(c);
        }
        i = i + 1;
    }
    let ghost before = done@;
    let last = current;
    done.push(last);
    assert(done@.map_values(|p: Vec<char>| p@) =~= before.map_values(|p: Vec<char>| p@).push(last@));
    done
}

fn is_dot_dot(p: &Vec<char>) -> (r: bool)
    ensures
        r == (p@ == seq!['.', '.']),
{
    let r = p.len() == 2 && p[0] == '.' && p[1] == '.';
    if p.len() == 2 {
        assert(r ==> p@ =~= seq!['.', '.']);
    }
    r
}

/// Check that a path is absolute, normalized, and printable.
pub fn validate_absolute_path(path: &str, field: &str) -> (r: Result<(), Error>)
    ensures
        r is Ok <==> absolute_path_valid(path@),
        r matches Err(e) ==> e.spec_category() == ErrorCategory::Configuration,
{
    let chars = crate::text::chars_of(path);
    let parts = path_pieces(path);
    let ghost ps = pieces(path@);
    let mut normalized = chars.len() > 0 && chars[0] == '/';
    let mut i: usize = 0;
    while i < parts.len()
        invariant
            parts@.map_values(|p: Vec<char>| p@) == ps,
            ps == pieces(path@),
            chars@ == path@,
            i <= parts.len(),
            normalized == (path@.len() > 0 && path@[0] == '/' && forall|k: int| 0 <= k < i ==> #[trigger] ps[k] != seq!['.', '.']),
        decreases parts.len() - i,
    {
        assert(ps[i as int] == parts@[i as int]@);
        if is_dot_dot(&parts[i]) {
            normalized = false;
        }
        i = i + 1;
    }
    if !normalized {
        let mut message = owned(field);
        message.append(" must be an absolute normalized path");
        return Err(Error::from_string(ErrorCategory::Configuration, message));
    }
    if crate::text::text_has_control(path) {
        let mut message = owned(field);
        message.append(" must not contain control characters");
        return Err(Error::from_string(ErrorCategory::Configuration, message));
    }
    Ok(())
}

/// The named components of a path, folded to lowercase.
fn path_components(path: &str) -> (r: Vec<String>)
    ensures
        crate::order::texts(r@) == folded_components(pieces(path@)),
{
    let parts = path_pieces(path);
    let ghost ps = pieces(path@);
    let mut r: Vec<String> = Vec::new();
    let mut i: usize = 0;
    while i < parts.len()
        invariant
            parts@.map_values(|p: Vec<char>| p@) == ps,
            i <= parts.len(),
            crate::order::texts(r@) == folded_components(ps.take(i as int)),
        decreases parts.len() - i,
    {
        let part = &parts[i];
        assert(ps[i as int] == part@);
        assert(ps.take(i + 1).drop_last() =~= ps.take(i as int));
        assert(ps.take(i + 1).last() == part@);
        let named = part.len() > 0 && !(part.len() == 1 && part[0] == '.');
        if part.len() == 1 {
            assert(part[0] == '.' ==> part@ =~= seq!['.']);
        }
        if named {
            let text = crate::text::string_from_chars(part.as_slice());
            let folded = lowercase(text.as_str());
            let ghost before = r@;
            r.push(folded);
            assert(crate::order::texts(r@) =~= crate::order::texts(before).push(unicode_lowercase(part@)));
        }
        i = i + 1;
    }
    assert(ps.take(ps.len() as int) =~= ps);
    r
}

fn component_prefix(p: &Vec<String>, s: &Vec<String>) -> (r: bool)
    ensures
        r == is_component_prefix(crate::order::texts(p@), crate::order::texts(s@)),
{
    if p.len() > s.len() {
        return false;
    }
    let ghost tp = crate::order::texts(p@);
    let ghost ts = crate::order::texts(s@);
    let mut i: usize = 0;
    while i < p.len()
        invariant
            p.len() <= s.len(),
            tp == crate::order::texts(p@),
            ts == crate::order::texts(s@),
            i <= p.len(),
            forall|k: int| 0 <= k < i ==> #[trigger] tp[k] == ts[k],
        decreases p.len() - i,
    {
        if !text_eq(p[i].as_str(), s[i].as_str()) {
            assert(ts.take(tp.len() as int)[i as int] != tp[i as int]);
            return false;
        }
        i = i + 1;
    }
    assert(ts.take(tp.len() as int) =~= tp);
    true
}

/// Whether two absolute paths overlap component by component.
pub fn paths_overlap_absolute(left: &str, right: &str) -> (r: bool)
    ensures
        r == absolute_paths_overlap(left@, right@),
{
    let l = path_components(left);
    let r = path_components(right);
    component_prefix(&l, &r) || component_prefix(&r, &l)
}

// ---------------------------------------------------------------------------
// Bindings and requests
// ---------------------------------------------------------------------------

/// One typed local artifact bound to a declared provider port.
#[derive(Debug, Clone)]
pub struct ProviderInvocationArtifactBinding {
    pub port: String,
    pub artifact_id: String,
    pub artifact_type: String,
    pub artifact_role: ArtifactRole,
    pub stream_role: Option<StreamRole>,
    pub kind: ArtifactKind,
    pub path: String,
}

impl ProviderInvocationArtifactBinding {
    /// Local port and artifact ids, a printable token as artifact type, and
    /// an absolute normalized path.
    pub open spec fn spec_valid(&self) -> bool {
        &&& is_local_id(self.port@)
        &&& is_local_id(self.artifact_id@)
        &&& is_token(self.artifact_type@) && !has_control(self.artifact_type@)
        &&& absolute_path_valid(self.path@)
    }

    /// A binding, refused unless it is valid.
    pub fn new(
        port: String,
        artifact_id: String,
        artifact_type: String,
        artifact_role: ArtifactRole,
        stream_role: Option<StreamRole>,
        kind: ArtifactKind,
        path: String,
    ) -> (r: Result<Self, Error>)
        ensures
            r is Ok <==> (ProviderInvocationArtifactBinding {
                port,
                artifact_id,
                artifact_type,
                artifact_role,
                stream_role,
                kind,
                path,
            }).spec_valid(),
            r matches Ok(b) ==> b == (ProviderInvocationArtifactBinding {
                port,
                artifact_id,
                artifact_type,
                artifact_role,
                stream_role,
                kind,
                path,
            }),
            r matches Err(e) ==> e.spec_category() == ErrorCategory::Configuration,
    {
        let binding = ProviderInvocationArtifactBinding {
            port,
            artifact_id,
            artifact_type,
            artifact_role,
            stream_role,
            kind,
            path,
        };
        binding.validate("artifact binding")?;
        Ok(binding)
    }

    pub fn validate(&self, label: &str) -> (r: Result<(), Error>)
        ensures
            r is Ok <==> self.spec_valid(),
            r matches Err(e) ==> e.spec_category() == ErrorCategory::Configuration,
    {
        if !crate::text::text_is_local_id(self.port.as_str()) {
            let mut message = owned(label);
            message.append(
                " port must start with a lowercase letter and contain only lowercase letters, numbers, hyphens, or underscores",
            );
            return Err(Error::from_string(ErrorCategory::Configuration, message));
        }
        if !crate::text::text_is_local_id(self.artifact_id.as_str()) {
            let mut message = owned(label);
            message.append(
                " artifact_id must start with a lowercase letter and contain only lowercase letters, numbers, hyphens, or underscores",
            );
            return Err(Error::from_string(ErrorCategory::Configuration, message));
        }
        if !crate::text::text_is_token(self.artifact_type.as_str()) || crate::text::text_has_control(
            self.artifact_type.as_str(),
        ) {
            let mut message = owned(label);
            message.append(" artifact_type must be a non-empty printable token");
            return Err(Error::from_string(ErrorCategory::Configuration, message));
        }
        let mut field = owned(label);
        field.append(" path");
        validate_absolute_path(self.path.as_str(), field.as_str())
    }
}

/// Complete, closed request supplied to one exact provider implementation.
#[derive(Debug)]
pub struct ProviderInvocationRequest {
    pub schema: String,
    pub execution_semantics: String,
    pub stage_id: String,
    pub provider_lock_sha256: String,
    pub configuration: ProviderConfiguration,
    pub inputs: Vec<ProviderInvocationArtifactBinding>,
    pub outputs: Vec<ProviderInvocationArtifactBinding>,
}

pub open spec fn binding_key(b: ProviderInvocationArtifactBinding) -> (Seq<char>, Seq<char>) {
    (b.port@, b.artifact_id@)
}

/// The rules of a request beyond its schema and ABI: stage id, lock
/// digest, configuration, at least one input, valid bindings, no (port,
/// artifact) pair twice among the inputs, no output artifact twice, and
/// output paths that overlap neither each other nor any input.
pub open spec fn request_fields_valid(
    stage_id: Seq<char>,
    provider_lock_sha256: Seq<char>,
    configuration: ProviderConfiguration,
    inputs: Seq<ProviderInvocationArtifactBinding>,
    outputs: Seq<ProviderInvocationArtifactBinding>,
) -> bool {
    &&& is_local_id(stage_id)
    &&& is_sha256_hex(provider_lock_sha256)
    &&& configuration.spec_valid()
    &&& inputs.len() > 0
    &&& forall|i: int| 0 <= i < inputs.len() ==> (#[trigger] inputs[i]).spec_valid()
    &&& forall|i: int, j: int| 0 <= i < j < inputs.len() ==> binding_key(#[trigger] inputs[i]) != binding_key(#[trigger] inputs[j])
    &&& forall|i: int| 0 <= i < outputs.len() ==> (#[trigger] outputs[i]).spec_valid()
    &&& forall|i: int, j: int| 0 <= i < j < outputs.len() ==> (#[trigger] outputs[i]).artifact_id@ != (#[trigger] outputs[j]).artifact_id@
    &&& forall|i: int, j: int|
        0 <= i < j < outputs.len() ==> !absolute_paths_overlap((#[trigger] outputs[i]).path@, (#[trigger] outputs[j]).path@)
    &&& forall|i: int, j: int|
        0 <= i < inputs.len() && 0 <= j < outputs.len() ==> !absolute_paths_overlap(
            (#[trigger] inputs[i]).path@,
            (#[trigger] outputs[j]).path@,
        )
}

impl ProviderInvocationRequest {
    /// Every rule of a closed request: schema and ABI, stage id, lock
    /// digest, configuration, at least one input, valid bindings, no
    /// (port, artifact) pair twice on either side, no output artifact
    /// twice, and output paths that overlap neither each other nor any
    /// input.
    pub open spec fn spec_valid(&self) -> bool {
        &&& self.schema@ == PROVIDER_INVOCATION_SCHEMA_V1@
        &&& self.execution_semantics@ == PROVIDER_INVOCATION_EXECUTION_SEMANTICS_V1@
        &&& request_fields_valid(
            self.stage_id@,
            self.provider_lock_sha256@,
            self.configuration,
            self.inputs@,
            self.outputs@,
        )
    }

    /// A request with the v1 schema and ABI, refused unless it is valid.
    pub fn new(
        stage_id: String,
        provider_lock_sha256: String,
        configuration: ProviderConfiguration,
        inputs: Vec<ProviderInvocationArtifactBinding>,
        outputs: Vec<ProviderInvocationArtifactBinding>,
    ) -> (r: Result<Self, Error>)
        ensures
            r matches Ok(request) ==> request.spec_valid() && request.stage_id == stage_id
                && request.provider_lock_sha256 == provider_lock_sha256 && request.configuration == configuration
                && request.inputs == inputs && request.outputs == outputs,
            r is Ok <==> request_fields_valid(stage_id@, provider_lock_sha256@, configuration, inputs@, outputs@),
            r matches Err(e) ==> e.spec_category() == ErrorCategory::Configuration,
    {
        let request = ProviderInvocationRequest {
            schema: owned(PROVIDER_INVOCATION_SCHEMA_V1),
            execution_semantics: owned(PROVIDER_INVOCATION_EXECUTION_SEMANTICS_V1),
            stage_id,
            provider_lock_sha256,
            configuration,
            inputs,
            outputs,
        };
        request.validate()?;
        Ok(request)
    }

    /// Validate the schema, execution ABI, configuration, and path bindings.
    pub fn validate(&self) -> (r: Result<(), Error>)
        ensures
            r is Ok <==> self.spec_valid(),
            r matches Err(e) ==> e.spec_category() == ErrorCategory::Configuration,
    {
        if !text_eq(self.schema.as_str(), PROVIDER_INVOCATION_SCHEMA_V1) {
            return Err(Error::new(
                ErrorCategory::Configuration,
                "unsupported Pipeline v3 provider invocation schema; expected aniflow.provider-invocation/v1",
            ));
        }
        if !text_eq(self.execution_semantics.as_str(), PROVIDER_INVOCATION_EXECUTION_SEMANTICS_V1) {
            return Err(Error::new(
                ErrorCategory::Configuration,
                "unsupported Pipeline v3 provider invocation execution semantics; expected aniflow.provider-invocation/direct-argv/v1",
            ));
        }
        if !crate::text::text_is_local_id(self.stage_id.as_str()) {
            return Err(Error::new(
                ErrorCategory::Configuration,
                "provider invocation stage_id must start with a lowercase letter and contain only lowercase letters, numbers, hyphens, or underscores",
            ));
        }
        require_sha256(self.provider_lock_sha256.as_str(), "provider_lock_sha256")?;
        self.configuration.validate()?;
        if self.inputs.len() == 0 {
            return Err(Error::new(
                ErrorCategory::Configuration,
                "Pipeline v3 provider invocation requires at least one input binding",
            ));
        }
        let inputs = &self.inputs;
        let outputs = &self.outputs;
        let mut i: usize = 0;
        while i < inputs.len()
            invariant
                *inputs == self.inputs,
                i <= inputs.len(),
                forall|k: int| 0 <= k < i ==> (#[trigger] inputs@[k]).spec_valid(),
                forall|k: int, l: int| 0 <= k < l < i ==> binding_key(#[trigger] inputs@[k]) != binding_key(#[trigger] inputs@[l]),
            decreases inputs.len() - i,
        {
            let binding = &inputs[i];
            binding.validate("inputs")?;
            let mut j: usize = 0;
            while j < i
                invariant
                    *inputs == self.inputs,
                    j <= i < inputs.len(),
                    *binding == inputs@[i as int],
                    forall|k: int| 0 <= k < j ==> binding_key(#[trigger] inputs@[k]) != binding_key(inputs@[i as int]),
                decreases i - j,
            {
                let other = &inputs[j];
                if text_eq(other.port.as_str(), binding.port.as_str()) && text_eq(
                    other.artifact_id.as_str(),
                    binding.artifact_id.as_str(),
                ) {
                    let mut message = owned("input artifact ");
                    message.append(binding.artifact_id.as_str());
                    message.append(" is bound more than once to port ");
                    message.append(binding.port.as_str());
                    return Err(Error::from_string(ErrorCategory::Configuration, message));
                }
                j = j + 1;
            }
            i = i + 1;
        }
        let mut o: usize = 0;
        while o < outputs.len()
            invariant
                *inputs == self.inputs,
                *outputs == self.outputs,
                o <= outputs.len(),
                forall|k: int| 0 <= k < o ==> (#[trigger] outputs@[k]).spec_valid(),
                forall|k: int, l: int| 0 <= k < l < o ==> (#[trigger] outputs@[k]).artifact_id@ != (#[trigger] outputs@[l]).artifact_id@,
                forall|k: int, l: int|
                    0 <= k < l < o ==> !absolute_paths_overlap((#[trigger] outputs@[k]).path@, (#[trigger] outputs@[l]).path@),
                forall|k: int, l: int|
                    0 <= k < inputs@.len() && 0 <= l < o ==> !absolute_paths_overlap(
                        (#[trigger] inputs@[k]).path@,
                        (#[trigger] outputs@[l]).path@,
                    ),
            decreases outputs.len() - o,
        {
            let binding = &outputs[o];
            binding.validate("outputs")?;
            let mut j: usize = 0;
            while j < o
                invariant
                    *outputs == self.outputs,
                    j <= o < outputs.len(),
                    *binding == outputs@[o as int],
                    forall|k: int| 0 <= k < j ==> (#[trigger] outputs@[k]).artifact_id@ != outputs@[o as int].artifact_id@,
                    forall|k: int| 0 <= k < j ==> !absolute_paths_overlap((#[trigger] outputs@[k]).path@, outputs@[o as int].path@),
                decreases o - j,
            {
                let other = &outputs[j];
                if text_eq(other.artifact_id.as_str(), binding.artifact_id.as_str()) {
                    let mut message = owned("output artifact ");
                    message.append(binding.artifact_id.as_str());
                    message.append(" is bound more than once");
                    return Err(Error::from_string(ErrorCategory::Configuration, message));
                }
                if paths_overlap_absolute(other.path.as_str(), binding.path.as_str()) {
                    return Err(Error::new(
                        ErrorCategory::Configuration,
                        "provider invocation output paths must not overlap",
                    ));
                }
                j = j + 1;
            }
            let mut k: usize = 0;
            while k < inputs.len()
                invariant
                    *inputs == self.inputs,
                    *outputs == self.outputs,
                    k <= inputs.len(),
                    o < outputs.len(),
                    *binding == outputs@[o as int],
                    forall|m: int| 0 <= m < k ==> !absolute_paths_overlap((#[trigger] inputs@[m]).path@, outputs@[o as int].path@),
                decreases inputs.len() - k,
            {
                if paths_overlap_absolute(inputs[k].path.as_str(), binding.path.as_str()) {
                    return Err(Error::new(
                        ErrorCategory::Configuration,
                        "provider invocation output paths must not overlap immutable inputs",
                    ));
                }
                k = k + 1;
            }
            o = o + 1;
        }
        Ok(())
    }
}

/// The only argv shape allowed by provider-invocation v1: the fixed option
/// and the absolute request path.
pub fn provider_invocation_arguments(request_path: &str) -> (r: Result<Vec<String>, Error>)
    ensures
        r is Ok <==> absolute_path_valid(request_path@),
        r matches Ok(v) ==> crate::order::texts(v@) == seq![PROVIDER_INVOCATION_ARGUMENT@, request_path@],
        r matches Err(e) ==> e.spec_category() == ErrorCategory::Configuration,
{
    validate_absolute_path(request_path, "provider invocation request path")?;
    let mut v: Vec<String> = Vec::new();
    v.push(owned(PROVIDER_INVOCATION_ARGUMENT));
    v.push(owned(request_path));
    assert(crate::order::texts(v@) =~= seq![PROVIDER_INVOCATION_ARGUMENT@, request_path@]);
    Ok(v)
}

} // verus!
