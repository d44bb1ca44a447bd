//! The rules a provider execution request binds its outputs by, and the
//! decisions that accept what a provider left in its output directory.
use vstd::prelude::*;

use crate::error::{Error, ErrorCategory};
use crate::execution::{
    ArtifactKind, ArtifactObservation, ExpectedProviderOutput, ProviderExecutionFailure, ProviderExecutionFailureCode,
    execution_failure,
};
use crate::invocation::{is_component_prefix, is_named_piece, path_pieces, pieces};
use crate::order::{text_less, text_lt};
use crate::plan::{find_port, port_named};
use crate::provider::{ArtifactCardinality, ArtifactPort};
use crate::text::{has_space, is_blank, is_token, owned, text_eq};

verus! {

broadcast use vstd::seq_lib::group_seq_properties;

// ---------------------------------------------------------------------------
// Relative output paths
// ---------------------------------------------------------------------------

/// The named components of a path, in order: its pieces without empty
/// pieces and `.`.
pub open spec fn named_components(ps: Seq<Seq<char>>) -> Seq<Seq<char>>
    decreases ps.len(),
{
    if ps.len() == 0 {
        Seq::empty()
    } else {
        let rest = named_components(ps.drop_last());
        if is_named_piece(ps.last()) {
            rest.push(ps.last())
        } else {
            rest
        }
    }
}

/// A relative output path: not empty, not rooted, no backslash, never a
/// parent step, and not starting with a `.` step.
pub open spec fn relative_output_path_valid(path: Seq<char>) -> bool {
    &&& path.len() > 0
    &&& path[0] != '/'
    &&& forall|i: int| 0 <= i < path.len() ==> #[trigger] path[i] != '\\'
    &&& forall|i: int| 0 <= i < pieces(path).len() ==> #[trigger] pieces(path)[i] != seq!['.', '.']
    &&& pieces(path)[0] != seq!['.']
}

/// Components joined by single slashes.
pub open spec fn joined(components: Seq<Seq<char>>) -> Seq<char>
    decreases components.len(),
{
    if components.len() == 0 {
        Seq::empty()
    } else if components.len() == 1 {
        components[0]
    } else {
        joined(components.drop_last()) + seq!['/'] + components.last()
    }
}

/// The one portable spelling of a relative path.
pub open spec fn normalized_path(path: Seq<char>) -> Seq<char> {
    joined(named_components(pieces(path)))
}

/// One path lies within the other, component by component.
pub open spec fn relative_paths_nest(a: Seq<char>, b: Seq<char>) -> bool {
    let ca = named_components(pieces(a));
    let cb = named_components(pieces(b));
    is_component_prefix(ca, cb) || is_component_prefix(cb, ca)
}

fn named_path_components(path: &str) -> (r: Vec<Vec<char>>)
    ensures
        r@.map_values(|p: Vec<char>| p@) == named_components(pieces(path@)),
{
    let parts = path_pieces(path);
    let ghost ps = pieces(path@);
    let mut r: Vec<Vec<char>> = Vec::new();
    let mut i: usize = 0;
    while i < parts.len()
        invariant
            parts@.map_values(|p: Vec<char>| p@) == ps,
            i <= parts.len(),
            r@.map_values(|p: Vec<char>| p@) == named_components(ps.take(i as int)),
        decreases parts.len() - i,
    {
        assert(ps[i as int] == parts@[i as int]@);
        assert(ps.take(i + 1).drop_last() =~= ps.take(i as int));
        assert(ps.take(i + 1).last() == parts@[i as int]@);
        let part = &parts[i];
        let named = part.len() > 0 && !(part.len() == 1 && part[0] == '.');
        if part.len() == 1 {
            assert(part[0] == '.' ==> part@ =~= seq!['.']);
        }
        if named {
            let ghost before = r@;
            let mut copy: Vec<char> = Vec::new();
            let mut k: usize = 0;
            while k < part.len()
                invariant
                    k <= part.len(),
                    copy@ == part@.take(k as int),
                decreases part.len() - k,
            {
                copy.push(part[k]);
                assert(copy@ =~= part@.take(k + 1));
                k = k + 1;
            }
            assert(part@.take(part@.len() as int) =~= part@);
            r.push(copy);
            assert(r@.map_values(|p: Vec<char>| p@) =~= before.map_values(|p: Vec<char>| p@).push(part@));
        }
        i = i + 1;
    }
    assert(ps.take(ps.len() as int) =~= ps);
    r
}

/// The portable spelling of a relative path.
pub fn normalize_relative_path(path: &str) -> (r: String)
    ensures
        r@ == normalized_path(path@),
{
    let components = named_path_components(path);
    let ghost cs = named_components(pieces(path@));
    let mut r = String::new();
    let mut i: usize = 0;
    while i < components.len()
        invariant
            components@.map_values(|p: Vec<char>| p@) == cs,
            i <= components.len(),
            r@ == joined(cs.take(i as int)),
        decreases components.len() - i,
    {
        assert(cs[i as int] == components@[i as int]@);
        assert(cs.take(i + 1).drop_last() =~= cs.take(i as int));
        assert(cs.take(i + 1).last() == components@[i as int]@);
        if i > 0 {
            crate::text::push_char(&mut r, '/');
        }
        let text = crate::text::string_from_chars(components[i].as_slice());
        r.append(text.as_str());
        proof {
            if i == 0 {
                assert(cs.take(1) =~= seq![cs[0]]);
                assert(r@ =~= joined(cs.take(1)));
            } else {
                assert(r@ =~= joined(cs.take(i as int)) + seq!['/'] + cs[i as int]);
            }
        }
        i = i + 1;
    }
    assert(cs.take(cs.len() as int) =~= cs);
    r
}

fn components_nest(a: &Vec<Vec<char>>, b: &Vec<Vec<char>>) -> (r: bool)
    ensures
        r == is_component_prefix(a@.map_values(|p: Vec<char>| p@), b@.map_values(|p: Vec<char>| p@)),
{
    let ghost va = a@.map_values(|p: Vec<char>| p@);
    let ghost vb = b@.map_values(|p: Vec<char>| p@);
    if a.len() > b.len() {
        return false;
    }
    let mut i: usize = 0;
    while i < a.len()
        invariant
            a.len() <= b.len(),
            va == a@.map_values(|p: Vec<char>| p@),
            vb == b@.map_values(|p: Vec<char>| p@),
            i <= a.len(),
            forall|k: int| 0 <= k < i ==> #[trigger] va[k] == vb[k],
        decreases a.len() - i,
    {
        assert(va[i as int] == a@[i as int]@);
        assert(vb[i as int] == b@[i as int]@);
        if !crate::text::seq_eq(a[i].as_slice(), b[i].as_slice()) {
            assert(vb.take(va.len() as int)[i as int] != va[i as int]);
            return false;
        }
        i = i + 1;
    }
    assert(vb.take(va.len() as int) =~= va);
    true
}

/// Whether one relative path lies within the other.
pub fn relative_paths_overlap(a: &str, b: &str) -> (r: bool)
    ensures
        r == relative_paths_nest(a@, b@),
{
    let ca = named_path_components(a);
    let cb = named_path_components(b);
    components_nest(&ca, &cb) || components_nest(&cb, &ca)
}

/// Whether `inner` lies within `outer`, component by component, as
/// `Path::starts_with` decides for two paths written alike (both absolute,
/// or both relative).
pub fn path_within(outer: &str, inner: &str) -> (r: bool)
    ensures
        r == is_component_prefix(named_components(pieces(outer@)), named_components(pieces(inner@))),
{
    let a = named_path_components(outer);
    let b = named_path_components(inner);
    components_nest(&a, &b)
}

/// Check one expected output path.
pub fn validate_relative_output_path(path: &str) -> (r: Result<(), Error>)
    ensures
        r is Ok <==> relative_output_path_valid(path@),
        r matches Err(e) ==> e.spec_category() == ErrorCategory::Configuration,
{
    let chars = crate::text::chars_of(path);
    let parts = path_pieces(path);
    let ghost ps = pieces(path@);
    if chars.len() == 0 || chars[0] == '/' {
        return Err(Error::new(
            ErrorCategory::Configuration,
            "expected output path must be a non-empty confined relative path",
        ));
    }
    let mut i: usize = 0;
    while i < chars.len()
        invariant
            chars@ == path@,
            i <= chars.len(),
            forall|k: int| 0 <= k < i ==> #[trigger] chars@[k] != '\\',
        decreases chars.len() - i,
    {
        if chars[i] == '\\' {
            return Err(Error::new(
                ErrorCategory::Configuration,
                "expected output path must use portable UTF-8 components",
            ));
        }
        i = i + 1;
    }
    let mut k: usize = 0;
    while k < parts.len()
        invariant
            parts@.map_values(|p: Vec<char>| p@) == ps,
            ps == pieces(path@),
            k <= parts.len(),
            forall|j: int| 0 <= j < k ==> #[trigger] ps[j] != seq!['.', '.'],
        decreases parts.len() - k,
    {
        assert(ps[k as int] == parts@[k as int]@);
        let part = &parts[k];
        if part.len() == 2 && part[0] == '.' && part[1] == '.' {
            assert(part@ =~= seq!['.', '.']);
            assert(pieces(path@)[k as int] == seq!['.', '.']);
            return Err(Error::new(
                ErrorCategory::Configuration,
                "expected output path must be a non-empty confined relative path",
            ));
        }
        if part.len() == 2 {
            assert(part@ == seq!['.', '.'] ==> part[0] == '.' && part[1] == '.');
        }
        k = k + 1;
    }
    proof {
        lemma_split_pieces_len(path@, Seq::empty(), Seq::empty());
    }
    assert(ps[0] == parts@[0]@);
    let first = &parts[0];
    if first.len() == 1 && first[0] == '.' {
        assert(first@ =~= seq!['.']);
        return Err(Error::new(
            ErrorCategory::Configuration,
            "expected output path must be a non-empty confined relative path",
        ));
    }
    if first.len() == 1 {
        assert(first@ == seq!['.'] ==> first[0] == '.');
    }
    Ok(())
}

/// Splitting always yields one more piece than it was handed.
proof fn lemma_split_pieces_len(s: Seq<char>, current: Seq<char>, done: Seq<Seq<char>>)
    ensures
        crate::invocation::split_pieces(s, current, done).len() > done.len(),
    decreases s.len(),
{
    if s.len() > 0 {
        if s[0] == '/' {
            lemma_split_pieces_len(s.drop_first(), Seq::empty(), done.push(current));
        } else {
            lemma_split_pieces_len(s.drop_first(), current.push(s[0]), done);
        }
    }
}

// ---------------------------------------------------------------------------
// Expected outputs and redactions of an execution request
// ---------------------------------------------------------------------------

/// Some expected output binds this port.
pub open spec fn port_bound(expected: Seq<ExpectedProviderOutput>, name: Seq<char>) -> bool {
    exists|i: int| 0 <= i < expected.len() && (#[trigger] expected[i]).port@ == name
}

/// Every expected output binds a declared port by token, each port once,
/// on a confined relative path that nests in no other; and every declared
/// port is bound.
pub open spec fn expected_outputs_valid(expected: Seq<ExpectedProviderOutput>, ports: Seq<ArtifactPort>) -> bool {
    &&& forall|i: int|
        0 <= i < expected.len() ==> is_token((#[trigger] expected[i]).port@) && port_named(ports, expected[i].port@)
            is Some && relative_output_path_valid(expected[i].relative_path@)
    &&& forall|i: int, j: int|
        0 <= i < j < expected.len() ==> (#[trigger] expected[i]).port@ != (#[trigger] expected[j]).port@
            && !relative_paths_nest(expected[i].relative_path@, expected[j].relative_path@)
    &&& forall|k: int| 0 <= k < ports.len() ==> port_bound(expected, (#[trigger] ports[k]).name@)
}

/// Check the expected outputs of a request against the capability's
/// declared output ports.
pub fn validate_expected_outputs(expected: &Vec<ExpectedProviderOutput>, ports: &Vec<ArtifactPort>) -> (r: Result<
    (),
    Error,
>)
    ensures
        r is Ok <==> expected_outputs_valid(expected@, ports@),
        r matches Err(e) ==> e.spec_category() == ErrorCategory::Configuration,
{
    let mut i: usize = 0;
    while i < expected.len()
        invariant
            i <= expected.len(),
            forall|a: int|
                0 <= a < i ==> is_token((#[trigger] expected@[a]).port@) && port_named(ports@, expected@[a].port@)
                    is Some && relative_output_path_valid(expected@[a].relative_path@),
            forall|a: int, b: int|
                0 <= a < b < i ==> (#[trigger] expected@[a]).port@ != (#[trigger] expected@[b]).port@
                    && !relative_paths_nest(expected@[a].relative_path@, expected@[b].relative_path@),
        decreases expected.len() - i,
    {
        let e = &expected[i];
        crate::provider::require_token(e.port.as_str(), "expected output port")?;
        if find_port(ports, e.port.as_str()).is_none() {
            return Err(crate::error::invalid(crate::text::join3(
                "expected output port ",
                e.port.as_str(),
                " is not declared by the capability",
            )));
        }
        let mut j: usize = 0;
        while j < i
            invariant
                j <= i < expected.len(),
                *e == expected@[i as int],
                forall|a: int| 0 <= a < j ==> (#[trigger] expected@[a]).port@ != e.port@,
            decreases i - j,
        {
            if text_eq(expected[j].port.as_str(), e.port.as_str()) {
                return Err(crate::error::invalid(crate::text::join3(
                    "expected output port ",
                    e.port.as_str(),
                    " is bound more than once",
                )));
            }
            j = j + 1;
        }
        validate_relative_output_path(e.relative_path.as_str())?;
        let mut k: usize = 0;
        while k < i
            invariant
                k <= i < expected.len(),
                *e == expected@[i as int],
                forall|a: int| 0 <= a < k ==> !relative_paths_nest(
                    (#[trigger] expected@[a]).relative_path@,
                    e.relative_path@,
                ),
            decreases i - k,
        {
            if relative_paths_overlap(expected[k].relative_path.as_str(), e.relative_path.as_str()) {
                return Err(Error::new(ErrorCategory::Configuration, "expected output paths must not overlap"));
            }
            k = k + 1;
        }
        i = i + 1;
    }
    let mut p: usize = 0;
    while p < ports.len()
        invariant
            p <= ports.len(),
            forall|a: int| 0 <= a < p ==> port_bound(expected@, (#[trigger] ports@[a]).name@),
        decreases ports.len() - p,
    {
        let name = ports[p].name.as_str();
        let mut q: usize = 0;
        while q < expected.len()
            invariant
                q <= expected.len(),
                p < ports.len(),
                name@ == ports@[p as int].name@,
                forall|a: int| 0 <= a < q ==> (#[trigger] expected@[a]).port@ != name@,
            ensures
                q <= expected.len(),
                forall|a: int| 0 <= a < q ==> (#[trigger] expected@[a]).port@ != name@,
                q < expected.len() ==> expected@[q as int].port@ == name@,
            decreases expected.len() - q,
        {
            if text_eq(expected[q].port.as_str(), name) {
                break;
            }
            q = q + 1;
        }
        if q == expected.len() {
            return Err(Error::new(
                ErrorCategory::Configuration,
                "every declared output port must have exactly one expected path binding",
            ));
        }
        p = p + 1;
    }
    Ok(())
}

/// Redaction values are non-blank and distinct.
pub open spec fn sensitive_values_valid(values: Seq<String>) -> bool {
    &&& forall|i: int| 0 <= i < values.len() ==> !is_blank((#[trigger] values[i])@)
    &&& forall|i: int, j: int| 0 <= i < j < values.len() ==> (#[trigger] values[i])@ != (#[trigger] values[j])@
}

pub fn validate_sensitive_values(values: &Vec<String>) -> (r: Result<(), Error>)
    ensures
        r is Ok <==> sensitive_values_valid(values@),
        r matches Err(e) ==> e.spec_category() == ErrorCategory::Configuration,
{
    let mut i: usize = 0;
    while i < values.len()
        invariant
            i <= values.len(),
            forall|a: int| 0 <= a < i ==> !is_blank((#[trigger] values@[a])@),
            forall|a: int, b: int| 0 <= a < b < i ==> (#[trigger] values@[a])@ != (#[trigger] values@[b])@,
        decreases values.len() - i,
    {
        crate::provider::require_nonempty(values[i].as_str(), "sensitive redaction value")?;
        let mut j: usize = 0;
        while j < i
            invariant
                j <= i < values.len(),
                forall|a: int| 0 <= a < j ==> (#[trigger] values@[a])@ != values@[i as int]@,
            decreases i - j,
        {
            if text_eq(values[j].as_str(), values[i].as_str()) {
                return Err(Error::new(ErrorCategory::Configuration, "sensitive_values contains a duplicate"));
            }
            j = j + 1;
        }
        i = i + 1;
    }
    Ok(())
}

// ---------------------------------------------------------------------------
// Accepting what a provider produced
// ---------------------------------------------------------------------------

/// What was found at one expected output path.
#[derive(Debug)]
pub enum OutputProbe {
    /// Nothing exists there.
    Absent,
    /// Its metadata could not be read.
    Unreadable,
    /// It is a symbolic link.
    Symlink,
    /// It is neither a regular file nor a directory.
    Other,
    /// A regular file: its size, and its digest when it could be read.
    File { bytes: u64, sha256: Option<String> },
    /// A directory: its file count, byte count, and digest, or why it could
    /// not be hashed.
    Directory { contents: Result<(u64, u64, String), ProviderExecutionFailure> },
}

/// The decision about one expected output.
pub enum ProbeVerdict {
    /// An absent optional output.
    Skip,
    /// The execution fails with this code.
    Fail(ProviderExecutionFailureCode),
    /// Accepted with this many files and bytes.
    Accept(u64, u64),
}

pub open spec fn probe_verdict(expected: ExpectedProviderOutput, port: ArtifactPort, probe: OutputProbe) -> ProbeVerdict {
    match probe {
        OutputProbe::Absent => if port.cardinality == ArtifactCardinality::Optional {
            ProbeVerdict::Skip
        } else {
            ProbeVerdict::Fail(ProviderExecutionFailureCode::MissingOutput)
        },
        OutputProbe::Unreadable => ProbeVerdict::Fail(ProviderExecutionFailureCode::OutputReadFailed),
        OutputProbe::Symlink => ProbeVerdict::Fail(ProviderExecutionFailureCode::SymlinkOutput),
        OutputProbe::Other => ProbeVerdict::Fail(ProviderExecutionFailureCode::InvalidOutputType),
        OutputProbe::File { bytes, sha256 } => if expected.kind != ArtifactKind::File {
            ProbeVerdict::Fail(ProviderExecutionFailureCode::InvalidOutputType)
        } else if bytes == 0 {
            ProbeVerdict::Fail(ProviderExecutionFailureCode::EmptyOutput)
        } else if sha256 is None {
            ProbeVerdict::Fail(ProviderExecutionFailureCode::OutputReadFailed)
        } else {
            ProbeVerdict::Accept(1, bytes)
        },
        OutputProbe::Directory { contents } => if expected.kind != ArtifactKind::Directory {
            ProbeVerdict::Fail(ProviderExecutionFailureCode::InvalidOutputType)
        } else {
            match contents {
                Err(f) => ProbeVerdict::Fail(f.code),
                Ok((files, bytes, _)) => ProbeVerdict::Accept(files, bytes),
            }
        },
    }
}

/// `a + b`, held at `u64::MAX`.
pub open spec fn saturating_sum(a: int, b: int) -> int {
    if a + b > u64::MAX { u64::MAX as int } else { a + b }
}

/// The verdicts of the first `n` outputs: the first failure, or the
/// accepted positions with their running file and byte totals.
pub open spec fn tally(
    expected: Seq<ExpectedProviderOutput>,
    ports: Seq<ArtifactPort>,
    probes: Seq<OutputProbe>,
    maximum_files: u64,
    maximum_bytes: u64,
    n: int,
) -> (Option<ProviderExecutionFailureCode>, Seq<int>, int, int)
    decreases n,
{
    if n <= 0 {
        (None, Seq::empty(), 0, 0)
    } else {
        let prev = tally(expected, ports, probes, maximum_files, maximum_bytes, n - 1);
        if prev.0 is Some {
            prev
        } else {
            match probe_verdict(expected[n - 1], port_named(ports, expected[n - 1].port@)->0, probes[n - 1]) {
                ProbeVerdict::Skip => prev,
                ProbeVerdict::Fail(code) => (Some(code), prev.1, prev.2, prev.3),
                ProbeVerdict::Accept(f, b) => {
                    let files = saturating_sum(prev.2, f as int);
                    let bytes = saturating_sum(prev.3, b as int);
                    if files > maximum_files {
                        (Some(ProviderExecutionFailureCode::ArtifactFileLimit), prev.1, files, bytes)
                    } else if bytes > maximum_bytes {
                        (Some(ProviderExecutionFailureCode::ArtifactByteLimit), prev.1, files, bytes)
                    } else {
                        (None, prev.1.push(n - 1), files, bytes)
                    }
                },
            }
        }
    }
}

/// An accepted observation, by value.
pub type ObservationView = (Seq<char>, Seq<char>, ArtifactKind, u64, u64, Seq<char>);

pub open spec fn observation_view(o: ArtifactObservation) -> ObservationView {
    (o.port@, o.relative_path@, o.kind, o.file_count, o.byte_count, o.sha256@)
}

/// The observation an accepted probe yields.
pub open spec fn accepted_view(expected: ExpectedProviderOutput, probe: OutputProbe) -> ObservationView {
    let port = expected.port@;
    let path = normalized_path(expected.relative_path@);
    match probe {
        OutputProbe::File { bytes, sha256 } => (port, path, expected.kind, 1, bytes, sha256->0@),
        OutputProbe::Directory { contents } => (
            port,
            path,
            expected.kind,
            contents->Ok_0.0,
            contents->Ok_0.1,
            contents->Ok_0.2@,
        ),
        _ => (port, path, expected.kind, 0, 0, Seq::empty()),
    }
}

/// Each observation's port precedes the next ones'.
pub open spec fn ports_strictly_ascending(v: Seq<ArtifactObservation>) -> bool {
    forall|a: int, b: int| 0 <= a < b < v.len() ==> text_less((#[trigger] v[a]).port@, (#[trigger] v[b]).port@)
}

fn failure_for(code: ProviderExecutionFailureCode, port: &str, detail: &str) -> (f: ProviderExecutionFailure)
    ensures
        f.code == code,
        f.detail@ == "output port "@ + port@ + " "@ + detail@,
{
    let mut text = crate::text::join3("output port ", port, " ");
    text.append(detail);
    execution_failure(code, text)
}

/// Insert an observation at its place by port.
fn insert_by_port(v: &mut Vec<ArtifactObservation>, o: ArtifactObservation)
    requires
        ports_strictly_ascending(old(v)@),
        forall|k: int| 0 <= k < old(v)@.len() ==> (#[trigger] old(v)@[k]).port@ != o.port@,
    ensures
        ports_strictly_ascending(final(v)@),
        final(v)@.map_values(|x: ArtifactObservation| observation_view(x)).to_multiset() == old(v)@.map_values(
            |x: ArtifactObservation| observation_view(x),
        ).to_multiset().insert(observation_view(o)),
        forall|k: int| 0 <= k < final(v)@.len() ==> (#[trigger] final(v)@[k]).port@ == o.port@ || old(v)@.contains(final(v)@[k]),
{
    let ghost before = v@;
    let mut pos: usize = 0;
    while pos < v.len()
        invariant
            before == v@,
            pos <= v.len(),
            forall|k: int| 0 <= k < pos ==> text_less((#[trigger] v@[k]).port@, o.port@),
        ensures
            pos <= v.len(),
            forall|k: int| 0 <= k < pos ==> text_less((#[trigger] v@[k]).port@, o.port@),
            pos < v.len() ==> !text_less(v@[pos as int].port@, o.port@),
        decreases v.len() - pos,
    {
        if !text_lt(v[pos].port.as_str(), o.port.as_str()) {
            break;
        }
        pos = pos + 1;
    }
    let ghost view = observation_view(o);
    proof {
        if pos < before.len() {
            crate::order::lemma_text_less_trichotomy(before[pos as int].port@, o.port@);
            assert(text_less(o.port@, before[pos as int].port@));
            assert forall|k: int| pos <= k < before.len() implies text_less(o.port@, (#[trigger] before[k]).port@) by {
                if k > pos {
                    assert(text_less(before[pos as int].port@, before[k].port@));
                    crate::order::lemma_text_less_transitive(o.port@, before[pos as int].port@, before[k].port@);
                }
            }
        }
    }
    v.insert(pos, o);
    proof {
        let after = v@;
        assert(after == before.insert(pos as int, o));
        assert forall|a: int, b: int| 0 <= a < b < after.len() implies text_less(
            (#[trigger] after[a]).port@,
            (#[trigger] after[b]).port@,
        ) by {
            if b < pos {
                assert(after[a] == before[a] && after[b] == before[b]);
            } else if b == pos {
                assert(after[a] == before[a]);
            } else if a < pos {
                assert(after[a] == before[a] && after[b] == before[b - 1]);
                crate::order::lemma_text_less_transitive(before[a].port@, o.port@, before[b - 1].port@);
            } else if a == pos {
                assert(after[b] == before[b - 1]);
            } else {
                assert(after[a] == before[a - 1] && after[b] == before[b - 1]);
            }
        }
        assert(after.map_values(|x: ArtifactObservation| observation_view(x)) =~= before.map_values(
            |x: ArtifactObservation| observation_view(x),
        ).insert(pos as int, view));
        vstd::seq_lib::to_multiset_insert(
            before.map_values(|x: ArtifactObservation| observation_view(x)),
            pos as int,
            view,
        );
        assert forall|k: int| 0 <= k < after.len() implies (#[trigger] after[k]).port@ == o.port@ || before.contains(
            after[k],
        ) by {
            if k < pos {
                assert(after[k] == before[k]);
            } else if k > pos {
                assert(after[k] == before[k - 1]);
            }
        }
    }
}

/// Once an output fails, later outputs change nothing.
proof fn lemma_tally_sticky(
    expected: Seq<ExpectedProviderOutput>,
    ports: Seq<ArtifactPort>,
    probes: Seq<OutputProbe>,
    maximum_files: u64,
    maximum_bytes: u64,
    m: int,
    n: int,
)
    requires
        0 <= m <= n,
        tally(expected, ports, probes, maximum_files, maximum_bytes, m).0 is Some,
    ensures
        tally(expected, ports, probes, maximum_files, maximum_bytes, n) == tally(
            expected,
            ports,
            probes,
            maximum_files,
            maximum_bytes,
            m,
        ),
    decreases n - m,
{
    if n > m {
        lemma_tally_sticky(expected, ports, probes, maximum_files, maximum_bytes, m, n - 1);
    }
}

/// Outputs that are accepted together never exceed the artifact limits:
/// while no output has failed, the running file and byte totals stay
/// within the limits.
pub proof fn lemma_accepted_outputs_within_limits(
    expected: Seq<ExpectedProviderOutput>,
    ports: Seq<ArtifactPort>,
    probes: Seq<OutputProbe>,
    maximum_files: u64,
    maximum_bytes: u64,
    n: int,
)
    requires
        tally(expected, ports, probes, maximum_files, maximum_bytes, n).0 is None,
    ensures
        tally(expected, ports, probes, maximum_files, maximum_bytes, n).2 <= maximum_files,
        tally(expected, ports, probes, maximum_files, maximum_bytes, n).3 <= maximum_bytes,
    decreases n,
{
    if n > 0 {
        lemma_accepted_outputs_within_limits(expected, ports, probes, maximum_files, maximum_bytes, n - 1);
    }
}

/// The observations an accepted tally yields, by value.
pub open spec fn accepted_views(
    expected: Seq<ExpectedProviderOutput>,
    probes: Seq<OutputProbe>,
    positions: Seq<int>,
) -> Seq<ObservationView> {
    positions.map_values(|k: int| accepted_view(expected[k], probes[k]))
}

/// Decide the outputs of one execution from what was found at each
/// expected path (`probes`, one per expected output, in the same order).
/// Outputs are taken in order; the first that fails decides the failure,
/// and the running file and byte totals are held to the limits after
/// each accepted output. The accepted observations come back ordered by
/// port.
pub fn assess_outputs(
    expected: &Vec<ExpectedProviderOutput>,
    ports: &Vec<ArtifactPort>,
    probes: &Vec<OutputProbe>,
    maximum_files: u64,
    maximum_bytes: u64,
) -> (r: Result<Vec<ArtifactObservation>, ProviderExecutionFailure>)
    requires
        expected_outputs_valid(expected@, ports@),
        probes@.len() == expected@.len(),
    ensures
        r is Ok <==> tally(expected@, ports@, probes@, maximum_files, maximum_bytes, expected@.len() as int).0 is None,
        r matches Err(f) ==> tally(expected@, ports@, probes@, maximum_files, maximum_bytes, expected@.len() as int).0
            == Some(f.code),
        r matches Ok(v) ==> {
            &&& ports_strictly_ascending(v@)
            &&& v@.map_values(|x: ArtifactObservation| observation_view(x)).to_multiset() == accepted_views(
                expected@,
                probes@,
                tally(expected@, ports@, probes@, maximum_files, maximum_bytes, expected@.len() as int).1,
            ).to_multiset()
        },
{
    let ghost n = expected@.len() as int;
    let mut observations: Vec<ArtifactObservation> = Vec::new();
    let mut total_files: u64 = 0;
    let mut total_bytes: u64 = 0;
    let mut i: usize = 0;
    while i < expected.len()
        invariant
            expected_outputs_valid(expected@, ports@),
            probes@.len() == expected@.len(),
            n == expected@.len(),
            i <= expected.len(),
            tally(expected@, ports@, probes@, maximum_files, maximum_bytes, i as int).0 is None,
            total_files == tally(expected@, ports@, probes@, maximum_files, maximum_bytes, i as int).2,
            total_bytes == tally(expected@, ports@, probes@, maximum_files, maximum_bytes, i as int).3,
            ports_strictly_ascending(observations@),
            observations@.map_values(|x: ArtifactObservation| observation_view(x)).to_multiset() == accepted_views(
                expected@,
                probes@,
                tally(expected@, ports@, probes@, maximum_files, maximum_bytes, i as int).1,
            ).to_multiset(),
            forall|k: int|
                0 <= k < observations@.len() ==> exists|a: int|
                    0 <= a < i && (#[trigger] observations@[k]).port@ == (#[trigger] expected@[a]).port@,
        decreases expected.len() - i,
    {
        let ghost prev = tally(expected@, ports@, probes@, maximum_files, maximum_bytes, i as int);
        let ghost next = tally(expected@, ports@, probes@, maximum_files, maximum_bytes, i + 1);
        let item = &expected[i];
        let found = find_port(ports, item.port.as_str());
        assert(port_named(ports@, expected@[i as int].port@) is Some);
        let slot = found.unwrap();
        let port = &ports[slot];
        let ghost verdict = probe_verdict(expected@[i as int], port_named(ports@, expected@[i as int].port@)->0, probes@[i as int]);
        assert(next == match verdict {
            ProbeVerdict::Skip => prev,
            ProbeVerdict::Fail(code) => (Some(code), prev.1, prev.2, prev.3),
            ProbeVerdict::Accept(f, b) => {
                let files = saturating_sum(prev.2, f as int);
                let bytes = saturating_sum(prev.3, b as int);
                if files > maximum_files {
                    (Some(ProviderExecutionFailureCode::ArtifactFileLimit), prev.1, files, bytes)
                } else if bytes > maximum_bytes {
                    (Some(ProviderExecutionFailureCode::ArtifactByteLimit), prev.1, files, bytes)
                } else {
                    (None, prev.1.push(i as int), files, bytes)
                }
            },
        });
        let (file_count, byte_count, digest): (u64, u64, String) = match &probes[i] {
            OutputProbe::Absent => {
                if port.cardinality == ArtifactCardinality::Optional {
                    i = i + 1;
                    continue;
                }
                proof { lemma_tally_sticky(expected@, ports@, probes@, maximum_files, maximum_bytes, i + 1, n); }
                return Err(failure_for(ProviderExecutionFailureCode::MissingOutput, item.port.as_str(), "was not created"));
            },
            OutputProbe::Unreadable => {
                proof { lemma_tally_sticky(expected@, ports@, probes@, maximum_files, maximum_bytes, i + 1, n); }
                return Err(
                    failure_for(ProviderExecutionFailureCode::OutputReadFailed, item.port.as_str(), "metadata could not be read"),
                );
            },
            OutputProbe::Symlink => {
                proof { lemma_tally_sticky(expected@, ports@, probes@, maximum_files, maximum_bytes, i + 1, n); }
                return Err(failure_for(ProviderExecutionFailureCode::SymlinkOutput, item.port.as_str(), "is a symbolic link"));
            },
            OutputProbe::Other => {
                proof { lemma_tally_sticky(expected@, ports@, probes@, maximum_files, maximum_bytes, i + 1, n); }
                return Err(
                    failure_for(ProviderExecutionFailureCode::InvalidOutputType, item.port.as_str(), "has the wrong filesystem type"),
                );
            },
            OutputProbe::File { bytes, sha256 } => {
                if item.kind != ArtifactKind::File {
                    proof { lemma_tally_sticky(expected@, ports@, probes@, maximum_files, maximum_bytes, i + 1, n); }
                    return Err(
                        failure_for(ProviderExecutionFailureCode::InvalidOutputType, item.port.as_str(), "has the wrong filesystem type"),
                    );
                }
                if *bytes == 0 {
                    proof { lemma_tally_sticky(expected@, ports@, probes@, maximum_files, maximum_bytes, i + 1, n); }
                    return Err(failure_for(ProviderExecutionFailureCode::EmptyOutput, item.port.as_str(), "is empty"));
                }
                match sha256 {
                    Some(d) => (1u64, *bytes, d.clone()),
                    None => {
                        proof { lemma_tally_sticky(expected@, ports@, probes@, maximum_files, maximum_bytes, i + 1, n); }
                        return Err(
                            failure_for(ProviderExecutionFailureCode::OutputReadFailed, item.port.as_str(), "could not be hashed"),
                        );
                    },
                }
            },
            OutputProbe::Directory { contents } => {
                if item.kind != ArtifactKind::Directory {
                    proof { lemma_tally_sticky(expected@, ports@, probes@, maximum_files, maximum_bytes, i + 1, n); }
                    return Err(
                        failure_for(ProviderExecutionFailureCode::InvalidOutputType, item.port.as_str(), "has the wrong filesystem type"),
                    );
                }
                match contents {
                    Ok((files, bytes, d)) => (*files, *bytes, d.clone()),
                    Err(f) => {
                        proof { lemma_tally_sticky(expected@, ports@, probes@, maximum_files, maximum_bytes, i + 1, n); }
                        return Err(execution_failure(f.code, f.detail.clone()));
                    },
                }
            },
        };
        total_files = total_files.saturating_add(file_count);
        total_bytes = total_bytes.saturating_add(byte_count);
        if total_files > maximum_files {
            proof { lemma_tally_sticky(expected@, ports@, probes@, maximum_files, maximum_bytes, i + 1, n); }
            return Err(execution_failure(
                ProviderExecutionFailureCode::ArtifactFileLimit,
                owned("validated outputs exceed the artifact file-count limit"),
            ));
        }
        if total_bytes > maximum_bytes {
            proof { lemma_tally_sticky(expected@, ports@, probes@, maximum_files, maximum_bytes, i + 1, n); }
            return Err(execution_failure(
                ProviderExecutionFailureCode::ArtifactByteLimit,
                owned("validated outputs exceed the artifact byte limit"),
            ));
        }
        let observation = ArtifactObservation {
            port: item.port.clone(),
            relative_path: normalize_relative_path(item.relative_path.as_str()),
            kind: item.kind,
            file_count,
            byte_count,
            sha256: digest,
        };
        assert(observation_view(observation) == accepted_view(expected@[i as int], probes@[i as int]));
        proof {
            assert forall|k: int| 0 <= k < observations@.len() implies (#[trigger] observations@[k]).port@ != observation.port@ by {
                let a = choose|a: int| 0 <= a < i && observations@[k].port@ == (#[trigger] expected@[a]).port@;
                assert(expected@[a].port@ != expected@[i as int].port@);
            }
        }
        let ghost before = observations@;
        insert_by_port(&mut observations, observation);
        proof {
            assert(accepted_views(expected@, probes@, next.1) =~= accepted_views(expected@, probes@, prev.1).push(
                accepted_view(expected@[i as int], probes@[i as int]),
            ));
            assert forall|k: int| 0 <= k < observations@.len() implies exists|a: int|
                0 <= a < i + 1 && (#[trigger] observations@[k]).port@ == (#[trigger] expected@[a]).port@ by {
                if observations@[k].port@ == expected@[i as int].port@ {
                    assert(expected@[i as int] == expected@[i as int]);
                } else {
                    assert(before.contains(observations@[k]));
                    let j = choose|j: int| 0 <= j < before.len() && before[j] == observations@[k];
                    assert(before[j] == observations@[k]);
                    let a = choose|a: int| 0 <= a < i && before[j].port@ == (#[trigger] expected@[a]).port@;
                    assert(expected@[a] == expected@[a]);
                }
            }
        }
        i = i + 1;
    }
    Ok(observations)
}

/// One entry found beneath a provider's output directory.
#[derive(Debug)]
pub enum OutputEntry {
    /// The walk, or the entry's metadata, could not be read.
    Unreadable,
    /// An entry at this path relative to the output directory.
    Found { relative_path: String, symlink: bool },
}

/// The entry lies within an expected output, or an expected output lies
/// within it.
pub open spec fn entry_allowed(path: Seq<char>, expected: Seq<ExpectedProviderOutput>) -> bool {
    exists|i: int| 0 <= i < expected.len() && relative_paths_nest(path, (#[trigger] expected[i]).relative_path@)
}

/// Why an entry beneath the output directory fails the execution, if it
/// does.
pub open spec fn entry_verdict(entry: OutputEntry, expected: Seq<ExpectedProviderOutput>) -> Option<
    ProviderExecutionFailureCode,
> {
    match entry {
        OutputEntry::Unreadable => Some(ProviderExecutionFailureCode::OutputReadFailed),
        OutputEntry::Found { relative_path, symlink } => if symlink {
            Some(ProviderExecutionFailureCode::SymlinkOutput)
        } else if !entry_allowed(relative_path@, expected) {
            Some(ProviderExecutionFailureCode::UnexpectedOutput)
        } else {
            None
        },
    }
}

fn entry_is_allowed(path: &str, expected: &Vec<ExpectedProviderOutput>) -> (r: bool)
    ensures
        r == entry_allowed(path@, expected@),
{
    let mut i: usize = 0;
    while i < expected.len()
        invariant
            i <= expected.len(),
            forall|a: int| 0 <= a < i ==> !relative_paths_nest(path@, (#[trigger] expected@[a]).relative_path@),
        decreases expected.len() - i,
    {
        if relative_paths_overlap(path, expected[i].relative_path.as_str()) {
            return true;
        }
        i = i + 1;
    }
    false
}

/// Check every entry found beneath the output directory, in walk order:
/// none may be unreadable or a symbolic link, and each must lie on the
/// way to, or within, an expected output. The first entry that breaks a
/// rule decides the failure.
pub fn screen_output_entries(entries: &Vec<OutputEntry>, expected: &Vec<ExpectedProviderOutput>) -> (r: Result<
    (),
    ProviderExecutionFailure,
>)
    ensures
        r is Ok <==> forall|k: int| 0 <= k < entries@.len() ==> entry_verdict(#[trigger] entries@[k], expected@) is None,
        r matches Err(f) ==> exists|k: int|
            0 <= k < entries@.len() && entry_verdict(#[trigger] entries@[k], expected@) == Some(f.code) && forall|j: int|
                0 <= j < k ==> entry_verdict(#[trigger] entries@[j], expected@) is None,
{
    let mut k: usize = 0;
    while k < entries.len()
        invariant
            k <= entries.len(),
            forall|j: int| 0 <= j < k ==> entry_verdict(#[trigger] entries@[j], expected@) is None,
        decreases entries.len() - k,
    {
        match &entries[k] {
            OutputEntry::Unreadable => {
                return Err(execution_failure(
                    ProviderExecutionFailureCode::OutputReadFailed,
                    owned("provider output directory could not be traversed"),
                ));
            },
            OutputEntry::Found { relative_path, symlink } => {
                if *symlink {
                    return Err(execution_failure(
                        ProviderExecutionFailureCode::SymlinkOutput,
                        owned("provider output contains a symbolic link"),
                    ));
                }
                if !entry_is_allowed(relative_path.as_str(), expected) {
                    let text = crate::text::join3("provider created unexpected output ", relative_path.as_str(), "");
                    return Err(execution_failure(ProviderExecutionFailureCode::UnexpectedOutput, text));
                }
            },
        }
        k = k + 1;
    }
    Ok(())
}

} // verus!
