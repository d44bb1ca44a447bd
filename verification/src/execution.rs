//! Bounds, lifecycle events, captured diagnostics, and the self-validating
//! report of one bounded provider invocation.
//!
//! Process supervision happens outside the library; what it observed comes
//! back here, where the evidence is assembled and checked against its
//! contract.
use vstd::prelude::*;

use crate::error::{Error, ErrorCategory};
use crate::provider::{require_nonempty, require_schema, require_sha256, require_token};
use crate::provider_runtime::{PROVIDER_EVENT_SCHEMA_V1, PROVIDER_EXECUTION_REPORT_SCHEMA_V1, ProviderLock};
use crate::text::{is_blank, is_sha256_hex, is_token, join2, join3, owned, text_eq};
use crate::json::{canonical_digest, encodable_sha256};
use crate::canonical::{
    lemma_provider_execution_report_payload_encodable, provider_execution_report_payload_json,
    provider_execution_report_payload_value,
};

verus! {

broadcast use vstd::seq_lib::group_seq_properties;

/// Expected filesystem shape for one declared output port.
#[derive(Debug, Clone, Copy, PartialEq, Eq, Structural)]
pub enum ArtifactKind {
    File,
    Directory,
}

/// A span of time: whole seconds and the nanoseconds beyond them.
#[derive(Debug, Clone, Copy, PartialEq, Eq, Structural)]
pub struct TimeSpan {
    pub seconds: u64,
    pub subsec_nanos: u32,
}

/// How long a child process may run and how much of each output stream is
/// kept.
#[derive(Debug, Clone, Copy, PartialEq, Eq, Structural)]
pub struct ProcessLimits {
    pub timeout: TimeSpan,
    pub maximum_output_bytes: usize,
}

impl TimeSpan {
    /// The span in whole milliseconds, rounded down.
    pub open spec fn spec_milliseconds(&self) -> int {
        self.seconds * 1000 + self.subsec_nanos / 1_000_000
    }

    pub open spec fn spec_is_zero(&self) -> bool {
        self.seconds == 0 && self.subsec_nanos == 0
    }
}

/// Caller-owned path binding for one provider output port.
#[derive(Debug)]
pub struct ExpectedProviderOutput {
    pub port: String,
    pub relative_path: String,
    pub kind: ArtifactKind,
}

/// Hard runtime and artifact bounds for one local invocation.
#[derive(Debug, Clone, Copy, PartialEq, Eq, Structural)]
pub struct ProviderExecutionLimits {
    pub timeout: TimeSpan,
    pub termination_grace_period: TimeSpan,
    pub maximum_stdout_bytes: u64,
    pub maximum_stderr_bytes: u64,
    pub maximum_artifact_files: u64,
    pub maximum_artifact_bytes: u64,
}

/// Serializable bounds retained in execution evidence.
#[derive(Debug, Clone, Copy, PartialEq, Eq, Structural)]
pub struct ProviderExecutionBounds {
    pub timeout_milliseconds: u64,
    pub termination_grace_milliseconds: u64,
    pub maximum_stdout_bytes: u64,
    pub maximum_stderr_bytes: u64,
    pub maximum_artifact_files: u64,
    pub maximum_artifact_bytes: u64,
}

/// Captured stream identity.
#[derive(Debug, Clone, Copy, PartialEq, Eq, Structural)]
pub enum StreamKind {
    Stdout,
    Stderr,
}

/// Bounded, redacted process diagnostics.
#[derive(Debug)]
pub struct CapturedDiagnostic {
    pub stream: StreamKind,
    pub retained_text: String,
    pub total_bytes: u64,
    pub truncated: bool,
    pub redacted: bool,
}

/// Validated immutable output identity.
#[derive(Debug)]
pub struct ArtifactObservation {
    pub port: String,
    pub relative_path: String,
    pub kind: ArtifactKind,
    pub file_count: u64,
    pub byte_count: u64,
    pub sha256: String,
}

/// High-level lifecycle observation emitted during an invocation.
#[derive(Debug, Clone, Copy, PartialEq, Eq, Structural)]
pub enum ProviderEventKind {
    ExecutionStarted,
    CancellationObserved,
    TimeoutExceeded,
    CaptureLimitExceeded,
    ArtifactLimitExceeded,
    ProcessExited,
    OutputValidationStarted,
    OutputValidated,
    ExecutionSucceeded,
    ExecutionFailed,
}

/// Ordered provider event, scoped to one exact lock.
#[derive(Debug)]
pub struct ProviderEvent {
    pub schema: String,
    pub sequence: u64,
    pub observed_at: String,
    pub provider_lock_sha256: String,
    pub kind: ProviderEventKind,
}

/// Process-level termination mechanism, independent from output acceptance.
#[derive(Debug, Clone, Copy, PartialEq, Eq, Structural)]
pub enum TerminationReason {
    NaturalExit,
    PreflightRejected,
    SpawnFailed,
    Cancelled,
    TimedOut,
    CaptureLimitExceeded,
    ArtifactLimitExceeded,
}

/// Terminal execution outcome after output validation.
#[derive(Debug, Clone, Copy, PartialEq, Eq, Structural)]
pub enum ProviderExecutionOutcome {
    Succeeded,
    Failed,
    Cancelled,
    TimedOut,
    CaptureLimitExceeded,
    ArtifactLimitExceeded,
    InvalidOutput,
}

/// Stable failure categories suitable for callers and state machines.
#[derive(Debug, Clone, Copy, PartialEq, Eq, Structural)]
pub enum ProviderExecutionFailureCode {
    ImplementationChanged,
    SpawnFailed,
    ExitFailure,
    Cancelled,
    Timeout,
    StdoutLimit,
    StderrLimit,
    ArtifactFileLimit,
    ArtifactByteLimit,
    CaptureReadFailed,
    MissingOutput,
    UnexpectedOutput,
    InvalidOutputType,
    EmptyOutput,
    SymlinkOutput,
    OutputReadFailed,
}

/// Redacted, actionable terminal failure evidence.
#[derive(Debug)]
pub struct ProviderExecutionFailure {
    pub code: ProviderExecutionFailureCode,
    pub detail: String,
}

/// Process exit data. A zero exit remains insufficient for success.
#[derive(Debug, Clone, Copy, PartialEq, Eq, Structural)]
pub struct ProviderTermination {
    pub reason: TerminationReason,
    pub exit_code: Option<i32>,
    pub signal: Option<i32>,
}

/// Canonical material covered by `report_sha256`.
#[derive(Debug)]
pub struct ProviderExecutionReportPayload {
    pub provider_lock: ProviderLock,
    pub outcome: ProviderExecutionOutcome,
    pub started_at: String,
    pub finished_at: String,
    pub duration_milliseconds: u64,
    pub bounds: ProviderExecutionBounds,
    pub termination: ProviderTermination,
    pub stdout: CapturedDiagnostic,
    pub stderr: CapturedDiagnostic,
    pub outputs: Vec<ArtifactObservation>,
    pub events: Vec<ProviderEvent>,
    pub failure: Option<ProviderExecutionFailure>,
}

/// Self-validating execution evidence with no argv or environment material.
#[derive(Debug)]
pub struct ProviderExecutionReport {
    pub schema: String,
    pub algorithm: String,
    pub report_sha256: String,
    pub payload: ProviderExecutionReportPayload,
}

// ---------------------------------------------------------------------------
// Time
// ---------------------------------------------------------------------------

/// The instant that `chrono::DateTime::parse_from_rfc3339` reads from the
/// text, as whole seconds since the Unix epoch and the nanoseconds beyond,
/// or `None` when the text is not RFC 3339.
pub uninterp spec fn rfc3339_instant(text: Seq<char>) -> Option<(i64, u32)>;

/// Calls `chrono::DateTime::parse_from_rfc3339` and returns the instant it
/// parsed as its Unix timestamp and the nanoseconds beyond it.
#[verifier::external_body]
fn parse_rfc3339(text: &str) -> (r: Option<(i64, u32)>)
    ensures
        r == rfc3339_instant(text@),
{
    match chrono::DateTime::parse_from_rfc3339(text) {
        Ok(instant) => Some((instant.timestamp(), instant.timestamp_subsec_nanos())),
        Err(_) => None,
    }
}

/// Instant order: `a` is not later than `b`.
pub open spec fn instant_le(a: (i64, u32), b: (i64, u32)) -> bool {
    a.0 < b.0 || (a.0 == b.0 && a.1 <= b.1)
}

fn instant_not_later(a: (i64, u32), b: (i64, u32)) -> (r: bool)
    ensures
        r == instant_le(a, b),
{
    a.0 < b.0 || (a.0 == b.0 && a.1 <= b.1)
}

/// Whole milliseconds of a span, saturating at `u64::MAX`; a non-zero span
/// shorter than a millisecond counts as one.
pub open spec fn span_milliseconds(span: TimeSpan) -> u64 {
    if span.spec_is_zero() {
        0
    } else if span.spec_milliseconds() > u64::MAX {
        u64::MAX
    } else if span.spec_milliseconds() < 1 {
        1
    } else {
        span.spec_milliseconds() as u64
    }
}

pub fn duration_milliseconds(span: TimeSpan) -> (r: u64)
    ensures
        r == span_milliseconds(span),
{
    if span.seconds == 0 && span.subsec_nanos == 0 {
        return 0;
    }
    let whole: u128 = (span.seconds as u128) * 1000 + (span.subsec_nanos as u128) / 1_000_000;
    if whole > u64::MAX as u128 {
        u64::MAX
    } else if whole < 1 {
        1
    } else {
        whole as u64
    }
}

// ---------------------------------------------------------------------------
// Limits and bounds
// ---------------------------------------------------------------------------

impl ProviderExecutionLimits {
    /// Non-zero timeout and limits, millisecond precision, and capture
    /// limits that this platform can address.
    pub open spec fn spec_valid(&self) -> bool {
        &&& !self.timeout.spec_is_zero()
        &&& self.maximum_stdout_bytes != 0
        &&& self.maximum_stderr_bytes != 0
        &&& self.maximum_artifact_files != 0
        &&& self.maximum_artifact_bytes != 0
        &&& self.timeout.subsec_nanos % 1_000_000 == 0
        &&& self.termination_grace_period.subsec_nanos % 1_000_000 == 0
        &&& self.maximum_stdout_bytes <= usize::MAX
        &&& self.maximum_stderr_bytes <= usize::MAX
    }

    pub fn validate(&self) -> (r: Result<(), Error>)
        ensures
            r is Ok <==> self.spec_valid(),
            r matches Err(e) ==> e.spec_category() == ErrorCategory::Configuration,
    {
        if self.timeout.seconds == 0 && self.timeout.subsec_nanos == 0 {
            return Err(crate::error::invalid(owned("provider timeout must be greater than zero")));
        }
        if self.maximum_stdout_bytes == 0 || self.maximum_stderr_bytes == 0 || self.maximum_artifact_files == 0
            || self.maximum_artifact_bytes == 0 {
            return Err(crate::error::invalid(owned(
                "provider capture and artifact limits must be greater than zero",
            )));
        }
        if self.timeout.subsec_nanos % 1_000_000 != 0 || self.termination_grace_period.subsec_nanos % 1_000_000
            != 0 {
            return Err(crate::error::invalid(owned(
                "provider timeout and termination grace must use millisecond precision",
            )));
        }
        if self.maximum_stdout_bytes as u128 > usize::MAX as u128 || self.maximum_stderr_bytes as u128
            > usize::MAX as u128 {
            return Err(crate::error::invalid(owned(
                "provider capture limits exceed this platform's addressable size",
            )));
        }
        Ok(())
    }
}

impl ProviderExecutionBounds {
    /// The bounds retained for these limits.
    pub open spec fn spec_from_limits(limits: ProviderExecutionLimits) -> Self {
        ProviderExecutionBounds {
            timeout_milliseconds: span_milliseconds(limits.timeout),
            termination_grace_milliseconds: span_milliseconds(limits.termination_grace_period),
            maximum_stdout_bytes: limits.maximum_stdout_bytes,
            maximum_stderr_bytes: limits.maximum_stderr_bytes,
            maximum_artifact_files: limits.maximum_artifact_files,
            maximum_artifact_bytes: limits.maximum_artifact_bytes,
        }
    }

    pub fn from_limits(limits: ProviderExecutionLimits) -> (r: Self)
        ensures
            r == Self::spec_from_limits(limits),
    {
        ProviderExecutionBounds {
            timeout_milliseconds: duration_milliseconds(limits.timeout),
            termination_grace_milliseconds: duration_milliseconds(limits.termination_grace_period),
            maximum_stdout_bytes: limits.maximum_stdout_bytes,
            maximum_stderr_bytes: limits.maximum_stderr_bytes,
            maximum_artifact_files: limits.maximum_artifact_files,
            maximum_artifact_bytes: limits.maximum_artifact_bytes,
        }
    }
}

// ---------------------------------------------------------------------------
// Events
// ---------------------------------------------------------------------------

impl ProviderEvent {
    pub open spec fn spec_valid(&self) -> bool {
        &&& self.schema@ == PROVIDER_EVENT_SCHEMA_V1@
        &&& self.sequence != 0
        &&& rfc3339_instant(self.observed_at@) is Some
        &&& is_sha256_hex(self.provider_lock_sha256@)
    }

    /// Event number `sequence` of the invocation under the given lock,
    /// observed at the given RFC 3339 time.
    pub fn new(sequence: u64, provider_lock_sha256: &str, kind: ProviderEventKind, observed_at: String) -> (r: Self)
        ensures
            r.schema@ == PROVIDER_EVENT_SCHEMA_V1@,
            r.sequence == sequence,
            r.observed_at@ == observed_at@,
            r.provider_lock_sha256@ == provider_lock_sha256@,
            r.kind == kind,
    {
        ProviderEvent {
            schema: owned(PROVIDER_EVENT_SCHEMA_V1),
            sequence,
            observed_at,
            provider_lock_sha256: owned(provider_lock_sha256),
            kind,
        }
    }

    pub fn validate(&self) -> (r: Result<(), Error>)
        ensures
            r is Ok <==> self.spec_valid(),
            r matches Err(e) ==> e.spec_category() == ErrorCategory::Configuration,
    {
        require_schema(self.schema.as_str(), PROVIDER_EVENT_SCHEMA_V1)?;
        if self.sequence == 0 {
            return Err(crate::error::invalid(owned("provider event sequence must be at least 1")));
        }
        if parse_rfc3339(self.observed_at.as_str()).is_none() {
            return Err(crate::error::invalid(owned("invalid provider event observed_at")));
        }
        require_sha256(self.provider_lock_sha256.as_str(), "provider_lock_sha256")
    }
}

/// Appends the next event of an invocation, numbered one past the last.
pub fn emit_event(
    events: &mut Vec<ProviderEvent>,
    provider_lock_sha256: &str,
    kind: ProviderEventKind,
    observed_at: String,
) -> (r: Result<(), Error>)
    ensures
        r is Ok <==> old(events)@.len() + 1 <= u64::MAX,
        r is Ok ==> final(events)@.len() == old(events)@.len() + 1 && final(events)@.drop_last() == old(events)@
            && ({
            let e = final(events)@.last();
            &&& e.schema@ == PROVIDER_EVENT_SCHEMA_V1@
            &&& e.sequence == old(events)@.len() + 1
            &&& e.observed_at@ == observed_at@
            &&& e.provider_lock_sha256@ == provider_lock_sha256@
            &&& e.kind == kind
        }),
        r is Err ==> final(events)@ == old(events)@,
{
    if events.len() as u128 + 1 > u64::MAX as u128 {
        return Err(crate::error::invalid(owned("provider event count exceeds the v1 contract limit")));
    }
    let sequence = events.len() as u64 + 1;
    let event = ProviderEvent::new(sequence, provider_lock_sha256, kind, observed_at);
    events.push(event);
    assert(final(events)@.drop_last() =~= old(events)@);
    Ok(())
}

// ---------------------------------------------------------------------------
// Diagnostics
// ---------------------------------------------------------------------------

/// The number of bytes UTF-8 encodes a character in.
pub open spec fn char_utf8_width(c: char) -> nat {
    if (c as u32) < 0x80 {
        1
    } else if (c as u32) < 0x800 {
        2
    } else if (c as u32) < 0x10000 {
        3
    } else {
        4
    }
}

/// The UTF-8 byte length of a text.
pub open spec fn utf8_len(text: Seq<char>) -> nat
    decreases text.len(),
{
    if text.len() == 0 {
        0
    } else {
        utf8_len(text.drop_last()) + char_utf8_width(text.last())
    }
}

fn text_utf8_len(text: &str) -> (n: u128)
    ensures
        n == utf8_len(text@),
{
    let chars = crate::text::chars_of(text);
    let mut n: u128 = 0;
    let mut i: usize = 0;
    while i < chars.len()
        invariant
            i <= chars.len(),
            chars@ == text@,
            n == utf8_len(chars@.take(i as int)),
            n <= 4 * i,
        decreases chars.len() - i,
    {
        assert(chars@.take(i + 1).drop_last() =~= chars@.take(i as int));
        let c = chars[i] as u32;
        let width: u128 = if c < 0x80 {
            1
        } else if c < 0x800 {
            2
        } else if c < 0x10000 {
            3
        } else {
            4
        };
        n = n + width;
        i = i + 1;
    }
    assert(chars@.take(chars.len() as int) =~= chars@);
    n
}

/// `bound * 10`, saturating at `u64::MAX`.
pub open spec fn rendered_bound(bound: u64) -> int {
    if bound * 10 > u64::MAX {
        u64::MAX as int
    } else {
        bound * 10
    }
}

/// Truncation matches the applied bound, and the retained text (which
/// redaction may lengthen) stays within ten times it.
pub open spec fn diagnostic_valid(diagnostic: CapturedDiagnostic, maximum_bytes: u64) -> bool {
    &&& diagnostic.truncated == (diagnostic.total_bytes > maximum_bytes)
    &&& utf8_len(diagnostic.retained_text@) <= rendered_bound(maximum_bytes)
}

pub fn validate_diagnostic(diagnostic: &CapturedDiagnostic, maximum_bytes: u64, name: &str) -> (r: Result<(), Error>)
    ensures
        r is Ok <==> diagnostic_valid(*diagnostic, maximum_bytes),
        r matches Err(e) ==> e.spec_category() == ErrorCategory::Configuration,
{
    if diagnostic.truncated != (diagnostic.total_bytes > maximum_bytes) {
        return Err(crate::error::invalid(join2(name, " truncation does not match its applied capture bound")));
    }
    let rendered: u64 = if maximum_bytes > u64::MAX / 10 {
        u64::MAX
    } else {
        maximum_bytes * 10
    };
    let length = text_utf8_len(diagnostic.retained_text.as_str());
    if length > rendered as u128 {
        return Err(crate::error::invalid(join2(
            name,
            " retained diagnostic text exceeds the redaction-safe bound",
        )));
    }
    Ok(())
}

/// An empty diagnostic for a stream that never produced output.
pub fn empty_diagnostic(stream: StreamKind) -> (r: CapturedDiagnostic)
    ensures
        r.stream == stream,
        r.retained_text@.len() == 0,
        r.total_bytes == 0,
        !r.truncated,
        !r.redacted,
{
    CapturedDiagnostic { stream, retained_text: String::new(), total_bytes: 0, truncated: false, redacted: false }
}

// ---------------------------------------------------------------------------
// Relative output paths
// ---------------------------------------------------------------------------

/// A `.` or `..` path component starts at `i`.
pub open spec fn dot_component_at(path: Seq<char>, i: int) -> bool {
    &&& 0 <= i < path.len()
    &&& i == 0 || path[i - 1] == '/'
    &&& path[i] == '.'
    &&& (i + 1 == path.len() || path[i + 1] == '/' || (path[i + 1] == '.' && (i + 2 == path.len() || path[i
        + 2] == '/')))
}

/// A relative path written the one portable way: non-empty components,
/// none of them `.` or `..`, joined by single forward slashes, and no
/// backslash anywhere.
#[verifier::opaque]
pub open spec fn is_portable_relative_path(path: Seq<char>) -> bool {
    &&& path.len() > 0
    &&& path[0] != '/'
    &&& path[path.len() - 1] != '/'
    &&& forall|i: int| 0 <= i < path.len() ==> #[trigger] path[i] != '\\'
    &&& forall|i: int| 0 <= i < path.len() - 1 ==> !(#[trigger] path[i] == '/' && path[i + 1] == '/')
    &&& forall|i: int| !#[trigger] dot_component_at(path, i)
}

pub fn portable_relative_path(path: &str) -> (r: bool)
    ensures
        r == is_portable_relative_path(path@),
{
    reveal(is_portable_relative_path);
    let p = crate::text::chars_of(path);
    let n = p.len();
    if n == 0 || p[0] == '/' || p[n - 1] == '/' {
        return false;
    }
    let mut i: usize = 0;
    while i < n
        invariant
            n == p@.len(),
            p@ == path@,
            n > 0,
            i <= n,
            forall|k: int| 0 <= k < i ==> #[trigger] p@[k] != '\\',
            forall|k: int| 0 <= k < i && k < n - 1 ==> !(#[trigger] p@[k] == '/' && p@[k + 1] == '/'),
            forall|k: int| 0 <= k < i ==> !#[trigger] dot_component_at(p@, k),
        decreases n - i,
    {
        if p[i] == '\\' {
            proof {
                reveal(is_portable_relative_path);
                assert(p@[i as int] == '\\');
            }
            return false;
        }
        if i + 1 < n && p[i] == '/' && p[i + 1] == '/' {
            proof {
                reveal(is_portable_relative_path);
                assert(p@[i as int] == '/' && p@[i + 1] == '/');
            }
            return false;
        }
        if (i == 0 || p[i - 1] == '/') && p[i] == '.' && (i + 1 == n || p[i + 1] == '/' || (p[i + 1] == '.' && (i
            + 2 == n || p[i + 2] == '/'))) {
            proof {
                reveal(is_portable_relative_path);
                assert(dot_component_at(p@, i as int));
            }
            return false;
        }
        i = i + 1;
    }
    proof {
        reveal(is_portable_relative_path);
        assert forall|k: int| !#[trigger] dot_component_at(p@, k) by {
            if 0 <= k < n {
            }
        }
    }
    true
}

// ---------------------------------------------------------------------------
// Report validation
// ---------------------------------------------------------------------------

/// One accepted output: a token port, a portable path, a digest, and some
/// content.
pub open spec fn output_valid(output: ArtifactObservation) -> bool {
    &&& is_token(output.port@)
    &&& !is_blank(output.relative_path@)
    &&& is_portable_relative_path(output.relative_path@)
    &&& is_sha256_hex(output.sha256@)
    &&& output.file_count != 0
    &&& output.byte_count != 0
}

/// Valid outputs, one per port.
pub open spec fn output_entries_valid(outputs: Seq<ArtifactObservation>) -> bool {
    &&& forall|i: int| 0 <= i < outputs.len() ==> output_valid(#[trigger] outputs[i])
    &&& forall|i: int, j: int| 0 <= i < j < outputs.len() ==> (#[trigger] outputs[i]).port@ != (#[trigger] outputs[j]).port@
}

/// The port at `i` is below the port after it.
pub open spec fn ports_ordered_at(outputs: Seq<ArtifactObservation>, i: int) -> bool {
    crate::order::text_less(outputs[i].port@, outputs[i + 1].port@)
}

/// Outputs in strictly ascending port order.
pub open spec fn ports_ascending(outputs: Seq<ArtifactObservation>) -> bool {
    forall|i: int| 0 <= i < outputs.len() - 1 ==> #[trigger] ports_ordered_at(outputs, i)
}

/// Valid outputs, one per port, ascending by port.
pub open spec fn outputs_valid(outputs: Seq<ArtifactObservation>) -> bool {
    output_entries_valid(outputs) && ports_ascending(outputs)
}

fn validate_output_entries(outputs: &Vec<ArtifactObservation>) -> (r: Result<(), Error>)
    ensures
        r is Ok <==> output_entries_valid(outputs@),
        r matches Err(e) ==> e.spec_category() == ErrorCategory::Configuration,
{
    let mut i: usize = 0;
    while i < outputs.len()
        invariant
            i <= outputs.len(),
            forall|k: int| 0 <= k < i ==> output_valid(#[trigger] outputs@[k]),
            forall|k: int, l: int| 0 <= k < l < i ==> (#[trigger] outputs@[k]).port@ != (#[trigger] outputs@[l]).port@,
        decreases outputs.len() - i,
    {
        let output = &outputs[i];
        let checked = check_output(output);
        if checked.is_err() {
            assert(!output_valid(outputs@[i as int]));
            return checked;
        }
        let mut j: usize = 0;
        while j < i
            invariant
                j <= i < outputs.len(),
                forall|k: int| 0 <= k < j ==> (#[trigger] outputs@[k]).port@ != outputs@[i as int].port@,
            decreases i - j,
        {
            if text_eq(outputs[j].port.as_str(), outputs[i].port.as_str()) {
                assert(outputs@[j as int].port@ == outputs@[i as int].port@);
                return Err(crate::error::invalid(owned("execution report contains a duplicate output port")));
            }
            j = j + 1;
        }
        i = i + 1;
    }
    Ok(())
}

fn check_output(output: &ArtifactObservation) -> (r: Result<(), Error>)
    ensures
        r is Ok <==> output_valid(*output),
        r matches Err(e) ==> e.spec_category() == ErrorCategory::Configuration,
{
    require_token(output.port.as_str(), "output port")?;
    require_nonempty(output.relative_path.as_str(), "output relative_path")?;
    if !portable_relative_path(output.relative_path.as_str()) {
        return Err(crate::error::invalid(owned(
            "execution report output paths must use normalized forward slashes",
        )));
    }
    require_sha256(output.sha256.as_str(), "output sha256")?;
    if output.file_count == 0 || output.byte_count == 0 {
        return Err(crate::error::invalid(owned("accepted provider outputs must be non-empty")));
    }
    Ok(())
}

fn check_ports_ascending(outputs: &Vec<ArtifactObservation>) -> (r: Result<(), Error>)
    ensures
        r is Ok <==> ports_ascending(outputs@),
        r matches Err(e) ==> e.spec_category() == ErrorCategory::Configuration,
{
    if outputs.len() == 0 {
        return Ok(());
    }
    let mut w: usize = 1;
    while w < outputs.len()
        invariant
            1 <= w <= outputs.len(),
            forall|k: int| 0 <= k < w - 1 ==> ports_ordered_at(outputs@, k),
        decreases outputs.len() - w,
    {
        if !crate::order::text_lt(outputs[w - 1].port.as_str(), outputs[w].port.as_str()) {
            assert(!ports_ordered_at(outputs@, w - 1));
            return Err(crate::error::invalid(owned("execution report outputs must be sorted by port")));
        }
        assert(ports_ordered_at(outputs@, w - 1));
        w = w + 1;
    }
    Ok(())
}

fn validate_outputs_evidence(outputs: &Vec<ArtifactObservation>) -> (r: Result<(), Error>)
    ensures
        r is Ok <==> outputs_valid(outputs@),
        r matches Err(e) ==> e.spec_category() == ErrorCategory::Configuration,
{
    validate_output_entries(outputs)?;
    check_ports_ascending(outputs)
}

/// The time of an event whose timestamp parses.
pub open spec fn event_instant(event: ProviderEvent) -> (i64, u32) {
    match rfc3339_instant(event.observed_at@) {
        Some(t) => t,
        None => (0, 0),
    }
}

/// Valid events numbered 1, 2, ... under one lock, with timestamps in
/// order within the execution interval.
#[verifier::opaque]
pub open spec fn events_valid(
    events: Seq<ProviderEvent>,
    started: (i64, u32),
    finished: (i64, u32),
    lock_sha256: Seq<char>,
) -> bool {
    &&& events.len() > 0
    &&& forall|i: int| 0 <= i < events.len() ==> (#[trigger] events[i]).spec_valid()
    &&& forall|i: int| 0 <= i < events.len() ==> (#[trigger] events[i]).sequence == i + 1
    &&& forall|i: int| 0 <= i < events.len() ==> (#[trigger] events[i]).provider_lock_sha256@ == lock_sha256
    &&& instant_le(started, event_instant(events[0]))
    &&& forall|i: int| 0 < i < events.len() ==> instant_le(event_instant(events[i - 1]), event_instant(#[trigger] events[i]))
    &&& forall|i: int| 0 <= i < events.len() ==> instant_le(event_instant(#[trigger] events[i]), finished)
}

fn validate_events(
    events: &Vec<ProviderEvent>,
    started: (i64, u32),
    finished: (i64, u32),
    lock_sha256: &str,
) -> (r: Result<(), Error>)
    ensures
        r is Ok <==> events_valid(events@, started, finished, lock_sha256@),
        r is Ok ==> events@.len() > 0,
        r matches Err(e) ==> e.spec_category() == ErrorCategory::Configuration,
{
    if events.len() == 0 {
        proof {
            reveal(events_valid);
        }
        return Err(crate::error::invalid(owned("execution report requires lifecycle events")));
    }
    let mut previous = started;
    let mut i: usize = 0;
    while i < events.len()
        invariant
            0 < events@.len(),
            i <= events.len(),
            forall|k: int| 0 <= k < i ==> (#[trigger] events@[k]).spec_valid(),
            forall|k: int| 0 <= k < i ==> (#[trigger] events@[k]).sequence == k + 1,
            forall|k: int| 0 <= k < i ==> (#[trigger] events@[k]).provider_lock_sha256@ == lock_sha256@,
            i > 0 ==> instant_le(started, event_instant(events@[0])),
            forall|k: int| 0 < k < i ==> instant_le(event_instant(events@[k - 1]), event_instant(#[trigger] events@[k])),
            forall|k: int| 0 <= k < i ==> instant_le(event_instant(#[trigger] events@[k]), finished),
            previous == (if i == 0 { started } else { event_instant(events@[i - 1]) }),
        decreases events.len() - i,
    {
        let event = &events[i];
        let checked = event.validate();
        if checked.is_err() {
            proof {
                reveal(events_valid);
                assert(!events@[i as int].spec_valid());
            }
            return checked;
        }
        let time = match parse_rfc3339(event.observed_at.as_str()) {
            Some(t) => t,
            None => {
                return Err(crate::error::invalid(owned("invalid provider event observed_at")));
            },
        };
        assert(time == event_instant(events@[i as int]));
        if !instant_not_later(previous, time) || !instant_not_later(time, finished) {
            proof {
                reveal(events_valid);
                if i > 0 {
                    assert(!instant_le(event_instant(events@[i - 1]), event_instant(events@[i as int]))
                        || !instant_le(event_instant(events@[i as int]), finished));
                }
            }
            return Err(crate::error::invalid(owned(
                "provider event timestamps must be ordered within the execution interval",
            )));
        }
        previous = time;
        if event.sequence as u128 != i as u128 + 1 {
            proof {
                reveal(events_valid);
                assert(events@[i as int].sequence != i + 1);
            }
            return Err(crate::error::invalid(owned("provider event sequence is not contiguous")));
        }
        if !text_eq(event.provider_lock_sha256.as_str(), lock_sha256) {
            proof {
                reveal(events_valid);
                assert(events@[i as int].provider_lock_sha256@ != lock_sha256@);
            }
            return Err(crate::error::invalid(owned("provider event references a different provider lock")));
        }
        i = i + 1;
    }
    proof {
        reveal(events_valid);
    }
    Ok(())
}

/// The failure code fits the termination reason of a failed report.
pub open spec fn failed_code_consistent(reason: TerminationReason, code: ProviderExecutionFailureCode) -> bool {
    match reason {
        TerminationReason::PreflightRejected => code == ProviderExecutionFailureCode::ImplementationChanged,
        TerminationReason::SpawnFailed => code == ProviderExecutionFailureCode::SpawnFailed,
        TerminationReason::NaturalExit => code == ProviderExecutionFailureCode::ExitFailure || code
            == ProviderExecutionFailureCode::CaptureReadFailed,
        _ => false,
    }
}

/// An output-validation failure code.
pub open spec fn invalid_output_code(code: ProviderExecutionFailureCode) -> bool {
    code == ProviderExecutionFailureCode::MissingOutput || code == ProviderExecutionFailureCode::UnexpectedOutput
        || code == ProviderExecutionFailureCode::InvalidOutputType || code == ProviderExecutionFailureCode::EmptyOutput
        || code == ProviderExecutionFailureCode::SymlinkOutput || code == ProviderExecutionFailureCode::OutputReadFailed
}

/// The outcome agrees with the termination, the failure, and the final
/// event.
pub open spec fn terminal_evidence_consistent(
    outcome: ProviderExecutionOutcome,
    termination: ProviderTermination,
    failure: Option<ProviderExecutionFailure>,
    terminal: ProviderEventKind,
) -> bool {
    match outcome {
        ProviderExecutionOutcome::Succeeded => failure is None && termination.reason == TerminationReason::NaturalExit
            && termination.exit_code == Some(0i32) && terminal == ProviderEventKind::ExecutionSucceeded,
        ProviderExecutionOutcome::Failed => failure matches Some(f) && failed_code_consistent(termination.reason, f.code)
            && terminal == ProviderEventKind::ExecutionFailed,
        ProviderExecutionOutcome::Cancelled => failure matches Some(f) && termination.reason
            == TerminationReason::Cancelled && f.code == ProviderExecutionFailureCode::Cancelled && terminal
            == ProviderEventKind::ExecutionFailed,
        ProviderExecutionOutcome::TimedOut => failure matches Some(f) && termination.reason
            == TerminationReason::TimedOut && f.code == ProviderExecutionFailureCode::Timeout && terminal
            == ProviderEventKind::ExecutionFailed,
        ProviderExecutionOutcome::CaptureLimitExceeded => failure matches Some(f) && termination.reason
            == TerminationReason::CaptureLimitExceeded && (f.code == ProviderExecutionFailureCode::StdoutLimit
            || f.code == ProviderExecutionFailureCode::StderrLimit) && terminal == ProviderEventKind::ExecutionFailed,
        ProviderExecutionOutcome::ArtifactLimitExceeded => failure matches Some(f) && (termination.reason
            == TerminationReason::ArtifactLimitExceeded || termination.reason == TerminationReason::NaturalExit) && (
        f.code == ProviderExecutionFailureCode::ArtifactFileLimit || f.code
            == ProviderExecutionFailureCode::ArtifactByteLimit) && terminal == ProviderEventKind::ExecutionFailed,
        ProviderExecutionOutcome::InvalidOutput => failure matches Some(f) && termination.reason
            == TerminationReason::NaturalExit && termination.exit_code == Some(0i32) && invalid_output_code(f.code)
            && terminal == ProviderEventKind::ExecutionFailed,
    }
}

impl ProviderExecutionReportPayload {
    /// Every rule of execution evidence.
    pub open spec fn spec_valid(&self) -> bool {
        let started = rfc3339_instant(self.started_at@);
        let finished = rfc3339_instant(self.finished_at@);
        &&& self.provider_lock.spec_valid()
        &&& self.bounds.timeout_milliseconds != 0
        &&& self.bounds.maximum_stdout_bytes != 0
        &&& self.bounds.maximum_stderr_bytes != 0
        &&& self.bounds.maximum_artifact_files != 0
        &&& self.bounds.maximum_artifact_bytes != 0
        &&& started is Some
        &&& finished is Some
        &&& instant_le(started.unwrap(), finished.unwrap())
        &&& self.stdout.stream == StreamKind::Stdout
        &&& self.stderr.stream == StreamKind::Stderr
        &&& diagnostic_valid(self.stdout, self.bounds.maximum_stdout_bytes)
        &&& diagnostic_valid(self.stderr, self.bounds.maximum_stderr_bytes)
        &&& events_valid(self.events@, started.unwrap(), finished.unwrap(), self.provider_lock.lock_sha256@)
        &&& outputs_valid(self.outputs@)
        &&& (self.failure matches Some(f) ==> !is_blank(f.detail@))
        &&& !(self.termination.exit_code is Some && self.termination.signal is Some)
        &&& terminal_evidence_consistent(self.outcome, self.termination, self.failure, self.events@.last().kind)
    }

    #[verifier::rlimit(60)]
    #[verifier::spinoff_prover]
    pub fn validate(&self) -> (r: Result<(), Error>)
        ensures
            r is Ok <==> self.spec_valid(),
    {
        self.provider_lock.validate()?;
        if self.bounds.timeout_milliseconds == 0 || self.bounds.maximum_stdout_bytes == 0
            || self.bounds.maximum_stderr_bytes == 0 || self.bounds.maximum_artifact_files == 0
            || self.bounds.maximum_artifact_bytes == 0 {
            return Err(crate::error::invalid(owned(
                "execution report bounds must retain non-zero timeout, capture, and artifact limits",
            )));
        }
        let started = match parse_rfc3339(self.started_at.as_str()) {
            Some(t) => t,
            None => {
                return Err(crate::error::invalid(owned("invalid execution started_at")));
            },
        };
        let finished = match parse_rfc3339(self.finished_at.as_str()) {
            Some(t) => t,
            None => {
                return Err(crate::error::invalid(owned("invalid execution finished_at")));
            },
        };
        if !instant_not_later(started, finished) {
            return Err(crate::error::invalid(owned("execution finished_at precedes started_at")));
        }
        if self.stdout.stream != StreamKind::Stdout || self.stderr.stream != StreamKind::Stderr {
            return Err(crate::error::invalid(owned("execution report stream identities are reversed")));
        }
        validate_diagnostic(&self.stdout, self.bounds.maximum_stdout_bytes, "stdout")?;
        validate_diagnostic(&self.stderr, self.bounds.maximum_stderr_bytes, "stderr")?;
        validate_events(&self.events, started, finished, self.provider_lock.lock_sha256.as_str())?;
        validate_outputs_evidence(&self.outputs)?;
        let terminal = self.events[self.events.len() - 1].kind;
        if let Some(failure) = &self.failure {
            require_nonempty(failure.detail.as_str(), "execution failure detail")?;
        }
        if self.termination.exit_code.is_some() && self.termination.signal.is_some() {
            return Err(crate::error::invalid(owned(
                "provider termination cannot contain both an exit code and a signal",
            )));
        }
        validate_terminal_evidence(self.outcome, &self.termination, &self.failure, terminal)
    }
}

fn validate_terminal_evidence(
    outcome: ProviderExecutionOutcome,
    termination: &ProviderTermination,
    failure: &Option<ProviderExecutionFailure>,
    terminal: ProviderEventKind,
) -> (r: Result<(), Error>)
    ensures
        r is Ok <==> terminal_evidence_consistent(outcome, *termination, *failure, terminal),
        r matches Err(e) ==> e.spec_category() == ErrorCategory::Configuration,
{
    match outcome {
        ProviderExecutionOutcome::Succeeded => {
            if failure.is_some() || termination.reason != TerminationReason::NaturalExit || termination.exit_code
                != Some(0i32) || terminal != ProviderEventKind::ExecutionSucceeded {
                return Err(crate::error::invalid(owned(
                    "successful execution report has inconsistent terminal evidence",
                )));
            }
            Ok(())
        },
        ProviderExecutionOutcome::Failed => {
            let f = match failure {
                Some(f) => f,
                None => {
                    return Err(crate::error::invalid(owned("unsuccessful execution report requires a failure")));
                },
            };
            let consistent = match termination.reason {
                TerminationReason::PreflightRejected => f.code == ProviderExecutionFailureCode::ImplementationChanged,
                TerminationReason::SpawnFailed => f.code == ProviderExecutionFailureCode::SpawnFailed,
                TerminationReason::NaturalExit => f.code == ProviderExecutionFailureCode::ExitFailure || f.code
                    == ProviderExecutionFailureCode::CaptureReadFailed,
                _ => false,
            };
            if !consistent || terminal != ProviderEventKind::ExecutionFailed {
                return Err(crate::error::invalid(owned("failed execution report has inconsistent terminal evidence")));
            }
            Ok(())
        },
        ProviderExecutionOutcome::Cancelled => validate_bounded_failure(
            termination,
            failure,
            TerminationReason::Cancelled,
            ProviderExecutionFailureCode::Cancelled,
            ProviderExecutionFailureCode::Cancelled,
            terminal,
        ),
        ProviderExecutionOutcome::TimedOut => validate_bounded_failure(
            termination,
            failure,
            TerminationReason::TimedOut,
            ProviderExecutionFailureCode::Timeout,
            ProviderExecutionFailureCode::Timeout,
            terminal,
        ),
        ProviderExecutionOutcome::CaptureLimitExceeded => validate_bounded_failure(
            termination,
            failure,
            TerminationReason::CaptureLimitExceeded,
            ProviderExecutionFailureCode::StdoutLimit,
            ProviderExecutionFailureCode::StderrLimit,
            terminal,
        ),
        ProviderExecutionOutcome::ArtifactLimitExceeded => {
            let f = match failure {
                Some(f) => f,
                None => {
                    return Err(crate::error::invalid(owned("unsuccessful execution report requires a failure")));
                },
            };
            if !(termination.reason == TerminationReason::ArtifactLimitExceeded || termination.reason
                == TerminationReason::NaturalExit) || !(f.code == ProviderExecutionFailureCode::ArtifactFileLimit
                || f.code == ProviderExecutionFailureCode::ArtifactByteLimit) || terminal
                != ProviderEventKind::ExecutionFailed {
                return Err(crate::error::invalid(owned("artifact-limit report has inconsistent terminal evidence")));
            }
            Ok(())
        },
        ProviderExecutionOutcome::InvalidOutput => {
            let f = match failure {
                Some(f) => f,
                None => {
                    return Err(crate::error::invalid(owned("unsuccessful execution report requires a failure")));
                },
            };
            let output_code = f.code == ProviderExecutionFailureCode::MissingOutput || f.code
                == ProviderExecutionFailureCode::UnexpectedOutput || f.code
                == ProviderExecutionFailureCode::InvalidOutputType || f.code == ProviderExecutionFailureCode::EmptyOutput
                || f.code == ProviderExecutionFailureCode::SymlinkOutput || f.code
                == ProviderExecutionFailureCode::OutputReadFailed;
            if termination.reason != TerminationReason::NaturalExit || termination.exit_code != Some(0i32)
                || !output_code || terminal != ProviderEventKind::ExecutionFailed {
                return Err(crate::error::invalid(owned("invalid-output report has inconsistent terminal evidence")));
            }
            Ok(())
        },
    }
}

/// A bounded stop is consistent: a failure with one of the allowed codes,
/// the expected termination reason, and a failed final event.
fn validate_bounded_failure(
    termination: &ProviderTermination,
    failure: &Option<ProviderExecutionFailure>,
    reason: TerminationReason,
    code_a: ProviderExecutionFailureCode,
    code_b: ProviderExecutionFailureCode,
    terminal: ProviderEventKind,
) -> (r: Result<(), Error>)
    ensures
        r is Ok <==> (failure matches Some(f) && termination.reason == reason && (f.code == code_a || f.code
            == code_b) && terminal == ProviderEventKind::ExecutionFailed),
        r matches Err(e) ==> e.spec_category() == ErrorCategory::Configuration,
{
    let f = match failure {
        Some(f) => f,
        None => {
            return Err(crate::error::invalid(owned("unsuccessful execution report requires a failure")));
        },
    };
    if termination.reason != reason || !(f.code == code_a || f.code == code_b) || terminal
        != ProviderEventKind::ExecutionFailed {
        return Err(crate::error::invalid(owned("bounded execution report has inconsistent terminal evidence")));
    }
    Ok(())
}

impl ProviderExecutionReport {
    /// Schema, algorithm, a valid payload, and a digest equal to the
    /// canonical digest of that payload.
    pub open spec fn spec_valid(&self) -> bool {
        &&& self.schema@ == PROVIDER_EXECUTION_REPORT_SCHEMA_V1@
        &&& self.algorithm@ == "sha256"@
        &&& is_sha256_hex(self.report_sha256@)
        &&& self.payload.spec_valid()
        &&& self.report_sha256@ == canonical_digest(provider_execution_report_payload_json(self.payload))
    }

    /// A report over a validated payload, carrying the payload's canonical
    /// digest.
    #[verifier::rlimit(60)]
    #[verifier::spinoff_prover]
    pub fn new(payload: ProviderExecutionReportPayload) -> (r: Result<Self, Error>)
        ensures
            r is Ok <==> payload.spec_valid(),
            r matches Ok(report) ==> report.spec_valid() && report.payload == payload,
    {
        payload.validate()?;
        proof {
            lemma_provider_execution_report_payload_encodable(payload);
        }
        let digest = encodable_sha256(&provider_execution_report_payload_value(&payload));
        proof {
            reveal_strlit("sha256");
        }
        Ok(ProviderExecutionReport {
            schema: owned(PROVIDER_EXECUTION_REPORT_SCHEMA_V1),
            algorithm: owned("sha256"),
            report_sha256: digest,
            payload,
        })
    }

    /// Check the schema, algorithm, payload, and that the digest matches the
    /// canonical payload.
    #[verifier::rlimit(60)]
    #[verifier::spinoff_prover]
    pub fn validate(&self) -> (r: Result<(), Error>)
        ensures
            r is Ok <==> self.spec_valid(),
    {
        require_schema(self.schema.as_str(), PROVIDER_EXECUTION_REPORT_SCHEMA_V1)?;
        if !text_eq(self.algorithm.as_str(), "sha256") {
            return Err(crate::error::invalid(join3(
                "unsupported provider execution report algorithm ",
                self.algorithm.as_str(),
                "; expected sha256",
            )));
        }
        require_sha256(self.report_sha256.as_str(), "report_sha256")?;
        self.payload.validate()?;
        proof {
            lemma_provider_execution_report_payload_encodable(self.payload);
        }
        let expected = encodable_sha256(&provider_execution_report_payload_value(&self.payload));
        if !text_eq(expected.as_str(), self.report_sha256.as_str()) {
            return Err(crate::error::invalid(join2(
                "provider execution report does not match its canonical payload; expected ",
                expected.as_str(),
            )));
        }
        Ok(())
    }
}

// ---------------------------------------------------------------------------
// Stops, failures, and redaction
// ---------------------------------------------------------------------------

/// Why a running provider was stopped before it exited by itself.
#[derive(Debug, Clone, Copy, PartialEq, Eq, Structural)]
pub enum StopTrigger {
    Cancelled,
    TimedOut,
    StdoutLimit,
    StderrLimit,
    ArtifactFileLimit,
    ArtifactByteLimit,
}

/// The event, outcome, termination reason, failure code, and detail that a
/// stop is recorded with.
pub open spec fn stop_evidence(trigger: StopTrigger) -> (
    ProviderEventKind,
    ProviderExecutionOutcome,
    TerminationReason,
    ProviderExecutionFailureCode,
    Seq<char>,
) {
    match trigger {
        StopTrigger::Cancelled => (
            ProviderEventKind::CancellationObserved,
            ProviderExecutionOutcome::Cancelled,
            TerminationReason::Cancelled,
            ProviderExecutionFailureCode::Cancelled,
            "provider execution was cancelled"@,
        ),
        StopTrigger::TimedOut => (
            ProviderEventKind::TimeoutExceeded,
            ProviderExecutionOutcome::TimedOut,
            TerminationReason::TimedOut,
            ProviderExecutionFailureCode::Timeout,
            "provider exceeded its wall-clock timeout"@,
        ),
        StopTrigger::StdoutLimit => (
            ProviderEventKind::CaptureLimitExceeded,
            ProviderExecutionOutcome::CaptureLimitExceeded,
            TerminationReason::CaptureLimitExceeded,
            ProviderExecutionFailureCode::StdoutLimit,
            "provider stdout exceeded its capture limit"@,
        ),
        StopTrigger::StderrLimit => (
            ProviderEventKind::CaptureLimitExceeded,
            ProviderExecutionOutcome::CaptureLimitExceeded,
            TerminationReason::CaptureLimitExceeded,
            ProviderExecutionFailureCode::StderrLimit,
            "provider stderr exceeded its capture limit"@,
        ),
        StopTrigger::ArtifactFileLimit => (
            ProviderEventKind::ArtifactLimitExceeded,
            ProviderExecutionOutcome::ArtifactLimitExceeded,
            TerminationReason::ArtifactLimitExceeded,
            ProviderExecutionFailureCode::ArtifactFileLimit,
            "provider outputs exceeded the artifact file-count limit"@,
        ),
        StopTrigger::ArtifactByteLimit => (
            ProviderEventKind::ArtifactLimitExceeded,
            ProviderExecutionOutcome::ArtifactLimitExceeded,
            TerminationReason::ArtifactLimitExceeded,
            ProviderExecutionFailureCode::ArtifactByteLimit,
            "provider outputs exceeded the artifact byte limit"@,
        ),
    }
}

impl StopTrigger {
    pub fn evidence(self) -> (r: (
        ProviderEventKind,
        ProviderExecutionOutcome,
        TerminationReason,
        ProviderExecutionFailureCode,
        &'static str,
    ))
        ensures
            (r.0, r.1, r.2, r.3, r.4@) == stop_evidence(self),
    {
        match self {
            StopTrigger::Cancelled => (
                ProviderEventKind::CancellationObserved,
                ProviderExecutionOutcome::Cancelled,
                TerminationReason::Cancelled,
                ProviderExecutionFailureCode::Cancelled,
                "provider execution was cancelled",
            ),
            StopTrigger::TimedOut => (
                ProviderEventKind::TimeoutExceeded,
                ProviderExecutionOutcome::TimedOut,
                TerminationReason::TimedOut,
                ProviderExecutionFailureCode::Timeout,
                "provider exceeded its wall-clock timeout",
            ),
            StopTrigger::StdoutLimit => (
                ProviderEventKind::CaptureLimitExceeded,
                ProviderExecutionOutcome::CaptureLimitExceeded,
                TerminationReason::CaptureLimitExceeded,
                ProviderExecutionFailureCode::StdoutLimit,
                "provider stdout exceeded its capture limit",
            ),
            StopTrigger::StderrLimit => (
                ProviderEventKind::CaptureLimitExceeded,
                ProviderExecutionOutcome::CaptureLimitExceeded,
                TerminationReason::CaptureLimitExceeded,
                ProviderExecutionFailureCode::StderrLimit,
                "provider stderr exceeded its capture limit",
            ),
            StopTrigger::ArtifactFileLimit => (
                ProviderEventKind::ArtifactLimitExceeded,
                ProviderExecutionOutcome::ArtifactLimitExceeded,
                TerminationReason::ArtifactLimitExceeded,
                ProviderExecutionFailureCode::ArtifactFileLimit,
                "provider outputs exceeded the artifact file-count limit",
            ),
            StopTrigger::ArtifactByteLimit => (
                ProviderEventKind::ArtifactLimitExceeded,
                ProviderExecutionOutcome::ArtifactLimitExceeded,
                TerminationReason::ArtifactLimitExceeded,
                ProviderExecutionFailureCode::ArtifactByteLimit,
                "provider outputs exceeded the artifact byte limit",
            ),
        }
    }
}

/// The stop decided at one observation of a running provider: cancellation
/// first, then the timeout, the capture limits, and the artifact limits.
pub open spec fn stop_decision(
    cancelled: bool,
    timed_out: bool,
    stdout_exceeded: bool,
    stderr_exceeded: bool,
    artifact_limit: Option<StopTrigger>,
) -> Option<StopTrigger> {
    if cancelled {
        Some(StopTrigger::Cancelled)
    } else if timed_out {
        Some(StopTrigger::TimedOut)
    } else if stdout_exceeded {
        Some(StopTrigger::StdoutLimit)
    } else if stderr_exceeded {
        Some(StopTrigger::StderrLimit)
    } else {
        artifact_limit
    }
}

pub fn decide_stop(
    cancelled: bool,
    timed_out: bool,
    stdout_exceeded: bool,
    stderr_exceeded: bool,
    artifact_limit: Option<StopTrigger>,
) -> (r: Option<StopTrigger>)
    ensures
        r == stop_decision(cancelled, timed_out, stdout_exceeded, stderr_exceeded, artifact_limit),
{
    if cancelled {
        Some(StopTrigger::Cancelled)
    } else if timed_out {
        Some(StopTrigger::TimedOut)
    } else if stdout_exceeded {
        Some(StopTrigger::StdoutLimit)
    } else if stderr_exceeded {
        Some(StopTrigger::StderrLimit)
    } else {
        artifact_limit
    }
}

/// How one observation of a running provider is stopped: a cancellation
/// always stops it as cancelled; otherwise a timeout stops it as timed out;
/// otherwise an exceeded capture stops it, stdout before stderr; otherwise
/// the artifact limit observed, if any, stops it. It is left running exactly
/// when none of these triggers is present.
pub proof fn lemma_stop_precedence(
    cancelled: bool,
    timed_out: bool,
    stdout_exceeded: bool,
    stderr_exceeded: bool,
    artifact_limit: Option<StopTrigger>,
)
    ensures
        stop_decision(cancelled, timed_out, stdout_exceeded, stderr_exceeded, artifact_limit) is None <==> (!cancelled
            && !timed_out && !stdout_exceeded && !stderr_exceeded && artifact_limit is None),
        cancelled ==> stop_decision(cancelled, timed_out, stdout_exceeded, stderr_exceeded, artifact_limit) == Some(
            StopTrigger::Cancelled,
        ),
        !cancelled && timed_out ==> stop_decision(cancelled, timed_out, stdout_exceeded, stderr_exceeded, artifact_limit)
            == Some(StopTrigger::TimedOut),
        !cancelled && !timed_out && stdout_exceeded ==> stop_decision(
            cancelled,
            timed_out,
            stdout_exceeded,
            stderr_exceeded,
            artifact_limit,
        ) == Some(StopTrigger::StdoutLimit),
        !cancelled && !timed_out && !stdout_exceeded && stderr_exceeded ==> stop_decision(
            cancelled,
            timed_out,
            stdout_exceeded,
            stderr_exceeded,
            artifact_limit,
        ) == Some(StopTrigger::StderrLimit),
        !cancelled && !timed_out && !stdout_exceeded && !stderr_exceeded ==> stop_decision(
            cancelled,
            timed_out,
            stdout_exceeded,
            stderr_exceeded,
            artifact_limit,
        ) == artifact_limit,
{
}

/// After the process ends, a stop observed while it ran wins; otherwise a
/// truncated capture counts as its limit being exceeded.
pub open spec fn final_stop(stop: Option<StopTrigger>, stdout_truncated: bool, stderr_truncated: bool) -> Option<StopTrigger> {
    match stop {
        Some(t) => Some(t),
        None => if stdout_truncated {
            Some(StopTrigger::StdoutLimit)
        } else if stderr_truncated {
            Some(StopTrigger::StderrLimit)
        } else {
            None
        },
    }
}

pub fn settle_stop(stop: Option<StopTrigger>, stdout_truncated: bool, stderr_truncated: bool) -> (r: Option<StopTrigger>)
    ensures
        r == final_stop(stop, stdout_truncated, stderr_truncated),
{
    match stop {
        Some(t) => Some(t),
        None => if stdout_truncated {
            Some(StopTrigger::StdoutLimit)
        } else if stderr_truncated {
            Some(StopTrigger::StderrLimit)
        } else {
            None
        },
    }
}

/// Sum of the first `n` sizes.
pub open spec fn size_sum(sizes: Seq<u64>, n: int) -> int
    decreases n,
{
    if n <= 0 {
        0
    } else {
        size_sum(sizes, n - 1) + sizes[n - 1]
    }
}

/// The artifact limit tripped by the first `n` files seen, checking the
/// file count before the byte total at each file.
pub open spec fn artifact_limit_after(sizes: Seq<u64>, n: int, maximum_files: u64, maximum_bytes: u64) -> Option<StopTrigger>
    decreases n,
{
    if n <= 0 {
        None
    } else {
        match artifact_limit_after(sizes, n - 1, maximum_files, maximum_bytes) {
            Some(t) => Some(t),
            None => if n > maximum_files {
                Some(StopTrigger::ArtifactFileLimit)
            } else if size_sum(sizes, n) > maximum_bytes {
                Some(StopTrigger::ArtifactByteLimit)
            } else {
                None
            },
        }
    }
}

proof fn lemma_artifact_limit_sticky(sizes: Seq<u64>, m: int, n: int, maximum_files: u64, maximum_bytes: u64)
    requires
        0 <= m <= n,
        artifact_limit_after(sizes, m, maximum_files, maximum_bytes) is Some,
    ensures
        artifact_limit_after(sizes, n, maximum_files, maximum_bytes) == artifact_limit_after(
            sizes,
            m,
            maximum_files,
            maximum_bytes,
        ),
    decreases n - m,
{
    if n > m {
        lemma_artifact_limit_sticky(sizes, m, n - 1, maximum_files, maximum_bytes);
    }
}

/// The artifact limit that regular files of these sizes, in traversal
/// order, exceed.
pub fn artifact_limit(file_sizes: &Vec<u64>, maximum_files: u64, maximum_bytes: u64) -> (r: Option<StopTrigger>)
    ensures
        r == artifact_limit_after(file_sizes@, file_sizes@.len() as int, maximum_files, maximum_bytes),
{
    let mut files: u64 = 0;
    let mut bytes: u64 = 0;
    let mut i: usize = 0;
    while i < file_sizes.len()
        invariant
            i <= file_sizes.len(),
            files == i,
            bytes == size_sum(file_sizes@, i as int),
            bytes <= maximum_bytes,
            i <= maximum_files,
            artifact_limit_after(file_sizes@, i as int, maximum_files, maximum_bytes) is None,
        decreases file_sizes.len() - i,
    {
        files = files + 1;
        if files > maximum_files {
            proof {
                lemma_artifact_limit_sticky(file_sizes@, i + 1, file_sizes@.len() as int, maximum_files, maximum_bytes);
            }
            return Some(StopTrigger::ArtifactFileLimit);
        }
        if file_sizes[i] > maximum_bytes - bytes {
            proof {
                lemma_artifact_limit_sticky(file_sizes@, i + 1, file_sizes@.len() as int, maximum_files, maximum_bytes);
            }
            return Some(StopTrigger::ArtifactByteLimit);
        }
        bytes = bytes + file_sizes[i];
        i = i + 1;
    }
    None
}

pub fn execution_failure(code: ProviderExecutionFailureCode, detail: String) -> (r: ProviderExecutionFailure)
    ensures
        r.code == code,
        r.detail@ == detail@,
{
    ProviderExecutionFailure { code, detail }
}

/// The outcome and event that an output-validation failure is recorded
/// with: exceeded artifact limits, or otherwise an invalid output.
pub open spec fn output_failure_evidence(code: ProviderExecutionFailureCode) -> (ProviderExecutionOutcome, ProviderEventKind) {
    if code == ProviderExecutionFailureCode::ArtifactFileLimit || code == ProviderExecutionFailureCode::ArtifactByteLimit {
        (ProviderExecutionOutcome::ArtifactLimitExceeded, ProviderEventKind::ArtifactLimitExceeded)
    } else {
        (ProviderExecutionOutcome::InvalidOutput, ProviderEventKind::ExecutionFailed)
    }
}

pub fn output_failure_outcome(code: ProviderExecutionFailureCode) -> (r: (ProviderExecutionOutcome, ProviderEventKind))
    ensures
        r == output_failure_evidence(code),
{
    if code == ProviderExecutionFailureCode::ArtifactFileLimit || code == ProviderExecutionFailureCode::ArtifactByteLimit {
        (ProviderExecutionOutcome::ArtifactLimitExceeded, ProviderEventKind::ArtifactLimitExceeded)
    } else {
        (ProviderExecutionOutcome::InvalidOutput, ProviderEventKind::ExecutionFailed)
    }
}

/// Process exit data for a termination reason.
pub fn termination(reason: TerminationReason, exit_code: Option<i32>, signal: Option<i32>) -> (r: ProviderTermination)
    ensures
        r == (ProviderTermination { reason, exit_code, signal }),
{
    ProviderTermination { reason, exit_code, signal }
}

/// The marker that replaces a sensitive value.
pub open spec fn redaction_marker() -> Seq<char> {
    "[REDACTED]"@
}

/// The text after replacing every occurrence of each sensitive value in
/// turn, and whether any value occurred.
pub open spec fn redacted(text: Seq<char>, sensitive: Seq<Seq<char>>) -> (Seq<char>, bool)
    decreases sensitive.len(),
{
    if sensitive.len() == 0 {
        (text, false)
    } else {
        let (t, hit) = redacted(text, sensitive.drop_last());
        if crate::text::contains_text(t, sensitive.last()) {
            (crate::text::replace_all(t, sensitive.last(), redaction_marker()), true)
        } else {
            (t, hit)
        }
    }
}

/// Each value non-empty.
pub open spec fn redactions_valid(sensitive: Seq<Seq<char>>) -> bool {
    forall|i: int| 0 <= i < sensitive.len() ==> (#[trigger] sensitive[i]).len() > 0
}

fn redact_text(text: String, sensitive: &Vec<String>) -> (r: (String, bool))
    requires
        redactions_valid(crate::order::texts(sensitive@)),
    ensures
        (r.0@, r.1) == redacted(text@, crate::order::texts(sensitive@)),
{
    let ghost values = crate::order::texts(sensitive@);
    let mut current = text;
    let mut hit = false;
    let mut i: usize = 0;
    while i < sensitive.len()
        invariant
            i <= sensitive.len(),
            values == crate::order::texts(sensitive@),
            redactions_valid(values),
            (current@, hit) == redacted(text@, values.take(i as int)),
        decreases sensitive.len() - i,
    {
        assert(values.take(i + 1).drop_last() =~= values.take(i as int));
        assert(values[i as int] == sensitive@[i as int]@);
        if crate::text::text_contains(current.as_str(), sensitive[i].as_str()) {
            current = crate::text::replace_text(current.as_str(), sensitive[i].as_str(), "[REDACTED]");
            proof {
                reveal_strlit("[REDACTED]");
            }
            hit = true;
        }
        i = i + 1;
    }
    assert(values.take(sensitive.len() as int) =~= values);
    (current, hit)
}

/// The bytes a capture reader retained and what it observed of the stream.
#[derive(Debug)]
pub struct CaptureBytes {
    pub retained: Vec<u8>,
    pub total_bytes: u64,
    pub truncated: bool,
    pub read_failed: bool,
}

/// The text `String::from_utf8_lossy` decodes from the bytes, each invalid
/// sequence replaced by U+FFFD.
pub uninterp spec fn utf8_lossy(bytes: Seq<u8>) -> Seq<char>;

/// Calls `String::from_utf8_lossy`.
#[verifier::external_body]
pub(crate) fn lossy_text(bytes: &[u8]) -> (r: String)
    ensures
        r@ == utf8_lossy(bytes@),
{
    String::from_utf8_lossy(bytes).into_owned()
}

/// The diagnostic for a captured stream: its retained bytes decoded, every
/// sensitive value replaced, and the capture's own counts.
pub fn redact_capture(stream: StreamKind, capture: &CaptureBytes, sensitive_values: &Vec<String>) -> (r: CapturedDiagnostic)
    requires
        redactions_valid(crate::order::texts(sensitive_values@)),
    ensures
        r.stream == stream,
        (r.retained_text@, r.redacted) == redacted(utf8_lossy(capture.retained@), crate::order::texts(sensitive_values@)),
        r.total_bytes == capture.total_bytes,
        r.truncated == capture.truncated,
{
    let text = lossy_text(capture.retained.as_slice());
    let (retained_text, redacted_any) = redact_text(text, sensitive_values);
    CapturedDiagnostic {
        stream,
        retained_text,
        total_bytes: capture.total_bytes,
        truncated: capture.truncated,
        redacted: redacted_any,
    }
}

/// The failure with every sensitive value in its detail replaced.
pub fn redact_execution_failure(failure: ProviderExecutionFailure, sensitive_values: &Vec<String>) -> (r: ProviderExecutionFailure)
    requires
        redactions_valid(crate::order::texts(sensitive_values@)),
    ensures
        r.code == failure.code,
        r.detail@ == redacted(failure.detail@, crate::order::texts(sensitive_values@)).0,
{
    let (detail, _) = redact_text(failure.detail, sensitive_values);
    ProviderExecutionFailure { code: failure.code, detail }
}

} // verus!
