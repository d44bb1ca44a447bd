//! The Pipeline v2 document: validation, stage naming, dependency discovery,
//! and processor argument construction.
//!
//! Local paths are carried as text; the path rules below follow the Unix
//! component semantics of `std::path::Path`.
use vstd::prelude::*;

use crate::error::{Error, ErrorCategory};
use crate::order::{ascending, insert_sorted_unique, texts};
use crate::text::{
    chars_of, char_is_alnum, contains_text, decimal, decimal_string, has_control, is_alnum,
    is_blank, is_lower, is_digit, join2, join3, occurs_at, owned, push_char, replace_all,
    replace_text, seq_is_blank, seq_occurs_at, starts_with, string_from_chars, text_contains,
    text_eq, text_is_blank, ascii_lower,
};

verus! {

broadcast use vstd::seq_lib::group_seq_properties;

// Values a Pipeline v2 document takes for the fields it leaves out.
pub const DEFAULT_PROCESSOR_CONCURRENCY: usize = 1;
pub const DEFAULT_UPSCAYL_COMMAND: &'static str = "upscayl-bin";
pub const DEFAULT_UPSCAYL_MODEL: &'static str = "realesr-animevideov3";
pub const DEFAULT_UPSCALE: u8 = 2;
pub const DEFAULT_GWR_COMMAND: &'static str = "gwr";
pub const DEFAULT_RENDERFLOW_COMMAND: &'static str = "renderflow";

/// The renderflow arguments a document gets when it names none.
pub fn default_renderflow_arguments() -> (r: Vec<String>)
    ensures
        texts(r@) == seq!["run"@, "--input"@, "{input}"@, "--output-directory"@, "{output}"@],
{
    let mut r: Vec<String> = Vec::new();
    r.push(owned("run"));
    r.push(owned("--input"));
    r.push(owned("{input}"));
    r.push(owned("--output-directory"));
    r.push(owned("{output}"));
    assert(texts(r@) =~= seq!["run"@, "--input"@, "{input}"@, "--output-directory"@, "{output}"@]);
    r
}

/// A Pipeline v2 document.
#[derive(Debug)]
pub struct Pipeline {
    pub version: u32,
    pub name: String,
    pub description: String,
    pub frame_processors: Vec<FrameProcessor>,
    pub validation: FrameValidation,
    pub audio_processors: Vec<CommandProcessor>,
    pub subtitles: Option<Subtitles>,
    pub video_processors: Vec<CommandProcessor>,
    pub renderflow: Option<RenderflowHandoff>,
    pub output: Output,
}

/// One frame processor family.
#[derive(Debug)]
pub enum FrameProcessor {
    External {
        id: String,
        enabled: bool,
        command: String,
        arguments: Vec<String>,
        concurrency: usize,
    },
    UpscaylNcnn {
        id: String,
        enabled: bool,
        command: String,
        model: String,
        model_path: Option<String>,
        scale: u8,
        tile_size: Option<u32>,
        gpu_id: Option<String>,
        tta: bool,
        additional_arguments: Vec<String>,
    },
    GeminiWatermarkRemover {
        id: String,
        enabled: bool,
        command: String,
        json: bool,
        additional_arguments: Vec<String>,
    },
}

/// An audio or whole-video command processor.
#[derive(Debug)]
pub struct CommandProcessor {
    pub id: String,
    pub enabled: bool,
    pub command: String,
    pub arguments: Vec<String>,
    pub output_extension: Option<String>,
}

/// Frame acceptance checks applied after frame processing.
#[derive(Debug, Clone, Copy)]
pub struct FrameValidation {
    pub require_uniform_dimensions: bool,
    pub minimum_frame_bytes: u64,
}

impl Default for FrameValidation {
    fn default() -> (value: Self)
        ensures
            value.require_uniform_dimensions,
            value.minimum_frame_bytes == 64,
    {
        FrameValidation { require_uniform_dimensions: true, minimum_frame_bytes: 64 }
    }
}

/// Optional subtitle application.
#[derive(Debug)]
pub struct Subtitles {
    pub enabled: bool,
    pub source: String,
    pub mode: SubtitleMode,
}

#[derive(Debug, Clone, Copy, PartialEq, Eq, Structural)]
pub enum SubtitleMode {
    Burn,
    Mux,
}

impl Default for SubtitleMode {
    fn default() -> (mode: Self)
        ensures
            mode == SubtitleMode::Burn,
    {
        SubtitleMode::Burn
    }
}

/// Optional hand-off of the finished master to renderflow.
#[derive(Debug)]
pub struct RenderflowHandoff {
    pub enabled: bool,
    pub command: String,
    pub arguments: Vec<String>,
}

/// Encoding of the finished master.
#[derive(Debug)]
pub struct Output {
    pub file: String,
    pub video_codec: String,
    pub crf: u8,
    pub preset: String,
    pub pixel_format: String,
}

impl Default for Output {
    fn default() -> (value: Self)
        ensures
            value.file@ == "output/master.mp4"@,
            value.video_codec@ == "libx264"@,
            value.crf == 18,
            value.preset@ == "slow"@,
            value.pixel_format@ == "yuv420p"@,
    {
        Output {
            file: owned("output/master.mp4"),
            video_codec: owned("libx264"),
            crf: 18,
            preset: owned("slow"),
            pixel_format: owned("yuv420p"),
        }
    }
}

// ---------------------------------------------------------------------------
// Identifier sanitation
// ---------------------------------------------------------------------------

pub open spec fn sanitize_char(c: char) -> char {
    if is_alnum(c) || c == '-' || c == '_' {
        c
    } else {
        '-'
    }
}

pub open spec fn trim_dash_start(s: Seq<char>) -> Seq<char>
    decreases s.len(),
{
    if s.len() > 0 && s[0] == '-' {
        trim_dash_start(s.drop_first())
    } else {
        s
    }
}

pub open spec fn trim_dash_end(s: Seq<char>) -> Seq<char>
    decreases s.len(),
{
    if s.len() > 0 && s.last() == '-' {
        trim_dash_end(s.drop_last())
    } else {
        s
    }
}

/// Non-identifier characters become `-`, surrounding `-` are trimmed, and
/// the result is lowercased.
pub open spec fn sanitized(s: Seq<char>) -> Seq<char> {
    trim_dash_end(trim_dash_start(s.map_values(|c: char| sanitize_char(c)))).map_values(
        |c: char| ascii_lower(c),
    )
}

/// The identifier rule of Pipeline v2: non-blank and already sanitized.
pub open spec fn is_valid_identifier(s: Seq<char>) -> bool {
    !is_blank(s) && sanitized(s) == s
}

proof fn lemma_trim_start(s: Seq<char>, a: int)
    requires
        0 <= a <= s.len(),
        forall|i: int| 0 <= i < a ==> s[i] == '-',
        a == s.len() || s[a] != '-',
    ensures
        trim_dash_start(s) == s.skip(a),
    decreases a,
{
    if a == 0 {
        assert(s.skip(0) =~= s);
    } else {
        lemma_trim_start(s.drop_first(), a - 1);
        assert(s.drop_first().skip(a - 1) =~= s.skip(a));
    }
}

proof fn lemma_trim_end(s: Seq<char>, b: int)
    requires
        0 <= b <= s.len(),
        forall|i: int| b <= i < s.len() ==> s[i] == '-',
        b == 0 || s[b - 1] != '-',
    ensures
        trim_dash_end(s) == s.take(b),
    decreases s.len() - b,
{
    if b == s.len() {
        assert(s.take(b) =~= s);
    } else {
        lemma_trim_end(s.drop_last(), b);
        assert(s.drop_last().take(b) =~= s.take(b));
    }
}

/// A character a sanitized identifier may hold.
pub open spec fn identifier_char(c: char) -> bool {
    is_lower(c) || is_digit(c) || c == '-' || c == '_'
}

/// A sanitized identifier holds only lowercase ASCII letters, digits, `-`
/// and `_`, neither starts nor ends with `-`, and sanitizing it again
/// changes nothing.
pub proof fn lemma_sanitized_identifier(s: Seq<char>)
    ensures
        forall|i: int| 0 <= i < sanitized(s).len() ==> identifier_char(#[trigger] sanitized(s)[i]),
        sanitized(s).len() > 0 ==> sanitized(s)[0] != '-' && sanitized(s).last() != '-',
        sanitized(sanitized(s)) == sanitized(s),
{
    let m = s.map_values(|c: char| sanitize_char(c));
    let t1 = trim_dash_start(m);
    let t2 = trim_dash_end(t1);
    let y = sanitized(s);
    lemma_trim_shape(m);
    assert forall|i: int| 0 <= i < y.len() implies identifier_char(#[trigger] y[i]) && (y[i] == '-' <==> t2[i]
        == '-') by {
        lemma_sanitized_chars(s, m, t1, t2, i);
    }
    if t2.len() > 0 {
        assert(y.last() == y[y.len() - 1]);
    }
    let m2 = y.map_values(|c: char| sanitize_char(c));
    assert(m2 =~= y) by {
        assert forall|i: int| 0 <= i < y.len() implies #[trigger] m2[i] == y[i] by {
            assert(identifier_char(y[i]));
        }
    }
    lemma_trim_start(y, 0);
    assert(y.skip(0) =~= y);
    lemma_trim_end(y, y.len() as int);
    assert(y.take(y.len() as int) =~= y);
    let l = y.map_values(|c: char| ascii_lower(c));
    assert(l =~= y) by {
        assert forall|i: int| 0 <= i < y.len() implies #[trigger] l[i] == y[i] by {
            assert(identifier_char(y[i]));
        }
    }
}

/// Identifier sanitation as used for stage names.
pub fn sanitize_identifier(value: &str) -> (r: String)
    ensures
        r@ == sanitized(value@),
{
    let v = chars_of(value);
    let mut mapped: Vec<char> = Vec::new();
    let mut i: usize = 0;
    while i < v.len()
        invariant
            i <= v.len(),
            mapped@ == v@.take(i as int).map_values(|c: char| sanitize_char(c)),
        decreases v.len() - i,
    {
        let c = v[i];
        let d = if char_is_alnum(c) || c == '-' || c == '_' {
            c
        } else {
            '-'
        };
        mapped.push(d);
        assert(v@.take(i + 1).map_values(|c: char| sanitize_char(c)) =~= v@.take(i as int).map_values(
            |c: char| sanitize_char(c),
        ).push(sanitize_char(v@[i as int])));
        i = i + 1;
    }
    assert(v@.take(v.len() as int) =~= v@);
    let ghost m = mapped@;
    let mut a: usize = 0;
    while a < mapped.len() && mapped[a] == '-'
        invariant
            a <= mapped.len(),
            forall|j: int| 0 <= j < a ==> mapped@[j] == '-',
        decreases mapped.len() - a,
    {
        a = a + 1;
    }
    proof {
        lemma_trim_start(m, a as int);
    }
    let mut b: usize = mapped.len();
    while b > a && mapped[b - 1] == '-'
        invariant
            a <= b <= mapped.len(),
            forall|j: int| b <= j < mapped.len() ==> mapped@[j] == '-',
        decreases b,
    {
        b = b - 1;
    }
    let ghost t = m.skip(a as int);
    proof {
        assert forall|j: int| (b - a) <= j < t.len() implies t[j] == '-' by {
            assert(t[j] == m[a + j]);
        }
        if b > a {
            assert(t[b - a - 1] == m[b - 1]);
        }
        lemma_trim_end(t, (b - a) as int);
        assert(t.take((b - a) as int) =~= m.subrange(a as int, b as int));
    }
    let mut out: Vec<char> = Vec::new();
    let mut k: usize = a;
    assert(m.subrange(a as int, a as int).map_values(|c: char| ascii_lower(c)) =~= Seq::<char>::empty());
    while k < b
        invariant
            a <= k <= b,
            b <= mapped.len(),
            mapped@ == m,
            out@ == m.subrange(a as int, k as int).map_values(|c: char| ascii_lower(c)),
        decreases b - k,
    {
        let c = mapped[k];
        let lowered = crate::text::char_ascii_lower(c);
        out.push(lowered);
        assert(m.subrange(a as int, k + 1).map_values(|c: char| ascii_lower(c)) =~= m.subrange(
            a as int,
            k as int,
        ).map_values(|c: char| ascii_lower(c)).push(ascii_lower(m[k as int])));
        k = k + 1;
    }
    string_from_chars(out.as_slice())
}

/// Sanitation is idempotent, so any non-empty sanitized text is a valid
/// identifier.
pub proof fn lemma_sanitized_is_identifier(s: Seq<char>)
    ensures
        sanitized(sanitized(s)) == sanitized(s),
        sanitized(s).len() > 0 ==> is_valid_identifier(sanitized(s)),
{
    let m = s.map_values(|c: char| sanitize_char(c));
    let t0 = trim_dash_start(m);
    let t = trim_dash_end(t0);
    let r = sanitized(s);
    lemma_trim_shape(m);
    assert forall|i: int| 0 <= i < r.len() implies (is_lower(#[trigger] r[i]) || is_digit(r[i]) || r[i]
        == '-' || r[i] == '_') by {
        assert(r[i] == ascii_lower(t[i]));
        lemma_sanitized_chars(s, m, t0, t, i);
    }
    let m2 = r.map_values(|c: char| sanitize_char(c));
    assert(m2 =~= r);
    if r.len() > 0 {
        assert(r[0] == ascii_lower(t[0]));
        assert(r[r.len() - 1] == ascii_lower(t[t.len() - 1]));
        assert(r.last() == r[r.len() - 1]);
    }
    lemma_trim_start(r, 0);
    assert(r.skip(0) =~= r);
    lemma_trim_end(r, r.len() as int);
    assert(r.take(r.len() as int) =~= r);
    assert(r.map_values(|c: char| ascii_lower(c)) =~= r);
    if r.len() > 0 {
        assert(!crate::text::is_space(r[0]));
    }
}

proof fn lemma_trim_shape(m: Seq<char>)
    ensures
        ({
            let t = trim_dash_end(trim_dash_start(m));
            t.len() > 0 ==> t[0] != '-' && t[t.len() - 1] != '-'
        }),
        forall|c: char| trim_dash_end(trim_dash_start(m)).contains(c) ==> m.contains(c),
    decreases m.len(),
{
    lemma_trim_start_shape(m);
    lemma_trim_end_shape(trim_dash_start(m));
}

proof fn lemma_trim_start_shape(m: Seq<char>)
    ensures
        trim_dash_start(m).len() > 0 ==> trim_dash_start(m)[0] != '-',
        forall|c: char| trim_dash_start(m).contains(c) ==> m.contains(c),
        trim_dash_start(m).len() <= m.len(),
        forall|i: int| 0 <= i < trim_dash_start(m).len() ==> trim_dash_start(m)[i] == m[i + m.len() - trim_dash_start(m).len()],
    decreases m.len(),
{
    if m.len() > 0 && m[0] == '-' {
        lemma_trim_start_shape(m.drop_first());
        assert forall|c: char| trim_dash_start(m).contains(c) implies m.contains(c) by {
            assert(m.drop_first().contains(c));
            let i = choose|i: int| 0 <= i < m.drop_first().len() && m.drop_first()[i] == c;
            assert(m[i + 1] == c);
        }
    }
}

proof fn lemma_trim_end_shape(m: Seq<char>)
    ensures
        trim_dash_end(m).len() > 0 ==> trim_dash_end(m)[trim_dash_end(m).len() - 1] != '-',
        forall|c: char| trim_dash_end(m).contains(c) ==> m.contains(c),
        trim_dash_end(m).len() <= m.len(),
        forall|i: int| 0 <= i < trim_dash_end(m).len() ==> trim_dash_end(m)[i] == m[i],
    decreases m.len(),
{
    if m.len() > 0 && m.last() == '-' {
        lemma_trim_end_shape(m.drop_last());
        assert forall|i: int| 0 <= i < trim_dash_end(m).len() implies trim_dash_end(m)[i] == m[i] by {
            assert(m.drop_last()[i] == m[i]);
        }
        assert forall|c: char| trim_dash_end(m).contains(c) implies m.contains(c) by {
            assert(m.drop_last().contains(c));
            let i = choose|i: int| 0 <= i < m.drop_last().len() && m.drop_last()[i] == c;
            assert(m[i] == c);
        }
    }
}

proof fn lemma_sanitized_chars(s: Seq<char>, m: Seq<char>, t0: Seq<char>, t: Seq<char>, i: int)
    requires
        m == s.map_values(|c: char| sanitize_char(c)),
        t0 == trim_dash_start(m),
        t == trim_dash_end(t0),
        0 <= i < t.len(),
    ensures
        is_lower(ascii_lower(t[i])) || is_digit(ascii_lower(t[i])) || ascii_lower(t[i]) == '-'
            || ascii_lower(t[i]) == '_',
        ascii_lower(t[i]) == '-' <==> t[i] == '-',
{
    lemma_trim_start_shape(m);
    lemma_trim_end_shape(t0);
    assert(t.contains(t[i]));
    assert(m.contains(t[i]));
    let j = choose|j: int| 0 <= j < m.len() && m[j] == t[i];
    assert(m[j] == sanitize_char(s[j]));
    let c = t[i];
    if 'A' <= c && c <= 'Z' {
        assert('a' <= ascii_lower(c) <= 'z');
    }
}

// ---------------------------------------------------------------------------
// Validation rules
// ---------------------------------------------------------------------------

pub open spec fn is_absolute_path(s: Seq<char>) -> bool {
    s.len() > 0 && s[0] == '/'
}

/// Some `/`-delimited component of the path is `..`.
pub open spec fn has_parent_component(s: Seq<char>) -> bool {
    exists|i: int|
        #![trigger occurs_at(s, ".."@, i)]
        occurs_at(s, ".."@, i) && (i == 0 || s[i - 1] == '/') && (i + 2 == s.len() || s[i + 2]
            == '/')
}

/// The first component of a relative path is exactly `root`.
pub open spec fn first_component_is(s: Seq<char>, root: Seq<char>) -> bool {
    starts_with(s, root) && (s.len() == root.len() || s[root.len() as int] == '/')
}

/// A path relative to the run directory, confined beneath `root/`.
pub open spec fn is_safe_output_path(s: Seq<char>, root: Seq<char>) -> bool {
    !is_absolute_path(s) && !has_parent_component(s) && first_component_is(s, root)
}

pub open spec fn has_io_placeholders(arguments: Seq<String>) -> bool {
    &&& exists|i: int| 0 <= i < arguments.len() && contains_text(#[trigger] arguments[i]@, "{input}"@)
    &&& exists|i: int| 0 <= i < arguments.len() && contains_text(#[trigger] arguments[i]@, "{output}"@)
}

pub open spec fn distinct_texts(ids: Seq<Seq<char>>) -> bool {
    forall|i: int, j: int| 0 <= i < j < ids.len() ==> #[trigger] ids[i] != #[trigger] ids[j]
}

pub open spec fn valid_unique_ids(ids: Seq<Seq<char>>) -> bool {
    &&& forall|i: int| 0 <= i < ids.len() ==> is_valid_identifier(#[trigger] ids[i])
    &&& distinct_texts(ids)
}

impl FrameProcessor {
    pub open spec fn spec_id(&self) -> Seq<char> {
        match self {
            FrameProcessor::External { id, .. } => id@,
            FrameProcessor::UpscaylNcnn { id, .. } => id@,
            FrameProcessor::GeminiWatermarkRemover { id, .. } => id@,
        }
    }

    pub open spec fn spec_enabled(&self) -> bool {
        match self {
            FrameProcessor::External { enabled, .. } => *enabled,
            FrameProcessor::UpscaylNcnn { enabled, .. } => *enabled,
            FrameProcessor::GeminiWatermarkRemover { enabled, .. } => *enabled,
        }
    }

    pub open spec fn spec_command(&self) -> Seq<char> {
        match self {
            FrameProcessor::External { command, .. } => command@,
            FrameProcessor::UpscaylNcnn { command, .. } => command@,
            FrameProcessor::GeminiWatermarkRemover { command, .. } => command@,
        }
    }

    pub open spec fn spec_valid(&self) -> bool {
        &&& is_valid_identifier(self.spec_id())
        &&& !is_blank(self.spec_command())
        &&& match self {
            FrameProcessor::External { arguments, concurrency, .. } => *concurrency != 0
                && has_io_placeholders(arguments@),
            FrameProcessor::UpscaylNcnn { scale, model, model_path, .. } => 2 <= *scale <= 4
                && !is_blank(model@) && (model_path matches Some(p) ==> is_absolute_path(p@)),
            FrameProcessor::GeminiWatermarkRemover { .. } => true,
        }
    }
}

impl CommandProcessor {
    pub open spec fn spec_valid(&self) -> bool {
        &&& is_valid_identifier(self.id@)
        &&& self.enabled ==> {
            &&& !is_blank(self.command@)
            &&& has_io_placeholders(self.arguments@)
            &&& (self.output_extension matches Some(e) ==> e@.len() > 0 && forall|i: int|
                0 <= i < e@.len() ==> is_alnum(#[trigger] e@[i]))
        }
    }
}

pub open spec fn frame_ids(ps: Seq<FrameProcessor>) -> Seq<Seq<char>> {
    ps.map_values(|p: FrameProcessor| p.spec_id())
}

pub open spec fn command_ids(ps: Seq<CommandProcessor>) -> Seq<Seq<char>> {
    ps.map_values(|p: CommandProcessor| p.id@)
}

pub open spec fn command_processors_valid(ps: Seq<CommandProcessor>) -> bool {
    &&& valid_unique_ids(command_ids(ps))
    &&& forall|i: int| 0 <= i < ps.len() ==> (#[trigger] ps[i]).spec_valid()
}

impl Pipeline {
    /// Everything `validate` checks.
    pub open spec fn spec_valid(&self) -> bool {
        &&& self.version == 2
        &&& !is_blank(self.name@)
        &&& is_safe_output_path(self.output.file@, "output"@)
        &&& self.output.crf <= 51
        &&& self.validation.minimum_frame_bytes != 0
        &&& valid_unique_ids(frame_ids(self.frame_processors@))
        &&& forall|i: int|
            0 <= i < self.frame_processors@.len() ==> (#[trigger] self.frame_processors@[i]).spec_valid()
        &&& command_processors_valid(self.audio_processors@)
        &&& command_processors_valid(self.video_processors@)
        &&& match self.renderflow {
            Some(r) => r.enabled ==> !is_blank(r.command@) && has_io_placeholders(r.arguments@),
            None => true,
        }
    }
}

fn configuration(message: String) -> (e: Error)
    ensures
        e.spec_category() == ErrorCategory::Configuration,
        e.spec_message() == message@,
{
    Error::from_string(ErrorCategory::Configuration, message)
}

fn validate_identifier(value: &str, field: &str) -> (r: Result<(), Error>)
    ensures
        r is Ok <==> is_valid_identifier(value@),
{
    if text_is_blank(value) {
        return Err(configuration(join2(field, " cannot be empty")));
    }
    let s = sanitize_identifier(value);
    if !text_eq(s.as_str(), value) {
        return Err(configuration(join3(
            field,
            " must use lowercase letters, numbers, hyphens, or underscores: ",
            value,
        )));
    }
    Ok(())
}

fn validate_command(value: &str, field: &str) -> (r: Result<(), Error>)
    ensures
        r is Ok <==> !is_blank(value@),
{
    if text_is_blank(value) {
        Err(configuration(join2(field, " cannot be empty")))
    } else {
        Ok(())
    }
}

fn any_contains(arguments: &Vec<String>, pat: &str) -> (r: bool)
    ensures
        r == exists|i: int|
            0 <= i < arguments@.len() && contains_text(#[trigger] arguments@[i]@, pat@),
{
    let mut i: usize = 0;
    while i < arguments.len()
        invariant
            i <= arguments.len(),
            forall|j: int| 0 <= j < i ==> !contains_text(#[trigger] arguments@[j]@, pat@),
        decreases arguments.len() - i,
    {
        if text_contains(arguments[i].as_str(), pat) {
            return true;
        }
        i = i + 1;
    }
    false
}

fn validate_input_output_arguments(arguments: &Vec<String>, field: &str) -> (r: Result<(), Error>)
    ensures
        r is Ok <==> has_io_placeholders(arguments@),
{
    if !any_contains(arguments, "{input}") {
        return Err(configuration(join2(field, " must contain {input}")));
    }
    if !any_contains(arguments, "{output}") {
        return Err(configuration(join2(field, " must contain {output}")));
    }
    Ok(())
}

fn has_parent_component_exec(v: &[char]) -> (r: bool)
    ensures
        r == has_parent_component(v@),
{
    let dots = chars_of("..");
    let mut i: usize = 0;
    while i < v.len()
        invariant
            i <= v.len(),
            dots@ == ".."@,
            forall|j: int|
                0 <= j < i ==> !(occurs_at(v@, ".."@, j) && (j == 0 || v@[j - 1] == '/') && (j + 2
                    == v@.len() || v@[j + 2] == '/')),
        decreases v.len() - i,
    {
        if seq_occurs_at(v, dots.as_slice(), i) {
            proof {
                reveal_strlit("..");
            }
            let before = i == 0 || v[i - 1] == '/';
            let after = i + 2 == v.len() || v[i + 2] == '/';
            if before && after {
                return true;
            }
        }
        i = i + 1;
    }
    proof {
        reveal_strlit("..");
    }
    assert forall|j: int| !(#[trigger] occurs_at(v@, ".."@, j) && (j == 0 || v@[j - 1] == '/') && (j
        + 2 == v@.len() || v@[j + 2] == '/')) by {
        if occurs_at(v@, ".."@, j) {
            assert(j < i);
        }
    }
    false
}

/// Whether `value` is a relative path confined beneath `root/`.
pub fn is_safe_output_path_exec(value: &str, root: &str) -> (r: bool)
    ensures
        r == is_safe_output_path(value@, root@),
{
    let v = chars_of(value);
    let rt = chars_of(root);
    if v.len() > 0 && v[0] == '/' {
        return false;
    }
    if has_parent_component_exec(v.as_slice()) {
        return false;
    }
    if !crate::text::seq_starts_with(v.as_slice(), rt.as_slice()) {
        return false;
    }
    v.len() == rt.len() || v[rt.len()] == '/'
}

fn validate_safe_output_path(path: &str, field: &str, root: &str) -> (r: Result<(), Error>)
    ensures
        r is Ok <==> is_safe_output_path(path@, root@),
{
    if is_safe_output_path_exec(path, root) {
        Ok(())
    } else {
        Err(configuration(join2(field, " must be a relative path beneath the run output directory")))
    }
}

fn validate_unique_ids(ids: &Vec<&str>, field: &str) -> (r: Result<(), Error>)
    ensures
        r is Ok <==> valid_unique_ids(ids@.map_values(|s: &str| s@)),
{
    let ghost view = ids@.map_values(|s: &str| s@);
    let mut i: usize = 0;
    while i < ids.len()
        invariant
            i <= ids.len(),
            view == ids@.map_values(|s: &str| s@),
            forall|k: int| 0 <= k < i ==> is_valid_identifier(#[trigger] view[k]),
            forall|k: int, l: int| 0 <= k < l < i ==> #[trigger] view[k] != #[trigger] view[l],
        decreases ids.len() - i,
    {
        let id = ids[i];
        assert(view[i as int] == id@);
        validate_identifier(id, field)?;
        let mut j: usize = 0;
        while j < i
            invariant
                j <= i < ids.len(),
                view == ids@.map_values(|s: &str| s@),
                id@ == view[i as int],
                forall|k: int| 0 <= k < j ==> #[trigger] view[k] != view[i as int],
            decreases i - j,
        {
            assert(view[j as int] == ids@[j as int]@);
            assert(view[i as int] == ids@[i as int]@);
            if text_eq(ids[j], id) {
                assert(view[j as int] == view[i as int]);
                return Err(configuration(join3(field, " contains duplicate id ", id)));
            }
            j = j + 1;
        }
        i = i + 1;
    }
    Ok(())
}

fn validate_frame_processor(processor: &FrameProcessor) -> (r: Result<(), Error>)
    ensures
        r is Ok <==> processor.spec_valid(),
{
    validate_identifier(processor.id(), "frame processor id")?;
    validate_command(processor.command(), "frame processor command")?;
    match processor {
        FrameProcessor::External { arguments, concurrency, .. } => {
            if *concurrency == 0 {
                return Err(configuration(join3(
                    "frame processor ",
                    processor.id(),
                    " concurrency must be at least 1",
                )));
            }
            validate_input_output_arguments(arguments, "external frame processor arguments")?;
        },
        FrameProcessor::UpscaylNcnn { scale, model, model_path, .. } => {
            if !(2 <= *scale && *scale <= 4) {
                return Err(configuration(join3(
                    "Upscayl processor ",
                    processor.id(),
                    " scale must be 2, 3, or 4",
                )));
            }
            if text_is_blank(model.as_str()) {
                return Err(configuration(join3(
                    "Upscayl processor ",
                    processor.id(),
                    " model cannot be empty",
                )));
            }
            if let Some(path) = model_path {
                let p = chars_of(path.as_str());
                if !(p.len() > 0 && p[0] == '/') {
                    return Err(configuration(join3(
                        "Upscayl processor ",
                        processor.id(),
                        " model_path must be absolute",
                    )));
                }
            }
        },
        FrameProcessor::GeminiWatermarkRemover { .. } => {},
    }
    Ok(())
}

fn alnum_extension(value: &str) -> (r: bool)
    ensures
        r == (value@.len() > 0 && forall|i: int| 0 <= i < value@.len() ==> is_alnum(#[trigger] value@[i])),
{
    let v = chars_of(value);
    if v.len() == 0 {
        return false;
    }
    let mut i: usize = 0;
    while i < v.len()
        invariant
            i <= v.len(),
            v@ == value@,
            forall|j: int| 0 <= j < i ==> is_alnum(#[trigger] v@[j]),
        decreases v.len() - i,
    {
        if !char_is_alnum(v[i]) {
            return false;
        }
        i = i + 1;
    }
    true
}

fn validate_command_processors(processors: &Vec<CommandProcessor>, field: &str) -> (r: Result<(), Error>)
    ensures
        r is Ok <==> command_processors_valid(processors@),
{
    let mut ids: Vec<&str> = Vec::new();
    let mut i: usize = 0;
    while i < processors.len()
        invariant
            i <= processors.len(),
            ids@.map_values(|s: &str| s@) == command_ids(processors@.take(i as int)),
        decreases processors.len() - i,
    {
        ids.push(processors[i].id.as_str());
        assert(command_ids(processors@.take(i + 1)) =~= command_ids(processors@.take(i as int)).push(
            processors@[i as int].id@,
        ));
        assert(ids@.map_values(|s: &str| s@) =~= command_ids(processors@.take(i as int)).push(
            processors@[i as int].id@,
        ));
        i = i + 1;
    }
    assert(processors@.take(processors.len() as int) =~= processors@);
    validate_unique_ids(&ids, field)?;
    let mut k: usize = 0;
    while k < processors.len()
        invariant
            k <= processors.len(),
            valid_unique_ids(command_ids(processors@)),
            forall|j: int| 0 <= j < k ==> (#[trigger] processors@[j]).spec_valid(),
        decreases processors.len() - k,
    {
        let processor = &processors[k];
        assert(command_ids(processors@)[k as int] == processor.id@);
        validate_identifier(processor.id.as_str(), "command processor id")?;
        if processor.enabled {
            validate_command(processor.command.as_str(), "command processor command")?;
            validate_input_output_arguments(&processor.arguments, "command processor arguments")?;
            if let Some(extension) = &processor.output_extension {
                if !alnum_extension(extension.as_str()) {
                    return Err(configuration(join3(
                        "processor ",
                        processor.id.as_str(),
                        " output_extension must be alphanumeric without a dot",
                    )));
                }
            }
        }
        k = k + 1;
    }
    Ok(())
}

impl FrameProcessor {
    pub fn id(&self) -> (r: &str)
        ensures
            r@ == self.spec_id(),
    {
        match self {
            FrameProcessor::External { id, .. } => id.as_str(),
            FrameProcessor::UpscaylNcnn { id, .. } => id.as_str(),
            FrameProcessor::GeminiWatermarkRemover { id, .. } => id.as_str(),
        }
    }

    pub fn enabled(&self) -> (r: bool)
        ensures
            r == self.spec_enabled(),
    {
        match self {
            FrameProcessor::External { enabled, .. } => *enabled,
            FrameProcessor::UpscaylNcnn { enabled, .. } => *enabled,
            FrameProcessor::GeminiWatermarkRemover { enabled, .. } => *enabled,
        }
    }

    pub fn command(&self) -> (r: &str)
        ensures
            r@ == self.spec_command(),
    {
        match self {
            FrameProcessor::External { command, .. } => command.as_str(),
            FrameProcessor::UpscaylNcnn { command, .. } => command.as_str(),
            FrameProcessor::GeminiWatermarkRemover { command, .. } => command.as_str(),
        }
    }

    /// Per-frame concurrency of an external processor; batch processors have none.
    pub fn concurrency(&self) -> (r: Option<usize>)
        ensures
            r == (match self {
                FrameProcessor::External { concurrency, .. } => Some(*concurrency),
                _ => None::<usize>,
            }),
    {
        match self {
            FrameProcessor::External { concurrency, .. } => Some(*concurrency),
            _ => None,
        }
    }

    pub fn is_batch(&self) -> (r: bool)
        ensures
            r == !(self is External),
    {
        match self {
            FrameProcessor::External { .. } => false,
            _ => true,
        }
    }

    /// Validate this processor's identifier, command, and family settings.
    pub fn validate(&self) -> (r: Result<(), Error>)
        ensures
            r is Ok <==> self.spec_valid(),
    {
        validate_frame_processor(self)
    }

    pub open spec fn spec_arguments(&self, input: Seq<char>, output: Seq<char>) -> Seq<Seq<char>> {
        match self {
            FrameProcessor::External { arguments, .. } => texts(arguments@),
            FrameProcessor::UpscaylNcnn {
                model,
                model_path,
                scale,
                tile_size,
                gpu_id,
                tta,
                additional_arguments,
                ..
            } => seq![
                "-i"@,
                input,
                "-o"@,
                output,
                "-n"@,
                model@,
                "-s"@,
                decimal(*scale as nat),
                "-f"@,
                "png"@,
            ] + (match model_path {
                Some(p) => seq!["-m"@, p@],
                None => Seq::<Seq<char>>::empty(),
            }) + (match tile_size {
                Some(t) => seq!["-t"@, decimal(*t as nat)],
                None => Seq::<Seq<char>>::empty(),
            }) + (match gpu_id {
                Some(g) => seq!["-g"@, g@],
                None => Seq::<Seq<char>>::empty(),
            }) + (if *tta {
                seq!["-x"@]
            } else {
                Seq::<Seq<char>>::empty()
            }) + texts(additional_arguments@),
            FrameProcessor::GeminiWatermarkRemover { json, additional_arguments, .. } => seq![
                "remove"@,
                input,
                "--out-dir"@,
                output,
                "--overwrite"@,
            ] + (if *json {
                seq!["--json"@]
            } else {
                Seq::<Seq<char>>::empty()
            }) + texts(additional_arguments@),
        }
    }

    /// The argv (without the program) that runs this processor on `input`.
    pub fn arguments(&self, input: &str, output: &str) -> (r: Vec<String>)
        ensures
            texts(r@) == self.spec_arguments(input@, output@),
    {
        match self {
            FrameProcessor::External { arguments, .. } => copy_texts(arguments),
            FrameProcessor::UpscaylNcnn {
                model,
                model_path,
                scale,
                tile_size,
                gpu_id,
                tta,
                additional_arguments,
                ..
            } => {
                let mut r: Vec<String> = Vec::new();
                push_text(&mut r, "-i");
                push_text(&mut r, input);
                push_text(&mut r, "-o");
                push_text(&mut r, output);
                push_text(&mut r, "-n");
                push_text(&mut r, model.as_str());
                push_text(&mut r, "-s");
                let s = decimal_string(*scale as u64);
                push_text(&mut r, s.as_str());
                push_text(&mut r, "-f");
                push_text(&mut r, "png");
                let ghost base = texts(r@);
                if let Some(p) = model_path {
                    push_text(&mut r, "-m");
                    push_text(&mut r, p.as_str());
                }
                let ghost after_model = texts(r@);
                if let Some(t) = tile_size {
                    push_text(&mut r, "-t");
                    let ts = decimal_string(*t as u64);
                    push_text(&mut r, ts.as_str());
                }
                let ghost after_tile = texts(r@);
                if let Some(g) = gpu_id {
                    push_text(&mut r, "-g");
                    push_text(&mut r, g.as_str());
                }
                let ghost after_gpu = texts(r@);
                if *tta {
                    push_text(&mut r, "-x");
                }
                let ghost after_tta = texts(r@);
                append_texts(&mut r, additional_arguments);
                assert(texts(r@) =~= self.spec_arguments(input@, output@));
                r
            },
            FrameProcessor::GeminiWatermarkRemover { json, additional_arguments, .. } => {
                let mut r: Vec<String> = Vec::new();
                push_text(&mut r, "remove");
                push_text(&mut r, input);
                push_text(&mut r, "--out-dir");
                push_text(&mut r, output);
                push_text(&mut r, "--overwrite");
                if *json {
                    push_text(&mut r, "--json");
                }
                append_texts(&mut r, additional_arguments);
                assert(texts(r@) =~= self.spec_arguments(input@, output@));
                r
            },
        }
    }
}

/// Appends an owned copy of `value`.
pub fn push_text(v: &mut Vec<String>, value: &str)
    ensures
        texts(final(v)@) == texts(old(v)@).push(value@),
{
    v.push(value.to_owned());
    assert(texts(v@) =~= texts(old(v)@).push(value@));
}

/// Appends owned copies of every element of `values`.
pub fn append_texts(v: &mut Vec<String>, values: &Vec<String>)
    ensures
        texts(final(v)@) == texts(old(v)@) + texts(values@),
{
    let ghost start = texts(v@);
    let mut i: usize = 0;
    while i < values.len()
        invariant
            i <= values.len(),
            texts(v@) == start + texts(values@.take(i as int)),
        decreases values.len() - i,
    {
        push_text(v, values[i].as_str());
        assert(texts(values@.take(i + 1)) =~= texts(values@.take(i as int)).push(values@[i as int]@));
        assert(start + texts(values@.take(i + 1)) =~= (start + texts(values@.take(i as int))).push(
            values@[i as int]@,
        ));
        i = i + 1;
    }
    assert(values@.take(values.len() as int) =~= values@);
}

/// Owned copies of every element.
pub fn copy_texts(values: &Vec<String>) -> (r: Vec<String>)
    ensures
        texts(r@) == texts(values@),
{
    let mut r: Vec<String> = Vec::new();
    append_texts(&mut r, values);
    assert(texts(r@) =~= texts(values@));
    r
}

/// Substitute the `{input}`, `{output}`, `{frame}`, and `{run_dir}`
/// placeholders, in that order.
pub fn expand_argument(
    template: &str,
    input: &str,
    output: &str,
    frame_name: &str,
    run_directory: &str,
) -> (r: String)
    ensures
        r@ == replace_all(
            replace_all(
                replace_all(replace_all(template@, "{input}"@, input@), "{output}"@, output@),
                "{frame}"@,
                frame_name@,
            ),
            "{run_dir}"@,
            run_directory@,
        ),
{
    proof {
        reveal_strlit("{input}");
        reveal_strlit("{output}");
        reveal_strlit("{frame}");
        reveal_strlit("{run_dir}");
    }
    let a = replace_text(template, "{input}", input);
    let b = replace_text(a.as_str(), "{output}", output);
    let c = replace_text(b.as_str(), "{frame}", frame_name);
    replace_text(c.as_str(), "{run_dir}", run_directory)
}


// ---------------------------------------------------------------------------
// Pipeline-level operations
// ---------------------------------------------------------------------------

pub open spec fn enabled_frames(ps: Seq<FrameProcessor>) -> Seq<FrameProcessor> {
    ps.filter(|p: FrameProcessor| p.spec_enabled())
}

pub open spec fn enabled_commands(ps: Seq<CommandProcessor>) -> Seq<CommandProcessor> {
    ps.filter(|p: CommandProcessor| p.enabled)
}

proof fn lemma_enabled_frames_push(ps: Seq<FrameProcessor>, p: FrameProcessor)
    ensures
        enabled_frames(ps.push(p)) == if p.spec_enabled() {
            enabled_frames(ps).push(p)
        } else {
            enabled_frames(ps)
        },
{
    ps.lemma_filter_push(p, |p: FrameProcessor| p.spec_enabled());
}

proof fn lemma_enabled_commands_push(ps: Seq<CommandProcessor>, p: CommandProcessor)
    ensures
        enabled_commands(ps.push(p)) == if p.enabled {
            enabled_commands(ps).push(p)
        } else {
            enabled_commands(ps)
        },
{
    ps.lemma_filter_push(p, |p: CommandProcessor| p.enabled);
}

/// `{:02}` formatting of a stage number.
pub open spec fn two_digits(n: nat) -> Seq<char> {
    if n < 10 {
        seq!['0'] + decimal(n)
    } else {
        decimal(n)
    }
}

pub open spec fn numbered_stage(prefix: Seq<char>, n: nat, id: Seq<char>) -> Seq<char> {
    prefix + two_digits(n) + "_"@ + sanitized(id)
}

pub open spec fn numbered_stages(prefix: Seq<char>, ids: Seq<Seq<char>>) -> Seq<Seq<char>> {
    ids.map(|i: int, id: Seq<char>| numbered_stage(prefix, (i + 1) as nat, id))
}

pub open spec fn frame_ids_of(ps: Seq<FrameProcessor>) -> Seq<Seq<char>> {
    enabled_frames(ps).map_values(|p: FrameProcessor| p.spec_id())
}

pub open spec fn command_ids_of(ps: Seq<CommandProcessor>) -> Seq<Seq<char>> {
    enabled_commands(ps).map_values(|p: CommandProcessor| p.id@)
}

pub open spec fn optional_stage(present: bool, name: Seq<char>) -> Seq<Seq<char>> {
    if present {
        seq![name]
    } else {
        Seq::<Seq<char>>::empty()
    }
}

/// A name whose character at `k` (the first or second) differs from both
/// `audio_` and `restore_audio` there is neither an audio stage nor the
/// restoration.
proof fn lemma_not_an_audio_stage(x: Seq<char>, k: int)
    requires
        k == 0 || k == 1,
        x.len() > k,
        x[k] != "audio_"@[k],
        k == 0 ==> x[k] != "restore_audio"@[k],
        k == 1 ==> x[0] != "restore_audio"@[0],
    ensures
        !starts_with(x, "audio_"@),
        x != "restore_audio"@,
{
    reveal_strlit("audio_");
    reveal_strlit("restore_audio");
    if starts_with(x, "audio_"@) {
        assert(x[k] == x.subrange(0, 6)[k]);
    }
}

impl Pipeline {
    pub open spec fn subtitles_enabled(&self) -> bool {
        self.subtitles matches Some(s) && s.enabled
    }

    pub open spec fn renderflow_enabled(&self) -> bool {
        self.renderflow matches Some(r) && r.enabled
    }

    /// The ordered stage names of a run.
    pub open spec fn spec_stage_names(&self, has_audio: bool) -> Seq<Seq<char>> {
        seq!["inspect"@, "extract"@] + numbered_stages("frame_"@, frame_ids_of(self.frame_processors@))
            + seq!["validate_frames"@, "assemble_video"@] + (if has_audio {
            numbered_stages("audio_"@, command_ids_of(self.audio_processors@)) + seq![
                "restore_audio"@,
            ]
        } else {
            Seq::<Seq<char>>::empty()
        }) + optional_stage(self.subtitles_enabled(), "subtitles"@) + numbered_stages(
            "video_"@,
            command_ids_of(self.video_processors@),
        ) + seq!["finalize"@] + optional_stage(self.renderflow_enabled(), "renderflow"@) + seq![
            "delivery"@,
        ]
    }

    /// The stages planned for a run: inspection, extraction, one per enabled
    /// frame processor, frame validation and video assembly, then, only for
    /// a source with audio, one per enabled audio processor and the audio
    /// restoration, then subtitles when enabled, one per enabled video
    /// processor, finalization, renderflow when enabled, and delivery. A
    /// source without audio gets no audio stage and no restoration.
    pub proof fn lemma_stage_names_follow_the_source(&self, has_audio: bool)
        ensures
            self.spec_stage_names(has_audio).len() == 2 + enabled_frames(self.frame_processors@).len() + 2 + (if has_audio {
                enabled_commands(self.audio_processors@).len() + 1
            } else {
                0
            }) + (if self.subtitles_enabled() {
                1int
            } else {
                0
            }) + enabled_commands(self.video_processors@).len() + 1 + (if self.renderflow_enabled() {
                1int
            } else {
                0
            }) + 1,
            !has_audio ==> forall|i: int|
                0 <= i < self.spec_stage_names(has_audio).len() ==> !starts_with(
                    #[trigger] self.spec_stage_names(has_audio)[i],
                    "audio_"@,
                ) && self.spec_stage_names(has_audio)[i] != "restore_audio"@,
            has_audio ==> self.spec_stage_names(has_audio).contains("restore_audio"@),
            self.spec_stage_names(has_audio)[0] == "inspect"@,
            self.spec_stage_names(has_audio)[1] == "extract"@,
            forall|k: int|
                0 <= k < enabled_frames(self.frame_processors@).len() ==> starts_with(
                    #[trigger] self.spec_stage_names(has_audio)[2 + k],
                    "frame_"@,
                ),
            forall|k: int|
                0 <= k < enabled_frames(self.frame_processors@).len() ==> #[trigger] self.spec_stage_names(has_audio)[2
                    + k] == "frame_"@ + two_digits((k + 1) as nat) + "_"@ + sanitized(
                    enabled_frames(self.frame_processors@)[k].spec_id(),
                ),
            forall|k: int|
                0 <= k < enabled_commands(self.video_processors@).len() ==> self.spec_stage_names(has_audio)[4
                    + enabled_frames(self.frame_processors@).len() + (if has_audio {
                    enabled_commands(self.audio_processors@).len() + 1
                } else {
                    0
                }) + (if self.subtitles_enabled() {
                    1int
                } else {
                    0
                }) + k] == "video_"@ + two_digits((k + 1) as nat) + "_"@ + sanitized(
                    (#[trigger] enabled_commands(self.video_processors@)[k]).id@,
                ),
            self.spec_stage_names(has_audio)[2 + enabled_frames(self.frame_processors@).len() as int] == "validate_frames"@,
            self.spec_stage_names(has_audio)[3 + enabled_frames(self.frame_processors@).len() as int] == "assemble_video"@,
            has_audio ==> forall|k: int|
                0 <= k < enabled_commands(self.audio_processors@).len() ==> starts_with(
                    #[trigger] self.spec_stage_names(has_audio)[4 + enabled_frames(self.frame_processors@).len() + k],
                    "audio_"@,
                ),
            has_audio ==> self.spec_stage_names(has_audio)[4 + enabled_frames(self.frame_processors@).len() as int
                + enabled_commands(self.audio_processors@).len() as int] == "restore_audio"@,
            self.subtitles_enabled() ==> self.spec_stage_names(has_audio)[4 + enabled_frames(self.frame_processors@).len() as int
                + (if has_audio {
                enabled_commands(self.audio_processors@).len() + 1
            } else {
                0
            })] == "subtitles"@,
            self.renderflow_enabled() ==> self.spec_stage_names(has_audio)[self.spec_stage_names(has_audio).len() - 2]
                == "renderflow"@,
            self.spec_stage_names(has_audio)[self.spec_stage_names(has_audio).len() - 2 - (if self.renderflow_enabled() {
                1int
            } else {
                0
            })] == "finalize"@,
            self.spec_stage_names(has_audio).last() == "delivery"@,
    {
        reveal_strlit("audio_");
        reveal_strlit("restore_audio");
        reveal_strlit("inspect");
        reveal_strlit("extract");
        reveal_strlit("frame_");
        reveal_strlit("validate_frames");
        reveal_strlit("assemble_video");
        reveal_strlit("subtitles");
        reveal_strlit("video_");
        reveal_strlit("finalize");
        reveal_strlit("renderflow");
        reveal_strlit("delivery");
        let frames = numbered_stages("frame_"@, frame_ids_of(self.frame_processors@));
        let audio = numbered_stages("audio_"@, command_ids_of(self.audio_processors@));
        let videos = numbered_stages("video_"@, command_ids_of(self.video_processors@));
        let head = seq!["inspect"@, "extract"@] + frames + seq!["validate_frames"@, "assemble_video"@];
        let middle = if has_audio {
            audio + seq!["restore_audio"@]
        } else {
            Seq::<Seq<char>>::empty()
        };
        let tail = optional_stage(self.subtitles_enabled(), "subtitles"@) + videos + seq!["finalize"@] + optional_stage(
            self.renderflow_enabled(),
            "renderflow"@,
        ) + seq!["delivery"@];
        let names = self.spec_stage_names(has_audio);
        assert(names =~= head + middle + tail);
        assert forall|k: int| 0 <= k < enabled_frames(self.frame_processors@).len() implies starts_with(
            #[trigger] names[2 + k],
            "frame_"@,
        ) by {
            let x = names[2 + k];
            let rest = two_digits((k + 1) as nat) + "_"@ + sanitized(frame_ids_of(self.frame_processors@)[k]);
            assert(x == "frame_"@ + rest);
            assert(x.subrange(0, 6) =~= "frame_"@);
        }
        if has_audio {
            assert forall|k: int| 0 <= k < enabled_commands(self.audio_processors@).len() implies starts_with(
                #[trigger] names[4 + enabled_frames(self.frame_processors@).len() + k],
                "audio_"@,
            ) by {
                let x = names[4 + enabled_frames(self.frame_processors@).len() + k];
                let rest = two_digits((k + 1) as nat) + "_"@ + sanitized(command_ids_of(self.audio_processors@)[k]);
                assert(x == "audio_"@ + rest);
                assert(x.subrange(0, 6) =~= "audio_"@);
            }
        }
        if has_audio {
            assert(names[(head.len() + audio.len()) as int] == "restore_audio"@);
        } else {
            assert forall|i: int| 0 <= i < names.len() implies !starts_with(#[trigger] names[i], "audio_"@)
                && names[i] != "restore_audio"@ by {
                let x = names[i];
                if i < head.len() {
                    if i == 0 {
                        assert(x == "inspect"@);
                        lemma_not_an_audio_stage(x, 0);
                    } else if i == 1 {
                        assert(x == "extract"@);
                        lemma_not_an_audio_stage(x, 0);
                    } else if i < 2 + frames.len() {
                        assert(x == "frame_"@ + two_digits((i - 2 + 1) as nat) + "_"@ + sanitized(
                            frame_ids_of(self.frame_processors@)[i - 2],
                        ));
                        assert(x[0] == "frame_"@[0]);
                        lemma_not_an_audio_stage(x, 0);
                    } else if i == 2 + frames.len() {
                        assert(x == "validate_frames"@);
                        lemma_not_an_audio_stage(x, 0);
                    } else {
                        assert(x == "assemble_video"@);
                        lemma_not_an_audio_stage(x, 1);
                    }
                } else {
                    let j = i - head.len();
                    assert(x == tail[j]);
                    let s = optional_stage(self.subtitles_enabled(), "subtitles"@).len();
                    let t = s + videos.len();
                    let r = optional_stage(self.renderflow_enabled(), "renderflow"@).len();
                    if j < s {
                        assert(x == "subtitles"@);
                        lemma_not_an_audio_stage(x, 0);
                    } else if j < t {
                        assert(x == "video_"@ + two_digits((j - s + 1) as nat) + "_"@ + sanitized(
                            command_ids_of(self.video_processors@)[j - s],
                        ));
                        assert(x[0] == "video_"@[0]);
                        lemma_not_an_audio_stage(x, 0);
                    } else if j == t {
                        assert(x == "finalize"@);
                        lemma_not_an_audio_stage(x, 0);
                    } else if j < t + 1 + r {
                        assert(x == "renderflow"@);
                        assert(x.len() != "restore_audio"@.len());
                        if starts_with(x, "audio_"@) {
                            assert(x[0] == x.subrange(0, 6)[0]);
                        }
                    } else {
                        assert(x == "delivery"@);
                        lemma_not_an_audio_stage(x, 0);
                    }
                }
            }
        }
    }

    /// The commands a run of this pipeline needs.
    pub open spec fn requires_command(&self, c: Seq<char>) -> bool {
        ||| c == "ffmpeg"@
        ||| c == "ffprobe"@
        ||| exists|i: int|
            0 <= i < self.frame_processors@.len() && (#[trigger] self.frame_processors@[i]).spec_enabled()
                && self.frame_processors@[i].spec_command() == c
        ||| exists|i: int|
            0 <= i < self.audio_processors@.len() && (#[trigger] self.audio_processors@[i]).enabled
                && self.audio_processors@[i].command@ == c
        ||| exists|i: int|
            0 <= i < self.video_processors@.len() && (#[trigger] self.video_processors@[i]).enabled
                && self.video_processors@[i].command@ == c
        ||| (self.renderflow matches Some(r) && r.enabled && r.command@ == c)
    }

    /// Check the whole document; `Ok` exactly when `spec_valid` holds.
    pub fn validate(&self) -> (r: Result<(), Error>)
        ensures
            r is Ok <==> self.spec_valid(),
    {
        if self.version != 2 {
            let found = decimal_string(self.version as u64);
            return Err(configuration(join3("unsupported pipeline version ", found.as_str(), "; expected 2")));
        }
        if text_is_blank(self.name.as_str()) {
            return Err(configuration(owned("pipeline name cannot be empty")));
        }
        validate_safe_output_path(self.output.file.as_str(), "output.file", "output")?;
        if self.output.crf > 51 {
            return Err(configuration(owned("output.crf must be between 0 and 51")));
        }
        if self.validation.minimum_frame_bytes == 0 {
            return Err(configuration(owned("validation.minimum_frame_bytes must be at least 1")));
        }
        let mut ids: Vec<&str> = Vec::new();
        let mut i: usize = 0;
        while i < self.frame_processors.len()
            invariant
                i <= self.frame_processors.len(),
                ids@.map_values(|s: &str| s@) == frame_ids(self.frame_processors@.take(i as int)),
            decreases self.frame_processors.len() - i,
        {
            ids.push(self.frame_processors[i].id());
            assert(frame_ids(self.frame_processors@.take(i + 1)) =~= frame_ids(
                self.frame_processors@.take(i as int),
            ).push(self.frame_processors@[i as int].spec_id()));
            assert(ids@.map_values(|s: &str| s@) =~= frame_ids(self.frame_processors@.take(i as int)).push(
                self.frame_processors@[i as int].spec_id(),
            ));
            i = i + 1;
        }
        assert(self.frame_processors@.take(self.frame_processors.len() as int) =~= self.frame_processors@);
        validate_unique_ids(&ids, "frame_processors")?;
        let mut k: usize = 0;
        while k < self.frame_processors.len()
            invariant
                k <= self.frame_processors.len(),
                forall|j: int| 0 <= j < k ==> (#[trigger] self.frame_processors@[j]).spec_valid(),
            decreases self.frame_processors.len() - k,
        {
            validate_frame_processor(&self.frame_processors[k])?;
            k = k + 1;
        }
        validate_command_processors(&self.audio_processors, "audio_processors")?;
        validate_command_processors(&self.video_processors, "video_processors")?;
        if let Some(renderflow) = &self.renderflow {
            if renderflow.enabled {
                validate_command(renderflow.command.as_str(), "renderflow.command")?;
                validate_input_output_arguments(&renderflow.arguments, "renderflow.arguments")?;
            }
        }
        Ok(())
    }

    /// The enabled frame processors, in document order.
    pub fn enabled_frame_processors(&self) -> (r: Vec<&FrameProcessor>)
        ensures
            r@.map_values(|p: &FrameProcessor| *p) == enabled_frames(self.frame_processors@),
    {
        let mut r: Vec<&FrameProcessor> = Vec::new();
        let mut i: usize = 0;
        while i < self.frame_processors.len()
            invariant
                i <= self.frame_processors.len(),
                r@.map_values(|p: &FrameProcessor| *p) == enabled_frames(self.frame_processors@.take(i as int)),
            decreases self.frame_processors.len() - i,
        {
            let p = &self.frame_processors[i];
            proof {
                lemma_enabled_frames_push(self.frame_processors@.take(i as int), *p);
                assert(self.frame_processors@.take(i as int).push(*p) =~= self.frame_processors@.take(i + 1));
            }
            if p.enabled() {
                r.push(p);
                assert(r@.map_values(|p: &FrameProcessor| *p) =~= enabled_frames(self.frame_processors@.take(i as int)).push(*p));
            }
            i = i + 1;
        }
        assert(self.frame_processors@.take(self.frame_processors.len() as int) =~= self.frame_processors@);
        r
    }

    /// The enabled audio processors, in document order.
    pub fn enabled_audio_processors(&self) -> (r: Vec<&CommandProcessor>)
        ensures
            r@.map_values(|p: &CommandProcessor| *p) == enabled_commands(self.audio_processors@),
    {
        enabled_of(&self.audio_processors)
    }

    /// The enabled whole-video processors, in document order.
    pub fn enabled_video_processors(&self) -> (r: Vec<&CommandProcessor>)
        ensures
            r@.map_values(|p: &CommandProcessor| *p) == enabled_commands(self.video_processors@),
    {
        enabled_of(&self.video_processors)
    }

    /// Stage names of a run, given whether the source has audio.
    pub fn stage_names(&self, has_audio: bool) -> (r: Vec<String>)
        ensures
            texts(r@) == self.spec_stage_names(has_audio),
    {
        let mut r: Vec<String> = Vec::new();
        push_text(&mut r, "inspect");
        push_text(&mut r, "extract");
        let frames = self.enabled_frame_processors();
        let mut frame_ids: Vec<&str> = Vec::new();
        let mut i: usize = 0;
        while i < frames.len()
            invariant
                i <= frames.len(),
                frames@.map_values(|p: &FrameProcessor| *p) == enabled_frames(self.frame_processors@),
                frame_ids@.map_values(|s: &str| s@) == frame_ids_of(self.frame_processors@).take(i as int),
            decreases frames.len() - i,
        {
            let ghost prev = frame_ids@;
            let x = frames[i].id();
            frame_ids.push(x);
            let ghost all = frame_ids_of(self.frame_processors@);
            assert(enabled_frames(self.frame_processors@)[i as int] == *frames@[i as int]);
            assert(all[i as int] == x@);
            assert(frame_ids@.map_values(|s: &str| s@) =~= prev.map_values(|s: &str| s@).push(x@));
            assert(all.take(i + 1) =~= all.take(i as int).push(all[i as int]));
            i = i + 1;
        }
        assert(frame_ids_of(self.frame_processors@).take(frames.len() as int) =~= frame_ids_of(self.frame_processors@));
        push_numbered_stages(&mut r, "frame_", &frame_ids);
        push_text(&mut r, "validate_frames");
        push_text(&mut r, "assemble_video");
        if has_audio {
            let audio = command_ids_in(&self.audio_processors);
            push_numbered_stages(&mut r, "audio_", &audio);
            push_text(&mut r, "restore_audio");
        }
        let subtitles = match &self.subtitles {
            Some(s) => s.enabled,
            None => false,
        };
        if subtitles {
            push_text(&mut r, "subtitles");
        }
        let video = command_ids_in(&self.video_processors);
        push_numbered_stages(&mut r, "video_", &video);
        push_text(&mut r, "finalize");
        let renderflow = match &self.renderflow {
            Some(h) => h.enabled,
            None => false,
        };
        if renderflow {
            push_text(&mut r, "renderflow");
        }
        push_text(&mut r, "delivery");
        assert(texts(r@) =~= self.spec_stage_names(has_audio));
        r
    }

    /// The sorted, de-duplicated commands that a run needs.
    pub fn required_commands(&self) -> (r: Vec<String>)
        ensures
            ascending(texts(r@)),
            forall|c: Seq<char>| #[trigger] texts(r@).contains(c) <==> self.requires_command(c),
    {
        let mut r: Vec<String> = Vec::new();
        insert_sorted_unique(&mut r, owned("ffmpeg"));
        insert_sorted_unique(&mut r, owned("ffprobe"));
        let mut i: usize = 0;
        while i < self.frame_processors.len()
            invariant
                i <= self.frame_processors.len(),
                ascending(texts(r@)),
                forall|c: Seq<char>| #[trigger] texts(r@).contains(c) <==> (c == "ffmpeg"@ || c == "ffprobe"@
                    || exists|j: int| 0 <= j < i && (#[trigger] self.frame_processors@[j]).spec_enabled()
                        && self.frame_processors@[j].spec_command() == c),
            decreases self.frame_processors.len() - i,
        {
            let p = &self.frame_processors[i];
            if p.enabled() {
                insert_sorted_unique(&mut r, owned(p.command()));
            }
            assert forall|c: Seq<char>| #[trigger] texts(r@).contains(c) <==> (c == "ffmpeg"@ || c == "ffprobe"@
                || exists|j: int| 0 <= j < i + 1 && (#[trigger] self.frame_processors@[j]).spec_enabled()
                    && self.frame_processors@[j].spec_command() == c) by {
                if (exists|j: int| 0 <= j < i + 1 && (#[trigger] self.frame_processors@[j]).spec_enabled()
                    && self.frame_processors@[j].spec_command() == c) {
                    let j = choose|j: int| 0 <= j < i + 1 && (#[trigger] self.frame_processors@[j]).spec_enabled()
                        && self.frame_processors@[j].spec_command() == c;
                    if j < i {
                    }
                }
            }
            i = i + 1;
        }
        let ghost after_frames = texts(r@);
        add_enabled_commands(&mut r, &self.audio_processors);
        let ghost after_audio = texts(r@);
        add_enabled_commands(&mut r, &self.video_processors);
        if let Some(h) = &self.renderflow {
            if h.enabled {
                insert_sorted_unique(&mut r, owned(h.command.as_str()));
            }
        }
        r
    }
}

fn enabled_of(ps: &Vec<CommandProcessor>) -> (r: Vec<&CommandProcessor>)
    ensures
        r@.map_values(|p: &CommandProcessor| *p) == enabled_commands(ps@),
{
    let mut r: Vec<&CommandProcessor> = Vec::new();
    let mut i: usize = 0;
    while i < ps.len()
        invariant
            i <= ps.len(),
            r@.map_values(|p: &CommandProcessor| *p) == enabled_commands(ps@.take(i as int)),
        decreases ps.len() - i,
    {
        let p = &ps[i];
        proof {
            lemma_enabled_commands_push(ps@.take(i as int), *p);
            assert(ps@.take(i as int).push(*p) =~= ps@.take(i + 1));
        }
        if p.enabled {
            r.push(p);
            assert(r@.map_values(|p: &CommandProcessor| *p) =~= enabled_commands(ps@.take(i as int)).push(*p));
        }
        i = i + 1;
    }
    assert(ps@.take(ps.len() as int) =~= ps@);
    r
}

fn command_ids_in(ps: &Vec<CommandProcessor>) -> (r: Vec<&str>)
    ensures
        r@.map_values(|s: &str| s@) == command_ids_of(ps@),
{
    let enabled = enabled_of(ps);
    let mut r: Vec<&str> = Vec::new();
    let mut i: usize = 0;
    while i < enabled.len()
        invariant
            i <= enabled.len(),
            enabled@.map_values(|p: &CommandProcessor| *p) == enabled_commands(ps@),
            r@.map_values(|s: &str| s@) == command_ids_of(ps@).take(i as int),
        decreases enabled.len() - i,
    {
        let ghost prev = r@;
        let x = enabled[i].id.as_str();
        r.push(x);
        let ghost all = command_ids_of(ps@);
        assert(enabled_commands(ps@)[i as int] == *enabled@[i as int]);
        assert(all[i as int] == x@);
        assert(r@.map_values(|s: &str| s@) =~= prev.map_values(|s: &str| s@).push(x@));
        assert(all.take(i + 1) =~= all.take(i as int).push(all[i as int]));
        i = i + 1;
    }
    assert(command_ids_of(ps@).take(enabled.len() as int) =~= command_ids_of(ps@));
    r
}

fn two_digit_string(n: u64) -> (r: String)
    ensures
        r@ == two_digits(n as nat),
{
    let d = decimal_string(n);
    if n < 10 {
        let mut r = String::new();
        push_char(&mut r, '0');
        r.append(d.as_str());
        r
    } else {
        d
    }
}

fn push_numbered_stages(out: &mut Vec<String>, prefix: &str, ids: &Vec<&str>)
    ensures
        texts(final(out)@) == texts(old(out)@) + numbered_stages(prefix@, ids@.map_values(|s: &str| s@)),
{
    let ghost start = texts(out@);
    let ghost idv = ids@.map_values(|s: &str| s@);
    let mut i: usize = 0;
    while i < ids.len()
        invariant
            i <= ids.len(),
            idv == ids@.map_values(|s: &str| s@),
            texts(out@) == start + numbered_stages(prefix@, idv).take(i as int),
        decreases ids.len() - i,
    {
        let n: u64 = (i as u64) + 1;
        let number = two_digit_string(n);
        let name = sanitize_identifier(ids[i]);
        let mut stage = join3(prefix, number.as_str(), "_");
        stage.append(name.as_str());
        let ghost all = numbered_stages(prefix@, idv);
        assert(idv[i as int] == ids@[i as int]@);
        assert(stage@ == numbered_stage(prefix@, (i + 1) as nat, idv[i as int]));
        assert(all[i as int] == stage@);
        let ghost prev = out@;
        out.push(stage);
        assert(texts(out@) =~= texts(prev).push(all[i as int]));
        assert(all.take(i + 1) =~= all.take(i as int).push(all[i as int]));
        i = i + 1;
    }
    assert(numbered_stages(prefix@, idv).take(ids.len() as int) =~= numbered_stages(prefix@, idv));
}

fn add_enabled_commands(r: &mut Vec<String>, ps: &Vec<CommandProcessor>)
    requires
        ascending(texts(old(r)@)),
    ensures
        ascending(texts(final(r)@)),
        forall|c: Seq<char>| #[trigger] texts(final(r)@).contains(c) <==> (texts(old(r)@).contains(c)
            || exists|j: int| 0 <= j < ps@.len() && (#[trigger] ps@[j]).enabled && ps@[j].command@ == c),
{
    let ghost start = texts(r@);
    let mut i: usize = 0;
    while i < ps.len()
        invariant
            i <= ps.len(),
            ascending(texts(r@)),
            forall|c: Seq<char>| #[trigger] texts(r@).contains(c) <==> (start.contains(c)
                || exists|j: int| 0 <= j < i && (#[trigger] ps@[j]).enabled && ps@[j].command@ == c),
        decreases ps.len() - i,
    {
        let p = &ps[i];
        if p.enabled {
            insert_sorted_unique(r, owned(p.command.as_str()));
        }
        assert forall|c: Seq<char>| #[trigger] texts(r@).contains(c) <==> (start.contains(c)
            || exists|j: int| 0 <= j < i + 1 && (#[trigger] ps@[j]).enabled && ps@[j].command@ == c) by {
            if exists|j: int| 0 <= j < i + 1 && (#[trigger] ps@[j]).enabled && ps@[j].command@ == c {
                let j = choose|j: int| 0 <= j < i + 1 && (#[trigger] ps@[j]).enabled && ps@[j].command@ == c;
                if j < i {
                }
            }
        }
        i = i + 1;
    }
}

} // verus!
