//! Short-segment planning: request limits, exact and keyframe-aligned
//! segment boundaries, ffmpeg argument lists, and reconstruction tolerance.
use vstd::prelude::*;

pub use crate::cancellation::CancellationToken;
use crate::error::{Error, ErrorCategory};
use crate::text::{decimal, decimal_string, digit_char, digit_to_char, join2, owned, push_char, text_eq};

verus! {

pub const SEGMENT_PLAN_SCHEMA_V1: &'static str = "aniflow.segment-plan/v1";
pub const SEGMENT_MANIFEST_SCHEMA_V1: &'static str = "aniflow.segment-manifest/v1";
pub const RECONSTRUCTION_REPORT_SCHEMA_V1: &'static str = "aniflow.reconstruction-report/v1";
pub const SEGMENT_CAPABILITY_ID_V1: &'static str = "media.video.segment/v1";
pub const RECONSTRUCT_CAPABILITY_ID_V1: &'static str = "media.video.reconstruct/v1";

/// The longest segment a request may ask for.
pub const MAXIMUM_SEGMENT_DURATION_MS: u64 = 29_999;
/// The child-process timeout of a request that names none.
pub const DEFAULT_PROCESS_TIMEOUT_SECONDS: u64 = 3_600;
/// A keyframe-aligned segment this long or longer is refused.
pub const KEYFRAME_SEGMENT_LIMIT_MS: u64 = 30_000;

#[derive(Debug, Clone, Copy, PartialEq, Eq, Structural)]
#[non_exhaustive]
pub enum SegmentMode {
    StreamCopy,
    TranscodeH264Aac,
}

#[derive(Debug, Clone, Copy, PartialEq, Eq, Structural)]
#[non_exhaustive]
pub enum BoundaryAccuracy {
    KeyframeAligned,
    FrameAccurate,
}

#[derive(Debug, Clone)]
#[non_exhaustive]
pub struct SegmentRequest {
    pub input: String,
    pub output_directory: String,
    pub segment_duration_ms: u64,
    pub mode: SegmentMode,
    pub process_timeout_seconds: u64,
}

impl SegmentRequest {
    /// A request with the default process timeout.
    pub fn new(input: String, output_directory: String, segment_duration_ms: u64, mode: SegmentMode) -> (r: Self)
        ensures
            r.input == input,
            r.output_directory == output_directory,
            r.segment_duration_ms == segment_duration_ms,
            r.mode == mode,
            r.process_timeout_seconds == DEFAULT_PROCESS_TIMEOUT_SECONDS,
    {
        SegmentRequest {
            input,
            output_directory,
            segment_duration_ms,
            mode,
            process_timeout_seconds: DEFAULT_PROCESS_TIMEOUT_SECONDS,
        }
    }

    /// The same request with another process timeout.
    pub fn with_process_timeout_seconds(self, seconds: u64) -> (r: Self)
        ensures
            r.input == self.input,
            r.output_directory == self.output_directory,
            r.segment_duration_ms == self.segment_duration_ms,
            r.mode == self.mode,
            r.process_timeout_seconds == seconds,
    {
        let mut request = self;
        request.process_timeout_seconds = seconds;
        request
    }
}

/// One planned segment: its position and its requested time range.
#[derive(Debug, Clone, Copy, PartialEq, Eq, Structural)]
#[non_exhaustive]
pub struct PlannedSegment {
    pub index: u64,
    pub start_ms: u64,
    pub end_ms: u64,
}

#[derive(Debug, Clone)]
pub struct SegmentRecord {
    pub index: u64,
    pub path: String,
    pub requested_start_ms: u64,
    pub requested_end_ms: u64,
    pub actual_duration_ms: u64,
    pub boundary_accuracy: BoundaryAccuracy,
    pub sha256: String,
    pub size_bytes: u64,
}

#[derive(Debug, Clone)]
#[non_exhaustive]
pub struct SegmentOutcome {
    pub run_directory: String,
    pub manifest: String,
    pub segment_count: u64,
    pub resumed_segments: u64,
    pub generated_segments: u64,
}

#[derive(Debug, Clone)]
#[non_exhaustive]
pub struct ReconstructionReport {
    pub schema: String,
    pub capability_id: String,
    pub aniflow_version: String,
    pub manifest: String,
    pub manifest_sha256: String,
    pub output: String,
    pub output_sha256: String,
    pub output_duration_ms: u64,
    pub source_duration_ms: u64,
    pub duration_delta_ms: u64,
    pub tolerance_ms: u64,
    pub validated: bool,
}

#[derive(Debug, Clone, Copy, PartialEq, Eq, Structural)]
#[non_exhaustive]
pub enum SegmentProgress {
    Planned { segments: u64 },
    SegmentStarted { index: u64, total: u64 },
    SegmentReused { index: u64, total: u64 },
    SegmentComplete { index: u64, total: u64 },
    ReconstructionStarted,
    ReconstructionComplete,
}

// ---------------------------------------------------------------------------
// Request limits
// ---------------------------------------------------------------------------

/// The limits a request must respect beyond naming an existing input.
pub open spec fn request_limits_valid(request: SegmentRequest) -> bool {
    &&& 1 <= request.segment_duration_ms <= MAXIMUM_SEGMENT_DURATION_MS
    &&& request.process_timeout_seconds > 0
}

/// Check a request's segment duration and process timeout.
pub fn validate_request(request: &SegmentRequest) -> (r: Result<(), Error>)
    ensures
        r is Ok <==> request_limits_valid(*request),
        r matches Err(e) ==> e.spec_category() == ErrorCategory::Configuration,
{
    if request.segment_duration_ms == 0 || request.segment_duration_ms > MAXIMUM_SEGMENT_DURATION_MS {
        return Err(Error::new(
            ErrorCategory::Configuration,
            "segment duration must be between 1 and 29999 milliseconds",
        ));
    }
    if request.process_timeout_seconds == 0 {
        return Err(Error::new(ErrorCategory::Configuration, "process timeout must be greater than zero"));
    }
    Ok(())
}

// ---------------------------------------------------------------------------
// Segment boundaries
// ---------------------------------------------------------------------------

/// The segments cover `[0, duration)` in order, each starting where the
/// previous one ended, none empty.
pub open spec fn tiles(segments: Seq<PlannedSegment>, duration: int) -> bool {
    &&& duration > 0 ==> segments.len() > 0 && segments[0].start_ms == 0 && segments.last().end_ms == duration
    &&& duration == 0 ==> segments.len() == 0
    &&& forall|i: int| 0 <= i < segments.len() ==> (#[trigger] segments[i]).start_ms < segments[i].end_ms
    &&& forall|i: int| 0 <= i < segments.len() - 1 ==> (#[trigger] segments[i]).end_ms == segments[i + 1].start_ms
}

/// Frame-accurate segments: `ceil(duration / target)` segments of the
/// target length, the last one cut at the source duration.
pub open spec fn exact_segment(index: int, duration: int, target: int) -> PlannedSegment {
    PlannedSegment {
        index: index as u64,
        start_ms: (index * target) as u64,
        end_ms: (if (index + 1) * target < duration { (index + 1) * target } else { duration }) as u64,
    }
}

/// A transcode does not silently drop subtitle streams: a source with
/// subtitles is segmented only by stream copy.
pub fn check_segment_source(mode: SegmentMode, has_subtitles: bool) -> (r: Result<(), Error>)
    ensures
        r is Ok <==> !(mode == SegmentMode::TranscodeH264Aac && has_subtitles),
        r matches Err(e) ==> e.spec_category() == ErrorCategory::Configuration && e.spec_message()
            == "the h264/aac transcode preset does not silently discard subtitle streams; use stream-copy or provide a subtitle-free source"@,
{
    if mode == SegmentMode::TranscodeH264Aac && has_subtitles {
        return Err(Error::new(
            ErrorCategory::Configuration,
            "the h264/aac transcode preset does not silently discard subtitle streams; use stream-copy or provide a subtitle-free source",
        ));
    }
    Ok(())
}

/// A source is segmented only when it lasts some time, and, for exact
/// segments, when its end plus one more segment still fits a `u64`.
pub fn check_segment_duration(mode: SegmentMode, source_duration_ms: u64, segment_duration_ms: u64) -> (r: Result<
    (),
    Error,
>)
    ensures
        r is Ok <==> source_duration_ms > 0 && (mode == SegmentMode::TranscodeH264Aac ==> source_duration_ms
            + segment_duration_ms <= u64::MAX),
        r matches Err(e) ==> e.spec_category() == ErrorCategory::Media,
        source_duration_ms == 0 ==> (r matches Err(e) && e.spec_message() == "source duration must be greater than zero"@),
        r matches Err(e) ==> (source_duration_ms > 0 ==> e.spec_message() == "source duration is too long to segment"@),
{
    if source_duration_ms == 0 {
        return Err(Error::new(ErrorCategory::Media, "source duration must be greater than zero"));
    }
    if mode == SegmentMode::TranscodeH264Aac && source_duration_ms > u64::MAX - segment_duration_ms {
        return Err(Error::new(ErrorCategory::Media, "source duration is too long to segment"));
    }
    Ok(())
}

pub fn plan_exact_segments(source_duration_ms: u64, target_ms: u64) -> (r: Vec<PlannedSegment>)
    requires
        target_ms > 0,
        source_duration_ms + target_ms <= u64::MAX,
    ensures
        r@.len() == (source_duration_ms + target_ms - 1) / (target_ms as int),
        forall|i: int| 0 <= i < r@.len() ==> #[trigger] r@[i] == exact_segment(i, source_duration_ms as int, target_ms as int),
        tiles(r@, source_duration_ms as int),
        forall|i: int| 0 <= i < r@.len() ==> (#[trigger] r@[i]).end_ms - r@[i].start_ms <= target_ms,
{
    let d = source_duration_ms;
    let t = target_ms;
    let count: u64 = (d + t - 1) / t;
    proof {
        assert(count * t <= d + t - 1) by (nonlinear_arith)
            requires
                count == (d + t - 1) / (t as int),
                t > 0,
        ;
        assert(count * t + t > d + t - 1) by (nonlinear_arith)
            requires
                count == (d + t - 1) / (t as int),
                t > 0,
        ;
    }
    let mut r: Vec<PlannedSegment> = Vec::new();
    let mut index: u64 = 0;
    let mut start: u64 = 0;
    while index < count
        invariant
            t > 0,
            d + t <= u64::MAX,
            count == (d + t - 1) / (t as int),
            count * t <= d + t - 1,
            count * t + t > d + t - 1,
            index <= count,
            start == index * t,
            r@.len() == index,
            forall|i: int| 0 <= i < index ==> #[trigger] r@[i] == exact_segment(i, d as int, t as int),
        decreases count - index,
    {
        proof {
            assert((index + 1) * t == index * t + t) by (nonlinear_arith);
            assert((index + 1) * t <= count * t) by (nonlinear_arith)
                requires
                    index + 1 <= count,
            ;
        }
        let next: u64 = start + t;
        let end: u64 = if next < d { next } else { d };
        r.push(PlannedSegment { index, start_ms: start, end_ms: end });
        index = index + 1;
        start = next;
    }
    proof {
        let n = r@.len() as int;
        assert forall|i: int| 0 <= i < n implies (#[trigger] r@[i]).start_ms < r@[i].end_ms && r@[i].end_ms
            - r@[i].start_ms <= t by {
            assert((i + 1) * t == i * t + t) by (nonlinear_arith);
            assert(i * t <= (count - 1) * t) by (nonlinear_arith)
                requires
                    i <= count - 1,
                    t > 0,
            ;
            assert((count - 1) * t == count * t - t) by (nonlinear_arith);
        }
        assert forall|i: int| 0 <= i < n - 1 implies (#[trigger] r@[i]).end_ms == r@[i + 1].start_ms by {
            assert((i + 1) * t == i * t + t) by (nonlinear_arith);
            assert((i + 1) * t <= (count - 1) * t) by (nonlinear_arith)
                requires
                    i + 1 <= count - 1,
                    t > 0,
            ;
            assert((count - 1) * t == count * t - t) by (nonlinear_arith);
        }
        if d > 0 {
            assert(count >= 1) by (nonlinear_arith)
                requires
                    count * t + t > d + t - 1,
                    d > 0,
                    t > 0,
            ;
            assert(count * t == (count - 1) * t + t) by (nonlinear_arith);
            assert(r@[n - 1].end_ms == d);
        } else {
            assert(count == 0) by (nonlinear_arith)
                requires
                    count * t <= d + t - 1,
                    d == 0,
                    t > 0,
            ;
        }
    }
    r
}

/// A keyframe that may end the current segment: at or after the desired
/// cut, after the previous cut, and before the end of the source.
pub open spec fn cut_candidate(k: u64, duration: int, desired: int, last: int) -> bool {
    desired <= k < duration && k > last
}

/// The smallest candidate keyframe, if there is one.
pub open spec fn next_cut(keyframes: Seq<u64>, duration: int, desired: int, last: int) -> Option<u64>
    decreases keyframes.len(),
{
    if keyframes.len() == 0 {
        None
    } else {
        let rest = next_cut(keyframes.drop_last(), duration, desired, last);
        let k = keyframes.last();
        if cut_candidate(k, duration, desired, last) {
            match rest {
                Some(c) => Some(if k < c { k } else { c }),
                None => Some(k),
            }
        } else {
            rest
        }
    }
}

/// `next_cut` is the least candidate, and there is none when it is `None`.
pub proof fn lemma_next_cut(keyframes: Seq<u64>, duration: int, desired: int, last: int)
    ensures
        next_cut(keyframes, duration, desired, last) matches Some(c) ==> keyframes.contains(c) && cut_candidate(
            c,
            duration,
            desired,
            last,
        ) && forall|i: int|
            0 <= i < keyframes.len() && cut_candidate(#[trigger] keyframes[i], duration, desired, last) ==> c
                <= keyframes[i],
        next_cut(keyframes, duration, desired, last) is None ==> forall|i: int|
            0 <= i < keyframes.len() ==> !cut_candidate(#[trigger] keyframes[i], duration, desired, last),
    decreases keyframes.len(),
{
    if keyframes.len() > 0 {
        let rest = keyframes.drop_last();
        let n = keyframes.len() - 1;
        let k = keyframes[n];
        lemma_next_cut(rest, duration, desired, last);
        assert forall|i: int| 0 <= i < rest.len() implies #[trigger] rest[i] == keyframes[i] by {}
        assert(keyframes.last() == k);
        let r = next_cut(rest, duration, desired, last);
        if cut_candidate(k, duration, desired, last) {
            let c = next_cut(keyframes, duration, desired, last)->0;
            match r {
                Some(c0) => {
                    let j = choose|j: int| 0 <= j < rest.len() && rest[j] == c0;
                    assert(keyframes[j] == c0);
                    assert forall|i: int|
                        0 <= i < keyframes.len() && cut_candidate(#[trigger] keyframes[i], duration, desired, last) implies c
                            <= keyframes[i] by {
                        if i < n {
                            assert(rest[i] == keyframes[i]);
                        }
                    }
                    if k < c0 {
                        assert(keyframes[n] == c);
                    }
                },
                None => {
                    assert forall|i: int|
                        0 <= i < keyframes.len() && cut_candidate(#[trigger] keyframes[i], duration, desired, last) implies c
                            <= keyframes[i] by {
                        if i < n {
                            assert(rest[i] == keyframes[i]);
                        }
                    }
                    assert(keyframes[n] == c);
                },
            }
        } else {
            match r {
                Some(c0) => {
                    let j = choose|j: int| 0 <= j < rest.len() && rest[j] == c0;
                    assert(keyframes[j] == c0);
                    assert forall|i: int|
                        0 <= i < keyframes.len() && cut_candidate(#[trigger] keyframes[i], duration, desired, last) implies c0
                            <= keyframes[i] by {
                        if i < n {
                            assert(rest[i] == keyframes[i]);
                        }
                    }
                },
                None => {
                    assert forall|i: int| 0 <= i < keyframes.len() implies !cut_candidate(
                        #[trigger] keyframes[i],
                        duration,
                        desired,
                        last,
                    ) by {
                        if i < n {
                            assert(rest[i] == keyframes[i]);
                        }
                    }
                },
            }
        }
    }
}

/// The cut points after `cuts`, continuing the greedy walk from the last
/// cut and the next desired cut.
pub open spec fn keyframe_cuts_from(
    keyframes: Seq<u64>,
    duration: int,
    target: int,
    cuts: Seq<u64>,
    last: int,
    desired: int,
) -> Seq<u64>
    decreases duration - last,
{
    if desired < duration && last < duration {
        match next_cut(keyframes, duration, desired, last) {
            Some(c) => {
                let next_desired = if c + target <= u64::MAX { c + target } else { u64::MAX as int };
                if c > last && c < duration {
                    keyframe_cuts_from(keyframes, duration, target, cuts.push(c), c as int, next_desired)
                } else {
                    cuts
                }
            },
            None => cuts,
        }
    } else {
        cuts
    }
}

/// Keyframe-aligned cut points: zero, then greedily the first keyframe at
/// least one target length after the previous cut, then the source
/// duration.
pub open spec fn keyframe_cut_points(keyframes: Seq<u64>, duration: int, target: int) -> Seq<u64> {
    let cuts = keyframe_cuts_from(keyframes, duration, target, seq![0u64], 0, target);
    if cuts.last() < duration {
        cuts.push(duration as u64)
    } else {
        cuts
    }
}

/// The segments between consecutive cut points.
pub open spec fn segments_between(cuts: Seq<u64>) -> Seq<PlannedSegment> {
    Seq::new(
        (cuts.len() - 1) as nat,
        |i: int| PlannedSegment { index: i as u64, start_ms: cuts[i], end_ms: cuts[i + 1] },
    )
}

/// Cut points strictly increase from zero and stay below the duration.
pub open spec fn increasing_cuts(cuts: Seq<u64>, duration: int) -> bool {
    &&& cuts.len() > 0
    &&& cuts[0] == 0
    &&& forall|i: int, j: int| 0 <= i < j < cuts.len() ==> #[trigger] cuts[i] < #[trigger] cuts[j]
    &&& forall|i: int| 0 <= i < cuts.len() ==> #[trigger] cuts[i] < duration || (i == 0 && duration == 0)
}

proof fn lemma_cuts_from_increasing(
    keyframes: Seq<u64>,
    duration: int,
    target: int,
    cuts: Seq<u64>,
    last: int,
    desired: int,
)
    requires
        duration >= 0,
        increasing_cuts(cuts, duration),
        last == cuts.last(),
    ensures
        increasing_cuts(keyframe_cuts_from(keyframes, duration, target, cuts, last, desired), duration),
        is_prefix_seq(cuts, keyframe_cuts_from(keyframes, duration, target, cuts, last, desired)),
    decreases duration - last,
{
    if desired < duration && last < duration {
        if let Some(c) = next_cut(keyframes, duration, desired, last) {
            let next_desired = if c + target <= u64::MAX { c + target } else { u64::MAX as int };
            if c > last && c < duration {
                let next = cuts.push(c);
                assert forall|i: int, j: int| 0 <= i < j < next.len() implies #[trigger] next[i] < #[trigger] next[j] by {
                    if j == next.len() - 1 {
                        assert(cuts[i] <= cuts.last()) by {
                            if i < cuts.len() - 1 {
                                assert(cuts[i] < cuts[cuts.len() - 1]);
                            }
                        }
                    }
                }
                lemma_cuts_from_increasing(keyframes, duration, target, next, c as int, next_desired);
                let full = keyframe_cuts_from(keyframes, duration, target, next, c as int, next_desired);
                assert(full.take(next.len() as int) == next);
                assert(full.take(cuts.len() as int) =~= next.take(cuts.len() as int));
                assert(next.take(cuts.len() as int) =~= cuts);
            } else {
                assert(cuts.take(cuts.len() as int) =~= cuts);
            }
        } else {
            assert(cuts.take(cuts.len() as int) =~= cuts);
        }
    } else {
        assert(cuts.take(cuts.len() as int) =~= cuts);
    }
}

/// `p` is a prefix of `s`.
pub open spec fn is_prefix_seq(p: Seq<u64>, s: Seq<u64>) -> bool {
    p.len() <= s.len() && s.take(p.len() as int) == p
}

/// Keyframe cut points start at zero, strictly increase, and end at the
/// source duration; so the segments between them tile the source.
pub proof fn lemma_keyframe_segments_tile(keyframes: Seq<u64>, duration: u64, target: u64)
    ensures
        tiles(segments_between(keyframe_cut_points(keyframes, duration as int, target as int)), duration as int),
{
    let d = duration as int;
    let start = seq![0u64];
    lemma_cuts_from_increasing(keyframes, d, target as int, start, 0, target as int);
    let cuts = keyframe_cuts_from(keyframes, d, target as int, start, 0, target as int);
    let points = keyframe_cut_points(keyframes, d, target as int);
    assert(cuts.take(1)[0] == cuts[0]);
    if cuts.last() < d {
        assert forall|i: int, j: int| 0 <= i < j < points.len() implies #[trigger] points[i] < #[trigger] points[j] by {
            if j == points.len() - 1 {
                assert(cuts[i] < d);
            }
        }
    } else {
        if d > 0 {
            assert(cuts[cuts.len() - 1] < d);
        }
        assert(cuts.len() == 1) by {
            if cuts.len() > 1 {
                assert(cuts[0] < cuts[1]);
            }
        }
    }
    let segments = segments_between(points);
    assert forall|i: int| 0 <= i < segments.len() implies (#[trigger] segments[i]).start_ms < segments[i].end_ms by {
        assert(points[i] < points[i + 1]);
    }
}

/// `c` is where a keyframe segment that starts at `previous` ends, before
/// the source end: the least keyframe that lies after `previous` and at
/// least one target length after it.
pub open spec fn least_keyframe_cut(keyframes: Seq<u64>, duration: int, target: int, previous: int, c: int) -> bool {
    &&& exists|j: int| 0 <= j < keyframes.len() && keyframes[j] == c
    &&& previous < c < duration
    &&& c >= previous + target
    &&& forall|j: int|
        0 <= j < keyframes.len() && previous < #[trigger] keyframes[j] < duration && keyframes[j] >= previous + target
            ==> c <= keyframes[j]
}

/// No keyframe before the source end lies after `previous` and at least one
/// target length after it.
pub open spec fn no_keyframe_cut_after(keyframes: Seq<u64>, duration: int, target: int, previous: int) -> bool {
    forall|j: int|
        0 <= j < keyframes.len() ==> !(previous < #[trigger] keyframes[j] < duration && keyframes[j] >= previous
            + target)
}

proof fn lemma_cuts_from_greedy(
    keyframes: Seq<u64>,
    duration: int,
    target: int,
    cuts: Seq<u64>,
    last: int,
    desired: int,
)
    requires
        0 <= duration <= u64::MAX,
        0 <= target <= u64::MAX,
        cuts.len() > 0,
        cuts.last() == last,
        desired == if last + target <= u64::MAX {
            last + target
        } else {
            u64::MAX as int
        },
    ensures
        ({
            let r = keyframe_cuts_from(keyframes, duration, target, cuts, last, desired);
            &&& r.len() >= cuts.len()
            &&& forall|i: int| 0 <= i < cuts.len() ==> r[i] == cuts[i]
            &&& forall|i: int|
                cuts.len() <= i < r.len() ==> least_keyframe_cut(keyframes, duration, target, r[i - 1] as int, #[trigger] r[i] as int)
            &&& no_keyframe_cut_after(keyframes, duration, target, r.last() as int)
        }),
    decreases duration - last,
{
    let r = keyframe_cuts_from(keyframes, duration, target, cuts, last, desired);
    if desired < duration && last < duration {
        lemma_next_cut(keyframes, duration, desired, last);
        match next_cut(keyframes, duration, desired, last) {
            Some(c) => {
                let next_desired = if c + target <= u64::MAX { c + target } else { u64::MAX as int };
                let next = cuts.push(c);
                assert(last + target <= u64::MAX);
                let j0 = choose|j: int| 0 <= j < keyframes.len() && keyframes[j] == c;
                assert(keyframes.contains(c));
                assert forall|j: int|
                    0 <= j < keyframes.len() && last < #[trigger] keyframes[j] < duration && keyframes[j] >= last + target
                        implies c <= keyframes[j] by {
                    assert(cut_candidate(keyframes[j], duration, desired, last));
                }
                assert(least_keyframe_cut(keyframes, duration, target, last, c as int));
                lemma_cuts_from_greedy(keyframes, duration, target, next, c as int, next_desired);
                assert(r == keyframe_cuts_from(keyframes, duration, target, next, c as int, next_desired));
                assert forall|i: int| cuts.len() <= i < r.len() implies least_keyframe_cut(
                    keyframes,
                    duration,
                    target,
                    r[i - 1] as int,
                    #[trigger] r[i] as int,
                ) by {
                    if i == cuts.len() {
                        assert(r[i] == next[i]);
                        assert(r[i - 1] == next[i - 1]);
                    }
                }
                assert forall|i: int| 0 <= i < cuts.len() implies r[i] == cuts[i] by {
                    assert(r[i] == next[i]);
                }
            },
            None => {
                assert forall|j: int| 0 <= j < keyframes.len() implies !(last < #[trigger] keyframes[j] < duration
                    && keyframes[j] >= last + target) by {
                    assert(!cut_candidate(keyframes[j], duration, desired, last));
                }
            },
        }
    }
}

/// Keyframe cut points are the greedy walk over the keyframes: zero first,
/// the source end last, and every cut between them the least keyframe
/// after the previous cut that is at least one target length after it.
/// No such keyframe lies after the last cut before the end. So every
/// segment but the last is at least one target length long.
pub proof fn lemma_keyframe_cuts_are_greedy(keyframes: Seq<u64>, duration: u64, target: u64)
    ensures
        ({
            let p = keyframe_cut_points(keyframes, duration as int, target as int);
            &&& p.len() >= 1
            &&& p[0] == 0
            &&& p.last() == duration
            &&& forall|i: int|
                0 < i < p.len() && #[trigger] p[i] < duration ==> least_keyframe_cut(
                    keyframes,
                    duration as int,
                    target as int,
                    p[i - 1] as int,
                    p[i] as int,
                )
            &&& forall|i: int|
                0 <= i < p.len() && #[trigger] p[i] < duration && (i + 1 == p.len() || p[i + 1] == duration)
                    ==> no_keyframe_cut_after(keyframes, duration as int, target as int, p[i] as int)
            &&& forall|i: int| 0 <= i < p.len() - 2 ==> #[trigger] p[i + 1] - p[i] >= target
        }),
{
    let d = duration as int;
    let t = target as int;
    let start = seq![0u64];
    lemma_cuts_from_increasing(keyframes, d, t, start, 0, t);
    lemma_cuts_from_greedy(keyframes, d, t, start, 0, t);
    let cuts = keyframe_cuts_from(keyframes, d, t, start, 0, t);
    let p = keyframe_cut_points(keyframes, d, t);
    assert(cuts[0] == 0);
    if cuts.last() < d {
        assert(p == cuts.push(duration));
        assert forall|i: int| 0 <= i < p.len() && #[trigger] p[i] < duration && (i + 1 == p.len() || p[i + 1] == duration)
            implies no_keyframe_cut_after(keyframes, d, t, p[i] as int) by {
            if i + 1 < cuts.len() {
                assert(cuts[i + 1] < d);
                assert(p[i + 1] == cuts[i + 1]);
            }
            assert(i == cuts.len() - 1);
        }
        assert forall|i: int| 0 <= i < p.len() - 2 implies #[trigger] p[i + 1] - p[i] >= target by {
            assert(p[i + 1] == cuts[i + 1]);
            assert(cuts[i + 1] < d);
            assert(least_keyframe_cut(keyframes, d, t, cuts[i] as int, cuts[i + 1] as int));
        }
    } else {
        assert(p == cuts);
        assert(cuts.len() == 1) by {
            if cuts.len() > 1 {
                assert(cuts[0] < cuts[1]);
                assert(cuts[1] < d);
            }
        }
    }
}

/// Keyframe-aligned segments for a source of `source_duration_ms`, from the
/// keyframe timestamps that ffprobe reported, in any order. Refused when a
/// segment would reach the keyframe segment limit.
pub fn plan_keyframe_segments(keyframes: &Vec<u64>, source_duration_ms: u64, target_ms: u64) -> (r: Result<
    Vec<PlannedSegment>,
    Error,
>)
    ensures
        ({
            let cuts = keyframe_cut_points(keyframes@, source_duration_ms as int, target_ms as int);
            &&& r is Ok <==> forall|i: int|
                0 <= i < cuts.len() - 1 ==> #[trigger] cuts[i + 1] - cuts[i] < KEYFRAME_SEGMENT_LIMIT_MS
            &&& r matches Ok(segments) ==> segments@ == segments_between(cuts)
        }),
        r matches Err(e) ==> e.spec_category() == ErrorCategory::Configuration,
{
    let d = source_duration_ms;
    let ghost kf = keyframes@;
    let mut cuts: Vec<u64> = Vec::new();
    cuts.push(0);
    let mut last: u64 = 0;
    let mut desired: u64 = target_ms;
    let ghost start = seq![0u64];
    proof {
        assert(cuts@ =~= start);
    }
    loop
        invariant
            kf == keyframes@,
            cuts@.len() > 0,
            last == cuts@.last(),
            keyframe_cuts_from(kf, d as int, target_ms as int, cuts@, last as int, desired as int)
                == keyframe_cuts_from(kf, d as int, target_ms as int, start, 0, target_ms as int),
        ensures
            cuts@ == keyframe_cuts_from(kf, d as int, target_ms as int, start, 0, target_ms as int),
        decreases d - last,
    {
        if !(desired < d && last < d) {
            break;
        }
        let mut best: Option<u64> = None;
        let mut i: usize = 0;
        while i < keyframes.len()
            invariant
                kf == keyframes@,
                i <= keyframes.len(),
                best == next_cut(kf.take(i as int), d as int, desired as int, last as int),
            decreases keyframes.len() - i,
        {
            let k = keyframes[i];
            proof {
                assert(kf.take(i + 1).drop_last() =~= kf.take(i as int));
                assert(kf.take(i + 1).last() == k);
            }
            if desired <= k && k < d && k > last {
                best = match best {
                    Some(c) => Some(if k < c { k } else { c }),
                    None => Some(k),
                };
            }
            i = i + 1;
        }
        proof {
            assert(kf.take(kf.len() as int) =~= kf);
            lemma_next_cut(kf, d as int, desired as int, last as int);
        }
        match best {
            Some(c) => {
                cuts.push(c);
                last = c;
                desired = if c <= u64::MAX - target_ms { c + target_ms } else { u64::MAX };
            },
            None => {
                break;
            },
        }
    }
    if last < d {
        cuts.push(d);
    }
    let ghost points = cuts@;
    assert(points == keyframe_cut_points(kf, d as int, target_ms as int));
    proof {
        lemma_keyframe_segments_tile(kf, d, target_ms);
        let between = segments_between(points);
        assert forall|j: int| 0 <= j < points.len() - 1 implies #[trigger] points[j] < points[j + 1] by {
            assert(between[j].start_ms < between[j].end_ms);
        }
    }
    let mut segments: Vec<PlannedSegment> = Vec::new();
    let mut i: usize = 0;
    while i < cuts.len() - 1
        invariant
            points == cuts@,
            points == keyframe_cut_points(keyframes@, source_duration_ms as int, target_ms as int),
            cuts@.len() > 0,
            i <= cuts@.len() - 1,
            forall|j: int| 0 <= j < points.len() - 1 ==> #[trigger] points[j] < points[j + 1],
            segments@ == segments_between(points).take(i as int),
            forall|j: int| 0 <= j < i ==> #[trigger] points[j + 1] - points[j] < KEYFRAME_SEGMENT_LIMIT_MS,
        decreases cuts.len() - i,
    {
        let start_ms = cuts[i];
        let end_ms = cuts[i + 1];
        assert(points[i as int] < points[i + 1]);
        if end_ms - start_ms >= KEYFRAME_SEGMENT_LIMIT_MS {
            assert(points[i + 1] - points[i as int] >= KEYFRAME_SEGMENT_LIMIT_MS);
            assert(points == keyframe_cut_points(keyframes@, source_duration_ms as int, target_ms as int));
            assert(!(forall|j: int|
                0 <= j < points.len() - 1 ==> #[trigger] points[j + 1] - points[j] < KEYFRAME_SEGMENT_LIMIT_MS));
            let mut message = owned("stream-copy keyframes would create a ");
            message.append(decimal_string(end_ms - start_ms).as_str());
            message.append(" ms segment at index ");
            message.append(decimal_string(i as u64).as_str());
            message.append("; use the frame-accurate transcode mode");
            return Err(Error::from_string(ErrorCategory::Configuration, message));
        }
        segments.push(PlannedSegment { index: i as u64, start_ms, end_ms });
        assert(segments@ =~= segments_between(points).take(i + 1));
        i = i + 1;
    }
    assert(segments_between(points).take(i as int) =~= segments_between(points));
    Ok(segments)
}

// ---------------------------------------------------------------------------
// Timestamps and ffmpeg arguments
// ---------------------------------------------------------------------------

/// `seconds.mmm`, the millisecond part always three digits.
pub open spec fn seconds_text(milliseconds: nat) -> Seq<char> {
    let m = milliseconds % 1000;
    decimal(milliseconds / 1000) + seq!['.', digit_char(m / 100), digit_char((m / 10) % 10), digit_char(m % 10)]
}

pub fn format_seconds(milliseconds: u64) -> (s: String)
    ensures
        s@ == seconds_text(milliseconds as nat),
{
    let mut s = decimal_string(milliseconds / 1000);
    let m = milliseconds % 1000;
    push_char(&mut s, '.');
    push_char(&mut s, digit_to_char(m / 100));
    push_char(&mut s, digit_to_char((m / 10) % 10));
    push_char(&mut s, digit_to_char(m % 10));
    assert(s@ =~= seconds_text(milliseconds as nat));
    s
}

/// The decimal text of `n`, left-padded with zeros to `width` characters.
pub open spec fn zero_padded(n: nat, width: nat) -> Seq<char> {
    let digits = decimal(n);
    if digits.len() >= width {
        digits
    } else {
        Seq::new((width - digits.len()) as nat, |i: int| '0') + digits
    }
}

/// The file name of segment `index`: `segment-` and the index padded to
/// six digits, then `.mp4`.
pub open spec fn segment_file_name_text(index: nat) -> Seq<char> {
    "segment-"@ + zero_padded(index, 6) + ".mp4"@
}

pub fn segment_file_name(index: u64) -> (s: String)
    ensures
        s@ == segment_file_name_text(index as nat),
{
    let digits = decimal_string(index);
    let mut s = owned("segment-");
    let mut pad: usize = 0;
    let length = digits.as_str().unicode_len();
    let missing: usize = if length >= 6 { 0 } else { 6 - length };
    let ghost prefix = s@;
    while pad < missing
        invariant
            pad <= missing,
            s@ == prefix + Seq::new(pad as nat, |i: int| '0'),
        decreases missing - pad,
    {
        push_char(&mut s, '0');
        assert(s@ =~= prefix + Seq::new((pad + 1) as nat, |i: int| '0'));
        pad = pad + 1;
    }
    s.append(digits.as_str());
    s.append(".mp4");
    proof {
        reveal_strlit("segment-");
        reveal_strlit(".mp4");
        if digits@.len() >= 6 {
            assert(Seq::new(0nat, |i: int| '0') + digits@ =~= digits@);
        }
    }
    assert(s@ =~= segment_file_name_text(index as nat));
    s
}

/// The segment boundaries at which stream-copy splits: every segment end
/// but the last, as `seconds.mmm`, joined with commas.
pub open spec fn split_times_text(segments: Seq<PlannedSegment>) -> Seq<char>
    decreases segments.len(),
{
    if segments.len() <= 1 {
        Seq::empty()
    } else if segments.len() == 2 {
        seconds_text(segments[0].end_ms as nat)
    } else {
        split_times_text(segments.drop_last()) + ","@ + seconds_text(segments[segments.len() - 2].end_ms as nat)
    }
}

pub fn split_times(segments: &Vec<PlannedSegment>) -> (s: String)
    ensures
        s@ == split_times_text(segments@),
{
    let mut s = String::new();
    if segments.len() <= 1 {
        assert(s@ =~= split_times_text(segments@));
        return s;
    }
    let mut i: usize = 0;
    while i < segments.len() - 1
        invariant
            segments@.len() > 1,
            i <= segments@.len() - 1,
            s@ == split_times_text(segments@.take(i + 1)),
        decreases segments.len() - i,
    {
        proof {
            reveal_strlit(",");
            let t = segments@.take(i + 2);
            assert(t.drop_last() =~= segments@.take(i + 1));
            assert(t[t.len() - 2] == segments@[i as int]);
        }
        if i > 0 {
            s.append(",");
        }
        let part = format_seconds(segments[i].end_ms);
        s.append(part.as_str());
        proof {
            if i == 0 {
                assert(s@ =~= split_times_text(segments@.take(2)));
            } else {
                assert(s@ =~= split_times_text(segments@.take(i + 2)));
            }
        }
        i = i + 1;
    }
    assert(segments@.take(segments@.len() as int) =~= segments@);
    s
}

/// The ffmpeg arguments that cut one segment of `duration_ms` starting at
/// `start_ms` from `source` into `output`.
pub open spec fn segment_arguments_text(
    mode: SegmentMode,
    source: Seq<char>,
    start_ms: nat,
    duration_ms: nat,
    output: Seq<char>,
) -> Seq<Seq<char>> {
    let head = seq![
        "-hide_banner"@,
        "-nostdin"@,
        "-y"@,
        "-ss"@,
        seconds_text(start_ms),
        "-i"@,
        source,
        "-t"@,
        seconds_text(duration_ms),
    ];
    let codec = match mode {
        SegmentMode::StreamCopy => seq!["-map"@, "0"@, "-c"@, "copy"@, "-avoid_negative_ts"@, "make_zero"@],
        SegmentMode::TranscodeH264Aac => seq![
            "-map"@,
            "0:v:0"@,
            "-map"@,
            "0:a:0?"@,
            "-c:v"@,
            "libx264"@,
            "-preset"@,
            "medium"@,
            "-crf"@,
            "18"@,
            "-c:a"@,
            "aac"@,
            "-b:a"@,
            "192k"@,
            "-force_key_frames"@,
            "expr:gte(t,0)"@,
        ],
    };
    head + codec + seq!["-movflags"@, "+faststart"@, output]
}

fn push_owned(v: &mut Vec<String>, s: &str)
    ensures
        crate::order::texts(final(v)@) == crate::order::texts(old(v)@).push(s@),
{
    let ghost before = v@;
    v.push(owned(s));
    assert(crate::order::texts(v@) =~= crate::order::texts(before).push(s@));
}

fn push_string(v: &mut Vec<String>, s: String)
    ensures
        crate::order::texts(final(v)@) == crate::order::texts(old(v)@).push(s@),
{
    let ghost before = v@;
    let ghost text = s@;
    v.push(s);
    assert(crate::order::texts(v@) =~= crate::order::texts(before).push(text));
}

pub fn segment_arguments(mode: SegmentMode, source: &str, start_ms: u64, duration_ms: u64, output: &str) -> (r: Vec<
    String,
>)
    ensures
        crate::order::texts(r@) == segment_arguments_text(
            mode,
            source@,
            start_ms as nat,
            duration_ms as nat,
            output@,
        ),
{
    let mut r: Vec<String> = Vec::new();
    push_owned(&mut r, "-hide_banner");
    push_owned(&mut r, "-nostdin");
    push_owned(&mut r, "-y");
    push_owned(&mut r, "-ss");
    push_string(&mut r, format_seconds(start_ms));
    push_owned(&mut r, "-i");
    push_owned(&mut r, source);
    push_owned(&mut r, "-t");
    push_string(&mut r, format_seconds(duration_ms));
    match mode {
        SegmentMode::StreamCopy => {
            push_owned(&mut r, "-map");
            push_owned(&mut r, "0");
            push_owned(&mut r, "-c");
            push_owned(&mut r, "copy");
            push_owned(&mut r, "-avoid_negative_ts");
            push_owned(&mut r, "make_zero");
        },
        SegmentMode::TranscodeH264Aac => {
            push_owned(&mut r, "-map");
            push_owned(&mut r, "0:v:0");
            push_owned(&mut r, "-map");
            push_owned(&mut r, "0:a:0?");
            push_owned(&mut r, "-c:v");
            push_owned(&mut r, "libx264");
            push_owned(&mut r, "-preset");
            push_owned(&mut r, "medium");
            push_owned(&mut r, "-crf");
            push_owned(&mut r, "18");
            push_owned(&mut r, "-c:a");
            push_owned(&mut r, "aac");
            push_owned(&mut r, "-b:a");
            push_owned(&mut r, "192k");
            push_owned(&mut r, "-force_key_frames");
            push_owned(&mut r, "expr:gte(t,0)");
        },
    }
    push_owned(&mut r, "-movflags");
    push_owned(&mut r, "+faststart");
    push_owned(&mut r, output);
    assert(crate::order::texts(r@) =~= segment_arguments_text(
        mode,
        source@,
        start_ms as nat,
        duration_ms as nat,
        output@,
    ));
    r
}

/// The duration tolerance of a reconstruction: frame-accurate segments
/// allow one frame and at least 50 ms; keyframe-aligned segments allow
/// one segment length and one frame.
pub open spec fn reconstruction_tolerance_spec(accuracy: BoundaryAccuracy, segment_duration_ms: int, frame_tolerance_ms: int) -> int {
    match accuracy {
        BoundaryAccuracy::FrameAccurate => if frame_tolerance_ms > 50 { frame_tolerance_ms } else { 50 },
        BoundaryAccuracy::KeyframeAligned => segment_duration_ms + frame_tolerance_ms,
    }
}

pub fn reconstruction_tolerance(accuracy: BoundaryAccuracy, segment_duration_ms: u64, frame_tolerance_ms: u64) -> (r: u64)
    requires
        accuracy == BoundaryAccuracy::KeyframeAligned ==> segment_duration_ms + frame_tolerance_ms <= u64::MAX,
    ensures
        r == reconstruction_tolerance_spec(accuracy, segment_duration_ms as int, frame_tolerance_ms as int),
{
    match accuracy {
        BoundaryAccuracy::FrameAccurate => if frame_tolerance_ms > 50 { frame_tolerance_ms } else { 50 },
        BoundaryAccuracy::KeyframeAligned => segment_duration_ms + frame_tolerance_ms,
    }
}

/// How far a reconstructed duration lies from the source duration.
pub fn duration_delta(output_ms: u64, source_ms: u64) -> (r: u64)
    ensures
        r == if output_ms >= source_ms { output_ms - source_ms } else { source_ms - output_ms },
{
    if output_ms >= source_ms { output_ms - source_ms } else { source_ms - output_ms }
}

// ---------------------------------------------------------------------------
// Recorded segments
// ---------------------------------------------------------------------------

/// A recorded segment is intact when it sits at its position and its file
/// is present (`observed` is its digest, `None` when it is missing) with
/// the recorded digest.
pub open spec fn segment_intact(record: SegmentRecord, position: int, observed: Option<String>) -> bool {
    &&& record.index == position
    &&& observed is Some
    &&& observed->0@ == record.sha256@
}

/// The number of leading recorded segments that are intact: a resumed run
/// keeps these and generates the rest again.
pub fn valid_prefix_length(records: &Vec<SegmentRecord>, observed: &Vec<Option<String>>) -> (n: usize)
    requires
        observed@.len() == records@.len(),
    ensures
        n <= records@.len(),
        forall|i: int| 0 <= i < n ==> segment_intact(#[trigger] records@[i], i, observed@[i]),
        n < records@.len() ==> !segment_intact(records@[n as int], n as int, observed@[n as int]),
{
    let mut n: usize = 0;
    while n < records.len()
        invariant
            observed@.len() == records@.len(),
            n <= records@.len(),
            forall|i: int| 0 <= i < n ==> segment_intact(#[trigger] records@[i], i, observed@[i]),
        decreases records.len() - n,
    {
        let intact = records[n].index == n as u64 && match &observed[n] {
            Some(d) => text_eq(d.as_str(), records[n].sha256.as_str()),
            None => false,
        };
        if !intact {
            return n;
        }
        n = n + 1;
    }
    n
}

/// The path a segment at `position` is recorded under.
pub open spec fn segment_path_text(position: nat) -> Seq<char> {
    "segments/"@ + segment_file_name_text(position)
}

/// A finished manifest's segments: at least one, each intact at its
/// position and recorded under its canonical file name.
pub open spec fn segment_records_valid(records: Seq<SegmentRecord>, observed: Seq<Option<String>>) -> bool {
    &&& records.len() > 0
    &&& forall|i: int|
        0 <= i < records.len() ==> segment_intact(#[trigger] records[i], i, observed[i]) && records[i].path@
            == segment_path_text(i as nat)
}

/// Check a finished manifest's segments before it is delivered or reused.
pub fn verify_segment_records(records: &Vec<SegmentRecord>, observed: &Vec<Option<String>>) -> (r: Result<(), Error>)
    requires
        observed@.len() == records@.len(),
    ensures
        r is Ok <==> segment_records_valid(records@, observed@),
        r matches Err(e) ==> e.spec_category() == ErrorCategory::State,
{
    if records.len() == 0 {
        return Err(Error::new(ErrorCategory::State, "segment manifest contains no segments"));
    }
    let mut i: usize = 0;
    while i < records.len()
        invariant
            observed@.len() == records@.len(),
            records@.len() > 0,
            i <= records@.len(),
            forall|k: int|
                0 <= k < i ==> segment_intact(#[trigger] records@[k], k, observed@[k]) && records@[k].path@
                    == segment_path_text(k as nat),
        decreases records.len() - i,
    {
        let record = &records[i];
        if record.index != i as u64 {
            return Err(Error::new(ErrorCategory::State, "segment manifest ordering is not contiguous"));
        }
        let expected = join2("segments/", segment_file_name(i as u64).as_str());
        proof {
            reveal_strlit("segments/");
        }
        if !text_eq(record.path.as_str(), expected.as_str()) {
            return Err(Error::new(ErrorCategory::State, "segment manifest contains an unsafe or unexpected path"));
        }
        let matches = match &observed[i] {
            Some(d) => text_eq(d.as_str(), record.sha256.as_str()),
            None => false,
        };
        if !matches {
            return Err(Error::new(ErrorCategory::State, "a recorded segment is missing or has a checksum mismatch"));
        }
        i = i + 1;
    }
    Ok(())
}

} // verus!
