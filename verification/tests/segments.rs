use aniflow::segmentation::{
    duration_delta, format_seconds, plan_exact_segments, plan_keyframe_segments,
    reconstruction_tolerance, segment_arguments, segment_file_name, split_times, validate_request,
    BoundaryAccuracy, PlannedSegment, SegmentMode, SegmentRequest, DEFAULT_PROCESS_TIMEOUT_SECONDS,
};

fn segment(index: u64, start_ms: u64, end_ms: u64) -> (u64, u64, u64) {
    (index, start_ms, end_ms)
}

fn bounds(segments: &[PlannedSegment]) -> Vec<(u64, u64, u64)> {
    segments.iter().map(|s| (s.index, s.start_ms, s.end_ms)).collect()
}

#[test]
fn exact_segments_tile_the_source() {
    let segments = plan_exact_segments(65_000, 29_999);
    assert_eq!(
        bounds(&segments),
        vec![segment(0, 0, 29_999), segment(1, 29_999, 59_998), segment(2, 59_998, 65_000)]
    );
    assert_eq!(plan_exact_segments(60_000, 30_000).len(), 2);
    assert!(plan_exact_segments(0, 1_000).is_empty());
    assert_eq!(bounds(&plan_exact_segments(1, 1_000)), vec![segment(0, 0, 1)]);
}

#[test]
fn keyframe_segments_cut_at_the_first_keyframe_after_each_target() {
    let keyframes = vec![40_000, 0, 10_000, 25_000, 12_000, 70_000];
    let segments = plan_keyframe_segments(&keyframes, 50_000, 10_000).expect("short segments");
    assert_eq!(
        bounds(&segments),
        vec![
            segment(0, 0, 10_000),
            segment(1, 10_000, 25_000),
            segment(2, 25_000, 40_000),
            segment(3, 40_000, 50_000),
        ]
    );
}

#[test]
fn keyframe_segments_refuse_long_gaps() {
    let keyframes = vec![0, 45_000];
    let error = plan_keyframe_segments(&keyframes, 60_000, 10_000).expect_err("a 45 s segment is too long");
    assert!(error.message().contains("45000 ms segment at index 0"));
}

#[test]
fn request_limits_are_checked() {
    let request = SegmentRequest::new("in.mp4".to_owned(), "out".to_owned(), 10_000, SegmentMode::StreamCopy);
    assert_eq!(request.process_timeout_seconds, DEFAULT_PROCESS_TIMEOUT_SECONDS);
    assert!(validate_request(&request).is_ok());
    let zero = SegmentRequest::new("in.mp4".to_owned(), "out".to_owned(), 0, SegmentMode::StreamCopy);
    assert!(validate_request(&zero).is_err());
    let long = SegmentRequest::new("in.mp4".to_owned(), "out".to_owned(), 30_000, SegmentMode::StreamCopy);
    assert!(validate_request(&long).is_err());
    let no_timeout = request.with_process_timeout_seconds(0);
    assert!(validate_request(&no_timeout).is_err());
}

#[test]
fn formats_timestamps_and_names() {
    assert_eq!(format_seconds(0), "0.000");
    assert_eq!(format_seconds(1_005), "1.005");
    assert_eq!(format_seconds(59_998), "59.998");
    assert_eq!(segment_file_name(7), "segment-000007.mp4");
    assert_eq!(segment_file_name(1_234_567), "segment-1234567.mp4");
    let three = plan_keyframe_segments(&vec![10_000, 25_500], 30_000, 10_000).expect("short segments");
    assert_eq!(bounds(&three), vec![segment(0, 0, 10_000), segment(1, 10_000, 25_500), segment(2, 25_500, 30_000)]);
    assert_eq!(split_times(&three), "10.000,25.500");
    assert_eq!(split_times(&plan_exact_segments(10_000, 10_000)), "");
}

#[test]
fn builds_segment_arguments() {
    assert_eq!(
        segment_arguments(SegmentMode::StreamCopy, "/src.mp4", 1_500, 29_999, "/out.mp4"),
        vec![
            "-hide_banner", "-nostdin", "-y", "-ss", "1.500", "-i", "/src.mp4", "-t", "29.999", "-map", "0",
            "-c", "copy", "-avoid_negative_ts", "make_zero", "-movflags", "+faststart", "/out.mp4",
        ]
    );
    let transcode = segment_arguments(SegmentMode::TranscodeH264Aac, "/src.mp4", 0, 1_000, "/out.mp4");
    assert_eq!(transcode.len(), 28);
    assert_eq!(transcode[9], "-map");
    assert_eq!(transcode[10], "0:v:0");
}

#[test]
fn reconstruction_tolerance_follows_boundary_accuracy() {
    assert_eq!(reconstruction_tolerance(BoundaryAccuracy::FrameAccurate, 10_000, 42), 50);
    assert_eq!(reconstruction_tolerance(BoundaryAccuracy::FrameAccurate, 10_000, 84), 84);
    assert_eq!(reconstruction_tolerance(BoundaryAccuracy::KeyframeAligned, 10_000, 42), 10_042);
    assert_eq!(duration_delta(1_000, 1_200), 200);
    assert_eq!(duration_delta(1_200, 1_000), 200);
}

#[test]
fn cancelling_one_clone_cancels_every_clone() {
    let token = aniflow::segmentation::CancellationToken::default();
    let other = token.clone();
    assert!(!other.is_cancelled());
    token.cancel();
    assert!(other.is_cancelled());
    assert!(token.is_cancelled());
}

fn record(index: u64, path: &str, sha256: &str) -> aniflow::segmentation::SegmentRecord {
    aniflow::segmentation::SegmentRecord {
        index,
        path: path.to_owned(),
        requested_start_ms: index * 1_000,
        requested_end_ms: (index + 1) * 1_000,
        actual_duration_ms: 1_000,
        boundary_accuracy: BoundaryAccuracy::FrameAccurate,
        sha256: sha256.to_owned(),
        size_bytes: 10,
    }
}

#[test]
fn resuming_keeps_the_intact_prefix_of_recorded_segments() {
    let records = vec![
        record(0, "segments/segment-000000.mp4", "a"),
        record(1, "segments/segment-000001.mp4", "b"),
        record(2, "segments/segment-000002.mp4", "c"),
    ];
    let all = vec![Some("a".to_owned()), Some("b".to_owned()), Some("c".to_owned())];
    assert_eq!(aniflow::segmentation::valid_prefix_length(&records, &all), 3);
    let changed = vec![Some("a".to_owned()), Some("x".to_owned()), Some("c".to_owned())];
    assert_eq!(aniflow::segmentation::valid_prefix_length(&records, &changed), 1);
    let missing = vec![None, Some("b".to_owned()), Some("c".to_owned())];
    assert_eq!(aniflow::segmentation::valid_prefix_length(&records, &missing), 0);
    let shifted = vec![record(1, "segments/segment-000001.mp4", "b")];
    assert_eq!(aniflow::segmentation::valid_prefix_length(&shifted, &vec![Some("b".to_owned())]), 0);
}

#[test]
fn finished_manifests_are_checked_segment_by_segment() {
    let records = vec![record(0, "segments/segment-000000.mp4", "a"), record(1, "segments/segment-000001.mp4", "b")];
    let digests = vec![Some("a".to_owned()), Some("b".to_owned())];
    assert!(aniflow::segmentation::verify_segment_records(&records, &digests).is_ok());
    assert!(aniflow::segmentation::verify_segment_records(&Vec::new(), &Vec::new()).is_err());
    let renamed = vec![record(0, "segments/../segment-000000.mp4", "a")];
    assert!(aniflow::segmentation::verify_segment_records(&renamed, &vec![Some("a".to_owned())]).is_err());
    let gap = vec![record(0, "segments/segment-000000.mp4", "a"), record(2, "segments/segment-000001.mp4", "b")];
    assert!(aniflow::segmentation::verify_segment_records(&gap, &digests).is_err());
    let tampered = vec![Some("a".to_owned()), None];
    let failure = aniflow::segmentation::verify_segment_records(&records, &tampered).unwrap_err();
    assert_eq!(failure.category(), aniflow::error::ErrorCategory::State);
}

#[test]
fn a_transcode_refuses_subtitled_sources_and_durations_must_fit() {
    use_segment_checks();
}

fn use_segment_checks() {
    let refused = aniflow::segmentation::check_segment_source(aniflow::segmentation::SegmentMode::TranscodeH264Aac, true)
        .expect_err("subtitles are not dropped silently");
    assert_eq!(refused.category(), aniflow::error::ErrorCategory::Configuration);
    assert!(aniflow::segmentation::check_segment_source(aniflow::segmentation::SegmentMode::StreamCopy, true).is_ok());
    let empty = aniflow::segmentation::check_segment_duration(aniflow::segmentation::SegmentMode::StreamCopy, 0, 1000)
        .expect_err("an empty source");
    assert_eq!(empty.message(), "source duration must be greater than zero");
    let long = aniflow::segmentation::check_segment_duration(
        aniflow::segmentation::SegmentMode::TranscodeH264Aac,
        u64::MAX - 10,
        1000,
    )
    .expect_err("too long");
    assert_eq!(long.category(), aniflow::error::ErrorCategory::Media);
    assert!(aniflow::segmentation::check_segment_duration(aniflow::segmentation::SegmentMode::StreamCopy, u64::MAX - 10, 1000).is_ok());
}
