use aniflow::execution::{ArtifactKind, ExpectedProviderOutput, ProviderExecutionFailure, ProviderExecutionFailureCode};
use aniflow::outputs::{
    assess_outputs, normalize_relative_path, relative_paths_overlap, screen_output_entries,
    validate_expected_outputs, validate_relative_output_path, validate_sensitive_values, OutputEntry,
    OutputProbe,
};
use aniflow::provider::{ArtifactCardinality, ArtifactPort, ArtifactRole, StreamRole};

fn port(name: &str, cardinality: ArtifactCardinality) -> ArtifactPort {
    ArtifactPort {
        name: name.to_owned(),
        artifact_type: "image/png".to_owned(),
        artifact_role: ArtifactRole::Intermediate,
        stream_role: Some(StreamRole::Video),
        cardinality,
        immutable: true,
    }
}

fn output(port: &str, path: &str, kind: ArtifactKind) -> ExpectedProviderOutput {
    ExpectedProviderOutput { port: port.to_owned(), relative_path: path.to_owned(), kind }
}

fn two_outputs() -> (Vec<ExpectedProviderOutput>, Vec<ArtifactPort>) {
    (
        vec![
            output("frames", "frames//out/", ArtifactKind::Directory),
            output("audio", "audio.wav", ArtifactKind::File),
        ],
        vec![port("audio", ArtifactCardinality::One), port("frames", ArtifactCardinality::One)],
    )
}

fn file(bytes: u64) -> OutputProbe {
    OutputProbe::File { bytes, sha256: Some("a".repeat(64)) }
}

fn directory(files: u64, bytes: u64) -> OutputProbe {
    OutputProbe::Directory { contents: Ok((files, bytes, "d".repeat(64))) }
}

fn failure_code(result: Result<Vec<aniflow::execution::ArtifactObservation>, ProviderExecutionFailure>) -> ProviderExecutionFailureCode {
    result.expect_err("assessment should fail").code
}

#[test]
fn accepted_outputs_come_back_ordered_by_port_with_normalized_paths() {
    let (expected, ports) = two_outputs();
    let probes = vec![directory(3, 30), file(10)];
    let observations = assess_outputs(&expected, &ports, &probes, 10, 100).expect("outputs should be accepted");
    assert_eq!(observations.len(), 2);
    assert_eq!(observations[0].port, "audio");
    assert_eq!(observations[0].relative_path, "audio.wav");
    assert_eq!(observations[0].file_count, 1);
    assert_eq!(observations[0].byte_count, 10);
    assert_eq!(observations[0].sha256, "a".repeat(64));
    assert_eq!(observations[1].port, "frames");
    assert_eq!(observations[1].relative_path, "frames/out");
    assert_eq!(observations[1].kind, ArtifactKind::Directory);
    assert_eq!(observations[1].file_count, 3);
    assert_eq!(observations[1].byte_count, 30);
    assert_eq!(observations[1].sha256, "d".repeat(64));
}

#[test]
fn absent_optional_output_is_skipped_and_absent_required_output_fails() {
    let expected_outputs = vec![output("mask", "mask.png", ArtifactKind::File)];
    let optional = vec![port("mask", ArtifactCardinality::Optional)];
    let accepted = assess_outputs(&expected_outputs, &optional, &vec![OutputProbe::Absent], 1, 1).unwrap();
    assert!(accepted.is_empty());
    let required = vec![port("mask", ArtifactCardinality::One)];
    let failure = assess_outputs(&expected_outputs, &required, &vec![OutputProbe::Absent], 1, 1);
    assert_eq!(failure_code(failure), ProviderExecutionFailureCode::MissingOutput);
}

#[test]
fn each_bad_probe_gives_its_failure_code() {
    let (expected, ports) = two_outputs();
    let cases = vec![
        (OutputProbe::Unreadable, ProviderExecutionFailureCode::OutputReadFailed),
        (OutputProbe::Symlink, ProviderExecutionFailureCode::SymlinkOutput),
        (OutputProbe::Other, ProviderExecutionFailureCode::InvalidOutputType),
        (file(5), ProviderExecutionFailureCode::InvalidOutputType),
        (
            OutputProbe::Directory {
                contents: Err(ProviderExecutionFailure {
                    code: ProviderExecutionFailureCode::SymlinkOutput,
                    detail: "inner link".to_owned(),
                }),
            },
            ProviderExecutionFailureCode::SymlinkOutput,
        ),
    ];
    for (probe, code) in cases {
        let probes = vec![probe, file(10)];
        assert_eq!(failure_code(assess_outputs(&expected, &ports, &probes, 10, 100)), code);
    }
    let empty = vec![directory(1, 1), file(0)];
    assert_eq!(failure_code(assess_outputs(&expected, &ports, &empty, 10, 100)), ProviderExecutionFailureCode::EmptyOutput);
    let unhashed = vec![directory(1, 1), OutputProbe::File { bytes: 4, sha256: None }];
    assert_eq!(
        failure_code(assess_outputs(&expected, &ports, &unhashed, 10, 100)),
        ProviderExecutionFailureCode::OutputReadFailed
    );
    let wrong_kind = vec![directory(1, 1), directory(1, 1)];
    assert_eq!(
        failure_code(assess_outputs(&expected, &ports, &wrong_kind, 10, 100)),
        ProviderExecutionFailureCode::InvalidOutputType
    );
}

#[test]
fn the_first_failing_output_decides() {
    let (expected, ports) = two_outputs();
    let probes = vec![OutputProbe::Symlink, OutputProbe::Absent];
    assert_eq!(failure_code(assess_outputs(&expected, &ports, &probes, 10, 100)), ProviderExecutionFailureCode::SymlinkOutput);
}

#[test]
fn running_totals_are_held_to_the_artifact_limits() {
    let (expected, ports) = two_outputs();
    let probes = vec![directory(3, 30), file(10)];
    assert!(assess_outputs(&expected, &ports, &probes, 4, 40).is_ok());
    assert_eq!(failure_code(assess_outputs(&expected, &ports, &probes, 3, 100)), ProviderExecutionFailureCode::ArtifactFileLimit);
    assert_eq!(failure_code(assess_outputs(&expected, &ports, &probes, 10, 39)), ProviderExecutionFailureCode::ArtifactByteLimit);
    let huge = vec![directory(u64::MAX, 1), file(1)];
    assert!(assess_outputs(&expected, &ports, &huge, u64::MAX, u64::MAX).is_ok());
    assert_eq!(
        failure_code(assess_outputs(&expected, &ports, &huge, u64::MAX - 1, u64::MAX)),
        ProviderExecutionFailureCode::ArtifactFileLimit
    );
}

#[test]
fn entries_on_the_way_to_or_within_expected_outputs_are_allowed() {
    let (expected, _) = two_outputs();
    let entries = vec![
        OutputEntry::Found { relative_path: "frames".to_owned(), symlink: false },
        OutputEntry::Found { relative_path: "frames/out".to_owned(), symlink: false },
        OutputEntry::Found { relative_path: "frames/out/0001.png".to_owned(), symlink: false },
        OutputEntry::Found { relative_path: "audio.wav".to_owned(), symlink: false },
    ];
    assert!(screen_output_entries(&entries, &expected).is_ok());
}

#[test]
fn unexpected_linked_or_unreadable_entries_fail() {
    let (expected, _) = two_outputs();
    let stray = vec![OutputEntry::Found { relative_path: "frames/other".to_owned(), symlink: false }];
    let failure = screen_output_entries(&stray, &expected).unwrap_err();
    assert_eq!(failure.code, ProviderExecutionFailureCode::UnexpectedOutput);
    assert!(failure.detail.contains("frames/other"));
    let linked = vec![OutputEntry::Found { relative_path: "audio.wav".to_owned(), symlink: true }];
    assert_eq!(screen_output_entries(&linked, &expected).unwrap_err().code, ProviderExecutionFailureCode::SymlinkOutput);
    let unreadable = vec![OutputEntry::Unreadable];
    assert_eq!(
        screen_output_entries(&unreadable, &expected).unwrap_err().code,
        ProviderExecutionFailureCode::OutputReadFailed
    );
}

#[test]
fn relative_output_paths_are_normalized_and_checked() {
    assert_eq!(normalize_relative_path("a//b/./c/"), "a/b/c");
    assert!(relative_paths_overlap("a/b", "a/b/c"));
    assert!(relative_paths_overlap("a/./b/c", "a/b"));
    assert!(!relative_paths_overlap("a/bc", "a/b"));
    assert!(validate_relative_output_path("frames/out").is_ok());
    assert!(validate_relative_output_path("").is_err());
    assert!(validate_relative_output_path("/abs").is_err());
    assert!(validate_relative_output_path("a/../b").is_err());
    assert!(validate_relative_output_path("./a").is_err());
    assert!(validate_relative_output_path("a\\b").is_err());
}

#[test]
fn expected_outputs_bind_every_declared_port_once() {
    let (expected, ports) = two_outputs();
    assert!(validate_expected_outputs(&expected, &ports).is_ok());
    let missing = vec![output("audio", "audio.wav", ArtifactKind::File)];
    assert!(validate_expected_outputs(&missing, &ports).is_err());
    let nested = vec![
        output("frames", "out", ArtifactKind::Directory),
        output("audio", "out/audio.wav", ArtifactKind::File),
    ];
    assert!(validate_expected_outputs(&nested, &ports).is_err());
    assert!(validate_sensitive_values(&vec!["token".to_owned()]).is_ok());
    assert!(validate_sensitive_values(&vec!["token".to_owned(), "token".to_owned()]).is_err());
}
