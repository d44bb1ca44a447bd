use aniflow::execution::ProviderExecutionFailureCode;
use aniflow::identity::{
    input_directory_identity, input_identity, output_directory_identity, EntryContent, InputProbe,
    WalkedEntry,
};
use aniflow::planning::{AuthoredPipelineInput, PipelineInputKind, PipelinePlanningDiagnosticCode};
use aniflow::provider::{ArtifactRole, StreamRole};
use sha2::{Digest, Sha256};

fn found(path: &[&str], content: EntryContent) -> WalkedEntry {
    WalkedEntry::Found { components: Some(path.iter().map(|part| (*part).to_owned()).collect()), content }
}

fn file(bytes: u64, digest: &str) -> EntryContent {
    EntryContent::File(Some((bytes, digest.to_owned())))
}

fn hex(text: &str) -> String {
    format!("{:x}", Sha256::digest(text.as_bytes()))
}

fn sample(order: &[usize]) -> Vec<WalkedEntry> {
    let a = "a".repeat(64);
    let b = "b".repeat(64);
    let mut all = vec![
        Some(found(&["b.txt"], file(3, &a))),
        Some(found(&["a"], EntryContent::Directory)),
        Some(found(&["a", "c.txt"], file(2, &b))),
    ];
    order.iter().map(|index| all[*index].take().unwrap()).collect()
}

fn input_code(result: Result<(u64, u64, String), aniflow::planning::PipelinePlanningFailure>) -> PipelinePlanningDiagnosticCode {
    let failure = result.expect_err("the walk should be refused");
    assert_eq!(failure.category, aniflow::error::ErrorCategory::Input);
    failure.diagnostics[0].code
}

#[test]
fn an_input_directory_is_identified_by_its_sorted_content_list() {
    let expected = format!(
        "[{{\"byte_count\":0,\"kind\":\"directory\",\"relative_path\":\"a\"}},{{\"byte_count\":2,\"content_sha256\":\"{}\",\"kind\":\"file\",\"relative_path\":\"a/c.txt\"}},{{\"byte_count\":3,\"content_sha256\":\"{}\",\"kind\":\"file\",\"relative_path\":\"b.txt\"}}]",
        "b".repeat(64),
        "a".repeat(64)
    );
    let (files, bytes, digest) = input_directory_identity("frames", &sample(&[0, 1, 2])).unwrap();
    assert_eq!((files, bytes), (2, 5));
    assert_eq!(digest, hex(&expected));
}

#[test]
fn walk_order_does_not_change_a_directory_identity() {
    let first = input_directory_identity("frames", &sample(&[0, 1, 2])).unwrap();
    let second = input_directory_identity("frames", &sample(&[2, 0, 1])).unwrap();
    assert_eq!(first, second);
}

#[test]
fn input_walks_refuse_links_collisions_and_odd_entries() {
    let a = "a".repeat(64);
    let colliding = vec![found(&["Frame.png"], file(1, &a)), found(&["frame.PNG"], file(1, &a))];
    assert_eq!(input_code(input_directory_identity("frames", &colliding)), PipelinePlanningDiagnosticCode::UnsupportedInputKind);
    let device = vec![found(&["con.txt"], file(1, &a))];
    assert_eq!(input_code(input_directory_identity("frames", &device)), PipelinePlanningDiagnosticCode::UnsupportedInputKind);
    let foreign = vec![WalkedEntry::Found { components: None, content: file(1, &a) }];
    assert_eq!(input_code(input_directory_identity("frames", &foreign)), PipelinePlanningDiagnosticCode::UnsupportedInputKind);
    let linked = vec![found(&["ok.png"], file(1, &a)), WalkedEntry::Symlink];
    assert_eq!(input_code(input_directory_identity("frames", &linked)), PipelinePlanningDiagnosticCode::SymlinkInput);
    let unreadable = vec![WalkedEntry::Unreadable];
    assert_eq!(input_code(input_directory_identity("frames", &unreadable)), PipelinePlanningDiagnosticCode::InputUnavailable);
    let unhashed = vec![found(&["x"], EntryContent::File(None))];
    assert_eq!(input_code(input_directory_identity("frames", &unhashed)), PipelinePlanningDiagnosticCode::InputUnavailable);
    let socket = vec![found(&["x"], EntryContent::Other)];
    assert_eq!(input_code(input_directory_identity("frames", &socket)), PipelinePlanningDiagnosticCode::UnsupportedInputKind);
    let huge = vec![found(&["x"], file(u64::MAX, &a)), found(&["y"], file(1, &a))];
    assert_eq!(input_code(input_directory_identity("frames", &huge)), PipelinePlanningDiagnosticCode::InputUnavailable);
}

#[test]
fn a_declared_input_takes_the_identity_of_what_lies_at_its_path() {
    let declaration = AuthoredPipelineInput {
        id: "source".to_owned(),
        artifact_type: "video/mp4".to_owned(),
        artifact_role: ArtifactRole::TemporalSource,
        stream_role: Some(StreamRole::Video),
    };
    let identity = input_identity(&declaration, &InputProbe::File(Some((42, "c".repeat(64))))).unwrap();
    assert_eq!(identity.id, "source");
    assert_eq!(identity.kind, PipelineInputKind::File);
    assert_eq!((identity.file_count, identity.byte_count), (1, 42));
    assert_eq!(identity.content_sha256, "c".repeat(64));
    let directory = input_identity(&declaration, &InputProbe::Directory(sample(&[1, 2, 0]))).unwrap();
    assert_eq!(directory.kind, PipelineInputKind::Directory);
    assert_eq!((directory.file_count, directory.byte_count), (2, 5));
    let code = |probe: InputProbe| input_identity(&declaration, &probe).unwrap_err().diagnostics[0].code;
    assert_eq!(code(InputProbe::Unavailable), PipelinePlanningDiagnosticCode::InputUnavailable);
    assert_eq!(code(InputProbe::Symlink), PipelinePlanningDiagnosticCode::SymlinkInput);
    assert_eq!(code(InputProbe::File(None)), PipelinePlanningDiagnosticCode::InputUnavailable);
    assert_eq!(code(InputProbe::Other), PipelinePlanningDiagnosticCode::UnsupportedInputKind);
}

#[test]
fn an_output_directory_is_identified_with_saturating_counts() {
    let expected = format!(
        "[{{\"byte_count\":0,\"kind\":\"directory\",\"relative_path\":\"a\"}},{{\"byte_count\":2,\"kind\":\"file\",\"relative_path\":\"a/c.txt\",\"sha256\":\"{}\"}},{{\"byte_count\":3,\"kind\":\"file\",\"relative_path\":\"b.txt\",\"sha256\":\"{}\"}}]",
        "b".repeat(64),
        "a".repeat(64)
    );
    let (files, bytes, digest) = output_directory_identity("frames", &sample(&[1, 0, 2])).unwrap();
    assert_eq!((files, bytes), (2, 5));
    assert_eq!(digest, hex(&expected));
    let a = "a".repeat(64);
    let huge = vec![found(&["x"], file(u64::MAX, &a)), found(&["y"], file(7, &a))];
    let (_, bytes, _) = output_directory_identity("frames", &huge).unwrap();
    assert_eq!(bytes, u64::MAX);
}

#[test]
fn output_walks_refuse_empty_linked_and_odd_directories() {
    let code = |entries: Vec<WalkedEntry>| output_directory_identity("frames", &entries).unwrap_err().code;
    assert_eq!(code(vec![found(&["a"], EntryContent::Directory)]), ProviderExecutionFailureCode::EmptyOutput);
    assert_eq!(code(vec![found(&["a"], file(0, "x"))]), ProviderExecutionFailureCode::EmptyOutput);
    assert_eq!(code(vec![WalkedEntry::Symlink]), ProviderExecutionFailureCode::SymlinkOutput);
    assert_eq!(code(vec![WalkedEntry::Unreadable]), ProviderExecutionFailureCode::OutputReadFailed);
    assert_eq!(code(vec![found(&["a\\\\b"], file(1, "x"))]), ProviderExecutionFailureCode::OutputReadFailed);
    assert_eq!(code(vec![found(&["a"], EntryContent::Other)]), ProviderExecutionFailureCode::InvalidOutputType);
}
