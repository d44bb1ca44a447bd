use aniflow::command::{help_summary, probes_version_of, version_summary};

#[test]
fn ffmpeg_tools_are_probed_for_their_version() {
    assert!(probes_version_of("ffmpeg"));
    assert!(probes_version_of("ffprobe"));
    assert!(!probes_version_of("upscayl-bin"));
    assert!(!probes_version_of("ffmpeg2"));
}

#[test]
fn a_version_probe_reports_its_first_line() {
    let stdout = b"ffmpeg version 6.1.1 Copyright (c) 2000-2023\r\nbuilt with gcc 13\n";
    assert_eq!(version_summary(true, stdout).as_deref(), Some("ffmpeg version 6.1.1 Copyright (c) 2000-2023"));
    assert_eq!(version_summary(true, b"").as_deref(), Some("version unavailable"));
    assert_eq!(version_summary(true, b"\nsecond").as_deref(), Some(""));
    assert_eq!(version_summary(true, b"ends with return\r").as_deref(), Some("ends with return\r"));
    assert_eq!(version_summary(false, stdout), None);
}

#[test]
fn a_help_probe_reports_its_first_line_with_text() {
    assert_eq!(help_summary(b"\n   \n  Usage: tool [options]  \r\nmore", b"ignored"), "Usage: tool [options]");
    assert_eq!(help_summary(b"", b"\n\t error: needs input \n"), "error: needs input");
    assert_eq!(help_summary(b" \n\n", b"\r\n"), "executable available");
}

#[test]
fn output_beyond_the_limit_is_dropped() {
    let mut retained = b"abc".to_vec();
    assert!(!aniflow::command::retain_chunk(&mut retained, b"de", 8));
    assert_eq!(retained, b"abcde");
    assert!(aniflow::command::retain_chunk(&mut retained, b"fghij", 8));
    assert_eq!(retained, b"abcdefgh");
    assert!(aniflow::command::retain_chunk(&mut retained, b"k", 8));
    assert_eq!(retained, b"abcdefgh");
    assert!(!aniflow::command::retain_chunk(&mut retained, b"", 8));
}
