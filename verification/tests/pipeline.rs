use aniflow::pipeline::{expand_argument, sanitize_identifier, FrameProcessor, FrameValidation, Output, Pipeline};

#[test]
fn expands_processor_placeholders() {
    let actual = expand_argument(
        "--input={input};--output={output};--name={frame};--run={run_dir}",
        "/tmp/source frame.png",
        "/tmp/output frame.png",
        "frame-00000001.png",
        "/tmp/run",
    );

    assert_eq!(
        actual,
        "--input=/tmp/source frame.png;--output=/tmp/output frame.png;\
         --name=frame-00000001.png;--run=/tmp/run"
    );
}

#[test]
fn builds_gemini_watermark_remover_arguments() {
    let processor = FrameProcessor::GeminiWatermarkRemover {
        id: "remove-watermark".to_owned(),
        enabled: true,
        command: "gwr".to_owned(),
        json: true,
        additional_arguments: Vec::new(),
    };

    assert_eq!(
        processor.arguments("input-frames", "output-frames"),
        vec![
            "remove",
            "input-frames",
            "--out-dir",
            "output-frames",
            "--overwrite",
            "--json",
        ]
    );
}

#[test]
fn builds_upscayl_arguments() {
    let processor = FrameProcessor::UpscaylNcnn {
        id: "upscale".to_owned(),
        enabled: true,
        command: "upscayl-bin".to_owned(),
        model: "realesr-animevideov3".to_owned(),
        model_path: Some("/models".to_owned()),
        scale: 2,
        tile_size: Some(256),
        gpu_id: Some("0".to_owned()),
        tta: false,
        additional_arguments: Vec::new(),
    };

    assert_eq!(
        processor.arguments("input.png", "output.png"),
        vec![
            "-i",
            "input.png",
            "-o",
            "output.png",
            "-n",
            "realesr-animevideov3",
            "-s",
            "2",
            "-f",
            "png",
            "-m",
            "/models",
            "-t",
            "256",
            "-g",
            "0",
        ]
    );
}

#[test]
fn reports_first_class_processor_dependencies() {
    let pipeline = Pipeline {
        version: 2,
        name: "gemini-clean-upscale".to_owned(),
        description: String::new(),
        frame_processors: vec![
            FrameProcessor::GeminiWatermarkRemover {
                id: "remove-watermark".to_owned(),
                enabled: true,
                command: "gwr".to_owned(),
                json: true,
                additional_arguments: Vec::new(),
            },
            FrameProcessor::UpscaylNcnn {
                id: "upscale".to_owned(),
                enabled: true,
                command: "upscayl-bin".to_owned(),
                model: "realesr-animevideov3".to_owned(),
                model_path: None,
                scale: 2,
                tile_size: None,
                gpu_id: None,
                tta: false,
                additional_arguments: Vec::new(),
            },
        ],
        validation: FrameValidation::default(),
        audio_processors: Vec::new(),
        subtitles: None,
        video_processors: Vec::new(),
        renderflow: None,
        output: Output::default(),
    };

    assert_eq!(pipeline.required_commands(), vec!["ffmpeg", "ffprobe", "gwr", "upscayl-bin"]);
}

#[test]
fn sanitized_identifiers_are_lowercase_trimmed_and_stable() {
    assert_eq!(sanitize_identifier("Remove Watermark!"), "remove-watermark");
    assert_eq!(sanitize_identifier("--Up_Scale 2x--"), "up_scale-2x");
    assert_eq!(sanitize_identifier("!!!"), "");
    let once = sanitize_identifier("Énorme Frame");
    assert_eq!(once, "norme-frame");
    assert_eq!(sanitize_identifier(&once), once);
}
