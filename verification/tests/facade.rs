use aniflow::error::ErrorCategory;
use aniflow::facade::FrameProcessorPlan;
use aniflow::pipeline::FrameProcessor;
use aniflow::facade::{
    doctor, doctor_commands, reject_pipeline_v3_execution, RunRequest,
};

#[test]
fn doctor_reports_missing_commands_in_order() {
    let report = doctor(
        doctor_commands(None),
        vec![Some("ffmpeg version 7".to_owned()), None],
    );
    assert_eq!(report.dependencies.len(), 2);
    assert_eq!(report.dependencies[0].command, "ffmpeg");
    assert!(report.dependencies[0].is_available());
    assert!(!report.dependencies[1].is_available());
    assert!(!report.is_ready());
    assert_eq!(report.missing_commands(), vec!["ffprobe".to_owned()]);

    let ready = doctor(vec!["gwr".to_owned()], vec![Some("1".to_owned())]);
    assert!(ready.is_ready());
    assert!(ready.missing_commands().is_empty());
    assert_eq!(doctor_commands(Some(vec!["gwr".to_owned()])), vec!["gwr".to_owned()]);
}

#[test]
fn run_requests_carry_an_optional_output_directory() {
    let request = RunRequest::new("in.mp4".to_owned(), "pipeline.yml".to_owned());
    assert!(request.output_directory.is_none());
    let request = request.with_output_directory("out".to_owned());
    assert_eq!(request.output_directory.as_deref(), Some("out"));
    assert_eq!(request.input, "in.mp4");
}

#[test]
fn v3_documents_are_refused_by_v2_execution() {
    let error = reject_pipeline_v3_execution(Some("aniflow.pipeline/v3")).expect_err("v3 is refused");
    assert_eq!(error.category(), ErrorCategory::Configuration);
    assert!(reject_pipeline_v3_execution(Some("aniflow.pipeline/v2")).is_ok());
    assert!(reject_pipeline_v3_execution(None).is_ok());
}

#[test]
fn frame_processor_plans_describe_how_each_processor_runs() {
    let external = FrameProcessor::External {
        id: "clean".to_owned(),
        enabled: true,
        command: "cleaner".to_owned(),
        arguments: vec!["{input}".to_owned()],
        concurrency: 12,
    };
    let plan = FrameProcessorPlan::for_processor(&external);
    assert_eq!(plan.id, "clean");
    assert_eq!(plan.command, "cleaner");
    assert_eq!(plan.execution, "per-frame concurrency=12");
    let batch = FrameProcessor::GeminiWatermarkRemover {
        id: "gwr".to_owned(),
        enabled: true,
        command: "gwr".to_owned(),
        json: true,
        additional_arguments: Vec::new(),
    };
    assert_eq!(FrameProcessorPlan::for_processor(&batch).execution, "native batch");
}
