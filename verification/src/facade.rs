//! The application-facing vocabulary: dependency diagnostics, run requests,
//! run outcomes, progress observations, and run status views.
use vstd::prelude::*;

use crate::error::{Error, ErrorCategory};
use crate::pipeline::FrameProcessor;
use crate::text::{decimal, decimal_string, join2, owned};

verus! {

/// The result of checking one external runtime dependency.
#[derive(Debug, Clone)]
#[non_exhaustive]
pub struct DependencyStatus {
    pub command: String,
    pub summary: Option<String>,
}

impl DependencyStatus {
    /// A dependency is available exactly when its version probe produced a
    /// summary.
    pub fn is_available(&self) -> (r: bool)
        ensures
            r == self.summary is Some,
    {
        self.summary.is_some()
    }
}

/// The commands of the dependencies whose probe produced no summary, in
/// report order.
pub open spec fn missing_commands_of(dependencies: Seq<DependencyStatus>) -> Seq<Seq<char>>
    decreases dependencies.len(),
{
    if dependencies.len() == 0 {
        Seq::empty()
    } else {
        let rest = missing_commands_of(dependencies.drop_last());
        if dependencies.last().summary is Some {
            rest
        } else {
            rest.push(dependencies.last().command@)
        }
    }
}

/// The missing commands are exactly the commands of the unavailable
/// dependencies, in report order: one for each dependency whose probe gave
/// no summary, and none for an available one.
pub proof fn lemma_missing_commands_are_the_unavailable(dependencies: Seq<DependencyStatus>)
    ensures
        missing_commands_of(dependencies) == dependencies.filter(|d: DependencyStatus| d.summary is None).map_values(
            |d: DependencyStatus| d.command@,
        ),
        missing_commands_of(dependencies).len() == dependencies.filter(|d: DependencyStatus| d.summary is None).len(),
        forall|c: Seq<char>|
            #[trigger] missing_commands_of(dependencies).contains(c) <==> exists|i: int|
                0 <= i < dependencies.len() && (#[trigger] dependencies[i]).summary is None
                    && dependencies[i].command@ == c,
    decreases dependencies.len(),
{
    let pred = |d: DependencyStatus| d.summary is None;
    let name = |d: DependencyStatus| d.command@;
    reveal(Seq::filter);
    if dependencies.len() == 0 {
        assert(dependencies.filter(pred) =~= Seq::<DependencyStatus>::empty());
        assert(dependencies.filter(pred).map_values(name) =~= Seq::<Seq<char>>::empty());
    } else {
        let rest = dependencies.drop_last();
        lemma_missing_commands_are_the_unavailable(rest);
        let last = dependencies.last();
        if last.summary is Some {
            assert(dependencies.filter(pred) == rest.filter(pred));
        } else {
            assert(dependencies.filter(pred) == rest.filter(pred).push(last));
            assert(dependencies.filter(pred).map_values(name) =~= rest.filter(pred).map_values(name).push(last.command@));
        }
        let m = missing_commands_of(dependencies);
        let mr = missing_commands_of(rest);
        assert forall|c: Seq<char>| #[trigger] m.contains(c) <==> exists|i: int|
            0 <= i < dependencies.len() && (#[trigger] dependencies[i]).summary is None && dependencies[i].command@ == c by {
            if m.contains(c) {
                let k = choose|k: int| 0 <= k < m.len() && m[k] == c;
                if k < mr.len() {
                    assert(mr.contains(c));
                    let i = choose|i: int| 0 <= i < rest.len() && (#[trigger] rest[i]).summary is None && rest[i].command@ == c;
                    assert(dependencies[i] == rest[i]);
                } else {
                    assert(dependencies[dependencies.len() - 1] == last);
                }
            }
            if exists|i: int| 0 <= i < dependencies.len() && (#[trigger] dependencies[i]).summary is None
                && dependencies[i].command@ == c {
                let i = choose|i: int| 0 <= i < dependencies.len() && (#[trigger] dependencies[i]).summary is None
                    && dependencies[i].command@ == c;
                if i < rest.len() {
                    assert(rest[i] == dependencies[i]);
                    assert(mr.contains(c));
                    let k = choose|k: int| 0 <= k < mr.len() && mr[k] == c;
                    assert(m[k] == c);
                } else {
                    assert(m[m.len() - 1] == c);
                }
            }
        }
    }
}

/// Runtime dependency diagnostics for an installation or a pipeline.
#[derive(Debug, Clone)]
#[non_exhaustive]
pub struct DoctorReport {
    pub dependencies: Vec<DependencyStatus>,
}

proof fn lemma_missing_empty(dependencies: Seq<DependencyStatus>)
    ensures
        missing_commands_of(dependencies).len() == 0 <==> forall|i: int|
            0 <= i < dependencies.len() ==> (#[trigger] dependencies[i]).summary is Some,
    decreases dependencies.len(),
{
    if dependencies.len() > 0 {
        let rest = dependencies.drop_last();
        lemma_missing_empty(rest);
        if forall|i: int| 0 <= i < dependencies.len() ==> (#[trigger] dependencies[i]).summary is Some {
            assert forall|i: int| 0 <= i < rest.len() implies (#[trigger] rest[i]).summary is Some by {
                assert(rest[i] == dependencies[i]);
            }
            assert(dependencies[dependencies.len() - 1].summary is Some);
        } else {
            let i = choose|i: int| 0 <= i < dependencies.len() && !((#[trigger] dependencies[i]).summary is Some);
            if i < dependencies.len() - 1 {
                assert(rest[i] == dependencies[i]);
            }
        }
    }
}

impl DoctorReport {
    /// Ready exactly when every dependency is available.
    pub fn is_ready(&self) -> (r: bool)
        ensures
            r <==> forall|i: int|
                0 <= i < self.dependencies@.len() ==> (#[trigger] self.dependencies@[i]).summary is Some,
    {
        let mut i: usize = 0;
        while i < self.dependencies.len()
            invariant
                i <= self.dependencies.len(),
                forall|k: int| 0 <= k < i ==> (#[trigger] self.dependencies@[k]).summary is Some,
            decreases self.dependencies.len() - i,
        {
            if !self.dependencies[i].is_available() {
                return false;
            }
            i = i + 1;
        }
        true
    }

    /// The commands that are not available, in report order.
    pub fn missing_commands(&self) -> (r: Vec<String>)
        ensures
            crate::order::texts(r@) == missing_commands_of(self.dependencies@),
            r@.len() == 0 <==> forall|i: int|
                0 <= i < self.dependencies@.len() ==> (#[trigger] self.dependencies@[i]).summary is Some,
    {
        let mut r: Vec<String> = Vec::new();
        let mut i: usize = 0;
        while i < self.dependencies.len()
            invariant
                i <= self.dependencies.len(),
                crate::order::texts(r@) == missing_commands_of(self.dependencies@.take(i as int)),
            decreases self.dependencies.len() - i,
        {
            let dependency = &self.dependencies[i];
            proof {
                assert(self.dependencies@.take(i + 1).drop_last() =~= self.dependencies@.take(i as int));
                assert(self.dependencies@.take(i + 1).last() == self.dependencies@[i as int]);
            }
            if !dependency.is_available() {
                let ghost before = r@;
                r.push(dependency.command.clone());
                assert(crate::order::texts(r@) =~= crate::order::texts(before).push(dependency.command@));
            }
            i = i + 1;
        }
        proof {
            assert(self.dependencies@.take(self.dependencies@.len() as int) =~= self.dependencies@);
            lemma_missing_empty(self.dependencies@);
        }
        r
    }
}

/// The commands a doctor check probes: those a pipeline requires, or the
/// media tools every run needs when no pipeline is named.
pub fn doctor_commands(pipeline_commands: Option<Vec<String>>) -> (r: Vec<String>)
    ensures
        pipeline_commands matches Some(c) ==> r@ == c@,
        pipeline_commands is None ==> crate::order::texts(r@) == seq!["ffmpeg"@, "ffprobe"@],
{
    match pipeline_commands {
        Some(commands) => commands,
        None => {
            let mut r: Vec<String> = Vec::new();
            r.push(owned("ffmpeg"));
            r.push(owned("ffprobe"));
            assert(crate::order::texts(r@) =~= seq!["ffmpeg"@, "ffprobe"@]);
            r
        },
    }
}

/// Assemble a doctor report from the probed commands and the summary each
/// probe produced (`None` where the command could not be run).
pub fn doctor(commands: Vec<String>, summaries: Vec<Option<String>>) -> (report: DoctorReport)
    requires
        commands@.len() == summaries@.len(),
    ensures
        report.dependencies@.len() == commands@.len(),
        forall|i: int|
            0 <= i < commands@.len() ==> (#[trigger] report.dependencies@[i]).command == commands@[i]
                && report.dependencies@[i].summary == summaries@[i],
{
    let mut dependencies: Vec<DependencyStatus> = Vec::new();
    let mut commands = commands;
    let mut summaries = summaries;
    let ghost all_commands = commands@;
    let ghost all_summaries = summaries@;
    while commands.len() > 0
        invariant
            all_commands.len() == all_summaries.len(),
            commands@.len() == summaries@.len(),
            dependencies@.len() + commands@.len() == all_commands.len(),
            commands@ == all_commands.skip(dependencies@.len() as int),
            summaries@ == all_summaries.skip(dependencies@.len() as int),
            forall|k: int|
                0 <= k < dependencies@.len() ==> (#[trigger] dependencies@[k]).command == all_commands[k]
                    && dependencies@[k].summary == all_summaries[k],
        decreases commands@.len(),
    {
        let ghost d: int = dependencies@.len() as int;
        let command = commands.remove(0);
        let summary = summaries.remove(0);
        assert(command == all_commands[d]);
        assert(summary == all_summaries[d]);
        dependencies.push(DependencyStatus { command, summary });
        assert(commands@ =~= all_commands.skip(d + 1));
        assert(summaries@ =~= all_summaries.skip(d + 1));
    }
    DoctorReport { dependencies }
}

/// One enabled frame processor in a resolved pipeline plan.
#[derive(Debug, Clone)]
#[non_exhaustive]
pub struct FrameProcessorPlan {
    pub id: String,
    pub command: String,
    pub execution: String,
}

/// How a frame processor executes: per frame with its concurrency, or as
/// one native batch.
pub open spec fn execution_text(processor: FrameProcessor) -> Seq<char> {
    match processor {
        FrameProcessor::External { concurrency, .. } => "per-frame concurrency="@ + decimal(concurrency as nat),
        _ => "native batch"@,
    }
}

impl FrameProcessorPlan {
    /// The plan line of one frame processor: its id, its command, and how
    /// it executes.
    pub fn for_processor(processor: &FrameProcessor) -> (r: Self)
        ensures
            r.id@ == processor.spec_id(),
            r.command@ == processor.spec_command(),
            r.execution@ == execution_text(*processor),
    {
        proof {
            reveal_strlit("per-frame concurrency=");
            reveal_strlit("native batch");
        }
        let execution = match processor.concurrency() {
            Some(n) => join2("per-frame concurrency=", decimal_string(n as u64).as_str()),
            None => owned("native batch"),
        };
        FrameProcessorPlan { id: owned(processor.id()), command: owned(processor.command()), execution }
    }
}

/// Inputs for starting a new isolated run.
#[derive(Debug, Clone)]
#[non_exhaustive]
pub struct RunRequest {
    pub input: String,
    pub pipeline: String,
    pub output_directory: Option<String>,
}

impl RunRequest {
    /// A request with no explicit output directory.
    pub fn new(input: String, pipeline: String) -> (r: Self)
        ensures
            r.input == input,
            r.pipeline == pipeline,
            r.output_directory is None,
    {
        RunRequest { input, pipeline, output_directory: None }
    }

    /// The same request with its output directory set.
    pub fn with_output_directory(self, output_directory: String) -> (r: Self)
        ensures
            r.input == self.input,
            r.pipeline == self.pipeline,
            r.output_directory == Some(output_directory),
    {
        let mut request = self;
        request.output_directory = Some(output_directory);
        request
    }
}

/// The durable paths produced or reused by a completed run.
#[derive(Debug, Clone)]
#[non_exhaustive]
pub struct RunOutcome {
    pub run_directory: String,
    pub output: String,
    pub delivery_manifest: String,
    pub run_manifest: String,
}

/// Whether progress belongs to a new run or a resumed run.
#[derive(Debug, Clone, Copy, PartialEq, Eq, Structural)]
#[non_exhaustive]
pub enum RunOperation {
    Run,
    Resume,
}

/// The current lifecycle observation for one pipeline stage.
#[derive(Debug, Clone, Copy, PartialEq, Eq, Structural)]
#[non_exhaustive]
pub enum ProgressState {
    Waiting,
    Cached,
    Running,
    Complete,
    Failed,
}

/// A provisional progress observation emitted during execution.
#[derive(Debug, Clone)]
#[non_exhaustive]
pub enum RunProgress {
    Started { operation: RunOperation, run_directory: String, pipeline_name: String },
    Stage { name: String, state: ProgressState },
}

/// A stage and its persisted status in a run manifest.
#[derive(Debug, Clone)]
#[non_exhaustive]
pub struct StageStatus {
    pub name: String,
    pub state: ProgressState,
    pub message: Option<String>,
}

/// A named artifact recorded by a run manifest.
#[derive(Debug, Clone)]
#[non_exhaustive]
pub struct ArtifactStatus {
    pub name: String,
    pub path: String,
    pub sha256: Option<String>,
}

/// A read-only application view of an existing run.
#[derive(Debug, Clone)]
#[non_exhaustive]
pub struct RunStatus {
    pub run_id: String,
    pub pipeline_name: String,
    pub source_file: String,
    pub stages: Vec<StageStatus>,
    pub artifacts: Vec<ArtifactStatus>,
}

/// The message with which execution and resume refuse a Pipeline v3
/// document.
pub open spec fn v3_execution_refusal() -> Seq<char> {
    "Pipeline v3 execution and resume are not available yet; use plan-v3 for read-only resolution"@
}

/// Execution and resume refuse a pipeline document whose top-level `schema`
/// is the Pipeline v3 schema; any other document, or one without a string
/// schema, is left to the v2 loader.
pub fn reject_pipeline_v3_execution(schema: Option<&str>) -> (r: Result<(), Error>)
    ensures
        r is Err <==> (schema matches Some(s) && s@ == crate::planning::PIPELINE_V3_SCHEMA@),
        r matches Err(e) ==> e.spec_category() == ErrorCategory::Configuration && e.spec_message()
            == v3_execution_refusal(),
{
    match schema {
        Some(s) => {
            if crate::text::text_eq(s, crate::planning::PIPELINE_V3_SCHEMA) {
                Err(Error::new(
                    ErrorCategory::Configuration,
                    "Pipeline v3 execution and resume are not available yet; use plan-v3 for read-only resolution",
                ))
            } else {
                Ok(())
            }
        },
        None => Ok(()),
    }
}

} // verus!
