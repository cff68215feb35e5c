//! The answer of the tool: what was found, what was run, and what came of it.

use vstd::prelude::*;

use crate::errors;
use crate::errors::FunctionCallError;
use crate::json;
use crate::json::Json;
use crate::json::JsonNumber;
use crate::json_text;
use crate::project_checks;
use crate::project_checks::detect;
use crate::project_checks::detect::ProjectDetection;
use crate::project_checks::fallback;
use crate::project_checks::fallback::PlanningFailure;
use crate::project_checks::plan;
use crate::project_checks::plan::PlannedStep;
use crate::project_checks::run;
use crate::project_checks::run::CheckRun;
use crate::project_checks::run::StepResult;
use crate::project_checks::DetectedProjectType;
use crate::project_checks::ProjectChecksTask;
use crate::project_checks::RequestedProjectType;
use crate::project_checks::RunProjectChecksArgs;
use crate::text;

verus! {

/// The answer of the tool.
#[derive(Debug)]
pub struct RunProjectChecksResponse {
    pub task: ProjectChecksTask,
    pub requested_project_type: RequestedProjectType,
    pub detected_project_type: DetectedProjectType,
    pub project_root: String,
    pub quick: bool,
    pub success: bool,
    pub stopped_after_failure: bool,
    pub package_manager: Option<String>,
    pub available_scripts: Vec<String>,
    pub warnings: Vec<String>,
    pub error: Option<String>,
    pub steps: Vec<StepResult>,
    pub summary: String,
}

/// What a [`RunProjectChecksResponse`] stands for.
#[verifier::ext_equal]
pub ghost struct ResponseView {
    pub task: ProjectChecksTask,
    pub requested_project_type: RequestedProjectType,
    pub detected_project_type: DetectedProjectType,
    pub project_root: Seq<char>,
    pub quick: bool,
    pub success: bool,
    pub stopped_after_failure: bool,
    pub package_manager: Option<Seq<char>>,
    pub available_scripts: Seq<Seq<char>>,
    pub warnings: Seq<Seq<char>>,
    pub error: Option<Seq<char>>,
    pub steps: Seq<run::ResultView>,
    pub summary: Seq<char>,
}

impl View for RunProjectChecksResponse {
    type V = ResponseView;

    open spec fn view(&self) -> ResponseView {
        ResponseView {
            task: self.task,
            requested_project_type: self.requested_project_type,
            detected_project_type: self.detected_project_type,
            project_root: self.project_root@,
            quick: self.quick,
            success: self.success,
            stopped_after_failure: self.stopped_after_failure,
            package_manager: text::opt_text(self.package_manager),
            available_scripts: text::texts(self.available_scripts@),
            warnings: text::texts(self.warnings@),
            error: text::opt_text(self.error),
            steps: run::result_views(self.steps@),
            summary: self.summary@,
        }
    }
}

// ---------------------------------------------------------------------------
// The answer as JSON.

/// The object with one more entry, where there is a value.
pub open spec fn with_some(object: json::JsonView, key: Seq<char>, value: Option<json::JsonView>) -> json::JsonView {
    match value {
        Some(v) => object.with(key, v),
        None => object,
    }
}

fn with_value(object: Json, key: &str, value: Option<Json>) -> (out: Json)
    ensures
        out@ == with_some(object@, key@, json::opt_view(value)),
{
    match value {
        Some(v) => object.with(key, v),
        None => object,
    }
}

/// A string, where there is one.
pub open spec fn some_string(value: Option<Seq<char>>) -> Option<json::JsonView> {
    match value {
        Some(s) => Some(json::JsonView::Str(s)),
        None => None,
    }
}

fn string_value(value: &Option<String>) -> (out: Option<Json>)
    ensures
        json::opt_view(out) == some_string(text::opt_text(*value)),
{
    match value {
        Some(s) => Some(json::string(s.as_str())),
        None => None,
    }
}

/// A list of strings, where it is not empty.
pub open spec fn some_strings(values: Seq<Seq<char>>) -> Option<json::JsonView> {
    if values.len() == 0 {
        None
    } else {
        Some(json::strings_view(values))
    }
}

fn strings_value(values: &[String]) -> (out: Option<Json>)
    ensures
        json::opt_view(out) == some_strings(text::texts(values@)),
{
    if values.len() == 0 {
        None
    } else {
        Some(json::strings(values))
    }
}

/// The JSON of a result. What is missing is left out.
pub open spec fn result_json(result: run::ResultView) -> json::JsonView {
    let told = json::JsonView::object().with("label"@, json::JsonView::Str(result.label)).with(
        "command"@,
        json::JsonView::Str(result.command),
    ).with("status"@, json::JsonView::Str(run::status_word(result.status)));
    let coded = with_some(
        told,
        "exit_code"@,
        match result.exit_code {
            Some(code) => Some(json::integer_view(code as int)),
            None => None,
        },
    );
    let timed = with_some(
        coded,
        "duration_seconds"@,
        match result.duration_seconds {
            Some(numeral) => Some(json::JsonView::Number(json::NumberView::Float(numeral))),
            None => None,
        },
    );
    let counted = timed.with("timed_out"@, json::JsonView::Bool(result.timed_out)).with(
        "lock_wait_count"@,
        json::integer_view(result.lock_wait_count as int),
    );
    with_some(
        with_some(counted, "output_excerpt"@, some_string(result.output_excerpt)),
        "error"@,
        some_string(result.error),
    )
}

fn result_value(result: &StepResult) -> (out: Json)
    ensures
        out@ == result_json(result@),
{
    let told = json::object().with("label", json::string(result.label.as_str())).with(
        "command",
        json::string(result.command.as_str()),
    ).with("status", json::string(result.status.as_str()));
    let coded = with_value(
        told,
        "exit_code",
        match result.exit_code {
            Some(code) => Some(json::integer(code as i64)),
            None => None,
        },
    );
    let timed = with_value(
        coded,
        "duration_seconds",
        match &result.duration_seconds {
            Some(numeral) => Some(Json::Number(JsonNumber::Float(numeral.clone()))),
            None => None,
        },
    );
    let counted = timed.with("timed_out", Json::Bool(result.timed_out)).with(
        "lock_wait_count",
        json::unsigned(result.lock_wait_count as u64),
    );
    with_value(
        with_value(counted, "output_excerpt", string_value(&result.output_excerpt)),
        "error",
        string_value(&result.error),
    )
}

/// The JSON of results, where there are any.
pub open spec fn some_results(results: Seq<run::ResultView>) -> Option<json::JsonView> {
    if results.len() == 0 {
        None
    } else {
        Some(json::JsonView::Array(Seq::new(results.len(), |i: int| result_json(results[i]))))
    }
}

fn results_value(results: &[StepResult]) -> (out: Option<Json>)
    ensures
        json::opt_view(out) == some_results(run::result_views(results@)),
{
    if results.len() == 0 {
        return None;
    }
    let ghost all = run::result_views(results@);
    let ghost told = Seq::new(all.len(), |i: int| result_json(all[i]));
    let mut items: Vec<Json> = Vec::new();
    let mut i: usize = 0;
    proof {
        assert(json::views(items@) =~= told.take(0));
    }
    while i < results.len()
        invariant
            i <= results@.len(),
            all == run::result_views(results@),
            told == Seq::new(all.len(), |i: int| result_json(all[i])),
            json::views(items@) == told.take(i as int),
        decreases results@.len() - i,
    {
        let ghost before = json::views(items@);
        items.push(result_value(&results[i]));
        proof {
            assert(all[i as int] == results@[i as int]@);
            assert(json::views(items@) =~= before.push(told[i as int]));
            assert(json::views(items@) =~= told.take(i + 1));
        }
        i += 1;
    }
    proof {
        assert(told.take(i as int) =~= told);
    }
    Some(json::array(items))
}

/// The JSON of an answer. What is missing or empty is left out.
pub open spec fn response_json(response: ResponseView) -> json::JsonView {
    let told = json::JsonView::object().with(
        "task"@,
        json::JsonView::Str(project_checks::task_word(response.task)),
    ).with(
        "requested_project_type"@,
        json::JsonView::Str(project_checks::requested_word(response.requested_project_type)),
    ).with(
        "detected_project_type"@,
        json::JsonView::Str(project_checks::detected_word(response.detected_project_type)),
    ).with("project_root"@, json::JsonView::Str(response.project_root)).with(
        "quick"@,
        json::JsonView::Bool(response.quick),
    ).with("success"@, json::JsonView::Bool(response.success)).with(
        "stopped_after_failure"@,
        json::JsonView::Bool(response.stopped_after_failure),
    );
    with_some(
        with_some(
            with_some(
                with_some(
                    with_some(told, "package_manager"@, some_string(response.package_manager)),
                    "available_scripts"@,
                    some_strings(response.available_scripts),
                ),
                "warnings"@,
                some_strings(response.warnings),
            ),
            "error"@,
            some_string(response.error),
        ),
        "steps"@,
        some_results(response.steps),
    ).with("summary"@, json::JsonView::Str(response.summary))
}

/// Writes an answer as JSON.
pub fn response_value(response: &RunProjectChecksResponse) -> (out: Json)
    ensures
        out@ == response_json(response@),
{
    let told = json::object().with("task", json::string(response.task.as_str())).with(
        "requested_project_type",
        json::string(response.requested_project_type.as_str()),
    ).with("detected_project_type", json::string(response.detected_project_type.as_str())).with(
        "project_root",
        json::string(response.project_root.as_str()),
    ).with("quick", Json::Bool(response.quick)).with("success", Json::Bool(response.success)).with(
        "stopped_after_failure",
        Json::Bool(response.stopped_after_failure),
    );
    let managed = with_value(told, "package_manager", string_value(&response.package_manager));
    let scripted = with_value(
        managed,
        "available_scripts",
        strings_value(&response.available_scripts),
    );
    let warned = with_value(scripted, "warnings", strings_value(&response.warnings));
    let failed = with_value(warned, "error", string_value(&response.error));
    let stepped = with_value(failed, "steps", results_value(&response.steps));
    stepped.with("summary", json::string(response.summary.as_str()))
}

/// Writes an answer as the tool gives it, with whether it is a success.
pub fn serialize_response(response: &RunProjectChecksResponse) -> (r: (String, bool))
    ensures
        r.0@ == json_text::laid_out(response_json(response@), ""@),
        r.1 == response.success,
{
    (json_text::lay_out(&response_value(response), ""), response.success)
}

// ---------------------------------------------------------------------------
// Answers.

/// The answer that something went wrong before a step could be run.
pub open spec fn error_response(
    args: RunProjectChecksArgs,
    project_root: Seq<char>,
    kind: DetectedProjectType,
    package_manager: Option<Seq<char>>,
    scripts: Seq<Seq<char>>,
    warnings: Seq<Seq<char>>,
    error: Seq<char>,
) -> ResponseView {
    ResponseView {
        task: args.task,
        requested_project_type: args.project_type,
        detected_project_type: kind,
        project_root,
        quick: args.quick,
        success: false,
        stopped_after_failure: false,
        package_manager,
        available_scripts: scripts,
        warnings,
        error: Some(error),
        steps: seq![],
        summary: error,
    }
}

/// Answers that something went wrong before a step could be run.
pub fn serialize_error_response(
    args: &RunProjectChecksArgs,
    project_root: String,
    detected_project_type: DetectedProjectType,
    package_manager: Option<String>,
    scripts: Vec<String>,
    warnings: Vec<String>,
    error: String,
) -> (response: RunProjectChecksResponse)
    ensures
        response@ == error_response(
            *args,
            project_root@,
            detected_project_type,
            text::opt_text(package_manager),
            text::texts(scripts@),
            text::texts(warnings@),
            error@,
        ),
{
    let summary = error.clone();
    let response = RunProjectChecksResponse {
        task: args.task,
        requested_project_type: args.project_type,
        detected_project_type,
        project_root,
        quick: args.quick,
        success: false,
        stopped_after_failure: false,
        package_manager,
        available_scripts: scripts,
        warnings,
        error: Some(error),
        steps: Vec::new(),
        summary,
    };
    proof {
        assert(run::result_views(response.steps@) =~= seq![]);
    }
    response
}

/// The answer on what was found.
pub open spec fn detect_response(
    args: RunProjectChecksArgs,
    project: detect::DetectionView,
) -> ResponseView {
    ResponseView {
        task: args.task,
        requested_project_type: args.project_type,
        detected_project_type: project.project_type,
        project_root: project.project_root,
        quick: args.quick,
        success: !(project.project_type is Unknown),
        stopped_after_failure: false,
        package_manager: project.package_manager,
        available_scripts: project.scripts,
        warnings: project.warnings,
        error: None,
        steps: seq![],
        summary: "Detected "@ + project_checks::detected_word(project.project_type)
            + " project at "@ + project.project_root,
    }
}

/// The answer on a run.
pub open spec fn run_response(
    args: RunProjectChecksArgs,
    project: detect::DetectionView,
    warnings: Seq<Seq<char>>,
    results: Seq<run::ResultView>,
    success: bool,
    stopped: bool,
) -> ResponseView {
    ResponseView {
        task: args.task,
        requested_project_type: args.project_type,
        detected_project_type: project.project_type,
        project_root: project.project_root,
        quick: args.quick,
        success,
        stopped_after_failure: stopped,
        package_manager: project.package_manager,
        available_scripts: project.scripts,
        warnings,
        error: None,
        steps: results,
        summary: run::summary(results, success, stopped),
    }
}

/// What follows the search for a project.
#[derive(Debug)]
pub enum Detected {
    /// Give this answer.
    Respond(RunProjectChecksResponse),
    /// Plan the steps for this project.
    Continue(ProjectDetection),
}

/// What follows planning.
pub enum Planned {
    /// Give this answer.
    Respond(RunProjectChecksResponse),
    /// Run the steps for this project, with these warnings.
    Run { detection: ProjectDetection, warnings: Vec<String>, run: CheckRun },
}

/// The tool that checks projects.
pub struct RunProjectChecksHandler;

impl RunProjectChecksHandler {
    /// Checks whether the tool was called as a function.
    pub fn check_payload(is_function: bool) -> (r: Result<(), FunctionCallError>)
        ensures
            match r {
                Ok(_) => is_function,
                Err(fault) => !is_function && fault@ == errors::CallFault::RespondToModel(
                    "run_project_checks handler received unsupported payload"@,
                ),
            },
    {
        if is_function {
            Ok(())
        } else {
            Err(errors::respond("run_project_checks handler received unsupported payload"))
        }
    }

    /// Goes on after the search for a project. `error_root` is the root that
    /// an error is reported for.
    pub fn after_detection(
        args: &RunProjectChecksArgs,
        outcome: Result<ProjectDetection, FunctionCallError>,
        error_root: &str,
    ) -> (r: Result<Detected, FunctionCallError>)
        ensures
            match (outcome, r) {
                (Ok(project), Ok(Detected::Respond(response))) => args.task is Detect
                    && response@ == detect_response(*args, project@),
                (Ok(project), Ok(Detected::Continue(next))) => !(args.task is Detect)
                    && next@ == project@,
                (Err(FunctionCallError::RespondToModel(message)), Ok(Detected::Respond(response)))
                => response@ == error_response(
                    *args,
                    error_root@,
                    DetectedProjectType::Unknown,
                    None,
                    seq![],
                    seq![],
                    message@,
                ),
                (Err(FunctionCallError::Fatal(message)), Err(fault)) => fault@
                    == errors::CallFault::Fatal(message@),
                _ => false,
            },
    {
        match outcome {
            Ok(project) => {
                if args.task != ProjectChecksTask::Detect {
                    return Ok(Detected::Continue(project));
                }
                let mut summary = "Detected ".to_string();
                summary.append(project.project_type.as_str());
                summary.append(" project at ");
                summary.append(project.project_root.as_str());
                let ghost found = project@;
                let response = RunProjectChecksResponse {
                    task: args.task,
                    requested_project_type: args.project_type,
                    detected_project_type: project.project_type,
                    project_root: project.project_root,
                    quick: args.quick,
                    success: project.project_type != DetectedProjectType::Unknown,
                    stopped_after_failure: false,
                    package_manager: project.package_manager,
                    available_scripts: project.scripts,
                    warnings: project.warnings,
                    error: None,
                    steps: Vec::new(),
                    summary,
                };
                proof {
                    assert(run::result_views(response.steps@) =~= seq![]);
                    assert(response@ =~= detect_response(*args, found));
                }
                Ok(Detected::Respond(response))
            },
            Err(FunctionCallError::RespondToModel(message)) => {
                let scripts: Vec<String> = Vec::new();
                let warnings: Vec<String> = Vec::new();
                proof {
                    assert(text::texts(scripts@) =~= seq![]);
                    assert(text::texts(warnings@) =~= seq![]);
                }
                Ok(
                    Detected::Respond(
                        serialize_error_response(
                            args,
                            error_root.to_string(),
                            DetectedProjectType::Unknown,
                            None,
                            scripts,
                            warnings,
                            message,
                        ),
                    ),
                )
            },
            Err(FunctionCallError::Fatal(message)) => Err(FunctionCallError::Fatal(message)),
        }
    }

    /// Goes on after planning.
    pub fn after_planning(
        args: &RunProjectChecksArgs,
        outcome: Result<(ProjectDetection, Vec<PlannedStep>, Vec<String>), PlanningFailure>,
    ) -> (r: Planned)
        ensures
            match (fallback::fallback_outcome(outcome), r) {
                (Ok((project, steps, warned)), Planned::Run { detection, warnings, run }) => {
                    &&& detection@ == project
                    &&& text::texts(warnings@) == warned
                    &&& plan::step_views(run.steps@) == steps
                    &&& run.wf()
                    &&& run.results@.len() == 0
                    &&& run.continue_on_error == args.continue_on_error
                },
                (Err((project, warned, message)), Planned::Respond(response)) => response@
                    == error_response(
                    *args,
                    project.project_root,
                    project.project_type,
                    project.package_manager,
                    project.scripts,
                    warned,
                    message,
                ),
                _ => false,
            },
    {
        match outcome {
            Ok((detection, steps, warnings)) => Planned::Run {
                detection,
                warnings,
                run: CheckRun::new(steps, args.continue_on_error),
            },
            Err(failure) => {
                let detection = failure.detection;
                Planned::Respond(
                    serialize_error_response(
                        args,
                        detection.project_root,
                        detection.project_type,
                        detection.package_manager,
                        detection.scripts,
                        failure.warnings,
                        failure.message,
                    ),
                )
            },
        }
    }

    /// Answers once the run is over.
    pub fn finish(
        args: &RunProjectChecksArgs,
        detection: ProjectDetection,
        warnings: Vec<String>,
        run: CheckRun,
    ) -> (response: RunProjectChecksResponse)
        ensures
            response@ == run_response(
                *args,
                detection@,
                text::texts(warnings@),
                run::result_views(run.results@),
                run.success,
                run.stopped_after_failure,
            ),
    {
        let summary = run::build_summary(&run.results, run.success, run.stopped_after_failure);
        RunProjectChecksResponse {
            task: args.task,
            requested_project_type: args.project_type,
            detected_project_type: detection.project_type,
            project_root: detection.project_root,
            quick: args.quick,
            success: run.success,
            stopped_after_failure: run.stopped_after_failure,
            package_manager: detection.package_manager,
            available_scripts: detection.scripts,
            warnings,
            error: None,
            steps: run.results,
            summary,
        }
    }
}

// ---------------------------------------------------------------------------
// What reports tell.

/// An entry, where there is a value for it.
pub open spec fn told_if(key: Seq<char>, value: Option<json::JsonView>) -> Seq<
    (Seq<char>, json::JsonView),
> {
    match value {
        Some(v) => seq![(key, v)],
        None => seq![],
    }
}

/// A text as a value, where there is one.
pub open spec fn text_if(value: Option<Seq<char>>) -> Option<json::JsonView> {
    match value {
        Some(s) => Some(json::JsonView::Str(s)),
        None => None,
    }
}

/// Texts as a value, where there are some.
pub open spec fn texts_if(values: Seq<Seq<char>>) -> Option<json::JsonView> {
    if values.len() > 0 {
        Some(
            json::JsonView::Array(Seq::new(values.len(), |i: int| json::JsonView::Str(values[i]))),
        )
    } else {
        None
    }
}

/// What a report tells of a step, in this order; what is not known is left out.
pub proof fn reports_tell_each_step(result: run::ResultView)
    ensures
        result_json(result) == json::JsonView::Object(
            seq![
                ("label"@, json::JsonView::Str(result.label)),
                ("command"@, json::JsonView::Str(result.command)),
                ("status"@, json::JsonView::Str(run::status_word(result.status))),
            ] + told_if(
                "exit_code"@,
                match result.exit_code {
                    Some(code) => Some(json::integer_view(code as int)),
                    None => None,
                },
            ) + told_if(
                "duration_seconds"@,
                match result.duration_seconds {
                    Some(numeral) => Some(
                        json::JsonView::Number(json::NumberView::Float(numeral)),
                    ),
                    None => None,
                },
            ) + seq![
                ("timed_out"@, json::JsonView::Bool(result.timed_out)),
                (
                    "lock_wait_count"@,
                    json::JsonView::Number(json::NumberView::Unsigned(result.lock_wait_count)),
                ),
            ] + told_if("output_excerpt"@, text_if(result.output_excerpt)) + told_if(
                "error"@,
                text_if(result.error),
            ),
        ),
{
    let made = result_json(result)->Object_0;
    let code = match result.exit_code {
        Some(code) => Some(json::integer_view(code as int)),
        None => None,
    };
    let time = match result.duration_seconds {
        Some(numeral) => Some(json::JsonView::Number(json::NumberView::Float(numeral))),
        None => None,
    };
    assert(made =~= seq![
        ("label"@, json::JsonView::Str(result.label)),
        ("command"@, json::JsonView::Str(result.command)),
        ("status"@, json::JsonView::Str(run::status_word(result.status))),
    ] + told_if("exit_code"@, code) + told_if("duration_seconds"@, time) + seq![
        ("timed_out"@, json::JsonView::Bool(result.timed_out)),
        (
            "lock_wait_count"@,
            json::JsonView::Number(json::NumberView::Unsigned(result.lock_wait_count)),
        ),
    ] + told_if("output_excerpt"@, text_if(result.output_excerpt)) + told_if(
        "error"@,
        text_if(result.error),
    ));
}

/// What a report tells as a whole, in this order; lists without items and what
/// is not known are left out.
pub proof fn reports_tell_the_whole(response: ResponseView, steps: Option<json::JsonView>)
    requires
        response.steps.len() == 0 ==> steps is None,
        response.steps.len() > 0 ==> steps == Some(
            json::JsonView::Array(
                Seq::new(response.steps.len(), |i: int| result_json(response.steps[i])),
            ),
        ),
    ensures
        response_json(response) == json::JsonView::Object(
            seq![
                ("task"@, json::JsonView::Str(project_checks::task_word(response.task))),
                (
                    "requested_project_type"@,
                    json::JsonView::Str(
                        project_checks::requested_word(response.requested_project_type),
                    ),
                ),
                (
                    "detected_project_type"@,
                    json::JsonView::Str(
                        project_checks::detected_word(response.detected_project_type),
                    ),
                ),
                ("project_root"@, json::JsonView::Str(response.project_root)),
                ("quick"@, json::JsonView::Bool(response.quick)),
                ("success"@, json::JsonView::Bool(response.success)),
                ("stopped_after_failure"@, json::JsonView::Bool(response.stopped_after_failure)),
            ] + told_if("package_manager"@, text_if(response.package_manager)) + told_if(
                "available_scripts"@,
                texts_if(response.available_scripts),
            ) + told_if("warnings"@, texts_if(response.warnings)) + told_if(
                "error"@,
                text_if(response.error),
            ) + told_if("steps"@, steps) + seq![
                ("summary"@, json::JsonView::Str(response.summary)),
            ],
        ),
{
    let made = response_json(response)->Object_0;
    let scripts = texts_if(response.available_scripts);
    let warnings = texts_if(response.warnings);
    if response.available_scripts.len() > 0 {
        assert(json::strings_view(response.available_scripts)->Array_0
            =~= scripts->Some_0->Array_0);
    }
    if response.warnings.len() > 0 {
        assert(json::strings_view(response.warnings)->Array_0 =~= warnings->Some_0->Array_0);
    }
    assert(some_results(response.steps) == steps) by {
        if response.steps.len() > 0 {
            assert(some_results(response.steps)->Some_0->Array_0 =~= steps->Some_0->Array_0);
        }
    }
    assert(made =~= seq![
        ("task"@, json::JsonView::Str(project_checks::task_word(response.task))),
        (
            "requested_project_type"@,
            json::JsonView::Str(project_checks::requested_word(response.requested_project_type)),
        ),
        (
            "detected_project_type"@,
            json::JsonView::Str(project_checks::detected_word(response.detected_project_type)),
        ),
        ("project_root"@, json::JsonView::Str(response.project_root)),
        ("quick"@, json::JsonView::Bool(response.quick)),
        ("success"@, json::JsonView::Bool(response.success)),
        ("stopped_after_failure"@, json::JsonView::Bool(response.stopped_after_failure)),
    ] + told_if("package_manager"@, text_if(response.package_manager)) + told_if(
        "available_scripts"@,
        scripts,
    ) + told_if("warnings"@, warnings) + told_if("error"@, text_if(response.error)) + told_if(
        "steps"@,
        steps,
    ) + seq![("summary"@, json::JsonView::Str(response.summary))]);
}

/// Every report tells what was asked for and which project it is about; one of a
/// failure tells the failure and no steps, one of a detection succeeds where a
/// project was found, and one of a run tells its steps and their summary.
pub proof fn reports_are_about_the_request(
    args: RunProjectChecksArgs,
    project: detect::DetectionView,
    warnings: Seq<Seq<char>>,
    results: Seq<run::ResultView>,
    success: bool,
    stopped: bool,
    error: Seq<char>,
)
    ensures
        ({
            let failed = error_response(
                args,
                project.project_root,
                project.project_type,
                project.package_manager,
                project.scripts,
                warnings,
                error,
            );
            let detected = detect_response(args, project);
            let ran = run_response(args, project, warnings, results, success, stopped);
            let about = |response: ResponseView|
                {
                    &&& response.task == args.task
                    &&& response.requested_project_type == args.project_type
                    &&& response.quick == args.quick
                    &&& response.detected_project_type == project.project_type
                    &&& response.project_root == project.project_root
                    &&& response.package_manager == project.package_manager
                    &&& response.available_scripts == project.scripts
                };
            &&& about(failed) && about(detected) && about(ran)
            &&& !failed.success && !failed.stopped_after_failure
            &&& failed.error == Some(error) && failed.summary == error
            &&& failed.steps.len() == 0 && failed.warnings == warnings
            &&& detected.success == (project.project_type != DetectedProjectType::Unknown)
            &&& !detected.stopped_after_failure && detected.error is None
            &&& detected.steps.len() == 0 && detected.warnings == project.warnings
            &&& detected.summary == "Detected "@ + project_checks::detected_word(
                project.project_type,
            ) + " project at "@ + project.project_root
            &&& ran.success == success && ran.stopped_after_failure == stopped
            &&& ran.error is None && ran.warnings == warnings && ran.steps == results
            &&& ran.summary == run::summary(results, success, stopped)
        }),
{
}

} // verus!
