use codex_toolkit::errors::FunctionCallError;
use codex_toolkit::project_checks::detect::detect_node_package_manager_from_lockfiles;
use codex_toolkit::project_checks::detect::detect_project;
use codex_toolkit::project_checks::detect::detect_python_runner;
use codex_toolkit::project_checks::detect::error_project_root;
use codex_toolkit::project_checks::detect::normalize_project_search_start;
use codex_toolkit::project_checks::detect::parse_node_package_manager;
use codex_toolkit::project_checks::detect::read_node_project_info;
use codex_toolkit::project_checks::detect::NodePackageManager;
use codex_toolkit::project_checks::detect::PackageJsonFile;
use codex_toolkit::project_checks::detect::ProjectDetection;
use codex_toolkit::project_checks::detect::ProjectDir;
use codex_toolkit::project_checks::detect::PythonRunner;
use codex_toolkit::project_checks::fallback::needs_descendants;
use codex_toolkit::project_checks::fallback::plan_steps_with_fallback;
use codex_toolkit::project_checks::fallback::skip_descendant_search_dir;
use codex_toolkit::project_checks::fallback::DescendantSearch;
use codex_toolkit::project_checks::plan::cargo_command;
use codex_toolkit::project_checks::plan::command_from_line;
use codex_toolkit::project_checks::plan::plan_go_steps;
use codex_toolkit::project_checks::plan::plan_python_steps;
use codex_toolkit::project_checks::plan::plan_rust_steps;
use codex_toolkit::project_checks::plan::plan_steps;
use codex_toolkit::project_checks::plan::shlex_join;
use codex_toolkit::project_checks::plan::PlannedStep;
use codex_toolkit::project_checks::report::serialize_error_response;
use codex_toolkit::project_checks::report::serialize_response;
use codex_toolkit::project_checks::report::Detected;
use codex_toolkit::project_checks::report::Planned;
use codex_toolkit::project_checks::report::RunProjectChecksHandler;
use codex_toolkit::project_checks::run::build_summary;
use codex_toolkit::project_checks::run::step_call_id;
use codex_toolkit::project_checks::run::step_request;
use codex_toolkit::project_checks::run::step_result_from_exec_output;
use codex_toolkit::project_checks::run::step_result_from_outcome;
use codex_toolkit::project_checks::run::CheckRun;
use codex_toolkit::project_checks::run::EventStage;
use codex_toolkit::project_checks::run::ExecOutput;
use codex_toolkit::project_checks::run::StepOutcome;
use codex_toolkit::project_checks::run::StepStatus;
use codex_toolkit::project_checks::DetectedProjectType;
use codex_toolkit::project_checks::ProjectChecksTask;
use codex_toolkit::project_checks::RequestedProjectType;
use codex_toolkit::project_checks::RunProjectChecksArgs;
use codex_toolkit::text_map::TextMap;
use codex_toolkit::project_checks::detect::project_files;

fn args(task: ProjectChecksTask, project_type: RequestedProjectType) -> RunProjectChecksArgs {
    RunProjectChecksArgs {
        task,
        project_type,
        target: None,
        test_filter: None,
        quick: true,
        continue_on_error: false,
        timeout_ms: None,
    }
}

fn dir(path: &str, files: &[&str]) -> ProjectDir {
    ProjectDir {
        path: path.to_string(),
        files: files.iter().map(|f| f.to_string()).collect(),
        package_json: Err("no package.json".to_string()),
    }
}

fn node_dir(path: &str, manager: Option<&str>, scripts: &[&str]) -> ProjectDir {
    ProjectDir {
        path: path.to_string(),
        files: vec!["package.json".to_string()],
        package_json: Ok(PackageJsonFile {
            package_manager: manager.map(str::to_string),
            scripts: scripts.iter().map(|s| s.to_string()).collect(),
        }),
    }
}

fn node_detection(scripts: &[&str]) -> ProjectDetection {
    ProjectDetection {
        project_type: DetectedProjectType::Node,
        project_root: "repo".to_string(),
        package_manager: Some("npm".to_string()),
        scripts: scripts.iter().map(|s| s.to_string()).collect(),
        warnings: Vec::new(),
        python_runner: PythonRunner::Python,
    }
}

fn step(label: &str) -> PlannedStep {
    PlannedStep {
        label: label.to_string(),
        command: label.to_string(),
    }
}

fn output(exit_code: i32, text: &str) -> ExecOutput {
    ExecOutput {
        exit_code,
        text: text.to_string(),
        excerpt: text.to_string(),
        duration_seconds: "2.0".to_string(),
        timed_out: false,
    }
}

#[test]
fn detect_project_prefers_nearest_rust_marker() {
    let dirs = vec![
        dir("/tmp/workspace/crates/demo/src", &[]),
        dir("/tmp/workspace/crates/demo", &["Cargo.toml"]),
        dir("/tmp/workspace/crates", &[]),
        dir("/tmp/workspace", &["Cargo.toml"]),
    ];

    let detection = detect_project(
        &dirs,
        None,
        RequestedProjectType::Auto,
        "/tmp/workspace/crates/demo/src",
        None,
    )
    .expect("detect");

    assert_eq!(detection.project_type, DetectedProjectType::Rust);
    assert_eq!(detection.project_root, "/tmp/workspace/crates/demo");
}

#[test]
fn detect_node_package_manager_prefers_package_manager_field() {
    let mut package = node_dir("/tmp/p", Some("pnpm@10.0.0"), &["test"]);
    package.files.push("yarn.lock".to_string());

    let info = read_node_project_info(&package).expect("read node info");

    assert_eq!(info.package_manager.as_deref(), Some("pnpm"));
    assert!(info.scripts.contains(&"test".to_string()));
}

#[test]
fn plan_rust_verify_quick_uses_check_and_no_run() {
    let mut args = args(ProjectChecksTask::Verify, RequestedProjectType::Rust);
    args.target = Some("codex-core".to_string());

    let steps = plan_rust_steps(&args);

    assert_eq!(steps.len(), 2);
    assert!(steps[0].command.contains("cargo check"));
    assert!(steps[1].command.contains("--no-run"));
}

#[test]
fn plan_node_verify_uses_available_scripts_in_order() {
    let detection = node_detection(&["lint", "test"]);
    let mut warnings = Vec::new();
    let args = args(ProjectChecksTask::Verify, RequestedProjectType::Node);

    let steps = plan_steps(&args, &detection, &mut warnings).expect("plan steps");

    assert_eq!(steps.len(), 2);
    assert_eq!(steps[0].label, "lint script");
    assert_eq!(steps[1].label, "test script");
}

#[test]
fn auto_verify_falls_back_to_descendant_rust_workspace_when_root_node_lacks_scripts() {
    let repo = vec![node_dir("/tmp/repo", None, &["format", "lint:docs"])];
    let args = args(ProjectChecksTask::Verify, RequestedProjectType::Auto);

    let detection = detect_project(&repo, None, RequestedProjectType::Auto, "/tmp/repo", None)
        .expect("detect");
    assert_eq!(detection.project_type, DetectedProjectType::Node);
    assert!(needs_descendants(&args, &detection));

    let below = vec![(dir("/tmp/repo/codex-rs", &["Cargo.toml"]), 1)];
    let (fallback_detection, steps, warnings) =
        plan_steps_with_fallback(&args, detection, &below).expect("fallback plan");

    assert_eq!(fallback_detection.project_type, DetectedProjectType::Rust);
    assert_eq!(fallback_detection.project_root, "/tmp/repo/codex-rs");
    assert_eq!(steps[0].label, "cargo check");
    assert!(warnings.iter().any(|warning| {
        warning.contains("using descendant rust project")
            && warning.contains("could not satisfy task verify")
    }));
}

#[test]
fn serialize_error_response_returns_structured_json() {
    let args = args(ProjectChecksTask::Verify, RequestedProjectType::Auto);

    let response = serialize_error_response(
        &args,
        "repo".to_string(),
        DetectedProjectType::Node,
        Some("pnpm".to_string()),
        vec!["format".to_string()],
        vec!["warning".to_string()],
        "planning failed".to_string(),
    );
    let (text, success) = serialize_response(&response);
    assert!(!success);

    let value: serde_json::Value = serde_json::from_str(&text).expect("structured error json");
    assert_eq!(value["success"], false);
    assert_eq!(value["error"], "planning failed");
    assert_eq!(value["detected_project_type"], "node");
    assert_eq!(value["available_scripts"][0], "format");
}

#[test]
fn step_result_detects_lock_wait_lines() {
    let output = output(
        0,
        "Blocking waiting for file lock\nBlocking waiting for file lock\nfinished",
    );

    let result =
        step_result_from_exec_output(&step("cargo check"), StepStatus::Passed, &output, None);

    assert_eq!(result.lock_wait_count, 2);
}

#[test]
fn words_are_quoted_for_a_shell() {
    let words: Vec<String> = ["a", "two words", "it's"].iter().map(|w| w.to_string()).collect();
    let line = shlex_join(&words);
    assert_eq!(line, "a 'two words' \"it's\"");
    assert_eq!(
        shlex_join(&["nul\0".to_string()]),
        "<command included NUL byte>"
    );
    assert_eq!(command_from_line(None), "<command included NUL byte>");
    assert_eq!(command_from_line(Some("x".to_string())), "x");
    assert_eq!(
        cargo_command("test", Some("p"), Some("some test"), &["--no-run"]),
        "cargo test -p p --no-run 'some test'"
    );
}

#[test]
fn go_and_python_are_planned() {
    let mut go = args(ProjectChecksTask::Test, RequestedProjectType::Go);
    go.test_filter = Some("TestX".to_string());
    let steps = plan_go_steps(&go);
    assert_eq!(steps.len(), 1);
    assert!(steps[0].command.contains("-run TestX"));
    let python = args(ProjectChecksTask::Test, RequestedProjectType::Python);
    let steps = plan_python_steps(&python, PythonRunner::Uv);
    assert!(steps[0].command.starts_with("uv run"));
}

#[test]
fn managers_and_runners_are_recognised() {
    assert_eq!(parse_node_package_manager("yarn@4"), NodePackageManager::Yarn);
    assert_eq!(parse_node_package_manager("bun@1"), NodePackageManager::Bun);
    assert_eq!(parse_node_package_manager("other"), NodePackageManager::Npm);
    assert_eq!(
        detect_node_package_manager_from_lockfiles(&dir("/p", &["pnpm-lock.yaml", "yarn.lock"])),
        NodePackageManager::Pnpm
    );
    assert_eq!(
        detect_node_package_manager_from_lockfiles(&dir("/p", &[])),
        NodePackageManager::Npm
    );
    assert_eq!(detect_python_runner(&dir("/p", &["uv.lock"])), PythonRunner::Uv);
    assert_eq!(
        detect_python_runner(&dir("/p", &["poetry.lock"])),
        PythonRunner::Poetry
    );
    assert_eq!(detect_python_runner(&dir("/p", &[])), PythonRunner::Python);
}

#[test]
fn searching_stops_at_the_boundary() {
    let dirs = vec![
        dir("/w/a", &[]),
        dir("/w", &[]),
        dir("/", &["Cargo.toml"]),
    ];
    let unknown = detect_project(&dirs, Some("/w"), RequestedProjectType::Auto, "/w/a", Some("/w"))
        .expect("detect");
    assert_eq!(unknown.project_type, DetectedProjectType::Unknown);
    assert_eq!(unknown.project_root, "/w");
    assert_eq!(
        detect_project(&dirs, Some("/w"), RequestedProjectType::Rust, "/w/a", Some("/w")).err(),
        Some(FunctionCallError::RespondToModel(
            "run_project_checks could not find a rust project above /w/a".to_string()
        ))
    );
    let free = detect_project(&dirs, None, RequestedProjectType::Rust, "/w/a", None);
    assert_eq!(free.expect("detect").project_root, "/");
    assert_eq!(normalize_project_search_start("/w/a.rs", false), "/w");
    assert_eq!(normalize_project_search_start("/w", true), "/w");
    assert_eq!(error_project_root("/w/a.rs", false, None), "/w");
    assert_eq!(error_project_root("/w/a.rs", false, Some("/r")), "/r");
}

#[test]
fn unreadable_packages_are_reported() {
    let mut broken = node_dir("/p", None, &[]);
    broken.package_json = Err("permission denied".to_string());
    assert_eq!(
        read_node_project_info(&broken).err(),
        Some(FunctionCallError::RespondToModel(
            "failed to read /p/package.json: permission denied".to_string()
        ))
    );
}

#[test]
fn directories_below_are_searched_by_level() {
    assert!(skip_descendant_search_dir("node_modules"));
    assert!(skip_descendant_search_dir(".git"));
    assert!(!skip_descendant_search_dir("src"));
    let mut search = DescendantSearch::new("/r");
    assert_eq!(search.next_dir(), Some(("/r".to_string(), 0)));
    let below = search.visit("/r", 0, &["target".to_string(), "b".to_string(), "a".to_string()]);
    assert_eq!(below, vec!["/r/a", "/r/b"]);
    assert_eq!(search.next_dir(), Some(("/r/a".to_string(), 1)));
    assert_eq!(search.visit("/r/a", 1, &["x".to_string()]), vec!["/r/a/x"]);
    assert_eq!(search.next_dir(), Some(("/r/b".to_string(), 1)));
    assert_eq!(search.next_dir(), Some(("/r/a/x".to_string(), 2)));
    assert_eq!(search.visit("/r/a/x", 2, &["y".to_string()]), vec!["/r/a/x/y"]);
    assert_eq!(search.next_dir(), None);
}

#[test]
fn planning_fails_without_scripts() {
    let check = args(ProjectChecksTask::Build, RequestedProjectType::Node);
    let failure = plan_steps_with_fallback(&check, node_detection(&[]), &[])
        .err()
        .expect("failure");
    assert_eq!(failure.detection.project_root, "repo");
    assert!(!failure.message.is_empty());
    assert!(!needs_descendants(&check, &node_detection(&[])));
    match RunProjectChecksHandler::after_planning(&check, Err(failure)) {
        Planned::Respond(response) => {
            assert!(!response.success);
            assert!(response.error.is_some());
        }
        Planned::Run { .. } => panic!("nothing can be run"),
    }
}

#[test]
fn runs_stop_after_the_first_failure() {
    let mut run = CheckRun::new(vec![step("a"), step("b"), step("c")], false);
    assert_eq!(run.next_step(), Some(0));
    let (stage, passed) = step_result_from_outcome(&step("a"), &StepOutcome::Finished(output(0, "ok")));
    assert_eq!(stage, EventStage::Success);
    run.record(passed);
    assert_eq!(run.next_step(), Some(1));
    let (stage, failed) = step_result_from_outcome(&step("b"), &StepOutcome::Finished(output(3, "no")));
    assert_eq!(stage, EventStage::Success);
    assert_eq!(failed.status, StepStatus::Failed);
    assert_eq!(failed.exit_code, Some(3));
    run.record(failed);
    assert_eq!(run.next_step(), None);
    assert!(!run.success && run.stopped_after_failure);
    let summary = build_summary(&run.results, run.success, run.stopped_after_failure);
    assert_eq!(summary, "Stopped after b failed with Failed.");
    let response = RunProjectChecksHandler::finish(
        &args(ProjectChecksTask::Build, RequestedProjectType::Auto),
        node_detection(&[]),
        vec!["w".to_string()],
        run,
    );
    assert_eq!(response.summary, summary);
    assert_eq!(response.steps.len(), 2);
    assert!(response.stopped_after_failure);
}

#[test]
fn runs_go_on_where_asked() {
    let mut run = CheckRun::new(vec![step("a"), step("b")], true);
    for outcome in [
        StepOutcome::Broken("boom".to_string()),
        StepOutcome::TimedOut(output(124, "slow")),
    ] {
        let place = run.next_step().expect("a step is left");
        let (_, result) = step_result_from_outcome(&run.steps[place], &outcome);
        run.record(result);
    }
    assert_eq!(run.next_step(), None);
    assert!(!run.success && !run.stopped_after_failure);
    assert_eq!(run.results[0].status, StepStatus::Error);
    assert_eq!(run.results[1].status, StepStatus::TimedOut);
    let (_, rejected) =
        step_result_from_outcome(&step("a"), &StepOutcome::Rejected("no".to_string()));
    assert_eq!(rejected.status, StepStatus::Rejected);
    let (stage, denied) =
        step_result_from_outcome(&step("a"), &StepOutcome::Denied(output(1, "")));
    assert_eq!(stage, EventStage::FailedWithOutput);
    assert_eq!(denied.status, StepStatus::Failed);
}

#[test]
fn steps_are_requested_with_their_environment() {
    let mut env = TextMap::new();
    env.insert("PATH", "/bin".to_string());
    env.insert("KEEP", "a".to_string());
    let mut assigned = TextMap::new();
    assigned.insert("KEEP", "a".to_string());
    let mut dependency = TextMap::new();
    dependency.insert("TOKEN", "t".to_string());
    let request = step_request("/p", &step("cargo check"), None, env, assigned, &dependency);
    assert_eq!(request.timeout_ms, 900_000);
    assert_eq!(request.cwd, "/p");
    assert_eq!(request.env.get("TOKEN").map(String::as_str), Some("t"));
    assert_eq!(request.env.get("PATH").map(String::as_str), Some("/bin"));
    assert!(!request.explicit_env_overrides.contains("PATH"));
    assert_eq!(step_call_id("call", 0), "call:step:1");
}

#[test]
fn detection_alone_is_answered_at_once() {
    assert_eq!(RunProjectChecksHandler::check_payload(true), Ok(()));
    assert!(RunProjectChecksHandler::check_payload(false).is_err());
    let detect = args(ProjectChecksTask::Detect, RequestedProjectType::Auto);
    match RunProjectChecksHandler::after_detection(&detect, Ok(node_detection(&["a"])), "/r") {
        Ok(Detected::Respond(response)) => {
            assert!(response.success);
            assert_eq!(response.available_scripts, vec!["a"]);
        }
        other => panic!("unexpected {other:?}"),
    }
    let fault = FunctionCallError::RespondToModel("lost".to_string());
    match RunProjectChecksHandler::after_detection(&detect, Err(fault), "/r") {
        Ok(Detected::Respond(response)) => {
            assert_eq!(response.project_root, "/r");
            assert_eq!(response.error.as_deref(), Some("lost"));
        }
        other => panic!("unexpected {other:?}"),
    }
    let fatal = FunctionCallError::Fatal("gone".to_string());
    assert!(RunProjectChecksHandler::after_detection(&detect, Err(fatal), "/r").is_err());
}

#[test]
fn planned_projects_have_steps() {
    for task in [
        ProjectChecksTask::Build,
        ProjectChecksTask::Test,
        ProjectChecksTask::Verify,
    ] {
        for quick in [true, false] {
            let mut check = args(task, RequestedProjectType::Auto);
            check.quick = quick;
            assert!(!plan_rust_steps(&check).is_empty());
            assert!(!plan_go_steps(&check).is_empty());
            assert!(!plan_python_steps(&check, PythonRunner::Poetry).is_empty());
        }
    }
}

#[test]
fn the_best_project_below_is_taken() {
    let check = args(ProjectChecksTask::Build, RequestedProjectType::Auto);
    let below = vec![
        (dir("/r/a", &["go.mod"]), 1),
        (dir("/r/repo", &["Cargo.toml"]), 1),
        (dir("/r/x/b", &["Cargo.toml"]), 2),
        (dir("/r/x/c", &["Cargo.toml"]), 2),
    ];
    let mut current = node_detection(&[]);
    current.project_root = "/r/repo".to_string();
    let (found, steps, warnings) =
        plan_steps_with_fallback(&check, current, &below).unwrap_or_else(|_| panic!("no plan"));
    assert_eq!(found.project_root, "/r/x/b");
    assert!(!steps.is_empty());
    assert_eq!(
        warnings,
        vec!["Auto-detected node project at /r/repo but it could not satisfy task build; using descendant rust project at /r/x/b instead."]
    );
}

#[test]
fn settings_that_do_not_apply_are_told() {
    let mut check = args(ProjectChecksTask::Test, RequestedProjectType::Node);
    check.target = Some("p".to_string());
    check.test_filter = Some("f".to_string());
    let mut warnings = Vec::new();
    plan_steps(&check, &node_detection(&["test"]), &mut warnings).expect("plan steps");
    assert_eq!(
        warnings,
        vec![
            "Ignored `target` for node projects.",
            "Ignored `test_filter` for node projects."
        ]
    );
}

#[test]
fn answers_are_written_in_order() {
    let args = args(ProjectChecksTask::Verify, RequestedProjectType::Auto);
    let mut response = serialize_error_response(
        &args,
        "repo".to_string(),
        DetectedProjectType::Node,
        None,
        vec![],
        vec![],
        "no \"luck\"".to_string(),
    );
    response.steps.push(step_result_from_exec_output(
        &step("lint"),
        StepStatus::Failed,
        &output(1, "oops"),
        None,
    ));
    let (text, _) = serialize_response(&response);
    assert!(
        text.starts_with(
            "{\n  \"task\": \"verify\",\n  \"requested_project_type\": \"auto\",\n  \"detected_project_type\": \"node\",\n  \"project_root\": \"repo\",\n  \"quick\": true,\n  \"success\": false,\n  \"stopped_after_failure\": false,\n  \"error\": \"no \\\"luck\\\"\",\n  \"steps\": [\n    {\n      \"label\": \"lint\",\n      \"command\": "
        ),
        "{text}"
    );
    assert!(text.ends_with("\n    }\n  ],\n  \"summary\": \"no \\\"luck\\\"\"\n}"), "{text}");
}

#[test]
fn projects_are_told_by_few_files() {
    let files = project_files();
    assert_eq!(files.len(), 14);
    for name in ["Cargo.toml", "go.work", "package.json", "setup.cfg", "bun.lockb", "uv.lock"] {
        assert!(files.iter().any(|file| file == name), "{name}");
    }
}
