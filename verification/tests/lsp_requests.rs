use codex_toolkit::json::Json;
use codex_toolkit::lsp::actions::dispatch_after_diagnostics;
use codex_toolkit::lsp::actions::dispatch_after_prepare_rename;
use codex_toolkit::lsp::actions::dispatch_transport_request;
use codex_toolkit::lsp::actions::infer_auto_action;
use codex_toolkit::lsp::actions::DispatchStep;
use codex_toolkit::lsp::actions::LspAction;
use codex_toolkit::lsp::actions::LspToolRequest;
use codex_toolkit::lsp::output::answer_text;
use codex_toolkit::lsp::progress::begin_request;
use codex_toolkit::lsp::progress::next_request_deadline_for_progress;
use codex_toolkit::lsp::progress::progress_extension_budget;
use codex_toolkit::lsp::progress::Patience;
use codex_toolkit::lsp::progress::WorkDoneProgressState;
use codex_toolkit::lsp::requests::after_answer;
use codex_toolkit::lsp::requests::after_document_symbols;
use codex_toolkit::lsp::requests::after_edit;
use codex_toolkit::lsp::requests::after_hover_symbols;
use codex_toolkit::lsp::requests::after_open;
use codex_toolkit::lsp::requests::after_wait;
use codex_toolkit::lsp::requests::begin;
use codex_toolkit::lsp::requests::plan_invocation;
use codex_toolkit::lsp::requests::LspHandler;
use codex_toolkit::lsp::requests::Next;
use codex_toolkit::lsp::requests::RequestContext;
use codex_toolkit::lsp::transport::read_body;
use codex_toolkit::errors::FunctionCallError;
use codex_toolkit::moments::millis;

fn json(source: &str) -> Json {
    read_body(source.as_bytes()).expect("valid JSON")
}

fn shown(value: &Json) -> serde_json::Value {
    serde_json::from_str(&answer_text(value)).expect("valid JSON")
}

fn request(action: LspAction) -> LspToolRequest {
    LspToolRequest {
        action,
        path: Some("src/main.rs".to_string()),
        language: None,
        goal: None,
        line: Some(10),
        column: Some(5),
        end_line: None,
        end_column: None,
        query: None,
        new_name: None,
        include_declaration: None,
        limit: None,
        trigger_character: None,
        only: Vec::new(),
        apply: false,
        timeout_ms: None,
    }
}

fn context(action: LspAction, path: Option<&str>) -> RequestContext {
    RequestContext {
        request: request(action),
        action,
        provider_id: "rust".to_string(),
        server_command: "rust-analyzer".to_string(),
        server_args: Vec::new(),
        workspace_root: "/w".to_string(),
        path: path.map(str::to_string),
        limit: 5,
        timeout: millis(10_000),
    }
}

#[test]
fn auto_action_prefers_references_for_usage_questions() {
    let mut asked = request(LspAction::Auto);
    asked.goal = Some("what uses this function".to_string());

    let action = infer_auto_action(&asked, true);
    assert_eq!(action, LspAction::References);
}

#[test]
fn auto_action_follows_what_is_asked() {
    let mut asked = request(LspAction::Auto);
    asked.goal = Some("show me the diagnostics".to_string());
    assert_eq!(infer_auto_action(&asked, true), LspAction::Diagnostics);
    let mut nothing = request(LspAction::Auto);
    nothing.line = None;
    nothing.column = None;
    nothing.path = None;
    nothing.query = Some("helper".to_string());
    assert_eq!(infer_auto_action(&nothing, false), LspAction::WorkspaceSymbols);
}

#[test]
fn next_request_deadline_for_progress_requires_active_recent_token() {
    let now = millis(100_000);
    let mut state = WorkDoneProgressState::new();
    state.active_tokens.insert("token", ());
    state.token_last_activity_at.insert("token", now - millis(500));

    let deadline = now;
    let max_deadline = now + millis(5_000);
    let next_deadline =
        next_request_deadline_for_progress(&state, "token", now, deadline, max_deadline)
            .expect("progress should extend deadline");
    assert!(next_deadline > deadline);
    assert!(next_deadline <= max_deadline);

    state.token_last_activity_at.insert("token", now - millis(5_000));
    assert!(
        next_request_deadline_for_progress(&state, "token", now, deadline, max_deadline).is_none()
    );
}

#[test]
fn requests_wait_until_their_deadline() {
    let (mut pending, message) = begin_request(7, "textDocument/hover", json("{}"), millis(1_000), millis(500));
    let sent = shown(&message);
    assert_eq!(sent["id"], 7);
    assert_eq!(sent["method"], "textDocument/hover");
    assert_eq!(pending.max_deadline, millis(1_500) + progress_extension_budget(millis(500)));
    let state = WorkDoneProgressState::new();
    assert_eq!(pending.patience(&state, millis(1_500)), Patience::TimedOut);
}

#[test]
fn plans_name_what_is_missing() {
    let plan = plan_invocation(&request(LspAction::Hover), Some("250"), true).expect("plan");
    assert_eq!(plan.timeout, millis(250));
    assert_eq!(plan.limit, 50);
    assert_eq!(plan.action, LspAction::Hover);
    assert_eq!(
        plan_invocation(&request(LspAction::Hover), None, false),
        Err("path is required for hover".to_string())
    );
    let mut asked = request(LspAction::WorkspaceSymbols);
    asked.limit = Some(0);
    asked.timeout_ms = Some(9);
    let plan = plan_invocation(&asked, None, false).expect("plan");
    assert_eq!((plan.limit, plan.timeout), (1, millis(9)));
    let plan = plan_invocation(&request(LspAction::Hover), Some("0"), true).expect("plan");
    assert_eq!(plan.timeout, millis(15_000));
}

#[test]
fn a_request_opens_its_document_first() {
    let hover = context(LspAction::Hover, Some("/w/a.rs"));
    match begin(&hover, true) {
        Ok(Next::Open { path }) => assert_eq!(path, "/w/a.rs"),
        other => panic!("unexpected {other:?}"),
    }
    assert_eq!(
        begin(&hover, false).unwrap_err(),
        "path must point to a file for hover"
    );
    assert_eq!(
        begin(&context(LspAction::Hover, None), false).unwrap_err(),
        "path is required for hover"
    );
    match after_open(&hover, "file:///w/a.rs") {
        Next::Ask { uri, timeout } => {
            assert_eq!(uri.as_deref(), Some("file:///w/a.rs"));
            assert_eq!(timeout, millis(10_000));
        }
        other => panic!("unexpected {other:?}"),
    }
}

#[test]
fn an_empty_answer_is_asked_for_again_after_progress() {
    let hover = context(LspAction::Hover, Some("/w/a.rs"));
    let uri = Some("file:///w/a.rs".to_string());
    let budget = match after_answer(&hover, uri.clone(), Json::Null) {
        Ok(Next::Settle { budget, .. }) => budget,
        other => panic!("unexpected {other:?}"),
    };
    assert_eq!(budget, millis(5_000));
    match after_wait(&hover, uri.clone(), Json::Null, budget, true, millis(4_900)) {
        Ok(Next::AskAgain { timeout, .. }) => assert_eq!(timeout, millis(250)),
        other => panic!("unexpected {other:?}"),
    }
    match after_wait(&hover, uri, Json::Null, budget, false, millis(4_900)) {
        Ok(Next::AskForHover { uri, .. }) => assert_eq!(uri, "file:///w/a.rs"),
        other => panic!("unexpected {other:?}"),
    }
    match after_hover_symbols(&hover, &json("[]")) {
        Next::Finish { answer } => assert_eq!(shown(&answer)["result"], serde_json::Value::Null),
        other => panic!("unexpected {other:?}"),
    }
}

#[test]
fn symbols_of_the_document_stand_in_for_those_of_the_workspace() {
    let mut symbols = context(LspAction::WorkspaceSymbols, Some("/w/a.rs"));
    symbols.provider_id = "go".to_string();
    symbols.request.query = Some("main".to_string());
    let (path, result) = match after_answer(&symbols, None, json("[]")) {
        Ok(Next::OpenForSymbols { path, result, .. }) => (path, result),
        other => panic!("unexpected {other:?}"),
    };
    let found = json(
        r#"[{"name":"main","kind":12,"range":{"start":{"line":0,"character":0},"end":{"line":1,"character":0}},"selectionRange":{"start":{"line":0,"character":3},"end":{"line":0,"character":7}}}]"#,
    );
    match after_document_symbols(&symbols, &path, result, &found) {
        Ok(Next::Finish { answer }) => {
            let answer = shown(&answer);
            assert_eq!(answer["result"][0]["name"], "main");
            assert_eq!(answer["path"], "/w/a.rs");
        }
        other => panic!("unexpected {other:?}"),
    }
}

#[test]
fn renames_are_applied_only_where_asked() {
    let edit = r#"{"changes":{"file:///w/a.rs":[{"range":{"start":{"line":0,"character":0},"end":{"line":0,"character":1}},"newText":"b"}]}}"#;
    let mut rename = context(LspAction::Rename, Some("/w/a.rs"));
    match after_answer(&rename, None, json(edit)) {
        Ok(Next::Finish { answer }) => {
            let answer = shown(&answer);
            assert_eq!(answer["apply_requested"], false);
            assert_eq!(answer["applied"], false);
            assert_eq!(answer["result"]["operation_count"], 1);
        }
        other => panic!("unexpected {other:?}"),
    }
    rename.request.apply = true;
    let preview = match after_answer(&rename, None, json(edit)) {
        Ok(Next::Apply { preview, .. }) => preview,
        other => panic!("unexpected {other:?}"),
    };
    match after_edit(&rename, &preview) {
        Next::Finish { answer } => {
            let answer = shown(&answer);
            assert_eq!(answer["applied"], true);
            assert_eq!(answer["requested_action"], "rename");
            assert_eq!(answer["server_command"], "rust-analyzer");
        }
        other => panic!("unexpected {other:?}"),
    }
}

#[test]
fn dispatching_builds_requests() {
    let hover = request(LspAction::Hover);
    match dispatch_transport_request(&hover, LspAction::Hover, Some("file:///a"), false) {
        Ok(DispatchStep::Send { method, params }) => {
            assert_eq!(method, "textDocument/hover");
            let params = shown(&params);
            assert_eq!(params["position"]["line"], 9);
            assert_eq!(params["position"]["character"], 4);
            assert_eq!(params["textDocument"]["uri"], "file:///a");
        }
        other => panic!("unexpected {:?}", other.err()),
    }
    let mut rename = request(LspAction::Rename);
    assert!(matches!(
        dispatch_transport_request(&rename, LspAction::Rename, Some("file:///a"), true),
        Ok(DispatchStep::PrepareRename { .. })
    ));
    assert_eq!(
        dispatch_after_prepare_rename(&rename, "file:///a", &json("{}")).err(),
        Some("rename requires new_name".to_string())
    );
    rename.new_name = Some("b".to_string());
    assert!(matches!(
        dispatch_after_prepare_rename(&rename, "file:///a", &json("{}")),
        Ok(DispatchStep::Send { .. })
    ));
    assert!(dispatch_after_prepare_rename(&rename, "file:///a", &Json::Null).is_err());
    assert!(matches!(
        dispatch_transport_request(
            &request(LspAction::CodeActions),
            LspAction::CodeActions,
            Some("file:///a"),
            false
        ),
        Ok(DispatchStep::CodeActionDiagnostics { .. })
    ));
    match dispatch_after_diagnostics(&request(LspAction::CodeActions), "file:///a", json("[1]")) {
        Ok(DispatchStep::Send { method, params }) => {
            assert_eq!(method, "textDocument/codeAction");
            assert_eq!(shown(&params)["context"]["diagnostics"][0], 1);
        }
        other => panic!("unexpected {:?}", other.err()),
    }
    let mut no_line = request(LspAction::Hover);
    no_line.line = None;
    assert_eq!(
        dispatch_transport_request(&no_line, LspAction::Hover, Some("file:///a"), false).err(),
        Some("line is required".to_string())
    );
}

#[test]
fn the_tool_passes_answers_on() {
    assert_eq!(LspHandler::check_payload(true), Ok(()));
    assert_eq!(
        LspHandler::check_payload(false),
        Err(FunctionCallError::RespondToModel(
            "lsp handler received unsupported payload".to_string()
        ))
    );
    assert_eq!(LspHandler::answer(Ok(Ok("x".to_string()))), Ok("x".to_string()));
    assert_eq!(
        LspHandler::answer(Ok(Err("y".to_string()))),
        Err(FunctionCallError::RespondToModel("y".to_string()))
    );
    assert_eq!(
        LspHandler::answer(Err("z".to_string())),
        Err(FunctionCallError::RespondToModel("failed to join lsp task: z".to_string()))
    );
}

#[test]
fn half_a_millisecond_is_time_to_settle() {
    let mut hover = context(LspAction::Hover, Some("/w/a.rs"));
    hover.timeout = millis(1);
    match after_answer(&hover, None, Json::Null) {
        Ok(Next::Settle { budget, .. }) => assert_eq!(budget, 500_000),
        other => panic!("unexpected {other:?}"),
    }
    hover.timeout = millis(u64::MAX);
    match after_answer(&hover, None, Json::Null) {
        Ok(Next::Settle { budget, .. }) => assert_eq!(budget, millis(8_000)),
        other => panic!("unexpected {other:?}"),
    }
}
