use codex_toolkit::json::Json;
use codex_toolkit::lsp::actions::code_action_diagnostics_timeout;
use codex_toolkit::lsp::actions::dispatch_transport_request;
use codex_toolkit::lsp::actions::LspAction;
use codex_toolkit::lsp::actions::LspToolRequest;
use codex_toolkit::lsp::output::answer_text;
use codex_toolkit::lsp::progress::begin_request;
use codex_toolkit::lsp::progress::DiagnosticsWait;
use codex_toolkit::lsp::progress::News;
use codex_toolkit::lsp::progress::Patience;
use codex_toolkit::lsp::progress::ProgressWait;
use codex_toolkit::lsp::progress::ProgressWaitOutcome;
use codex_toolkit::lsp::progress::Reply;
use codex_toolkit::lsp::progress::Settling;
use codex_toolkit::lsp::progress::WorkDoneProgressState;
use codex_toolkit::lsp::providers::plugin_files;
use codex_toolkit::lsp::providers::provider_directories;
use codex_toolkit::lsp::providers::requested_path;
use codex_toolkit::lsp::providers::LspProvider;
use codex_toolkit::lsp::providers::LspProviderPlugin;
use codex_toolkit::lsp::transport::closed_before_responding_error;
use codex_toolkit::lsp::transport::extend_tail;
use codex_toolkit::lsp::transport::frame_header;
use codex_toolkit::lsp::transport::handle_message;
use codex_toolkit::lsp::transport::initialize_params;
use codex_toolkit::lsp::transport::read_body;
use codex_toolkit::lsp::transport::read_header_line;
use codex_toolkit::lsp::transport::respond_to_server_request;
use codex_toolkit::lsp::transport::response_message;
use codex_toolkit::lsp::transport::set_workspace_settings;
use codex_toolkit::lsp::transport::should_discard_cached_session_after_error;
use codex_toolkit::lsp::transport::write_message;
use codex_toolkit::lsp::transport::HeaderStep;
use codex_toolkit::lsp::transport::Incoming;
use codex_toolkit::lsp::transport::ServerRequest;
use codex_toolkit::moments::millis;
use codex_toolkit::json;
use codex_toolkit::moments::later;
use codex_toolkit::moments::elapsed;
use codex_toolkit::moments::shorter;

fn json(source: &str) -> Json {
    read_body(source.as_bytes()).expect("valid JSON")
}

fn shown(value: &Json) -> serde_json::Value {
    serde_json::from_str(&answer_text(value)).expect("valid JSON")
}

fn told(state: &mut WorkDoneProgressState, token: &str, kind: &str, at_ms: u64) {
    let params = json(&format!(
        r#"{{"token":"{token}","value":{{"kind":"{kind}"}}}}"#
    ));
    state.record_work_done_progress(Some(&params), millis(at_ms));
}

#[test]
fn progress_extends_requests() {
    let (mut pending, message) = begin_request(3, "textDocument/hover", json("{}"), 0, millis(1_000));
    let token = pending.token.clone().expect("token");
    assert_eq!(token, "codex:textDocument/hover:3");
    assert_eq!(shown(&message)["params"]["workDoneToken"], token.as_str());
    let mut state = WorkDoneProgressState::new();
    assert_eq!(pending.patience(&state, millis(400)), Patience::Wait { time: millis(600) });
    told(&mut state, &token, "begin", 900);
    assert_eq!(pending.patience(&state, millis(1_000)), Patience::Wait { time: millis(1_000) });
    assert_eq!(pending.deadline, millis(2_000));
    assert_eq!(pending.patience(&state, millis(2_000)), Patience::TimedOut);
    told(&mut state, &token, "end", 2_000);
    assert!(!state.active_tokens.contains(&token));
    assert_eq!(state.last_activity_at, Some(millis(2_000)));
    told(&mut state, "other", "report", 2_100);
    state.clear_progress_token(Some("other"));
    assert_eq!(state.active_tokens.len(), 0);
}

#[test]
fn requests_know_their_answers() {
    let (pending, message) = begin_request(8, "shutdown", Json::Null, 0, 1);
    assert_eq!(pending.token, None);
    assert_eq!(shown(&message)["params"], serde_json::Value::Null);
    match pending.reply(&json(r#"{"id":8,"result":[1]}"#)) {
        Reply::Answer(value) => assert_eq!(shown(&value)[0], 1),
        _ => panic!("an answer is expected"),
    }
    match pending.reply(&json(r#"{"id":8}"#)) {
        Reply::Answer(value) => assert!(value.is_null()),
        _ => panic!("an answer is expected"),
    }
    match pending.reply(&json(r#"{"id":8,"error":{"code":1}}"#)) {
        Reply::Failed(error) => assert_eq!(
            pending.failure_message(&error),
            "LSP request failed for shutdown: {\"code\":1}"
        ),
        _ => panic!("a failure is expected"),
    }
    assert!(matches!(
        pending.reply(&json(r#"{"id":9,"result":1}"#)),
        Reply::Other
    ));
    assert_eq!(pending.timeout_message(), "LSP request timed out: shutdown");
    assert_eq!(shown(&pending.cancel_message())["params"]["id"], 8);
    assert_eq!(pending.hear(&News::Silence, ""), Ok(()));
    assert_eq!(
        pending.hear(&News::Closed, " boom\n"),
        Err("language server closed before responding; stderr tail:\nboom".to_string())
    );
    let broken = News::Failed {
        message: "bad".to_string(),
    };
    assert_eq!(pending.hear(&broken, ""), Err("bad".to_string()));
}

#[test]
fn diagnostics_are_complete_after_a_pause() {
    let mut wait = DiagnosticsWait::start(0, millis(1_000));
    assert_eq!(wait.patience(millis(100)), Some(millis(900)));
    assert_eq!(wait.hear(&News::Message { counts: false }, millis(100)), Ok(true));
    assert_eq!(wait.hear(&News::Message { counts: true }, millis(200)), Ok(true));
    assert_eq!(wait.patience(millis(499)), Some(millis(501)));
    assert_eq!(wait.patience(millis(500)), None);
    assert_eq!(wait.hear(&News::Silence, millis(500)), Ok(false));
    assert_eq!(wait.hear(&News::Closed, millis(500)), Ok(false));
    assert!(DiagnosticsWait::start(0, 10).patience(10).is_none());
    assert_eq!(code_action_diagnostics_timeout(millis(500)), millis(500));
    assert_eq!(code_action_diagnostics_timeout(millis(15_000)), millis(2_000));
    assert_eq!(code_action_diagnostics_timeout(1_999_999), millis(1));
}

#[test]
fn servers_are_given_time_to_settle() {
    let mut state = WorkDoneProgressState::new();
    let mut wait = ProgressWait::start(&state, 0, millis(1_000));
    assert_eq!(wait.patience(&state, millis(0)), Settling::Wait { time: millis(250) });
    assert_eq!(wait.patience(&state, millis(900)), Settling::Wait { time: millis(100) });
    assert_eq!(wait.hear(&News::Silence, "", millis(250)), Ok(None));
    assert_eq!(wait.hear(&News::Message { counts: true }, "", millis(300)), Ok(None));
    state.last_activity_at = Some(millis(300));
    assert_eq!(wait.patience(&state, millis(400)), Settling::Wait { time: millis(250) });
    assert_eq!(
        wait.patience(&state, millis(550)),
        Settling::Done {
            outcome: ProgressWaitOutcome {
                observed_progress: true,
                waited: millis(550)
            }
        }
    );
    assert_eq!(
        wait.hear(&News::Silence, "", millis(560)),
        Ok(Some(ProgressWaitOutcome {
            observed_progress: true,
            waited: millis(560)
        }))
    );
    assert!(wait.hear(&News::Closed, "", millis(560)).is_err());
}

#[test]
fn every_action_on_a_document_needs_one() {
    let request = LspToolRequest {
        action: LspAction::Auto,
        path: None,
        language: None,
        goal: None,
        line: Some(1),
        column: Some(1),
        end_line: None,
        end_column: None,
        query: None,
        new_name: Some("x".to_string()),
        include_declaration: None,
        limit: None,
        trigger_character: None,
        only: Vec::new(),
        apply: false,
        timeout_ms: None,
    };
    for action in [
        LspAction::Diagnostics,
        LspAction::Definition,
        LspAction::References,
        LspAction::Hover,
        LspAction::DocumentSymbols,
        LspAction::Rename,
        LspAction::Completion,
        LspAction::SignatureHelp,
        LspAction::CodeActions,
    ] {
        assert!(dispatch_transport_request(&request, action, None, false).is_err());
        assert!(dispatch_transport_request(&request, action, Some("file:///a"), false).is_ok());
    }
    let symbols = LspAction::WorkspaceSymbols;
    assert!(dispatch_transport_request(&request, symbols, None, false).is_ok());
}

#[test]
fn headers_are_read_as_they_were_written() {
    for length in [0, 7, 123_456] {
        let header = frame_header(length);
        let line = header.strip_suffix("\r\n").expect("an empty line at the end");
        match read_header_line(None, Some(line)) {
            HeaderStep::More(known) => assert_eq!(known, Some(length)),
            other => panic!("unexpected {other:?}"),
        }
    }
    assert_eq!(
        write_message(&json(r#"{"a":"é"}"#)),
        "Content-Length: 10\r\n\r\n{\"a\":\"é\"}"
    );
    assert!(matches!(
        read_header_line(Some(1), Some("Content-Type: x\r\n")),
        HeaderStep::More(Some(1))
    ));
    assert!(matches!(
        read_header_line(Some(1), Some("no colon\r\n")),
        HeaderStep::More(Some(1))
    ));
}

#[test]
fn the_end_of_the_error_output_is_kept() {
    assert_eq!(extend_tail(vec![1, 2], &[3]), vec![1, 2, 3]);
    let kept = extend_tail(vec![7; 8192], &[8, 9]);
    assert_eq!(kept.len(), 8192);
    assert_eq!(&kept[8190..], &[8, 9]);
    let kept = extend_tail(vec![7; 10], &[8; 9000]);
    assert_eq!(kept, vec![8; 8192]);
    assert_eq!(
        closed_before_responding_error("  \n"),
        "language server closed before responding"
    );
    assert!(should_discard_cached_session_after_error("Request TIMED OUT"));
    assert!(!should_discard_cached_session_after_error("line is required"));
}

#[test]
fn messages_of_servers_are_sorted() {
    assert!(matches!(
        handle_message(&json(r#"{"id":1,"method":"x"}"#)),
        Incoming::Request
    ));
    assert!(matches!(
        handle_message(&json(r#"{"method":"$/progress","params":{}}"#)),
        Incoming::Progress
    ));
    match handle_message(&json(
        r#"{"method":"textDocument/publishDiagnostics","params":{"uri":"file:///a"}}"#,
    )) {
        Incoming::Diagnostics { uri, diagnostics } => {
            assert_eq!(uri, "file:///a");
            assert_eq!(shown(&diagnostics), serde_json::Value::Array(vec![]));
        }
        _ => panic!("diagnostics are expected"),
    }
    assert!(matches!(
        handle_message(&json(r#"{"method":"textDocument/publishDiagnostics"}"#)),
        Incoming::Ignored
    ));
    assert!(matches!(handle_message(&json(r#"{"id":1}"#)), Incoming::Ignored));
}

#[test]
fn requests_of_servers_are_answered() {
    let empty = json("{}");
    let registration = json(
        r#"{"id":1,"method":"client/registerCapability","params":{"registrations":[{"method":"workspace/didChangeWatchedFiles"}]}}"#,
    );
    assert!(matches!(
        respond_to_server_request(&registration, &empty, "/w", false),
        Ok(ServerRequest::Registered(true))
    ));
    let withdrawal = json(
        r#"{"id":1,"method":"client/unregisterCapability","params":{"unregisterations":[{"method":"workspace/didChangeWatchedFiles"}]}}"#,
    );
    assert!(matches!(
        respond_to_server_request(&withdrawal, &empty, "/w", true),
        Ok(ServerRequest::Registered(false))
    ));
    let folders = json(r#"{"id":"x","method":"workspace/workspaceFolders"}"#);
    match respond_to_server_request(&folders, &empty, "/home/w", false) {
        Ok(ServerRequest::Reply(value)) => {
            let reply = shown(&response_message(&folders, value));
            assert_eq!(reply["id"], "x");
            assert_eq!(reply["result"][0]["name"], "w");
            assert_eq!(reply["result"][0]["uri"], "file:///home/w");
        }
        _ => panic!("a reply is expected"),
    }
    let shows = json(r#"{"id":2,"method":"window/showDocument"}"#);
    match respond_to_server_request(&shows, &empty, "/w", false) {
        Ok(ServerRequest::Reply(value)) => assert_eq!(shown(&value)["success"], false),
        _ => panic!("a reply is expected"),
    }
    assert!(respond_to_server_request(&json(r#"{"id":2}"#), &empty, "/w", false).is_err());
}

#[test]
fn servers_are_introduced() {
    let params = shown(&initialize_params(42, "/w").expect("params"));
    assert_eq!(params["processId"], 42);
    assert_eq!(params["rootUri"], "file:///w");
    assert_eq!(params["clientInfo"]["name"], "codex-cli");
    assert_eq!(params["capabilities"]["workspace"]["applyEdit"], true);
    assert_eq!(
        params["capabilities"]["textDocument"]["codeAction"]["codeActionLiteralSupport"]
            ["codeActionKind"]["valueSet"]
            .as_array()
            .map(Vec::len),
        Some(7)
    );
    assert!(initialize_params(42, "relative").is_err());
}

#[test]
fn settings_are_told_once() {
    assert!(set_workspace_settings(&json(r#"{"a":1}"#), &json(r#"{"a":1}"#)).is_none());
    let params = set_workspace_settings(&json("{}"), &json(r#"{"a":1}"#)).expect("params");
    assert_eq!(shown(&params)["settings"]["a"], 1);
}

#[test]
fn plugins_are_found() {
    assert_eq!(requested_path("/w", Some("a.rs")).as_deref(), Some("/w/a.rs"));
    assert_eq!(requested_path("/w", Some("/b.rs")).as_deref(), Some("/b.rs"));
    assert_eq!(requested_path("/w", None), None);
    assert_eq!(
        provider_directories("/w", "/home/c", &["/x".to_string(), "/w/.codex/lsp-providers".to_string()]),
        vec!["/w/.codex/lsp-providers", "/home/c/lsp-providers", "/x"]
    );
    let files: Vec<String> = ["/p/b.JSON", "/p/a.json", "/p/c.txt", "/p/json"]
        .iter()
        .map(|file| file.to_string())
        .collect();
    assert_eq!(plugin_files(&files), vec!["/p/a.json", "/p/b.JSON"]);
    let plugin = |id: &str, command: &str| LspProviderPlugin {
        id: id.to_string(),
        aliases: Vec::new(),
        file_extensions: vec![" .X ".to_string()],
        workspace_markers: Vec::new(),
        command: command.to_string(),
        args: Vec::new(),
        language_id: None,
        extension_language_ids: Vec::new(),
        command_env_var: None,
        args_env_var: None,
    };
    let made = LspProvider::from_plugin(plugin("one", "cmd"), "plugin:p");
    let made = made.unwrap_or_else(|err| panic!("{err}"));
    assert_eq!(made.file_extensions, vec!["x"]);
    assert_eq!(made.default_language_id, "one");
    assert_eq!(
        LspProvider::from_plugin(plugin(" ", "cmd"), "p").err().as_deref(),
        Some("provider id must not be empty")
    );
    assert_eq!(
        LspProvider::from_plugin(plugin("one", ""), "p").err().as_deref(),
        Some("provider command must not be empty for one")
    );
}

#[test]
fn settings_in_another_order_are_not_told() {
    let there = json::object().with("a", Json::Bool(true)).with("b", Json::Null);
    let back = json::object().with("b", Json::Null).with("a", Json::Bool(true));
    assert!(set_workspace_settings(&there, &back).is_none());
}

#[test]
fn moments_are_counted_in_nanoseconds() {
    assert_eq!(millis(3), 3_000_000);
    assert_eq!(millis(u64::MAX), u128::from(u64::MAX) * 1_000_000);
    assert_eq!(later(5, 7), 12);
    assert_eq!(later(u128::MAX, 1), u128::MAX);
    assert_eq!(elapsed(5, 7), 2);
    assert_eq!(elapsed(7, 5), 0);
    assert_eq!((shorter(1, 2), shorter(2, 1)), (1, 1));
}


