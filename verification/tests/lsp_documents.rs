use codex_toolkit::json::Json;
use codex_toolkit::lsp::documents::server_supports_prepare_rename;
use codex_toolkit::lsp::documents::sync_messages;
use codex_toolkit::lsp::documents::text_document_sync_support;
use codex_toolkit::lsp::documents::DocumentCache;
use codex_toolkit::lsp::documents::SyncPlan;
use codex_toolkit::lsp::documents::TextDocumentSyncSupport;
use codex_toolkit::lsp::file_operations::apply_workspace_edit_operation;
use codex_toolkit::lsp::file_operations::workspace_apply_edit_response;
use codex_toolkit::lsp::file_operations::OperationPlan;
use codex_toolkit::lsp::file_operations::PathState;
use codex_toolkit::lsp::output::answer_text;
use codex_toolkit::lsp::text_edits::apply_lsp_text_edits;
use codex_toolkit::lsp::transport::change_handling;
use codex_toolkit::lsp::transport::read_body;
use codex_toolkit::lsp::transport::read_header_line;
use codex_toolkit::lsp::transport::respond_to_server_request;
use codex_toolkit::lsp::transport::watched_files_params;
use codex_toolkit::lsp::transport::write_message;
use codex_toolkit::lsp::transport::ChangeHandling;
use codex_toolkit::lsp::transport::HeaderStep;
use codex_toolkit::lsp::transport::LspWatchedFileChange;
use codex_toolkit::lsp::transport::LspWatchedFileChangeKind;
use codex_toolkit::lsp::transport::ServerRequest;
use codex_toolkit::lsp::workspace_edit::parse_workspace_edit_operations;
use codex_toolkit::lsp::documents::remap_workspace_path;
use codex_toolkit::lsp::uri::lsp_uri_to_path;
use codex_toolkit::lsp::uri::lsp_uri_to_shown_path;
use codex_toolkit::lsp::uri::uri_display_path;
use codex_toolkit::lsp::workspace_edit::summarize_workspace_edit;

fn json(source: &str) -> Json {
    read_body(source.as_bytes()).expect("valid JSON")
}

fn shown(value: &Json) -> serde_json::Value {
    serde_json::from_str(&answer_text(value)).expect("valid JSON")
}

const FULL: TextDocumentSyncSupport = TextDocumentSyncSupport {
    open_close: true,
    supports_did_change: true,
};

#[test]
fn server_supports_prepare_rename_only_when_provider_advertises_it() {
    assert!(server_supports_prepare_rename(&json(
        r#"{
            "capabilities": {
                "renameProvider": {
                    "prepareProvider": true
                }
            }
        }"#
    )));
    assert!(!server_supports_prepare_rename(&json(
        r#"{
            "capabilities": {
                "renameProvider": true
            }
        }"#
    )));
}

#[test]
fn documents_are_opened_changed_and_left_alone() {
    let mut cache = DocumentCache::new();
    let uri = "file:///w/a.rs";
    let plan = cache.plan_sync(FULL, uri, "rust", "one");
    assert_eq!(plan, SyncPlan::Open);
    let sent = sync_messages(plan, FULL, uri, "rust", "one");
    assert_eq!(sent.len(), 1);
    assert_eq!(sent[0].method, "textDocument/didOpen");
    assert_eq!(shown(&sent[0].params)["textDocument"]["version"], 1);
    cache.note_synced(plan, uri, "rust", "one", 5);
    let plan = cache.plan_sync(FULL, uri, "rust", "one");
    assert_eq!(plan, SyncPlan::Unchanged);
    assert!(sync_messages(plan, FULL, uri, "rust", "one").is_empty());
    let plan = cache.plan_sync(FULL, uri, "rust", "two");
    assert_eq!(plan, SyncPlan::Change { version: 2 });
    let sent = sync_messages(plan, FULL, uri, "rust", "two");
    assert_eq!(sent[0].method, "textDocument/didChange");
    cache.note_synced(plan, uri, "rust", "two", 6);
    let held = cache.documents.get(uri).expect("open document");
    assert_eq!((held.text.as_str(), held.version), ("two", 2));
    let none = TextDocumentSyncSupport { open_close: true, supports_did_change: false };
    assert_eq!(cache.plan_sync(none, uri, "rust", "three"), SyncPlan::Reopen);
}

#[test]
fn the_least_used_documents_are_closed() {
    let mut cache = DocumentCache::new();
    for (name, at) in [("file:///a", 3), ("file:///b", 1), ("file:///c", 2)] {
        cache.note_synced(SyncPlan::Open, name, "rust", "", at);
    }
    assert_eq!(cache.documents_to_evict(2), vec!["file:///b"]);
    let closed = cache.close_document(FULL, "file:///b").expect("notification");
    assert_eq!(closed.method, "textDocument/didClose");
    assert_eq!(cache.documents.len(), 2);
    assert!(cache.close_document(FULL, "file:///b").is_none());
}

#[test]
fn servers_say_how_documents_are_synchronised() {
    let none = text_document_sync_support(&json(r#"{"capabilities":{"textDocumentSync":0}}"#));
    assert!(!none.supports_did_change);
    let full = text_document_sync_support(&json(
        r#"{"capabilities":{"textDocumentSync":{"openClose":false,"change":1}}}"#,
    ));
    assert!(!full.open_close && full.supports_did_change);
    assert_eq!(text_document_sync_support(&json("{}")), FULL);
}

#[test]
fn workspace_apply_edit_updates_disk_and_open_document_cache() {
    let uri = "file:///w/main.ts";
    let mut cache = DocumentCache::new();
    cache.note_synced(SyncPlan::Open, uri, "typescript", "const answer = 1;\n", 1);
    cache.diagnostics.insert(uri, json(r#"[{ "message": "stale" }]"#));
    let edit = json(&format!(
        r#"{{"changes":{{"{uri}":[{{"range":{{"start":{{"line":0,"character":15}},"end":{{"line":0,"character":16}}}},"newText":"2"}}]}}}}"#
    ));

    let operations = parse_workspace_edit_operations(&edit).expect("operations");
    assert_eq!(operations.len(), 1);
    let plan = apply_workspace_edit_operation(&operations[0], PathState::File, PathState::Missing)
        .expect("plan");
    assert!(matches!(plan, OperationPlan::EditText { .. }));
    let edits = json(
        r#"[{"range":{"start":{"line":0,"character":15},"end":{"line":0,"character":16}},"newText":"2"}]"#,
    );
    let written = apply_lsp_text_edits("const answer = 1;\n", edits.as_array().expect("edits"))
        .expect("apply edits");
    assert_eq!(written, "const answer = 2;\n");
    cache.note_written(uri, &written, 2);
    let held = cache.documents.get(uri).expect("open document retained");
    assert_eq!(held.text, "const answer = 2;\n");
    assert_eq!(held.version, 2);
    assert!(!cache.diagnostics.contains(uri));
}

#[test]
fn workspace_apply_edit_supports_create_then_text_edit_operations() {
    let uri = "file:///w/nested/main.ts";
    let edit = json(&format!(
        r#"{{"documentChanges":[{{"kind":"create","uri":"{uri}"}},{{"textDocument":{{"uri":"{uri}"}},"edits":[{{"range":{{"start":{{"line":0,"character":0}},"end":{{"line":0,"character":0}}}},"newText":"export const value = 1;\n"}}]}}]}}"#
    ));
    let operations = parse_workspace_edit_operations(&edit).expect("operations");
    match apply_workspace_edit_operation(&operations[0], PathState::Missing, PathState::Missing) {
        Ok(OperationPlan::CreateFile { path, .. }) => assert_eq!(path, "/w/nested/main.ts"),
        _ => panic!("a file should be created"),
    }
    assert!(matches!(
        apply_workspace_edit_operation(&operations[1], PathState::File, PathState::Missing),
        Ok(OperationPlan::EditText { .. })
    ));
    assert!(
        apply_workspace_edit_operation(&operations[0], PathState::File, PathState::Missing)
            .is_err()
    );
}

#[test]
fn workspace_apply_edit_supports_rename_and_delete_resource_operations() {
    let old_uri = "file:///w/src/main.ts";
    let new_uri = "file:///w/renamed/app.ts";
    let mut cache = DocumentCache::new();
    cache.note_synced(SyncPlan::Open, old_uri, "typescript", "export const value = 1;\n", 1);
    cache.diagnostics.insert(old_uri, json(r#"[{ "message": "stale" }]"#));

    let edit = json(&format!(
        r#"{{"documentChanges":[{{"kind":"rename","oldUri":"{old_uri}","newUri":"{new_uri}"}},{{"kind":"delete","uri":"{new_uri}"}}]}}"#
    ));
    let operations = parse_workspace_edit_operations(&edit).expect("operations");
    match apply_workspace_edit_operation(&operations[0], PathState::File, PathState::Missing) {
        Ok(OperationPlan::Move { old_path, new_path, is_dir, .. }) => {
            assert_eq!(old_path, "/w/src/main.ts");
            assert_eq!(new_path, "/w/renamed/app.ts");
            cache
                .remap_cached_workspace_paths(&old_path, &new_path, is_dir)
                .expect("remap");
        }
        _ => panic!("the file should be moved"),
    }
    assert!(cache.documents.contains(new_uri));
    assert!(!cache.documents.contains(old_uri));
    assert!(!cache.diagnostics.contains(old_uri));

    match apply_workspace_edit_operation(&operations[1], PathState::File, PathState::Missing) {
        Ok(OperationPlan::Delete { path, is_dir, .. }) => {
            cache.drop_cached_workspace_paths(&path, is_dir);
        }
        _ => panic!("the file should be deleted"),
    }
    assert!(!cache.documents.contains(new_uri));
}

#[test]
fn servers_learn_whether_their_edit_was_applied() {
    assert_eq!(
        shown(&workspace_apply_edit_response(true, None))["applied"],
        true
    );
    let failed = shown(&workspace_apply_edit_response(true, Some("broken")));
    assert_eq!(failed["applied"], false);
    assert_eq!(failed["failureReason"], "broken");
}

#[test]
fn messages_are_framed_and_read_back() {
    let sent = write_message(&json(r#"{"id":1}"#));
    assert_eq!(sent, "Content-Length: 8\r\n\r\n{\"id\":1}");
    let length = match read_header_line(None, Some("Content-Length: 8\r\n")) {
        HeaderStep::More(Some(n)) => n,
        other => panic!("unexpected {other:?}"),
    };
    assert!(matches!(read_header_line(Some(length), Some("\r\n")), HeaderStep::Body(8)));
    assert!(matches!(read_header_line(None, None), HeaderStep::Closed));
    assert!(matches!(read_header_line(None, Some("\r\n")), HeaderStep::Failed(_)));
    assert!(matches!(read_header_line(Some(3), None), HeaderStep::Failed(_)));
    assert!(matches!(
        read_header_line(None, Some("content-length: x\r\n")),
        HeaderStep::Failed(_)
    ));
    assert_eq!(read_body(b"{\"id\":1}").map(|v| shown(&v)["id"].clone()), Ok(serde_json::Value::from(1)));
}

#[test]
fn servers_are_answered() {
    let settings = json(r#"{"a":{"b":1}}"#);
    let asked = json(
        r#"{"id":3,"method":"workspace/configuration","params":{"items":[{"section":"a.b"}]}}"#,
    );
    match respond_to_server_request(&asked, &settings, "/w", false) {
        Ok(ServerRequest::Reply(result)) => assert_eq!(shown(&result)[0], 1),
        _ => panic!("a reply is expected"),
    }
    let edit = json(r#"{"id":4,"method":"workspace/applyEdit","params":{}}"#);
    assert!(matches!(
        respond_to_server_request(&edit, &settings, "/w", false),
        Ok(ServerRequest::ApplyEdit)
    ));
}

#[test]
fn changed_files_are_told_to_servers() {
    let changes = vec![
        LspWatchedFileChange {
            path: "/w/a.rs".to_string(),
            kind: LspWatchedFileChangeKind::Changed,
        },
        LspWatchedFileChange {
            path: "/other/b.rs".to_string(),
            kind: LspWatchedFileChangeKind::Deleted,
        },
    ];
    let params = watched_files_params(&changes, "/w").expect("params").expect("changes");
    let params = shown(&params);
    assert_eq!(params["changes"].as_array().map(Vec::len), Some(1));
    assert_eq!(params["changes"][0]["uri"], "file:///w/a.rs");
    assert_eq!(params["changes"][0]["type"], 2);
    assert_eq!(change_handling(&changes[0], "/w"), ChangeHandling::Refresh);
    assert_eq!(change_handling(&changes[1], "/w"), ChangeHandling::Ignore);
    assert_eq!(change_handling(&changes[1], "/other"), ChangeHandling::Close);
    assert!(watched_files_params(&changes[1..], "/w").expect("params").is_none());
}

#[test]
fn the_longest_unused_documents_are_closed_first() {
    let mut cache = DocumentCache::new();
    for (name, at) in [("file:///a", 3), ("file:///b", 1), ("file:///c", 2), ("file:///d", 9)] {
        cache.note_synced(SyncPlan::Open, name, "rust", "", at);
    }
    assert_eq!(
        cache.documents_to_evict(1),
        vec!["file:///b", "file:///c", "file:///a"]
    );
    assert_eq!(cache.documents_to_evict(4), Vec::<String>::new());
}

#[test]
fn moved_paths_come_back() {
    for (path, old, new) in [
        ("/w/src/a.rs", "/w/src", "/v"),
        ("/w//src/./a.rs/", "/w/src/", "/v/"),
        ("/w/src", "/w/src", "/v"),
        ("/a", "/", "b"),
        ("./a/b", ".", ""),
        ("a/b", "a", "../c"),
        ("a/b", "", "/v"),
        ("", "", "v"),
        ("/a", "", ""),
        ("./a", "", ""),
    ] {
        let there = remap_workspace_path(path, old, new, true).expect("moved");
        let back = remap_workspace_path(&there, new, old, true).expect("moved back");
        assert_eq!(std::path::Path::new(&back), std::path::Path::new(path));
    }
    assert_eq!(
        remap_workspace_path("/w/a", "/v", "/u", true),
        Err("failed to remap workspace path /w/a from /v".to_string())
    );
    assert_eq!(remap_workspace_path("/w/a", "/w/a", "/u", false).as_deref(), Ok("/u"));
}

#[test]
fn a_move_without_a_uri_is_broken_off() {
    let mut cache = DocumentCache::new();
    for uri in ["file:///w/a.rs", "file:///v/b.rs"] {
        cache.note_synced(SyncPlan::Open, uri, "rust", "", 1);
        cache.diagnostics.insert(uri, json("[]"));
    }
    assert!(cache.remap_cached_workspace_paths("/w", "nowhere", true).is_err());
    assert!(!cache.documents.contains("file:///w/a.rs"));
    assert!(cache.documents.contains("file:///v/b.rs"));
    assert!(cache.diagnostics.contains("file:///w/a.rs"));
    assert!(cache.diagnostics.contains("file:///v/b.rs"));
}

#[test]
fn paths_that_are_no_text_are_shown_and_left_alone() {
    let uri = "file:///w/a%FF";
    assert_eq!(
        lsp_uri_to_path(uri),
        Err("failed to convert file uri to path: file:///w/a%FF".to_string())
    );
    assert_eq!(lsp_uri_to_shown_path(uri).as_deref(), Ok("/w/a\u{FFFD}"));
    assert_eq!(uri_display_path(uri).as_deref(), Some("/w/a\u{FFFD}"));
    assert_eq!(lsp_uri_to_path("file:///w/%C3%A9").as_deref(), Ok("/w/é"));
    assert_eq!(lsp_uri_to_shown_path("/w/b").as_deref(), Ok("/w/b"));
    assert!(lsp_uri_to_shown_path("untitled:x").is_err());

    let edit = json(&format!(
        r#"{{"changes":{{"{uri}":[]}},"documentChanges":[{{"kind":"delete","uri":"{uri}"}}]}}"#
    ));
    let preview = shown(&summarize_workspace_edit(&edit, 9).expect("preview"));
    assert_eq!(preview["operations"][0]["path"], "/w/a\u{FFFD}");
    assert_eq!(preview["operations"][1]["path"], "/w/a\u{FFFD}");
    for operation in parse_workspace_edit_operations(&edit).expect("operations") {
        assert!(
            apply_workspace_edit_operation(&operation, PathState::File, PathState::Missing)
                .is_err()
        );
    }
}

#[test]
fn a_document_that_is_opened_again_need_not_be_closed() {
    let sent = sync_messages(SyncPlan::Reopen, FULL, "file:///a", "rust", "x");
    let told: Vec<(&str, bool)> =
        sent.iter().map(|n| (n.method.as_str(), n.must_arrive)).collect();
    assert_eq!(
        told,
        vec![("textDocument/didClose", false), ("textDocument/didOpen", true)]
    );
    let mut cache = DocumentCache::new();
    cache.note_synced(SyncPlan::Open, "file:///a", "rust", "", 1);
    assert!(cache.close_document(FULL, "file:///a").expect("notification").must_arrive);
}

#[test]
fn bodies_are_bytes() {
    assert!(read_body(b"{\"a\":\"\xFF\"}").is_err());
    assert_eq!(shown(&read_body("\"é\"".as_bytes()).expect("text")), "é");
}
