use codex_toolkit::apply_patch::ApplyMode;
use codex_toolkit::apply_patch::ApplyOutcome;
use codex_toolkit::apply_patch::ApplyPatchRequest;
use codex_toolkit::apply_patch::ApplyPatchRuntime;
use codex_toolkit::apply_patch::ApprovalStep;
use codex_toolkit::apply_patch::AskForApproval;
use codex_toolkit::apply_patch::RejectConfig;
use codex_toolkit::edit::EditOperation;
use codex_toolkit::errors::FunctionCallError;
use codex_toolkit::file_change::check_patch;
use codex_toolkit::file_change::file_paths_for_action;
use codex_toolkit::file_change::render_rewrite_patch;
use codex_toolkit::file_change::watched_file_changes_for_action;
use codex_toolkit::file_change::write_permissions_for_paths;
use codex_toolkit::file_change::EditFileHandler;
use codex_toolkit::file_change::FileState;
use codex_toolkit::file_change::MoveTarget;
use codex_toolkit::file_change::PatchChange;
use codex_toolkit::file_change::PatchChangeKind;
use codex_toolkit::file_change::PatchVerdict;
use codex_toolkit::file_change::WriteFileHandler;
use codex_toolkit::lsp::transport::LspWatchedFileChangeKind;

fn moved() -> Vec<PatchChange> {
    vec![PatchChange {
        path: Some("/w/old/name.txt".to_string()),
        kind: PatchChangeKind::Update {
            target: MoveTarget::To("/w/renamed/dir/name.txt".to_string()),
        },
    }]
}

fn request() -> ApplyPatchRequest {
    ApplyPatchRequest {
        cwd: "/w".to_string(),
        patch: "*** Begin Patch".to_string(),
        file_paths: vec!["/w/a".to_string()],
        timeout_ms: Some(9),
        codex_exe: None,
    }
}

#[test]
fn approval_keys_include_move_destination() {
    let keys = file_paths_for_action(&moved());
    assert_eq!(keys.len(), 2);
    assert_eq!(keys[1], "/w/renamed/dir/name.txt");
}

#[test]
fn watched_file_changes_map_move_to_delete_and_create() {
    let watched_changes = watched_file_changes_for_action(&moved());
    assert_eq!(watched_changes.len(), 2);
    assert_eq!(watched_changes[0].kind, LspWatchedFileChangeKind::Deleted);
    assert_eq!(watched_changes[1].kind, LspWatchedFileChangeKind::Created);
}

#[test]
fn changes_without_a_path_are_left_out() {
    let changes = vec![
        PatchChange {
            path: None,
            kind: PatchChangeKind::Add,
        },
        PatchChange {
            path: Some("/w/b".to_string()),
            kind: PatchChangeKind::Update {
                target: MoveTarget::Stays,
            },
        },
        PatchChange {
            path: Some("/w/a".to_string()),
            kind: PatchChangeKind::Delete,
        },
    ];
    assert_eq!(file_paths_for_action(&changes), vec!["/w/b", "/w/a"]);
    let told = watched_file_changes_for_action(&changes);
    assert_eq!(told.len(), 2);
    assert!(told.iter().any(|c| c.kind == LspWatchedFileChangeKind::Changed));
    assert!(told.iter().any(|c| c.kind == LspWatchedFileChangeKind::Deleted));
}

#[test]
fn permissions_are_asked_for_folders() {
    assert_eq!(
        write_permissions_for_paths(&[
            "/w/b/x".to_string(),
            "/w/a/y".to_string(),
            "/w/b/z".to_string()
        ]),
        Some(vec!["/w/a".to_string(), "/w/b".to_string()])
    );
    assert_eq!(write_permissions_for_paths(&[]), None);
}

#[test]
fn files_are_rewritten_as_patches() {
    assert_eq!(
        render_rewrite_patch("a.txt", Some("one\ntwo\n"), "three\n"),
        "*** Begin Patch\n*** Update File: a.txt\n@@\n-one\n-two\n+three\n*** End Patch"
    );
    assert_eq!(
        render_rewrite_patch("a.txt", None, "x"),
        "*** Begin Patch\n*** Add File: a.txt\n+x\n*** End Patch"
    );
}

#[test]
fn patches_are_checked() {
    assert_eq!(check_patch(&PatchVerdict::Body), Ok(()));
    for bad in [
        PatchVerdict::CorrectnessError("x".to_string()),
        PatchVerdict::ShellParseError("x".to_string()),
        PatchVerdict::NotApplyPatch,
    ] {
        assert!(check_patch(&bad).is_err());
    }
}

#[test]
fn writing_plans_a_patch() {
    assert_eq!(WriteFileHandler::check_payload(true), Ok(()));
    assert!(WriteFileHandler::check_payload(false).is_err());
    assert_eq!(
        WriteFileHandler::plan("a", &FileState::Missing, "x\n"),
        Err(FunctionCallError::RespondToModel(
            "file_path must be an absolute path".to_string()
        ))
    );
    assert_eq!(
        WriteFileHandler::plan("/a", &FileState::Missing, "x\n"),
        Ok("*** Begin Patch\n*** Add File: /a\n+x\n*** End Patch".to_string())
    );
    for bad in [
        FileState::Directory,
        FileState::Hidden("no".to_string()),
        FileState::Unreadable("no".to_string()),
        FileState::Text("x\n".to_string()),
    ] {
        assert!(WriteFileHandler::plan("/a", &bad, "x\n").is_err());
    }
}

#[test]
fn editing_plans_a_patch() {
    let edits = vec![EditOperation {
        old_text: "one".to_string(),
        new_text: "two".to_string(),
        replace_all: false,
    }];
    assert_eq!(EditFileHandler::check_payload(true), Ok(()));
    assert!(EditFileHandler::check_payload(false).is_err());
    assert_eq!(
        EditFileHandler::plan("/a", &edits, &FileState::Text("one\n".to_string()), &[None]),
        Ok("*** Begin Patch\n*** Update File: /a\n@@\n-one\n+two\n*** End Patch".to_string())
    );
    for bad in [
        FileState::Missing,
        FileState::Directory,
        FileState::Hidden("no".to_string()),
        FileState::Unreadable("no".to_string()),
    ] {
        assert!(EditFileHandler::plan("/a", &edits, &bad, &[None]).is_err());
    }
    assert!(matches!(
        EditFileHandler::plan("/a", &[], &FileState::Text("one\n".to_string()), &[]),
        Err(FunctionCallError::RespondToModel(_))
    ));
}

#[test]
fn wants_no_sandbox_approval_reject_respects_sandbox_flag() {
    let runtime = ApplyPatchRuntime::new();
    assert!(runtime.wants_no_sandbox_approval(AskForApproval::OnRequest));
    assert!(
        !runtime.wants_no_sandbox_approval(AskForApproval::Reject(RejectConfig {
            sandbox_approval: true,
            rules: false,
            mcp_elicitations: false,
        }))
    );
    assert!(
        runtime.wants_no_sandbox_approval(AskForApproval::Reject(RejectConfig {
            sandbox_approval: false,
            rules: false,
            mcp_elicitations: false,
        }))
    );
    assert!(!runtime.wants_no_sandbox_approval(AskForApproval::Never));
    assert!(runtime.wants_no_sandbox_approval(AskForApproval::OnFailure));
    assert!(runtime.wants_no_sandbox_approval(AskForApproval::UnlessTrusted));
}

#[test]
fn patches_are_applied_here_or_by_a_command() {
    let runtime = ApplyPatchRuntime::new();
    assert!(runtime.escalate_on_failure());
    assert_eq!(runtime.apply_mode(true), ApplyMode::Sandboxed);
    assert_eq!(runtime.apply_mode(false), ApplyMode::InProcess);
    assert_eq!(runtime.approval_keys(&request()), vec!["/w/a"]);
    match runtime.start_approval(&request(), Some("again")) {
        ApprovalStep::AskAgain { reason } => assert_eq!(reason, "again"),
        other => panic!("unexpected {other:?}"),
    }
    match runtime.start_approval(&request(), None) {
        ApprovalStep::AskOnce { keys } => assert_eq!(keys, vec!["/w/a"]),
        other => panic!("unexpected {other:?}"),
    }
    let spec = ApplyPatchRuntime::build_command_spec(
        &request(),
        "--from-file",
        "/tmp/manifest",
        Ok("/bin/codex"),
    )
    .unwrap_or_else(|err| panic!("{err}"));
    assert_eq!(spec.args, vec!["--from-file", "/tmp/manifest"]);
    assert_eq!(spec.env.len(), 0);
    assert_eq!(spec.program, "/bin/codex");
    assert_eq!(spec.timeout_ms, Some(9));
    let lost = ApplyPatchRuntime::build_command_spec(&request(), "--f", "/m", Err("lost"));
    assert_eq!(
        lost.err().as_deref(),
        Some("failed to determine codex exe: lost")
    );
    let mut own = request();
    own.codex_exe = Some("/opt/codex".to_string());
    let spec = ApplyPatchRuntime::build_command_spec(&own, "--f", "/m", Err("lost"))
        .unwrap_or_else(|err| panic!("{err}"));
    assert_eq!(spec.program, "/opt/codex");
}

#[test]
fn outcomes_of_patches_become_output() {
    let done = ApplyPatchRuntime::in_process_output(
        &ApplyOutcome::Applied {
            stdout: "A large.txt".to_string(),
        },
        5,
    );
    assert_eq!(done.exit_code, 0);
    assert!(done.stderr.is_empty());
    assert!(done.stdout.contains("large.txt"));
    let failed = ApplyPatchRuntime::in_process_output(
        &ApplyOutcome::Failed {
            error: "bad".to_string(),
            stderr: "worse".to_string(),
        },
        5,
    );
    assert_eq!(failed.exit_code, 1);
    assert_eq!(failed.duration, 5);
    assert!(failed.stdout.is_empty());
    assert_eq!(ApplyPatchRuntime::failed_output(1, "m").stderr, "m\n");
    assert_eq!(ApplyPatchRuntime::failed_output(1, "m\n").aggregated_output, "m\n");
}
