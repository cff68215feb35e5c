use codex_toolkit::file_watcher::events::classify_event;
use codex_toolkit::file_watcher::events::FileWatcherEvent;
use codex_toolkit::file_watcher::events::WatchEvent;
use codex_toolkit::file_watcher::events::WatchEventKind;
use codex_toolkit::file_watcher::events::WatchLoop;
use codex_toolkit::file_watcher::roots::roots_to_register;
use codex_toolkit::file_watcher::roots::watch_plan;
use codex_toolkit::file_watcher::roots::RootCounts;
use codex_toolkit::file_watcher::roots::WatchPlan;
use codex_toolkit::file_watcher::roots::WatchRegistrationEntry;
use codex_toolkit::file_watcher::roots::WatchState;
use codex_toolkit::file_watcher::roots::WatchedRootKind;
use codex_toolkit::file_watcher::throttle::ThrottledPaths;
use codex_toolkit::file_watcher::throttle::ThrottledWorkspaceChanges;
use codex_toolkit::file_watcher::throttle::WATCHER_THROTTLE_INTERVAL;
use codex_toolkit::lsp::transport::LspWatchedFileChange;
use codex_toolkit::lsp::transport::LspWatchedFileChangeKind;
use codex_toolkit::file_watcher::events::ClassifiedEvent;

fn path(name: &str) -> String {
    name.to_string()
}

fn watch_event(kind: WatchEventKind, paths: Vec<String>) -> WatchEvent {
    WatchEvent { kind, paths }
}

fn counts(roots: &[&str]) -> RootCounts {
    let mut counts = RootCounts::new();
    for root in roots {
        counts.register(root);
    }
    counts
}

fn change(path: &str, kind: LspWatchedFileChangeKind) -> LspWatchedFileChange {
    LspWatchedFileChange {
        path: path.to_string(),
        kind,
    }
}

#[test]
fn throttles_and_coalesces_within_interval() {
    let start = 5_000;
    let mut throttled = ThrottledPaths::new(start);

    throttled.add_paths(&[path("a")]);
    let first = throttled.take_ready(start).expect("first emit");
    assert_eq!(first, vec![path("a")]);

    throttled.add_paths(&[path("b"), path("c")]);
    assert_eq!(throttled.take_ready(start), None);

    let second = throttled
        .take_ready(start + WATCHER_THROTTLE_INTERVAL)
        .expect("coalesced emit");
    assert_eq!(second, vec![path("b"), path("c")]);
}

#[test]
fn flushes_pending_on_shutdown() {
    let start = 5_000;
    let mut throttled = ThrottledPaths::new(start);

    throttled.add_paths(&[path("a")]);
    let _ = throttled.take_ready(start).expect("first emit");

    throttled.add_paths(&[path("b")]);
    assert_eq!(throttled.take_ready(start), None);

    let flushed = throttled
        .take_pending(start)
        .expect("shutdown flush emits pending paths");
    assert_eq!(flushed, vec![path("b")]);
}

#[test]
fn held_paths_are_sorted_and_told_once() {
    let mut throttled = ThrottledPaths::new(0);
    throttled.add_paths(&[path("/b"), path("/a"), path("/b"), path("/a/c")]);
    throttled.add_paths(&[path("/a")]);
    assert_eq!(throttled.next_deadline(0), None);
    assert_eq!(
        throttled.take_ready(0),
        Some(vec![path("/a"), path("/a/c"), path("/b")])
    );
    assert_eq!(throttled.next_deadline(0), None);
    assert_eq!(throttled.take_pending(0), None);
    throttled.add_paths(&[path("/z")]);
    assert_eq!(throttled.next_deadline(1), Some(WATCHER_THROTTLE_INTERVAL));
}

#[test]
fn held_changes_keep_their_latest_kind() {
    let mut throttled = ThrottledWorkspaceChanges::new(0);
    throttled.add_changes(&[
        change("/b", LspWatchedFileChangeKind::Created),
        change("/a", LspWatchedFileChangeKind::Created),
    ]);
    throttled.add_changes(&[change("/b", LspWatchedFileChangeKind::Deleted)]);
    assert_eq!(
        throttled.take_ready(0),
        Some(vec![
            change("/a", LspWatchedFileChangeKind::Created),
            change("/b", LspWatchedFileChangeKind::Deleted),
        ])
    );
}

#[test]
fn classify_event_filters_to_skills_roots() {
    let state = WatchState {
        skills_root_ref_counts: counts(&["/tmp/skills"]),
        workspace_root_ref_counts: RootCounts::new(),
    };
    let event = watch_event(
        WatchEventKind::Create,
        vec![
            path("/tmp/skills/demo/SKILL.md"),
            path("/tmp/other/not-a-skill.txt"),
        ],
    );

    let classified = classify_event(&event, &state);
    assert_eq!(
        classified.skills_paths,
        vec![path("/tmp/skills/demo/SKILL.md")]
    );
    assert!(classified.workspace_changes.is_empty());
}

#[test]
fn classify_event_supports_multiple_roots_without_prefix_false_positives() {
    let state = WatchState {
        skills_root_ref_counts: counts(&["/tmp/skills", "/tmp/workspace/.codex/skills"]),
        workspace_root_ref_counts: RootCounts::new(),
    };
    let event = watch_event(
        WatchEventKind::Modify,
        vec![
            path("/tmp/skills/alpha/SKILL.md"),
            path("/tmp/skills-extra/not-under-skills.txt"),
            path("/tmp/workspace/.codex/skills/beta/SKILL.md"),
        ],
    );

    let classified = classify_event(&event, &state);
    assert_eq!(
        classified.skills_paths,
        vec![
            path("/tmp/skills/alpha/SKILL.md"),
            path("/tmp/workspace/.codex/skills/beta/SKILL.md")
        ]
    );
    assert!(classified.workspace_changes.is_empty());
}

#[test]
fn classify_event_ignores_non_mutating_event_kinds() {
    let state = WatchState {
        skills_root_ref_counts: counts(&["/tmp/skills"]),
        workspace_root_ref_counts: RootCounts::new(),
    };
    let demo = path("/tmp/skills/demo/SKILL.md");

    let access_event = watch_event(WatchEventKind::Access, vec![demo.clone()]);
    let access_classified = classify_event(&access_event, &state);
    assert!(access_classified.skills_paths.is_empty());
    assert!(access_classified.workspace_changes.is_empty());

    let any_event = watch_event(WatchEventKind::Any, vec![demo.clone()]);
    let any_classified = classify_event(&any_event, &state);
    assert!(any_classified.skills_paths.is_empty());
    assert!(any_classified.workspace_changes.is_empty());

    let other_event = watch_event(WatchEventKind::Other, vec![demo]);
    let other_classified = classify_event(&other_event, &state);
    assert!(other_classified.skills_paths.is_empty());
    assert!(other_classified.workspace_changes.is_empty());
}

#[test]
fn register_skills_root_dedupes_state_entries() {
    let mut state = WatchState::new();
    assert!(state.register_root("/tmp/skills", WatchedRootKind::Skills));
    assert!(!state.register_root("/tmp/skills", WatchedRootKind::Skills));
    assert!(state.register_root("/tmp/other-skills", WatchedRootKind::Skills));

    assert_eq!(state.skills_root_ref_counts.entries.len(), 2);
    assert_eq!(state.skills_root_ref_counts.get("/tmp/skills"), 2);
}

#[test]
fn watch_registration_drop_unregisters_roots() {
    let mut state = WatchState::new();
    state.register_root("/tmp/skills", WatchedRootKind::Skills);
    let entry = WatchRegistrationEntry {
        root: path("/tmp/skills"),
        kind: WatchedRootKind::Skills,
    };

    assert_eq!(state.unregister_roots(&[entry.clone()]), vec![path("/tmp/skills")]);

    assert_eq!(state.skills_root_ref_counts.entries.len(), 0);
    assert!(!state.unregister_root(&entry));
}

#[test]
fn roots_are_counted_for_each_kind() {
    let mut state = WatchState::new();
    assert!(state.register_root("/w", WatchedRootKind::Skills));
    state.register_root("/w", WatchedRootKind::Workspace);
    let skills = WatchRegistrationEntry {
        root: path("/w"),
        kind: WatchedRootKind::Skills,
    };
    let workspace = WatchRegistrationEntry {
        root: path("/w"),
        kind: WatchedRootKind::Workspace,
    };
    assert!(state.unregister_root(&skills));
    assert_eq!(state.workspace_root_ref_counts.get("/w"), 1);
    assert!(state.unregister_root(&workspace));
}

#[test]
fn roots_are_registered_once_each() {
    assert_eq!(
        roots_to_register(&[path("/b"), path("/a"), path("/b")]),
        vec![path("/a"), path("/b")]
    );
    assert_eq!(watch_plan(false, None, true), WatchPlan::Leave);
    assert_eq!(watch_plan(true, None, true), WatchPlan::Watch);
    assert_eq!(watch_plan(true, Some(true), true), WatchPlan::Leave);
    assert_eq!(watch_plan(true, Some(false), true), WatchPlan::Widen);
    assert_eq!(watch_plan(true, Some(false), false), WatchPlan::Leave);
}

#[test]
fn spawn_event_loop_flushes_pending_changes_on_shutdown() {
    let state = WatchState {
        skills_root_ref_counts: counts(&["/tmp/skills"]),
        workspace_root_ref_counts: RootCounts::new(),
    };
    let mut events = WatchLoop::new(0);

    let first = watch_event(WatchEventKind::Create, vec![path("/tmp/skills/a/SKILL.md")]);
    assert_eq!(
        events.on_event(&classify_event(&first, &state), 0),
        vec![FileWatcherEvent::SkillsChanged {
            paths: vec![path("/tmp/skills/a/SKILL.md")]
        }]
    );

    let second = watch_event(WatchEventKind::Remove, vec![path("/tmp/skills/b/SKILL.md")]);
    assert_eq!(events.on_event(&classify_event(&second, &state), 1), vec![]);
    assert_eq!(events.timer_deadline(1), WATCHER_THROTTLE_INTERVAL);
    assert_eq!(
        events.on_close(2),
        vec![FileWatcherEvent::SkillsChanged {
            paths: vec![path("/tmp/skills/b/SKILL.md")]
        }]
    );
}

#[test]
fn classify_event_emits_workspace_changes_for_workspace_roots() {
    let state = WatchState {
        skills_root_ref_counts: RootCounts::new(),
        workspace_root_ref_counts: counts(&["/tmp/workspace"]),
    };
    let event = watch_event(
        WatchEventKind::Create,
        vec![
            path("/tmp/workspace/src/main.rs"),
            path("/tmp/other/file.txt"),
        ],
    );

    let classified = classify_event(&event, &state);
    assert!(classified.skills_paths.is_empty());
    assert_eq!(
        classified.workspace_changes,
        vec![change(
            "/tmp/workspace/src/main.rs",
            LspWatchedFileChangeKind::Created
        )]
    );
}

#[test]
fn classify_event_maps_rename_to_delete_and_create_workspace_changes() {
    let state = WatchState {
        skills_root_ref_counts: RootCounts::new(),
        workspace_root_ref_counts: counts(&["/tmp/workspace"]),
    };
    let event = watch_event(
        WatchEventKind::Rename,
        vec![path("/tmp/workspace/old.rs"), path("/tmp/workspace/new.rs")],
    );

    let classified = classify_event(&event, &state);
    assert_eq!(
        classified.workspace_changes,
        vec![
            change("/tmp/workspace/old.rs", LspWatchedFileChangeKind::Deleted),
            change("/tmp/workspace/new.rs", LspWatchedFileChangeKind::Created),
        ]
    );
}

#[test]
fn what_is_told_starts_an_interval() {
    let event = |name: &str| ClassifiedEvent {
        skills_paths: vec![path(name)],
        workspace_changes: vec![],
    };
    let mut watching = WatchLoop::new(5);
    assert_eq!(watching.on_event(&event("/a"), 4), vec![]);
    assert_eq!(watching.skills.next_allowed_at, 5);
    assert_eq!(watching.on_timer(5).len(), 1);
    assert_eq!(watching.skills.next_allowed_at, 5 + WATCHER_THROTTLE_INTERVAL);
    assert_eq!(watching.workspace.next_allowed_at, 5);
    assert_eq!(watching.on_event(&event("/b"), 4 + WATCHER_THROTTLE_INTERVAL), vec![]);
    assert_eq!(watching.on_timer(4 + WATCHER_THROTTLE_INTERVAL), vec![]);
    assert_eq!(watching.on_event(&event("/c"), 5 + WATCHER_THROTTLE_INTERVAL).len(), 1);
    assert_eq!(watching.skills.next_allowed_at, 5 + 2 * WATCHER_THROTTLE_INTERVAL);
    assert_eq!(watching.on_close(9), vec![]);
    assert_eq!(watching.skills.next_allowed_at, 5 + 2 * WATCHER_THROTTLE_INTERVAL);
    assert_eq!(watching.on_event(&event("/d"), 10), vec![]);
    assert_eq!(watching.on_close(11).len(), 1);
    assert_eq!(watching.skills.next_allowed_at, 11 + WATCHER_THROTTLE_INTERVAL);
}

#[test]
fn giving_a_registration_up_undoes_it() {
    let mut state = WatchState::new();
    state.register_root("/a", WatchedRootKind::Skills);
    for root in ["/a", "/b"] {
        state.register_root(root, WatchedRootKind::Skills);
        let entry = WatchRegistrationEntry {
            root: path(root),
            kind: WatchedRootKind::Skills,
        };
        state.unregister_roots(&[entry]);
        assert_eq!(state.skills_root_ref_counts.entries, vec![(path("/a"), 1)]);
        assert!(state.workspace_root_ref_counts.entries.is_empty());
    }
}
