use codex_toolkit::lsp::sessions::discards_session;
use codex_toolkit::lsp::sessions::env_var_truthy;
use codex_toolkit::lsp::sessions::Checkout;
use codex_toolkit::lsp::sessions::LspSessionManagerConfig;
use codex_toolkit::lsp::sessions::SessionTable;

#[test]
fn the_environment_configures_sessions() {
    assert!(env_var_truthy(Some(" Yes ")));
    assert!(env_var_truthy(Some("1")));
    assert!(!env_var_truthy(Some("0")));
    assert!(!env_var_truthy(None));
    let config = LspSessionManagerConfig::from_env(Some("on"), Some("5"), Some("-1"), None);
    assert!(!config.persistent_enabled);
    assert_eq!(config.idle_timeout, 5_000_000);
    assert_eq!(config.max_sessions, 2);
    assert_eq!(config.max_open_documents, 8);
    let plain = LspSessionManagerConfig::from_env(None, Some("0"), Some("7"), Some("3"));
    assert!(plain.persistent_enabled);
    assert_eq!(plain.idle_timeout, 60_000_000_000);
    assert_eq!((plain.max_sessions, plain.max_open_documents), (7, 3));
}

#[test]
fn sessions_are_started_reused_and_given_up() {
    let mut table = SessionTable::new();
    assert_eq!(
        table.checkout_session("rust", "/w", false, 10, 2),
        (Checkout::Start, vec![])
    );
    table.register("rust", "/w", 1, 10);
    assert_eq!(
        table.checkout_session("rust", "/w/", true, 11, 2),
        (Checkout::Reuse { session: 1 }, vec![])
    );
    assert_eq!(table.entries[0].active_requests, 2);
    table.finish_session_use("rust", "/w", 12);
    table.finish_session_use("rust", "/w", 13);
    assert_eq!(table.entries[0].active_requests, 0);
    assert_eq!(
        table.checkout_session("rust", "/w", false, 14, 2),
        (Checkout::Start, vec![1])
    );
    assert_eq!(table.discard_session("rust", "/w"), None);
}

#[test]
fn room_is_made_among_idle_sessions_only() {
    let mut table = SessionTable::new();
    table.register("rust", "/a", 1, 1);
    table.register("rust", "/b", 2, 2);
    assert_eq!(
        table.checkout_session("rust", "/c", false, 3, 2),
        (Checkout::Full, vec![])
    );
    table.finish_session_use("rust", "/b", 4);
    assert_eq!(
        table.checkout_session("rust", "/c", false, 5, 2),
        (Checkout::Start, vec![2])
    );
    assert_eq!(table.entries.len(), 1);
}

#[test]
fn idle_sessions_are_reaped() {
    let mut table = SessionTable::new();
    table.register("rust", "/a", 1, 0);
    table.register("rust", "/b", 2, 0);
    table.finish_session_use("rust", "/a", 100);
    assert_eq!(table.reap_idle_sessions(150, 60), Vec::<u64>::new());
    assert_eq!(table.touch_all(150), vec![1, 2]);
    assert_eq!(table.reap_idle_sessions(200, 60), Vec::<u64>::new());
    assert_eq!(table.reap_idle_sessions(210, 60), vec![1]);
    assert_eq!(table.discard_session("rust", "/b"), Some(2));
}

#[test]
fn broken_sessions_are_given_up() {
    assert!(discards_session(false, true, false, None));
    assert!(discards_session(true, false, false, None));
    assert!(!discards_session(true, true, true, None));
    assert!(discards_session(true, true, true, Some("line is required")));
    assert!(discards_session(true, true, false, Some("request timed out")));
    assert!(!discards_session(true, true, false, Some("line is required")));
}
