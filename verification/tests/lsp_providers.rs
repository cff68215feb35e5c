use codex_toolkit::lsp::output::answer_text;
use codex_toolkit::lsp::providers::builtin_lsp_providers;
use codex_toolkit::lsp::providers::cargo_bin_dirs;
use codex_toolkit::lsp::providers::find_workspace_root;
use codex_toolkit::lsp::providers::is_rust_analyzer_proxy;
use codex_toolkit::lsp::providers::list_provider_status;
use codex_toolkit::lsp::providers::load_provider_registry;
use codex_toolkit::lsp::providers::path_ancestors;
use codex_toolkit::lsp::providers::probe_provider_status;
use codex_toolkit::lsp::providers::provider_registry_base;
use codex_toolkit::lsp::providers::providers_payload;
use codex_toolkit::lsp::providers::resolve_provider;
use codex_toolkit::lsp::providers::workspace_marker_paths;
use codex_toolkit::lsp::providers::LspProvider;
use codex_toolkit::lsp::providers::LspProviderPlugin;
use codex_toolkit::lsp::providers::ProviderFacts;
use codex_toolkit::lsp::providers::StartOutcome;

fn java() -> LspProviderPlugin {
    LspProviderPlugin {
        id: "java".to_string(),
        aliases: vec!["java".to_string()],
        file_extensions: vec!["java".to_string()],
        workspace_markers: vec!["pom.xml".to_string(), "build.gradle".to_string()],
        command: "jdtls".to_string(),
        args: vec!["-data".to_string(), ".codex-java-workspace".to_string()],
        language_id: Some("java".to_string()),
        extension_language_ids: Vec::new(),
        command_env_var: None,
        args_env_var: None,
    }
}

fn registry() -> Vec<LspProvider> {
    let mut providers = builtin_lsp_providers();
    providers.push(LspProvider::from_plugin(java(), "/home/plugins/java.json").expect("plugin"));
    load_provider_registry(providers)
}

fn facts() -> ProviderFacts {
    ProviderFacts {
        command_variable: None,
        command_path: Some("/usr/bin/server".to_string()),
        start: StartOutcome::Started,
    }
}

#[test]
fn detects_rust_analyzer_rustup_proxy_from_cargo_bin() {
    let command = "/home/alice/.cargo/bin/rust-analyzer";
    let cargo_bin = "/home/alice/.cargo/bin".to_string();

    assert!(is_rust_analyzer_proxy(command, &[cargo_bin]));
}

#[test]
fn ignores_non_rust_analyzer_commands_in_cargo_bin() {
    let command = "/home/alice/.cargo/bin/gopls";
    let cargo_bin = "/home/alice/.cargo/bin".to_string();

    assert!(!is_rust_analyzer_proxy(command, &[cargo_bin]));
}

#[test]
fn find_workspace_root_prefers_language_markers() {
    let providers = registry();
    let rust = resolve_provider(Some("rust"), None, &providers).expect("rust provider");
    let nested = "/tmp/workspace/src/nested";
    let mut marked: Vec<bool> = Vec::new();
    for dir in path_ancestors(nested) {
        let markers = workspace_marker_paths(&dir, &providers[rust]);
        marked.push(markers.contains(&"/tmp/workspace/Cargo.toml".to_string()));
    }
    assert_eq!(find_workspace_root(nested, &marked), "/tmp/workspace");
    assert_eq!(find_workspace_root(nested, &[]), nested);
}

#[test]
fn registry_loads_external_provider_plugins() {
    let providers = registry();
    assert!(providers.iter().any(|provider| provider.id == "java"));
    let java = providers.iter().find(|p| p.id == "java").expect("java provider");
    assert!(java.supports_path("/w/Main.java"));
    assert_eq!(java.language_id_for_path("/w/Main.java"), "java");
}

#[test]
fn providers_action_lists_builtin_and_plugin_entries() {
    let providers = registry();
    let all: Vec<ProviderFacts> = providers.iter().map(|_| facts()).collect();
    let payload = providers_payload(&probe_provider_status(&providers, &all), 20);
    let payload: serde_json::Value =
        serde_json::from_str(&answer_text(&payload)).expect("valid JSON");
    let listed = payload["providers"].as_array().expect("providers should be an array");
    assert!(listed.iter().any(|provider| provider["id"] == "python"));
    assert!(listed.iter().any(|provider| provider["id"] == "java"));
    let short = providers_payload(&list_provider_status(&providers, &all), 1);
    let short: serde_json::Value = serde_json::from_str(&answer_text(&short)).expect("valid JSON");
    assert_eq!(short["providers"].as_array().map(Vec::len), Some(1));
}

#[test]
fn providers_action_uses_request_path_for_workspace_plugins() {
    assert_eq!(
        provider_registry_base("/tmp/other-cwd", Some("/tmp/workspace"), true),
        Ok("/tmp/workspace".to_string())
    );
    assert_eq!(
        provider_registry_base("/tmp/other-cwd", Some("/tmp/workspace/a.java"), false),
        Ok("/tmp/workspace".to_string())
    );
    assert_eq!(
        provider_registry_base("/tmp/other-cwd", None, false),
        Ok("/tmp/other-cwd".to_string())
    );
}

#[test]
fn providers_are_chosen_by_language_or_file() {
    let providers = registry();
    let by_file = resolve_provider(None, Some("/w/src/main.rs"), &providers).expect("provider");
    assert_eq!(providers[by_file].id, "rust");
    let by_language = resolve_provider(Some("Java"), Some("/w/main.rs"), &providers);
    assert_eq!(by_language.map(|i| providers[i].id.clone()), Ok("java".to_string()));
    assert!(resolve_provider(Some("cobol"), None, &providers).is_err());
    assert!(resolve_provider(None, Some("/w/notes.txt"), &providers).is_err());
}

#[test]
fn the_environment_replaces_command_and_arguments() {
    let providers = registry();
    let java = providers.iter().find(|p| p.id == "java").expect("java provider");
    let config = java
        .resolve_server_config(Some("/opt/jdtls"), Some("--flag 'two words'"))
        .expect("config");
    assert_eq!(config.command, "/opt/jdtls");
    assert_eq!(config.args, vec!["--flag", "two words"]);
    let plain = java.resolve_server_config(None, Some("'open")).expect("config");
    assert_eq!(plain.command, "jdtls");
    assert_eq!(plain.args, vec!["-data", ".codex-java-workspace"]);
}

#[test]
fn statuses_tell_what_came_of_starting() {
    let providers = registry();
    let mut none = facts();
    none.command_path = None;
    none.start = StartOutcome::NotTried;
    let mut failed = facts();
    failed.start = StartOutcome::Failed("no luck".to_string());
    let listed = probe_provider_status(&providers[..2], &[none, failed]);
    assert!(!listed[0].command_available);
    assert!(listed[1].command_available);
    assert!(listed[1].error.as_deref().unwrap_or("").contains("no luck"));
}

#[test]
fn cargo_directories_come_from_the_environment() {
    assert_eq!(
        cargo_bin_dirs(Some("/c"), None, Some("/home/a")),
        vec!["/c/bin", "/home/a/.cargo/bin"]
    );
    assert_eq!(cargo_bin_dirs(None, None, None), Vec::<String>::new());
}
