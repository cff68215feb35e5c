use codex_toolkit::debug_config::layers::ConfigLayer;
use codex_toolkit::debug_config::layers::ConfigLayerSource;
use codex_toolkit::debug_config::lines::LineStyle;
use codex_toolkit::debug_config::lines::StyledLine;
use codex_toolkit::debug_config::requirements::render_debug_config_lines;
use codex_toolkit::debug_config::requirements::ConfigRequirements;
use codex_toolkit::debug_config::requirements::NetworkConstraints;
use codex_toolkit::debug_config::requirements::ResidencyRequirement;
use codex_toolkit::debug_config::requirements::SandboxModeRequirement;
use codex_toolkit::debug_config::requirements::WebSearchModeRequirement;
use codex_toolkit::debug_config::toml_node::TomlNode;
use codex_toolkit::debug_config::turn_context::new_debug_config_output;
use codex_toolkit::debug_config::turn_context::new_debug_runtime_output;
use codex_toolkit::debug_config::turn_context::render_turn_context_snapshot_lines;
use codex_toolkit::debug_config::turn_context::session_all_proxy_url;
use codex_toolkit::debug_config::turn_context::SessionNetworkProxyRuntime;
use codex_toolkit::debug_config::turn_context::TurnContextSnapshot;
use codex_toolkit::debug_config::turn_context::UserInputPolicySnapshot;
use codex_toolkit::instructions::InstructionAudience;
use codex_toolkit::instructions::InstructionPriority;
use codex_toolkit::instructions::InstructionSection;
use codex_toolkit::instructions::InstructionSource;
use codex_toolkit::instructions::ResolvedInstructionLayers;
use codex_toolkit::modes::ModeKind;

fn empty_toml_table() -> TomlNode {
    TomlNode::Table(Vec::new())
}

fn layer(source: ConfigLayerSource, config: TomlNode) -> ConfigLayer {
    ConfigLayer {
        source,
        config,
        raw_toml: None,
        disabled_reason: None,
    }
}

fn no_requirements() -> ConfigRequirements {
    ConfigRequirements {
        allowed_approval_policies: None,
        approval_policy_source: None,
        allowed_sandbox_modes: None,
        sandbox_policy_source: None,
        allowed_web_search_modes: None,
        web_search_mode_source: None,
        mcp_servers: None,
        mcp_servers_source: None,
        rules_configured: false,
        exec_policy_source: None,
        enforce_residency: None,
        enforce_residency_source: None,
        network: None,
    }
}

fn render_to_text(lines: &[StyledLine]) -> String {
    let texts: Vec<&str> = lines.iter().map(|line| line.text.as_str()).collect();
    texts.join("\n")
}

#[test]
fn debug_config_output_lists_all_layers_including_disabled() {
    let mut project = layer(
        ConfigLayerSource::Project {
            dot_codex_folder: "/repo/.codex".to_string(),
        },
        empty_toml_table(),
    );
    project.disabled_reason = Some("project is untrusted".to_string());
    let layers = vec![
        layer(
            ConfigLayerSource::System {
                file: "/etc/codex/config.toml".to_string(),
            },
            empty_toml_table(),
        ),
        project,
    ];

    let rendered = render_to_text(&render_debug_config_lines(&layers, &no_requirements()));
    assert!(rendered.contains("(enabled)"));
    assert!(rendered.contains("(disabled)"));
    assert!(rendered.contains("reason: project is untrusted"));
    assert!(rendered.contains("Requirements:"));
    assert!(rendered.contains("  <none>"));
    assert!(rendered.contains("  2. project (/repo/.codex/config.toml) (disabled)"));
}

#[test]
fn debug_config_output_lists_requirement_sources() {
    let requirements_file = "/etc/codex/requirements.toml";
    let cloud = Some("cloud requirements".to_string());
    let requirements = ConfigRequirements {
        allowed_approval_policies: Some(vec!["on-request".to_string()]),
        approval_policy_source: cloud.clone(),
        allowed_sandbox_modes: Some(vec![SandboxModeRequirement::ReadOnly]),
        sandbox_policy_source: Some(requirements_file.to_string()),
        allowed_web_search_modes: Some(vec![WebSearchModeRequirement::Cached]),
        web_search_mode_source: cloud.clone(),
        mcp_servers: Some(vec!["docs".to_string()]),
        mcp_servers_source: Some("MDM managed_config.toml (legacy)".to_string()),
        rules_configured: false,
        exec_policy_source: None,
        enforce_residency: Some(ResidencyRequirement::Us),
        enforce_residency_source: cloud,
        network: Some((
            NetworkConstraints {
                enabled: Some(true),
                http_port: None,
                socks_port: None,
                allow_upstream_proxy: None,
                dangerously_allow_non_loopback_proxy: None,
                dangerously_allow_all_unix_sockets: None,
                allowed_domains: Some(vec!["example.com".to_string()]),
                managed_allowed_domains_only: None,
                denied_domains: None,
                allow_unix_sockets: None,
                allow_local_binding: None,
            },
            "cloud requirements".to_string(),
        )),
    };
    let layers = vec![layer(
        ConfigLayerSource::User {
            file: "/home/alice/.codex/config.toml".to_string(),
        },
        empty_toml_table(),
    )];

    let rendered = render_to_text(&render_debug_config_lines(&layers, &requirements));
    assert!(
        rendered.contains("allowed_approval_policies: on-request (source: cloud requirements)")
    );
    assert!(rendered.contains(
        format!("allowed_sandbox_modes: read-only (source: {requirements_file})").as_str()
    ));
    assert!(
        rendered.contains("allowed_web_search_modes: cached, disabled (source: cloud requirements)")
    );
    assert!(rendered.contains("mcp_servers: docs (source: MDM managed_config.toml (legacy))"));
    assert!(rendered.contains("enforce_residency: us (source: cloud requirements)"));
    assert!(rendered.contains(
        "experimental_network: enabled=true, allowed_domains=[example.com] (source: cloud requirements)"
    ));
    assert!(!rendered.contains("  - rules:"));
}

#[test]
fn debug_config_output_lists_session_flag_key_value_pairs() {
    let session_flags = TomlNode::Table(vec![
        (
            "sandbox_workspace_write".to_string(),
            TomlNode::Table(vec![
                ("network_access".to_string(), TomlNode::Boolean(true)),
                (
                    "writable_roots".to_string(),
                    TomlNode::Array(vec![TomlNode::Text("/tmp".to_string())]),
                ),
            ]),
        ),
        ("model".to_string(), TomlNode::Text("gpt-5".to_string())),
    ]);
    let layers = vec![layer(ConfigLayerSource::SessionFlags, session_flags)];

    let rendered = render_to_text(&render_debug_config_lines(&layers, &no_requirements()));
    assert!(rendered.contains("session-flags (enabled)"));
    assert!(rendered.contains("     - model = \"gpt-5\""));
    assert!(rendered.contains("     - sandbox_workspace_write.network_access = true"));
    assert!(rendered.contains("sandbox_workspace_write.writable_roots"));
    assert!(rendered.contains("/tmp"));
    let model = rendered.find("- model").expect("model");
    let sandbox = rendered.find("- sandbox_workspace_write").expect("sandbox");
    assert!(model < sandbox);
}

#[test]
fn debug_config_output_shows_legacy_mdm_layer_value() {
    let raw_mdm_toml = r#"
# managed by MDM
model = "managed_model"
approval_policy = "never"
"#;
    let mut managed = layer(
        ConfigLayerSource::LegacyManagedConfigTomlFromMdm,
        TomlNode::Table(vec![
            (
                "model".to_string(),
                TomlNode::Text("managed_model".to_string()),
            ),
            (
                "approval_policy".to_string(),
                TomlNode::Text("never".to_string()),
            ),
        ]),
    );
    managed.raw_toml = Some(raw_mdm_toml.to_string());

    let rendered = render_to_text(&render_debug_config_lines(&[managed], &no_requirements()));
    assert!(rendered.contains("legacy managed_config.toml (MDM) (enabled)"));
    assert!(rendered.contains("MDM value:"));
    assert!(rendered.contains("# managed by MDM"));
    assert!(rendered.contains("model = \"managed_model\""));
    assert!(rendered.contains("approval_policy = \"never\""));
}

#[test]
fn debug_config_output_normalizes_empty_web_search_mode_list() {
    let mut requirements = no_requirements();
    requirements.allowed_web_search_modes = Some(Vec::new());
    requirements.web_search_mode_source = Some("cloud requirements".to_string());

    let rendered = render_to_text(&render_debug_config_lines(&[], &requirements));
    assert!(rendered.contains("allowed_web_search_modes: disabled (source: cloud requirements)"));
}

#[test]
fn session_all_proxy_url_uses_socks_when_enabled() {
    assert_eq!(
        session_all_proxy_url("127.0.0.1:3128", "127.0.0.1:8081", true),
        "socks5h://127.0.0.1:8081".to_string()
    );
}

#[test]
fn session_all_proxy_url_uses_http_when_socks_disabled() {
    assert_eq!(
        session_all_proxy_url("127.0.0.1:3128", "127.0.0.1:8081", false),
        "http://127.0.0.1:3128".to_string()
    );
}

#[test]
fn debug_config_output_reads_latest_turn_context_instruction_snapshot() {
    let snapshot = TurnContextSnapshot {
        turn_id: Some("turn-1".to_string()),
        model: "gpt-5".to_string(),
        collaboration_mode: None,
        realtime_active: Some(false),
        tool_policy: Some(UserInputPolicySnapshot {
            tool_enabled: true,
            available: false,
            default_mode_enabled: false,
            allowed_modes: vec![ModeKind::Plan],
        }),
        user_instruction_sections: vec![InstructionSection::new(
            InstructionAudience::ContextualUser,
            InstructionPriority::Repo,
            InstructionSource::ProjectDoc,
            "repo instructions",
        )],
        resolved_instruction_layers: Some(ResolvedInstructionLayers {
            base_instructions: "base instructions".to_string(),
            sections: vec![InstructionSection::new(
                InstructionAudience::Developer,
                InstructionPriority::Developer,
                InstructionSource::DeveloperOverride,
                "developer override",
            )],
        }),
    };

    let rendered = render_to_text(&render_turn_context_snapshot_lines(
        Some("/tmp/rollout"),
        Some(&snapshot),
    ));
    assert!(rendered.contains("Latest persisted turn context:"));
    assert!(rendered.contains("turn_id: turn-1"));
    assert!(rendered.contains("model: gpt-5"));
    assert!(rendered.contains("tool_policy.request_user_input:"));
    assert!(rendered.contains("tool_enabled: true"));
    assert!(rendered.contains("available: false"));
    assert!(rendered.contains("allowed_modes: Plan"));
    assert!(rendered.contains("user_instruction_sections: 1"));
    assert!(rendered.contains("audience=contextual_user priority=repo source=project_doc"));
    assert!(rendered.contains("repo instructions"));
    assert!(rendered.contains("base_instructions:"));
    assert!(rendered.contains("base instructions"));
    assert!(rendered.contains("developer override"));
}

#[test]
fn a_missing_snapshot_is_told() {
    let lines = render_turn_context_snapshot_lines(Some("/tmp/rollout"), None);
    assert_eq!(lines[3].text, "  - snapshot: <unavailable>");
    assert_eq!(lines[3].style, LineStyle::Dim);
    assert!(render_turn_context_snapshot_lines(None, None).is_empty());
}

#[test]
fn managed_values_are_written_out() {
    let managed = layer(
        ConfigLayerSource::Mdm {
            domain: "com.example".to_string(),
            key: "config".to_string(),
        },
        TomlNode::Array(vec![
            TomlNode::Integer(1),
            TomlNode::Numeral("2.5".to_string()),
            TomlNode::Moment("1979-05-27".to_string()),
        ]),
    );
    let rendered = render_to_text(&render_debug_config_lines(&[managed], &no_requirements()));
    assert!(rendered.contains("1. MDM (com.example:config) (enabled)"));
    assert!(rendered.contains("MDM value: [1, 2.5, 1979-05-27]"));
}

#[test]
fn the_proxy_is_told_last() {
    let proxy = SessionNetworkProxyRuntime {
        http_addr: "127.0.0.1:1".to_string(),
        socks_addr: "127.0.0.1:2".to_string(),
    };
    let lines =
        new_debug_config_output(&[], &no_requirements(), None, None, Some(&proxy), true);
    let rendered = render_to_text(&lines);
    assert!(rendered.starts_with("/debug-config\n\nConfig layer stack"));
    assert!(rendered.ends_with(
        "    - HTTP_PROXY  = http://127.0.0.1:1\n    - ALL_PROXY   = socks5h://127.0.0.1:2"
    ));
    assert_eq!(lines[0].style, LineStyle::Magenta);
    let shown = new_debug_runtime_output("a\r\nb\n");
    assert_eq!(render_to_text(&shown), "a\nb");
}
