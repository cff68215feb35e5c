use codex_toolkit::debug_runtime::format_list;
use codex_toolkit::debug_runtime::format_shell_environment_policy;
use codex_toolkit::debug_runtime::format_truncation_policy;
use codex_toolkit::debug_runtime::render_debug_runtime_text;
use codex_toolkit::debug_runtime::write_indented_text;
use codex_toolkit::instructions::InstructionAudience;
use codex_toolkit::instructions::InstructionPriority;
use codex_toolkit::instructions::InstructionSection;
use codex_toolkit::instructions::InstructionSource;
use codex_toolkit::modes::ModeKind;
use codex_toolkit::runtime_context::AgentStatus;
use codex_toolkit::runtime_context::NetworkDomains;
use codex_toolkit::runtime_context::RuntimeAgentContext;
use codex_toolkit::runtime_context::RuntimeCollaborationContext;
use codex_toolkit::runtime_context::RuntimeContext;
use codex_toolkit::runtime_context::RuntimeExecutionContext;
use codex_toolkit::runtime_context::RuntimeInstructionContext;
use codex_toolkit::runtime_context::RuntimeModelContext;
use codex_toolkit::runtime_context::RuntimeSubagent;
use codex_toolkit::runtime_context::RuntimeToolsContext;
use codex_toolkit::runtime_context::ShellEnvironmentPolicy;
use codex_toolkit::runtime_context::ToolsConfig;
use codex_toolkit::runtime_context::TruncationPolicy;
use codex_toolkit::tool_policy::runtime_tool_policy;
use codex_toolkit::tool_policy::InputSwitches;
use codex_toolkit::tool_policy::ModePermissions;
use codex_toolkit::json;

fn owned(s: &str) -> String {
    s.to_string()
}

fn environment() -> ShellEnvironmentPolicy {
    ShellEnvironmentPolicy {
        inherit: owned("all"),
        ignore_default_excludes: true,
        exclude: vec![],
        assigned: vec![(owned("A"), owned("1"))],
        include_only: vec![],
        use_profile: false,
    }
}

fn runtime() -> RuntimeContext {
    RuntimeContext {
        session_id: owned("session"),
        turn_id: owned("turn"),
        trace_id: None,
        session_source: owned("cli"),
        cwd: owned("/w"),
        current_date: Some(owned("2025-01-01")),
        timezone: None,
        app_server_client_name: None,
        agent: RuntimeAgentContext {
            agent_id: None,
            parent_session_id: None,
            depth: Some(-1),
            agent_nickname: None,
            agent_role: None,
            subagents: vec![RuntimeSubagent {
                thread_id: owned("thread"),
                agent_nickname: Some(owned("nick")),
                agent_role: None,
                status: AgentStatus::Running,
            }],
        },
        model: RuntimeModelContext {
            slug: owned("gpt-5"),
            provider_name: owned("openai"),
            provider_base_url: None,
            provider_wire_api: owned("responses"),
            reasoning_effort: Some(owned("high")),
            reasoning_summary: owned("auto"),
            personality: None,
        },
        instructions: RuntimeInstructionContext {
            developer_instructions: Some(owned("be brief")),
            user_instructions: None,
            compact_prompt: None,
            user_instruction_sections: vec![InstructionSection::new(
                InstructionAudience::ContextualUser,
                InstructionPriority::Repo,
                InstructionSource::ProjectDoc,
                "repo rules",
            )],
            resolved_layers: None,
        },
        collaboration: RuntimeCollaborationContext {
            mode_kind: ModeKind::Plan,
            model: owned("gpt-5"),
            reasoning_effort: None,
            developer_instructions: None,
            realtime_active: false,
        },
        execution: RuntimeExecutionContext {
            approval_policy: owned("on-request"),
            sandbox_policy: owned("read-only"),
            shell_environment_policy: environment(),
            windows_sandbox_level: owned("Disabled"),
            network: Some(NetworkDomains {
                allowed_domains: vec![owned("example.com")],
                denied_domains: vec![],
            }),
            final_output_json_schema: None,
            truncation_policy: TruncationPolicy::Bytes(10),
        },
        tools: RuntimeToolsContext {
            tool_policy: runtime_tool_policy(
                None,
                ModeKind::Plan,
                ModePermissions {
                    allows_repo_mutation: false,
                    update_plan_available: false,
                },
                InputSwitches {
                    request_user_input: true,
                    default_mode_request_user_input: false,
                },
            ),
            tools_config: ToolsConfig {
                shell_type: owned("Default"),
                unified_exec_backend: owned("Direct"),
                allow_login_shell: true,
                apply_patch_tool_type: owned("None"),
                web_search_mode: owned("None"),
                web_search_config_present: false,
                web_search_tool_type: owned("Text"),
                image_gen_tool: false,
                search_tool: false,
                request_permission_enabled: false,
                request_permissions_tool_enabled: false,
                code_mode_enabled: false,
                js_repl_enabled: false,
                js_repl_tools_only: false,
                collab_tools: false,
                artifact_tools: false,
                request_user_input: true,
                default_mode_request_user_input: false,
                experimental_supported_tools: vec![owned("one"), owned("two")],
                agent_jobs_tools: false,
                agent_jobs_worker_tools: false,
                agent_roles: vec![],
            },
        },
    }
}

#[test]
fn the_report_starts_with_the_session() {
    let report = render_debug_runtime_text(&runtime());
    assert!(report.starts_with(
        "/debug-runtime\n\nSession:\n  - session_id: session\n  - turn_id: turn\n  - trace_id: <none>\n"
    ), "{report}");
    assert!(report.contains("  - depth:\n    -1\n"));
    assert!(report.contains("  - current_date:\n    2025-01-01\n"));
    assert!(report.contains("repo rules"));
    assert!(report.contains("be brief"));
}

#[test]
fn pieces_of_the_report_are_formatted() {
    assert_eq!(format_list(&[owned("a"), owned("b")]), "a, b");
    assert_eq!(format_list(&[]), "<none>");
    let mut out = owned("x\n");
    write_indented_text(&mut out, "a\nb", "    ");
    assert_eq!(out, "x\n    a\n    b\n");
    assert!(format_truncation_policy(TruncationPolicy::Bytes(10)).contains("10"));
    assert!(format_truncation_policy(TruncationPolicy::Tokens(7)).contains("7"));
    assert!(format_shell_environment_policy(&environment()).contains("inherit=all"));
}

#[test]
fn the_report_measures_the_schema() {
    let mut runtime = runtime();
    runtime.execution.final_output_json_schema = Some(json::object().with("a", json::string("é")));
    let report = render_debug_runtime_text(&runtime);
    assert!(
        report.contains("  - final_output_json_schema: present (10 chars)\n"),
        "{report}"
    );
}
