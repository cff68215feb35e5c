use codex_toolkit::modes::ModeKind;
use codex_toolkit::text_map::TextMap;
use codex_toolkit::tool_policy::app_tool_policy_from_apps_config;
use codex_toolkit::tool_policy::runtime_codex_apps_policy_from_apps_config;
use codex_toolkit::tool_policy::runtime_tool_policy;
use codex_toolkit::tool_policy::AppConfig;
use codex_toolkit::tool_policy::AppToolApproval;
use codex_toolkit::tool_policy::AppToolConfig;
use codex_toolkit::tool_policy::AppToolPolicy;
use codex_toolkit::tool_policy::AppsConfig;
use codex_toolkit::tool_policy::AppsDefaultConfig;
use codex_toolkit::tool_policy::CodexAppToolPolicyInput;
use codex_toolkit::tool_policy::InputSwitches;
use codex_toolkit::tool_policy::ModePermissions;
use codex_toolkit::tool_policy::RuntimeCodexAppsPolicyContext;
use codex_toolkit::tool_policy::ToolHints;

fn input<'a>(
    connector_id: Option<&'a str>,
    tool_name: &'a str,
    tool_title: Option<&'a str>,
) -> CodexAppToolPolicyInput<'a> {
    CodexAppToolPolicyInput {
        connector_id,
        tool_name,
        tool_title,
        annotations: None,
    }
}

fn app(enabled: bool, approval: Option<AppToolApproval>) -> AppConfig {
    AppConfig {
        enabled,
        destructive_enabled: None,
        open_world_enabled: None,
        default_tools_approval_mode: approval,
        default_tools_enabled: None,
        tools: None,
    }
}

fn config(name: &str, app: AppConfig) -> AppsConfig {
    let mut apps = TextMap::new();
    apps.insert(name, app);
    AppsConfig {
        default: None,
        apps,
    }
}

#[test]
fn runtime_codex_apps_policy_defaults_when_unconfigured() {
    assert_eq!(
        runtime_codex_apps_policy_from_apps_config(None),
        RuntimeCodexAppsPolicyContext {
            apps_configured: false,
            default_app_enabled: true,
            default_destructive_enabled: true,
            default_open_world_enabled: true,
        }
    );
}

#[test]
fn runtime_codex_apps_policy_uses_configured_defaults() {
    let apps_config = AppsConfig {
        default: Some(AppsDefaultConfig {
            enabled: false,
            destructive_enabled: false,
            open_world_enabled: true,
        }),
        apps: TextMap::new(),
    };

    assert_eq!(
        runtime_codex_apps_policy_from_apps_config(Some(&apps_config)),
        RuntimeCodexAppsPolicyContext {
            apps_configured: true,
            default_app_enabled: false,
            default_destructive_enabled: false,
            default_open_world_enabled: true,
        }
    );
}

#[test]
fn app_tool_policy_honors_disabled_app_and_approval_override() {
    let apps_config = config("calendar", app(false, Some(AppToolApproval::Prompt)));

    assert_eq!(
        app_tool_policy_from_apps_config(
            Some(&apps_config),
            &input(Some("calendar"), "create_event", None),
        ),
        AppToolPolicy {
            enabled: false,
            approval: AppToolApproval::Prompt,
        }
    );
}

#[test]
fn tools_without_configuration_are_enabled() {
    assert_eq!(
        app_tool_policy_from_apps_config(None, &input(None, "anything", None)),
        AppToolPolicy::default()
    );
    assert_eq!(
        AppToolPolicy::default(),
        AppToolPolicy {
            enabled: true,
            approval: AppToolApproval::Auto,
        }
    );
}

#[test]
fn tools_are_found_by_name_and_then_by_title() {
    let mut calendar = app(true, Some(AppToolApproval::Prompt));
    let mut tools = TextMap::new();
    tools.insert(
        "Create event",
        AppToolConfig {
            enabled: Some(false),
            approval_mode: Some(AppToolApproval::Approve),
        },
    );
    calendar.tools = Some(tools);
    let apps_config = config("calendar", calendar);
    assert_eq!(
        app_tool_policy_from_apps_config(
            Some(&apps_config),
            &input(Some("calendar"), "create_event", Some("Create event")),
        ),
        AppToolPolicy {
            enabled: false,
            approval: AppToolApproval::Approve,
        }
    );
    assert_eq!(
        app_tool_policy_from_apps_config(
            Some(&apps_config),
            &input(Some("calendar"), "list_events", None),
        ),
        AppToolPolicy {
            enabled: true,
            approval: AppToolApproval::Prompt,
        }
    );
}

#[test]
fn hints_count_where_nothing_is_configured() {
    let mut calendar = app(true, None);
    calendar.destructive_enabled = Some(false);
    let apps_config = config("calendar", calendar);
    let mut asked = input(Some("calendar"), "delete_event", None);
    assert!(app_tool_policy_from_apps_config(Some(&apps_config), &asked).enabled);
    asked.annotations = Some(ToolHints {
        destructive_hint: Some(true),
        open_world_hint: None,
    });
    assert!(!app_tool_policy_from_apps_config(Some(&apps_config), &asked).enabled);
}

#[test]
fn the_runtime_policy_follows_the_mode() {
    let permissions = ModePermissions {
        allows_repo_mutation: false,
        update_plan_available: true,
    };
    let switches = InputSwitches {
        request_user_input: true,
        default_mode_request_user_input: false,
    };
    let plan = runtime_tool_policy(None, ModeKind::Plan, permissions, switches);
    assert!(plan.collaboration.request_user_input_available);
    assert!(plan.collaboration.streams_proposed_plan);
    assert!(!plan.collaboration.allows_repo_mutation);
    let default = runtime_tool_policy(None, ModeKind::Default, permissions, switches);
    assert!(!default.collaboration.request_user_input_available);
    assert!(!default.collaboration.requires_proposed_plan_block);
    assert!(!default.codex_apps.apps_configured);
}

#[test]
fn configured_tools_are_not_judged_by_hints() {
    let mut calendar = app(true, None);
    calendar.destructive_enabled = Some(false);
    let mut tools = TextMap::new();
    tools.insert(
        "delete_event",
        AppToolConfig {
            enabled: Some(true),
            approval_mode: None,
        },
    );
    calendar.tools = Some(tools);
    let apps_config = config("calendar", calendar);
    let mut asked = input(Some("calendar"), "delete_event", None);
    asked.annotations = Some(ToolHints {
        destructive_hint: Some(true),
        open_world_hint: Some(true),
    });
    assert!(app_tool_policy_from_apps_config(Some(&apps_config), &asked).enabled);
}
