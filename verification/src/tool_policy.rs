//! Which tools may be used: those of connected apps, and those that depend on
//! the collaboration mode.

use vstd::prelude::*;

use crate::modes;
use crate::modes::ModeKind;
use crate::text;
use crate::text_map::TextMap;

verus! {

/// Whether the use of a tool has to be approved.
#[derive(Clone, Copy, Debug, PartialEq, Eq, Structural)]
pub enum AppToolApproval {
    Auto,
    Prompt,
    Approve,
}

/// Whether a tool may be used, and how that is approved.
#[derive(Clone, Copy, Debug, PartialEq, Eq, Structural)]
pub struct AppToolPolicy {
    pub enabled: bool,
    pub approval: AppToolApproval,
}

impl Default for AppToolPolicy {
    fn default() -> (p: Self)
        ensures
            p == (AppToolPolicy { enabled: true, approval: AppToolApproval::Auto }),
    {
        AppToolPolicy { enabled: true, approval: AppToolApproval::Auto }
    }
}

/// What a tool says about itself.
#[derive(Clone, Copy, Debug, PartialEq, Eq, Structural)]
pub struct ToolHints {
    pub destructive_hint: Option<bool>,
    pub open_world_hint: Option<bool>,
}

/// What is configured for all apps.
#[derive(Clone, Copy, Debug, PartialEq, Eq, Structural)]
pub struct AppsDefaultConfig {
    pub enabled: bool,
    pub destructive_enabled: bool,
    pub open_world_enabled: bool,
}

/// What is configured for a tool of an app.
#[derive(Clone, Copy, Debug, PartialEq, Eq, Structural)]
pub struct AppToolConfig {
    pub enabled: Option<bool>,
    pub approval_mode: Option<AppToolApproval>,
}

/// What is configured for an app.
pub struct AppConfig {
    pub enabled: bool,
    pub destructive_enabled: Option<bool>,
    pub open_world_enabled: Option<bool>,
    pub default_tools_approval_mode: Option<AppToolApproval>,
    pub default_tools_enabled: Option<bool>,
    pub tools: Option<TextMap<AppToolConfig>>,
}

/// What is configured for apps.
pub struct AppsConfig {
    pub default: Option<AppsDefaultConfig>,
    pub apps: TextMap<AppConfig>,
}

/// The tool that is asked about.
pub struct CodexAppToolPolicyInput<'a> {
    pub connector_id: Option<&'a str>,
    pub tool_name: &'a str,
    pub tool_title: Option<&'a str>,
    pub annotations: Option<ToolHints>,
}

// ---------------------------------------------------------------------------
// Apps.

/// What is configured for an app.
pub open spec fn app_of(config: AppsConfig, connector_id: Option<Seq<char>>) -> Option<AppConfig> {
    match connector_id {
        Some(id) => if config.apps@.contains_key(id) {
            Some(config.apps@[id])
        } else {
            None
        },
        None => None,
    }
}

/// What is configured for a tool: by its name or, where there is nothing under
/// that, by its title.
pub open spec fn tool_of(app: Option<AppConfig>, name: Seq<char>, title: Option<Seq<char>>) -> Option<
    AppToolConfig,
> {
    match app {
        Some(app) => match app.tools {
            Some(tools) => if tools@.contains_key(name) {
                Some(tools@[name])
            } else {
                match title {
                    Some(t) => if tools@.contains_key(t) {
                        Some(tools@[t])
                    } else {
                        None
                    },
                    None => None,
                }
            },
            None => None,
        },
        None => None,
    }
}

/// A value, or another where there is none.
pub open spec fn or_else<T>(value: Option<T>, other: T) -> T {
    match value {
        Some(v) => v,
        None => other,
    }
}

/// Whether an app may be used.
pub open spec fn app_enabled(config: AppsConfig, connector_id: Option<Seq<char>>) -> bool {
    match app_of(config, connector_id) {
        Some(app) => app.enabled,
        None => match config.default {
            Some(default) => default.enabled,
            None => true,
        },
    }
}

/// How the use of a tool is approved: as configured for the tool, or else for
/// the tools of its app.
pub open spec fn approval_of(tool: Option<AppToolConfig>, app: Option<AppConfig>) -> AppToolApproval {
    let for_app = match app {
        Some(app) => or_else(app.default_tools_approval_mode, AppToolApproval::Auto),
        None => AppToolApproval::Auto,
    };
    match tool {
        Some(tool) => or_else(tool.approval_mode, for_app),
        None => for_app,
    }
}

/// Whether destructive tools are let through: as configured for the app, or
/// else for all apps.
pub open spec fn destructive_allowed(config: AppsConfig, app: Option<AppConfig>) -> bool {
    let for_all = match config.default {
        Some(default) => default.destructive_enabled,
        None => true,
    };
    match app {
        Some(app) => or_else(app.destructive_enabled, for_all),
        None => for_all,
    }
}

/// Whether tools that reach the outside are let through: as configured for
/// the app, or else for all apps.
pub open spec fn open_world_allowed(config: AppsConfig, app: Option<AppConfig>) -> bool {
    let for_all = match config.default {
        Some(default) => default.open_world_enabled,
        None => true,
    };
    match app {
        Some(app) => or_else(app.open_world_enabled, for_all),
        None => for_all,
    }
}

/// Whether nothing in what a tool says about itself is against its use.
pub open spec fn hints_allowed(
    config: AppsConfig,
    app: Option<AppConfig>,
    hints: Option<ToolHints>,
) -> bool {
    let destructive = match hints {
        Some(h) => or_else(h.destructive_hint, false),
        None => false,
    };
    let open_world = match hints {
        Some(h) => or_else(h.open_world_hint, false),
        None => false,
    };
    (destructive ==> destructive_allowed(config, app)) && (open_world ==> open_world_allowed(
        config,
        app,
    ))
}

/// Whether a tool of an app that may be used may be used: as configured for the
/// tool, or else for the tools of its app, or else by what it says about
/// itself.
pub open spec fn tool_enabled(
    config: AppsConfig,
    app: Option<AppConfig>,
    tool: Option<AppToolConfig>,
    hints: Option<ToolHints>,
) -> bool {
    match tool {
        Some(t) if t.enabled is Some => t.enabled->Some_0,
        _ => match app {
            Some(a) if a.default_tools_enabled is Some => a.default_tools_enabled->Some_0,
            _ => hints_allowed(config, app, hints),
        },
    }
}

/// The policy for a tool.
pub open spec fn policy(
    config: AppsConfig,
    connector_id: Option<Seq<char>>,
    name: Seq<char>,
    title: Option<Seq<char>>,
    hints: Option<ToolHints>,
) -> AppToolPolicy {
    let app = app_of(config, connector_id);
    let tool = tool_of(app, name, title);
    AppToolPolicy {
        enabled: app_enabled(config, connector_id) && tool_enabled(config, app, tool, hints),
        approval: approval_of(tool, app),
    }
}

fn find_app<'a>(config: &'a AppsConfig, connector_id: Option<&str>) -> (r: Option<&'a AppConfig>)
    ensures
        match r {
            Some(app) => app_of(*config, text::opt_str(connector_id)) == Some(*app),
            None => app_of(*config, text::opt_str(connector_id)) is None,
        },
{
    match connector_id {
        Some(id) => config.apps.get(id),
        None => None,
    }
}

/// Whether an app may be used.
pub fn app_is_enabled(apps_config: &AppsConfig, connector_id: Option<&str>) -> (r: bool)
    ensures
        r == app_enabled(*apps_config, text::opt_str(connector_id)),
{
    match find_app(apps_config, connector_id) {
        Some(app) => app.enabled,
        None => match &apps_config.default {
            Some(default) => default.enabled,
            None => true,
        },
    }
}

fn find_tool<'a>(app: Option<&'a AppConfig>, name: &str, title: Option<&str>) -> (r: Option<
    &'a AppToolConfig,
>)
    ensures
        ({
            let told = tool_of(
                match app {
                    Some(a) => Some(*a),
                    None => None,
                },
                name@,
                text::opt_str(title),
            );
            match r {
                Some(tool) => told == Some(*tool),
                None => told is None,
            }
        }),
{
    match app {
        Some(app) => match &app.tools {
            Some(tools) => match tools.get(name) {
                Some(tool) => Some(tool),
                None => match title {
                    Some(t) => tools.get(t),
                    None => None,
                },
            },
            None => None,
        },
        None => None,
    }
}

/// Decides about the use of a tool.
pub fn app_tool_policy_from_apps_config(
    apps_config: Option<&AppsConfig>,
    input: &CodexAppToolPolicyInput<'_>,
) -> (p: AppToolPolicy)
    ensures
        p == match apps_config {
            Some(config) => policy(
                *config,
                text::opt_str(input.connector_id),
                input.tool_name@,
                text::opt_str(input.tool_title),
                input.annotations,
            ),
            None => AppToolPolicy { enabled: true, approval: AppToolApproval::Auto },
        },
{
    let config = match apps_config {
        Some(config) => config,
        None => {
            return AppToolPolicy { enabled: true, approval: AppToolApproval::Auto };
        },
    };
    let app = find_app(config, input.connector_id);
    let tool = find_tool(app, input.tool_name, input.tool_title);
    let for_app = match app {
        Some(app) => match app.default_tools_approval_mode {
            Some(mode) => mode,
            None => AppToolApproval::Auto,
        },
        None => AppToolApproval::Auto,
    };
    let approval = match tool {
        Some(tool) => match tool.approval_mode {
            Some(mode) => mode,
            None => for_app,
        },
        None => for_app,
    };
    if !app_is_enabled(config, input.connector_id) {
        return AppToolPolicy { enabled: false, approval };
    }
    if let Some(tool) = tool {
        if let Some(enabled) = tool.enabled {
            return AppToolPolicy { enabled, approval };
        }
    }
    if let Some(app) = app {
        if let Some(enabled) = app.default_tools_enabled {
            return AppToolPolicy { enabled, approval };
        }
    }
    let (all_destructive, all_open_world): (bool, bool) = match &config.default {
        Some(default) => (default.destructive_enabled, default.open_world_enabled),
        None => (true, true),
    };
    let destructive_enabled: bool = match app {
        Some(app) => match app.destructive_enabled {
            Some(enabled) => enabled,
            None => all_destructive,
        },
        None => all_destructive,
    };
    let open_world_enabled: bool = match app {
        Some(app) => match app.open_world_enabled {
            Some(enabled) => enabled,
            None => all_open_world,
        },
        None => all_open_world,
    };
    let (destructive_hint, open_world_hint): (bool, bool) = match &input.annotations {
        Some(hints) => (
            match hints.destructive_hint {
                Some(hint) => hint,
                None => false,
            },
            match hints.open_world_hint {
                Some(hint) => hint,
                None => false,
            },
        ),
        None => (false, false),
    };
    AppToolPolicy {
        enabled: (destructive_enabled || !destructive_hint) && (open_world_enabled
            || !open_world_hint),
        approval,
    }
}

// ---------------------------------------------------------------------------
// The policy of a session.

/// What the collaboration mode allows.
#[derive(Clone, Copy, Debug, PartialEq, Eq, Structural)]
pub struct RuntimeCollaborationToolPolicyContext {
    pub allows_repo_mutation: bool,
    pub update_plan_available: bool,
    pub request_user_input_available: bool,
    pub requires_proposed_plan_block: bool,
    pub streams_proposed_plan: bool,
}

/// What is configured for apps, where a tool says nothing else.
#[derive(Clone, Copy, Debug, PartialEq, Eq, Structural)]
pub struct RuntimeCodexAppsPolicyContext {
    pub apps_configured: bool,
    pub default_app_enabled: bool,
    pub default_destructive_enabled: bool,
    pub default_open_world_enabled: bool,
}

/// The policy of a session.
#[derive(Clone, Copy, Debug, PartialEq, Eq, Structural)]
pub struct RuntimeToolPolicyContext {
    pub collaboration: RuntimeCollaborationToolPolicyContext,
    pub codex_apps: RuntimeCodexAppsPolicyContext,
}

/// What the mode itself says about the repository and the plan.
#[derive(Clone, Copy, Debug, PartialEq, Eq, Structural)]
pub struct ModePermissions {
    pub allows_repo_mutation: bool,
    pub update_plan_available: bool,
}

/// The switches of the tools that ask for input.
#[derive(Clone, Copy, Debug, PartialEq, Eq, Structural)]
pub struct InputSwitches {
    pub request_user_input: bool,
    pub default_mode_request_user_input: bool,
}

impl RuntimeCollaborationToolPolicyContext {
    /// What a mode allows, given the switches of the tools.
    pub fn from_mode_and_tools(
        mode_kind: ModeKind,
        permissions: ModePermissions,
        switches: InputSwitches,
    ) -> (c: Self)
        ensures
            c.allows_repo_mutation == permissions.allows_repo_mutation,
            c.update_plan_available == permissions.update_plan_available,
            c.request_user_input_available == (switches.request_user_input && modes::may_ask(
                mode_kind,
                switches.default_mode_request_user_input,
            )),
            c.requires_proposed_plan_block == (mode_kind is Plan),
            c.streams_proposed_plan == (mode_kind is Plan),
    {
        RuntimeCollaborationToolPolicyContext {
            allows_repo_mutation: permissions.allows_repo_mutation,
            update_plan_available: permissions.update_plan_available,
            request_user_input_available: switches.request_user_input
                && modes::request_user_input_is_available(
                mode_kind,
                switches.default_mode_request_user_input,
            ),
            requires_proposed_plan_block: mode_kind.requires_proposed_plan_block(),
            streams_proposed_plan: mode_kind.streams_proposed_plan(),
        }
    }
}

/// What is configured for apps, where a tool says nothing else.
pub open spec fn apps_policy(config: Option<AppsConfig>) -> RuntimeCodexAppsPolicyContext {
    let defaults = match config {
        Some(config) => config.default,
        None => None,
    };
    RuntimeCodexAppsPolicyContext {
        apps_configured: config is Some,
        default_app_enabled: defaults is None || defaults->Some_0.enabled,
        default_destructive_enabled: defaults is None || defaults->Some_0.destructive_enabled,
        default_open_world_enabled: defaults is None || defaults->Some_0.open_world_enabled,
    }
}

/// What is configured for apps, where a tool says nothing else.
pub fn runtime_codex_apps_policy_from_apps_config(apps_config: Option<&AppsConfig>) -> (c:
    RuntimeCodexAppsPolicyContext)
    ensures
        c == apps_policy(
            match apps_config {
                Some(config) => Some(*config),
                None => None,
            },
        ),
{
    let configured: bool = apps_config.is_some();
    let (enabled, destructive, open_world): (bool, bool, bool) = match apps_config {
        Some(config) => match &config.default {
            Some(d) => (d.enabled, d.destructive_enabled, d.open_world_enabled),
            None => (true, true, true),
        },
        None => (true, true, true),
    };
    RuntimeCodexAppsPolicyContext {
        apps_configured: configured,
        default_app_enabled: enabled,
        default_destructive_enabled: destructive,
        default_open_world_enabled: open_world,
    }
}

/// The policy of a session.
pub fn runtime_tool_policy(
    apps_config: Option<&AppsConfig>,
    mode_kind: ModeKind,
    permissions: ModePermissions,
    switches: InputSwitches,
) -> (c: RuntimeToolPolicyContext)
    ensures
        c.codex_apps == apps_policy(
            match apps_config {
                Some(config) => Some(*config),
                None => None,
            },
        ),
        c.collaboration.allows_repo_mutation == permissions.allows_repo_mutation,
        c.collaboration.update_plan_available == permissions.update_plan_available,
        c.collaboration.request_user_input_available == (switches.request_user_input
            && modes::may_ask(mode_kind, switches.default_mode_request_user_input)),
        c.collaboration.requires_proposed_plan_block == (mode_kind is Plan),
        c.collaboration.streams_proposed_plan == (mode_kind is Plan),
{
    RuntimeToolPolicyContext {
        collaboration: RuntimeCollaborationToolPolicyContext::from_mode_and_tools(
            mode_kind,
            permissions,
            switches,
        ),
        codex_apps: runtime_codex_apps_policy_from_apps_config(apps_config),
    }
}

/// No tool of an app that is switched off may be used, whatever is configured
/// for the tool.
pub proof fn disabled_apps_have_no_tools(
    config: AppsConfig,
    connector_id: Option<Seq<char>>,
    name: Seq<char>,
    title: Option<Seq<char>>,
    hints: Option<ToolHints>,
)
    requires
        !app_enabled(config, connector_id),
    ensures
        !policy(config, connector_id, name, title, hints).enabled,
{
}

/// What is configured for a tool goes before what it says about itself.
pub proof fn configured_tools_ignore_hints(
    config: AppsConfig,
    connector_id: Option<Seq<char>>,
    name: Seq<char>,
    title: Option<Seq<char>>,
    hints: Option<ToolHints>,
    other_hints: Option<ToolHints>,
)
    requires
        tool_of(app_of(config, connector_id), name, title) matches Some(tool) && tool.enabled
            is Some,
    ensures
        policy(config, connector_id, name, title, hints) == policy(
            config,
            connector_id,
            name,
            title,
            other_hints,
        ),
{
}

// ---------------------------------------------------------------------------
// What decides about a tool.

/// The switch of an app decides where the app is configured, whatever holds for
/// all apps; the switch for all apps decides about the others, and without it
/// they may be used.
pub proof fn app_switches_go_before_the_default(
    config: AppsConfig,
    id: Seq<char>,
    name: Seq<char>,
    title: Option<Seq<char>>,
    hints: Option<ToolHints>,
)
    ensures
        config.apps@.contains_key(id) && !config.apps@[id].enabled ==> !policy(
            config,
            Some(id),
            name,
            title,
            hints,
        ).enabled,
        config.apps@.contains_key(id) ==> app_enabled(config, Some(id))
            == config.apps@[id].enabled,
        !config.apps@.contains_key(id) && config.default is Some ==> app_enabled(config, Some(id))
            == config.default->Some_0.enabled,
        !config.apps@.contains_key(id) && config.default is Some && !config.default->Some_0.enabled
            ==> !policy(config, Some(id), name, title, hints).enabled,
        !config.apps@.contains_key(id) && config.default is None ==> app_enabled(config, Some(id)),
        config.default is Some ==> app_enabled(config, None) == config.default->Some_0.enabled,
        config.default is None ==> app_enabled(config, None),
{
}

/// In an app that is switched on, the switch of a tool decides; without one,
/// the switch for the tools of the app. Neither asks what the tool says about
/// itself.
pub proof fn tool_switches_go_before_the_app(
    config: AppsConfig,
    id: Seq<char>,
    name: Seq<char>,
    title: Option<Seq<char>>,
    hints: Option<ToolHints>,
    tool: Option<AppToolConfig>,
)
    requires
        config.apps@.contains_key(id),
        config.apps@[id].enabled,
        ({
            let tools = config.apps@[id].tools;
            let under_name = tools is Some && tools->Some_0@.contains_key(name);
            let under_title = tools is Some && title is Some && tools->Some_0@.contains_key(
                title->Some_0,
            );
            match tool {
                Some(t) => (under_name && t == tools->Some_0@[name]) || (!under_name && under_title
                    && t == tools->Some_0@[title->Some_0]),
                None => !under_name && !under_title,
            }
        }),
    ensures
        tool is Some && tool->Some_0.enabled is Some ==> policy(
            config,
            Some(id),
            name,
            title,
            hints,
        ).enabled == tool->Some_0.enabled->Some_0,
        (tool is None || tool->Some_0.enabled is None)
            && config.apps@[id].default_tools_enabled is Some ==> policy(
            config,
            Some(id),
            name,
            title,
            hints,
        ).enabled == config.apps@[id].default_tools_enabled->Some_0,
        policy(config, Some(id), name, title, hints).approval == if tool is Some
            && tool->Some_0.approval_mode is Some {
            tool->Some_0.approval_mode->Some_0
        } else if config.apps@[id].default_tools_approval_mode is Some {
            config.apps@[id].default_tools_approval_mode->Some_0
        } else {
            AppToolApproval::Auto
        },
{
}

/// Where no switch speaks of a tool, one that says it destroys something needs
/// that this is let through, one that says it reaches the outside needs that
/// that is, and one that says neither may be used. What an app lets through goes
/// before what all apps do.
pub proof fn hints_decide_without_a_switch(
    config: AppsConfig,
    id: Option<Seq<char>>,
    name: Seq<char>,
    title: Option<Seq<char>>,
    hints: Option<ToolHints>,
    app: Option<AppConfig>,
)
    requires
        app_of(config, id) == app,
        app_enabled(config, id),
        tool_of(app, name, title) is None || tool_of(app, name, title)->Some_0.enabled is None,
        app is None || app->Some_0.default_tools_enabled is None,
    ensures
        ({
            let used = policy(config, id, name, title, hints).enabled;
            let destroys = hints is Some && hints->Some_0.destructive_hint == Some(true);
            let reaches = hints is Some && hints->Some_0.open_world_hint == Some(true);
            let app_destroys = if app is Some {
                app->Some_0.destructive_enabled
            } else {
                None
            };
            let app_reaches = if app is Some {
                app->Some_0.open_world_enabled
            } else {
                None
            };
            let all_destroy = config.default is None || config.default->Some_0.destructive_enabled;
            let all_reach = config.default is None || config.default->Some_0.open_world_enabled;
            &&& !destroys && !reaches ==> used
            &&& destroys && app_destroys == Some(false) ==> !used
            &&& destroys && app_destroys is None && !all_destroy ==> !used
            &&& reaches && app_reaches == Some(false) ==> !used
            &&& reaches && app_reaches is None && !all_reach ==> !used
            &&& (destroys ==> app_destroys == Some(true) || (app_destroys is None && all_destroy))
                && (reaches ==> app_reaches == Some(true) || (app_reaches is None && all_reach))
                ==> used
        }),
{
}

/// Nothing about the approval of a tool depends on whether it may be used, and a
/// tool of an app that is not configured is approved by default.
pub proof fn approval_is_apart_from_use(
    config: AppsConfig,
    id: Option<Seq<char>>,
    name: Seq<char>,
    title: Option<Seq<char>>,
    hints: Option<ToolHints>,
    other_hints: Option<ToolHints>,
)
    ensures
        policy(config, id, name, title, hints).approval == policy(
            config,
            id,
            name,
            title,
            other_hints,
        ).approval,
        id is None || !config.apps@.contains_key(id->Some_0) ==> policy(
            config,
            id,
            name,
            title,
            hints,
        ).approval == AppToolApproval::Auto,
{
}

/// What is told of all apps is what is configured for them, and everything is
/// let through where nothing is.
pub proof fn defaults_let_everything_through(config: AppsConfig)
    ensures
        apps_policy(None) == (RuntimeCodexAppsPolicyContext {
            apps_configured: false,
            default_app_enabled: true,
            default_destructive_enabled: true,
            default_open_world_enabled: true,
        }),
        config.default is None ==> apps_policy(Some(config)) == (RuntimeCodexAppsPolicyContext {
            apps_configured: true,
            default_app_enabled: true,
            default_destructive_enabled: true,
            default_open_world_enabled: true,
        }),
        config.default is Some ==> apps_policy(Some(config)) == (RuntimeCodexAppsPolicyContext {
            apps_configured: true,
            default_app_enabled: config.default->Some_0.enabled,
            default_destructive_enabled: config.default->Some_0.destructive_enabled,
            default_open_world_enabled: config.default->Some_0.open_world_enabled,
        }),
{
}

} // verus!
