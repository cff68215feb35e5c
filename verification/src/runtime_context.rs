//! A snapshot of what a session and its current turn run with.

use vstd::prelude::*;

use crate::instructions::InstructionSection;
use crate::instructions::ResolvedInstructionLayers;
use crate::json::Json;
use crate::modes::ModeKind;
use crate::tool_policy::RuntimeToolPolicyContext;

verus! {

/// Snapshot of the state of a session and its turn.
#[derive(Clone, Debug)]
pub struct RuntimeContext {
    pub session_id: String,
    pub turn_id: String,
    pub trace_id: Option<String>,
    pub session_source: String,
    pub cwd: String,
    pub current_date: Option<String>,
    pub timezone: Option<String>,
    pub app_server_client_name: Option<String>,
    pub agent: RuntimeAgentContext,
    pub model: RuntimeModelContext,
    pub instructions: RuntimeInstructionContext,
    pub collaboration: RuntimeCollaborationContext,
    pub execution: RuntimeExecutionContext,
    pub tools: RuntimeToolsContext,
}

/// How an agent is doing.
#[derive(Clone, Debug, PartialEq, Eq)]
pub enum AgentStatus {
    PendingInit,
    Running,
    Completed(Option<String>),
    Errored(String),
    Shutdown,
    NotFound,
}

/// An agent that the session has started.
#[derive(Clone, Debug)]
pub struct RuntimeSubagent {
    pub thread_id: String,
    pub agent_nickname: Option<String>,
    pub agent_role: Option<String>,
    pub status: AgentStatus,
}

/// The place of the session among agents.
#[derive(Clone, Debug)]
pub struct RuntimeAgentContext {
    pub agent_id: Option<String>,
    pub parent_session_id: Option<String>,
    pub depth: Option<i64>,
    pub agent_nickname: Option<String>,
    pub agent_role: Option<String>,
    pub subagents: Vec<RuntimeSubagent>,
}

/// The model and who provides it.
#[derive(Clone, Debug)]
pub struct RuntimeModelContext {
    pub slug: String,
    pub provider_name: String,
    pub provider_base_url: Option<String>,
    pub provider_wire_api: String,
    pub reasoning_effort: Option<String>,
    pub reasoning_summary: String,
    pub personality: Option<String>,
}

/// The instructions of the turn.
#[derive(Clone, Debug)]
pub struct RuntimeInstructionContext {
    pub developer_instructions: Option<String>,
    pub user_instructions: Option<String>,
    pub compact_prompt: Option<String>,
    pub user_instruction_sections: Vec<InstructionSection>,
    pub resolved_layers: Option<ResolvedInstructionLayers>,
}

/// The collaboration mode of the turn.
#[derive(Clone, Debug)]
pub struct RuntimeCollaborationContext {
    pub mode_kind: ModeKind,
    pub model: String,
    pub reasoning_effort: Option<String>,
    pub developer_instructions: Option<String>,
    pub realtime_active: bool,
}

/// What commands get of the environment.
#[derive(Clone, Debug)]
pub struct ShellEnvironmentPolicy {
    pub inherit: String,
    pub ignore_default_excludes: bool,
    pub exclude: Vec<String>,
    pub assigned: Vec<(String, String)>,
    pub include_only: Vec<String>,
    pub use_profile: bool,
}

/// The domains that may be reached, and those that may not.
#[derive(Clone, Debug)]
pub struct NetworkDomains {
    pub allowed_domains: Vec<String>,
    pub denied_domains: Vec<String>,
}

/// How long outputs may get.
#[derive(Clone, Copy, Debug, PartialEq, Eq, Structural)]
pub enum TruncationPolicy {
    Bytes(usize),
    Tokens(usize),
}

/// What commands run under.
#[derive(Clone, Debug)]
pub struct RuntimeExecutionContext {
    pub approval_policy: String,
    pub sandbox_policy: String,
    pub shell_environment_policy: ShellEnvironmentPolicy,
    pub windows_sandbox_level: String,
    pub network: Option<NetworkDomains>,
    pub final_output_json_schema: Option<Json>,
    pub truncation_policy: TruncationPolicy,
}

/// The tools that are there.
#[derive(Clone, Debug)]
pub struct ToolsConfig {
    pub shell_type: String,
    pub unified_exec_backend: String,
    pub allow_login_shell: bool,
    pub apply_patch_tool_type: String,
    pub web_search_mode: String,
    pub web_search_config_present: bool,
    pub web_search_tool_type: String,
    pub image_gen_tool: bool,
    pub search_tool: bool,
    pub request_permission_enabled: bool,
    pub request_permissions_tool_enabled: bool,
    pub code_mode_enabled: bool,
    pub js_repl_enabled: bool,
    pub js_repl_tools_only: bool,
    pub collab_tools: bool,
    pub artifact_tools: bool,
    pub request_user_input: bool,
    pub default_mode_request_user_input: bool,
    pub experimental_supported_tools: Vec<String>,
    pub agent_jobs_tools: bool,
    pub agent_jobs_worker_tools: bool,
    pub agent_roles: Vec<String>,
}

/// The tools that are there, and which may be used.
#[derive(Clone, Debug)]
pub struct RuntimeToolsContext {
    pub tool_policy: RuntimeToolPolicyContext,
    pub tools_config: ToolsConfig,
}

} // verus!
