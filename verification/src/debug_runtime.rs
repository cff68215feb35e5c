//! The report on what a session runs with.

use vstd::prelude::*;

use crate::instructions::InstructionAudience;
use crate::instructions::InstructionPriority;
use crate::instructions::InstructionSection;
use crate::instructions::InstructionSource;
use crate::instructions::ResolvedInstructionLayers;
use crate::json;
use crate::json_text;
use crate::modes::ModeKind;
use crate::runtime_context::AgentStatus;
use crate::runtime_context::RuntimeAgentContext;
use crate::runtime_context::RuntimeCollaborationContext;
use crate::runtime_context::RuntimeContext;
use crate::runtime_context::RuntimeExecutionContext;
use crate::runtime_context::RuntimeInstructionContext;
use crate::runtime_context::RuntimeModelContext;
use crate::runtime_context::RuntimeSubagent;
use crate::runtime_context::ShellEnvironmentPolicy;
use crate::runtime_context::ToolsConfig;
use crate::runtime_context::TruncationPolicy;
use crate::text;
use crate::tool_policy::RuntimeToolPolicyContext;

verus! {

// ---------------------------------------------------------------------------
// Rows.

/// The row of a key with its value.
pub open spec fn row(key: Seq<char>, value: Seq<char>) -> Seq<char> {
    "  - "@ + key + ": "@ + value + "\n"@
}

/// The row of a key that is on or off.
pub open spec fn flag(key: Seq<char>, value: bool) -> Seq<char> {
    row(key, text::bool_word(value))
}

/// Lines, each behind an indent.
pub open spec fn indented_lines(lines: Seq<Seq<char>>, indent: Seq<char>) -> Seq<char>
    decreases lines.len(),
{
    if lines.len() == 0 {
        Seq::empty()
    } else {
        indented_lines(lines.drop_last(), indent) + indent + lines.last() + "\n"@
    }
}

/// A text behind an indent, line by line.
pub open spec fn indented(s: Seq<char>, indent: Seq<char>) -> Seq<char> {
    if s.len() == 0 {
        indent + "<empty>\n"@
    } else {
        indented_lines(text::bare_lines(s), indent)
    }
}

/// The rows of a key whose value may be missing.
pub open spec fn optional(key: Seq<char>, value: Option<Seq<char>>) -> Seq<char> {
    match value {
        Some(s) => "  - "@ + key + ":\n"@ + indented(s, "    "@),
        None => row(key, "<none>"@),
    }
}

/// A list in one line.
pub open spec fn listed(values: Seq<Seq<char>>) -> Seq<char> {
    if values.len() == 0 {
        "<none>"@
    } else {
        text::joined(values, ", "@)
    }
}

/// Writes the row of a key with its value.
pub fn write_key_value(out: &mut String, key: &str, value: &str)
    ensures
        final(out)@ == old(out)@ + row(key@, value@),
{
    let ghost before = out@;
    out.append("  - ");
    out.append(key);
    out.append(": ");
    out.append(value);
    out.append("\n");
    proof {
        assert(out@ =~= before + row(key@, value@));
    }
}

fn write_flag(out: &mut String, key: &str, value: bool)
    ensures
        final(out)@ == old(out)@ + flag(key@, value),
{
    let word = text::render_bool(value);
    write_key_value(out, key, word.as_str());
}

/// Writes a text behind an indent, line by line.
pub fn write_indented_text(out: &mut String, s: &str, indent: &str)
    ensures
        final(out)@ == old(out)@ + indented(s@, indent@),
{
    let ghost before = out@;
    let chars = text::chars_of(s);
    if chars.len() == 0 {
        out.append(indent);
        out.append("<empty>\n");
        proof {
            assert(out@ =~= before + indented(s@, indent@));
        }
        return;
    }
    let lines = text::split_bare_lines(&chars);
    let ghost all = text::bare_lines(s@);
    let mut i: usize = 0;
    proof {
        assert(out@ =~= before + indented_lines(all.take(0), indent@));
    }
    while i < lines.len()
        invariant
            i <= lines@.len(),
            text::rows(lines@) == all,
            out@ == before + indented_lines(all.take(i as int), indent@),
        decreases lines@.len() - i,
    {
        let line = text::text_of(&lines[i]);
        out.append(indent);
        out.append(line.as_str());
        out.append("\n");
        proof {
            assert(all[i as int] == lines@[i as int]@);
            assert(all.take(i + 1).drop_last() =~= all.take(i as int));
            assert(all.take(i + 1).last() == all[i as int]);
            assert(out@ =~= before + indented_lines(all.take(i + 1), indent@));
        }
        i += 1;
    }
    proof {
        assert(all.len() == lines@.len());
        assert(all.take(i as int) =~= all);
    }
}

/// Writes the rows of a key whose value may be missing.
pub fn write_optional(out: &mut String, key: &str, value: Option<&str>)
    ensures
        final(out)@ == old(out)@ + optional(key@, text::opt_str(value)),
{
    let ghost before = out@;
    match value {
        Some(s) => {
            out.append("  - ");
            out.append(key);
            out.append(":\n");
            write_indented_text(out, s, "    ");
            proof {
                assert(out@ =~= before + optional(key@, Some(s@)));
            }
        },
        None => {
            write_key_value(out, key, "<none>");
        },
    }
}

/// Writes the rows of a key whose value may be missing.
pub fn write_optional_owned(out: &mut String, key: &str, value: &Option<String>)
    ensures
        final(out)@ == old(out)@ + optional(key@, text::opt_text(*value)),
{
    match value {
        Some(s) => write_optional(out, key, Some(s.as_str())),
        None => write_optional(out, key, None),
    }
}

/// Writes a list in one line.
pub fn format_list(values: &[String]) -> (out: String)
    ensures
        out@ == listed(text::texts(values@)),
{
    if values.len() == 0 {
        "<none>".to_string()
    } else {
        text::join_texts(values, ", ")
    }
}

// ---------------------------------------------------------------------------
// Words.

/// The word for an audience.
pub open spec fn audience_word(audience: InstructionAudience) -> Seq<char> {
    match audience {
        InstructionAudience::Developer => "developer"@,
        InstructionAudience::ContextualUser => "contextual-user"@,
    }
}

/// The word for an audience.
pub fn format_instruction_audience(audience: InstructionAudience) -> (word: &'static str)
    ensures
        word@ == audience_word(audience),
{
    match audience {
        InstructionAudience::Developer => "developer",
        InstructionAudience::ContextualUser => "contextual-user",
    }
}

/// The word for a priority.
pub open spec fn priority_word(priority: InstructionPriority) -> Seq<char> {
    match priority {
        InstructionPriority::System => "system"@,
        InstructionPriority::Developer => "developer"@,
        InstructionPriority::Mode => "mode"@,
        InstructionPriority::Repo => "repo"@,
        InstructionPriority::Skill => "skill"@,
        InstructionPriority::User => "user"@,
        InstructionPriority::Runtime => "runtime"@,
    }
}

/// The word for a priority.
pub fn format_instruction_priority(priority: InstructionPriority) -> (word: &'static str)
    ensures
        word@ == priority_word(priority),
{
    match priority {
        InstructionPriority::System => "system",
        InstructionPriority::Developer => "developer",
        InstructionPriority::Mode => "mode",
        InstructionPriority::Repo => "repo",
        InstructionPriority::Skill => "skill",
        InstructionPriority::User => "user",
        InstructionPriority::Runtime => "runtime",
    }
}

/// The word for a source.
pub open spec fn source_word(source: InstructionSource) -> Seq<char> {
    match source {
        InstructionSource::ModelSwitch => "model-switch"@,
        InstructionSource::PlatformPolicy => "platform-policy"@,
        InstructionSource::DeveloperOverride => "developer-override"@,
        InstructionSource::MemoryTool => "memory-tool"@,
        InstructionSource::CollaborationMode => "collaboration-mode"@,
        InstructionSource::RealtimeContext => "realtime-context"@,
        InstructionSource::Personality => "personality"@,
        InstructionSource::Apps => "apps"@,
        InstructionSource::CommitMessage => "commit-message"@,
        InstructionSource::UserConfig => "user-config"@,
        InstructionSource::ProjectDoc => "project-doc"@,
        InstructionSource::JsRepl => "js-repl"@,
        InstructionSource::Plugins => "plugins"@,
        InstructionSource::CodeMode => "code-mode"@,
        InstructionSource::Skills => "skills"@,
        InstructionSource::ChildAgents => "child-agents"@,
        InstructionSource::EnvironmentContext => "environment-context"@,
    }
}

/// The word for a source.
pub fn format_instruction_source(source: InstructionSource) -> (word: &'static str)
    ensures
        word@ == source_word(source),
{
    match source {
        InstructionSource::ModelSwitch => "model-switch",
        InstructionSource::PlatformPolicy => "platform-policy",
        InstructionSource::DeveloperOverride => "developer-override",
        InstructionSource::MemoryTool => "memory-tool",
        InstructionSource::CollaborationMode => "collaboration-mode",
        InstructionSource::RealtimeContext => "realtime-context",
        InstructionSource::Personality => "personality",
        InstructionSource::Apps => "apps",
        InstructionSource::CommitMessage => "commit-message",
        InstructionSource::UserConfig => "user-config",
        InstructionSource::ProjectDoc => "project-doc",
        InstructionSource::JsRepl => "js-repl",
        InstructionSource::Plugins => "plugins",
        InstructionSource::CodeMode => "code-mode",
        InstructionSource::Skills => "skills",
        InstructionSource::ChildAgents => "child-agents",
        InstructionSource::EnvironmentContext => "environment-context",
    }
}

/// The word for a mode.
pub open spec fn mode_word(mode: ModeKind) -> Seq<char> {
    match mode {
        ModeKind::Default => "default"@,
        ModeKind::Plan => "plan"@,
        _ => "unknown"@,
    }
}

/// The word for a mode.
pub fn format_mode_kind(mode_kind: ModeKind) -> (word: &'static str)
    ensures
        word@ == mode_word(mode_kind),
{
    match mode_kind {
        ModeKind::Default => "default",
        ModeKind::Plan => "plan",
        _ => "unknown",
    }
}

/// How an agent is doing, in words.
pub open spec fn status_word(status: AgentStatus) -> Seq<char> {
    match status {
        AgentStatus::PendingInit => "pending_init"@,
        AgentStatus::Running => "running"@,
        AgentStatus::Completed(Some(message)) => "completed("@ + message@ + ")"@,
        AgentStatus::Completed(None) => "completed"@,
        AgentStatus::Errored(error) => "errored("@ + error@ + ")"@,
        AgentStatus::Shutdown => "shutdown"@,
        AgentStatus::NotFound => "not_found"@,
    }
}

fn in_brackets(word: &str, inner: &str) -> (out: String)
    ensures
        out@ == word@ + inner@ + ")"@,
{
    let mut out = word.to_string();
    out.append(inner);
    out.append(")");
    out
}

/// Says how an agent is doing.
pub fn format_agent_status(status: &AgentStatus) -> (out: String)
    ensures
        out@ == status_word(*status),
{
    match status {
        AgentStatus::PendingInit => "pending_init".to_string(),
        AgentStatus::Running => "running".to_string(),
        AgentStatus::Completed(message) => match message {
            Some(message) => in_brackets("completed(", message.as_str()),
            None => "completed".to_string(),
        },
        AgentStatus::Errored(error) => in_brackets("errored(", error.as_str()),
        AgentStatus::Shutdown => "shutdown".to_string(),
        AgentStatus::NotFound => "not_found".to_string(),
    }
}

/// What commands get of the environment, in words.
pub open spec fn environment_words(policy: ShellEnvironmentPolicy) -> Seq<char> {
    "inherit="@ + policy.inherit@ + ", ignore_default_excludes="@ + text::bool_word(
        policy.ignore_default_excludes,
    ) + ", exclude="@ + text::decimal(policy.exclude@.len()) + ", set="@ + text::decimal(
        policy.assigned@.len(),
    ) + ", include_only="@ + text::decimal(policy.include_only@.len()) + ", use_profile="@
        + text::bool_word(policy.use_profile)
}

/// Says what commands get of the environment.
pub fn format_shell_environment_policy(policy: &ShellEnvironmentPolicy) -> (out: String)
    ensures
        out@ == environment_words(*policy),
{
    let mut out = "inherit=".to_string();
    out.append(policy.inherit.as_str());
    out.append(", ignore_default_excludes=");
    out.append(text::render_bool(policy.ignore_default_excludes).as_str());
    out.append(", exclude=");
    out.append(text::render_usize(policy.exclude.len()).as_str());
    out.append(", set=");
    out.append(text::render_usize(policy.assigned.len()).as_str());
    out.append(", include_only=");
    out.append(text::render_usize(policy.include_only.len()).as_str());
    out.append(", use_profile=");
    out.append(text::render_bool(policy.use_profile).as_str());
    out
}

/// How long outputs may get, in words.
pub open spec fn truncation_words(policy: TruncationPolicy) -> Seq<char> {
    match policy {
        TruncationPolicy::Bytes(n) => "bytes("@ + text::decimal(n as nat) + ")"@,
        TruncationPolicy::Tokens(n) => "tokens("@ + text::decimal(n as nat) + ")"@,
    }
}

/// Says how long outputs may get.
pub fn format_truncation_policy(policy: TruncationPolicy) -> (out: String)
    ensures
        out@ == truncation_words(policy),
{
    match policy {
        TruncationPolicy::Bytes(n) => in_brackets("bytes(", text::render_usize(n).as_str()),
        TruncationPolicy::Tokens(n) => in_brackets("tokens(", text::render_usize(n).as_str()),
    }
}

// ---------------------------------------------------------------------------
// Instruction sections.

/// The rows of a section.
pub open spec fn section_rows(index: nat, section: InstructionSection) -> Seq<char> {
    "    "@ + text::decimal(index + 1) + ". audience="@ + audience_word(section.audience)
        + " priority="@ + priority_word(section.priority) + " source="@ + source_word(
        section.source,
    ) + "\n       text:\n"@ + indented(section.text@, "         "@)
}

/// The rows of sections.
pub open spec fn sections_rows(sections: Seq<InstructionSection>) -> Seq<char>
    decreases sections.len(),
{
    if sections.len() == 0 {
        Seq::empty()
    } else {
        sections_rows(sections.drop_last()) + section_rows(
            (sections.len() - 1) as nat,
            sections.last(),
        )
    }
}

/// The row that counts sections.
pub open spec fn count_row(label: Seq<char>, count: nat) -> Seq<char> {
    "  - "@ + label + ": "@ + text::decimal(count) + " section(s)\n"@
}

fn write_count(out: &mut String, label: &str, count: usize)
    ensures
        final(out)@ == old(out)@ + count_row(label@, count as nat),
{
    let ghost before = out@;
    out.append("  - ");
    out.append(label);
    out.append(": ");
    out.append(text::render_usize(count).as_str());
    out.append(" section(s)\n");
    proof {
        assert(out@ =~= before + count_row(label@, count as nat));
    }
}

fn write_section(out: &mut String, index: usize, section: &InstructionSection)
    requires
        index < usize::MAX,
    ensures
        final(out)@ == old(out)@ + section_rows(index as nat, *section),
{
    let mut rows = "    ".to_string();
    rows.append(text::render_usize(index + 1).as_str());
    rows.append(". audience=");
    rows.append(format_instruction_audience(section.audience));
    rows.append(" priority=");
    rows.append(format_instruction_priority(section.priority));
    rows.append(" source=");
    rows.append(format_instruction_source(section.source));
    rows.append("\n       text:\n");
    write_indented_text(&mut rows, section.text.as_str(), "         ");
    out.append(rows.as_str());
}

fn write_sections(out: &mut String, sections: &[InstructionSection])
    ensures
        final(out)@ == old(out)@ + sections_rows(sections@),
{
    let ghost before = out@;
    let mut i: usize = 0;
    proof {
        assert(out@ =~= before + sections_rows(sections@.take(0)));
    }
    while i < sections.len()
        invariant
            i <= sections@.len(),
            out@ == before + sections_rows(sections@.take(i as int)),
        decreases sections@.len() - i,
    {
        write_section(out, i, &sections[i]);
        proof {
            assert(sections@.take(i + 1).drop_last() =~= sections@.take(i as int));
            assert(out@ =~= before + sections_rows(sections@.take(i + 1)));
        }
        i += 1;
    }
    proof {
        assert(sections@.take(i as int) =~= sections@);
    }
}

/// Writes sections behind a row that counts them.
pub fn write_instruction_sections(out: &mut String, label: &str, sections: &[InstructionSection])
    ensures
        final(out)@ == old(out)@ + (count_row(label@, sections@.len()) + sections_rows(sections@)),
{
    let ghost before = out@;
    write_count(out, label, sections.len());
    write_sections(out, sections);
    proof {
        assert(out@ =~= before + (count_row(label@, sections@.len()) + sections_rows(sections@)));
    }
}

// ---------------------------------------------------------------------------
// The parts of the report.

/// The part on the session.
pub open spec fn session_part(runtime: RuntimeContext) -> Seq<char> {
    "Session:\n"@
        + row("session_id"@, runtime.session_id@)
        + row("turn_id"@, runtime.turn_id@)
        + optional("trace_id"@, text::opt_text(runtime.trace_id))
        + row("session_source"@, runtime.session_source@)
        + row("cwd"@, runtime.cwd@)
        + optional("current_date"@, text::opt_text(runtime.current_date))
        + optional("timezone"@, text::opt_text(runtime.timezone))
        + optional("app_server_client_name"@, text::opt_text(runtime.app_server_client_name))
}

fn write_session(runtime: &RuntimeContext) -> (out: String)
    ensures
        out@ == session_part(*runtime),
{
    let mut out = "Session:\n".to_string();
    write_key_value(&mut out, "session_id", runtime.session_id.as_str());
    write_key_value(&mut out, "turn_id", runtime.turn_id.as_str());
    write_optional_owned(&mut out, "trace_id", &runtime.trace_id);
    write_key_value(&mut out, "session_source", runtime.session_source.as_str());
    write_key_value(&mut out, "cwd", runtime.cwd.as_str());
    write_optional_owned(&mut out, "current_date", &runtime.current_date);
    write_optional_owned(&mut out, "timezone", &runtime.timezone);
    write_optional_owned(&mut out, "app_server_client_name", &runtime.app_server_client_name);
    out
}

/// The part on the model.
pub open spec fn model_part(model: RuntimeModelContext) -> Seq<char> {
    "\nModel:\n"@
        + row("slug"@, model.slug@)
        + row("provider_name"@, model.provider_name@)
        + optional("provider_base_url"@, text::opt_text(model.provider_base_url))
        + row("provider_wire_api"@, model.provider_wire_api@)
        + optional("reasoning_effort"@, text::opt_text(model.reasoning_effort))
        + row("reasoning_summary"@, model.reasoning_summary@)
        + optional("personality"@, text::opt_text(model.personality))
}

fn write_model(model: &RuntimeModelContext) -> (out: String)
    ensures
        out@ == model_part(*model),
{
    let mut out = "\nModel:\n".to_string();
    write_key_value(&mut out, "slug", model.slug.as_str());
    write_key_value(&mut out, "provider_name", model.provider_name.as_str());
    write_optional_owned(&mut out, "provider_base_url", &model.provider_base_url);
    write_key_value(&mut out, "provider_wire_api", model.provider_wire_api.as_str());
    write_optional_owned(&mut out, "reasoning_effort", &model.reasoning_effort);
    write_key_value(&mut out, "reasoning_summary", model.reasoning_summary.as_str());
    write_optional_owned(&mut out, "personality", &model.personality);
    out
}

/// The part on the policy for tools.
pub open spec fn policy_part(policy: RuntimeToolPolicyContext) -> Seq<char> {
    "  - tool_policy:\n"@
        + flag("    collaboration.allows_repo_mutation"@, policy.collaboration.allows_repo_mutation)
        + flag(
            "    collaboration.update_plan_available"@,
            policy.collaboration.update_plan_available,
        )
        + flag(
            "    collaboration.request_user_input_available"@,
            policy.collaboration.request_user_input_available,
        )
        + flag(
            "    collaboration.requires_proposed_plan_block"@,
            policy.collaboration.requires_proposed_plan_block,
        )
        + flag(
            "    collaboration.streams_proposed_plan"@,
            policy.collaboration.streams_proposed_plan,
        )
        + flag("    codex_apps.apps_configured"@, policy.codex_apps.apps_configured)
        + flag("    codex_apps.default_app_enabled"@, policy.codex_apps.default_app_enabled)
        + flag(
            "    codex_apps.default_destructive_enabled"@,
            policy.codex_apps.default_destructive_enabled,
        )
        + flag(
            "    codex_apps.default_open_world_enabled"@,
            policy.codex_apps.default_open_world_enabled,
        )
}

fn write_policy(policy: &RuntimeToolPolicyContext) -> (out: String)
    ensures
        out@ == policy_part(*policy),
{
    let mut out = "  - tool_policy:\n".to_string();
    write_flag(
        &mut out,
        "    collaboration.allows_repo_mutation",
        policy.collaboration.allows_repo_mutation,
    );
    write_flag(
        &mut out,
        "    collaboration.update_plan_available",
        policy.collaboration.update_plan_available,
    );
    write_flag(
        &mut out,
        "    collaboration.request_user_input_available",
        policy.collaboration.request_user_input_available,
    );
    write_flag(
        &mut out,
        "    collaboration.requires_proposed_plan_block",
        policy.collaboration.requires_proposed_plan_block,
    );
    write_flag(
        &mut out,
        "    collaboration.streams_proposed_plan",
        policy.collaboration.streams_proposed_plan,
    );
    write_flag(&mut out, "    codex_apps.apps_configured", policy.codex_apps.apps_configured);
    write_flag(
        &mut out,
        "    codex_apps.default_app_enabled",
        policy.codex_apps.default_app_enabled,
    );
    write_flag(
        &mut out,
        "    codex_apps.default_destructive_enabled",
        policy.codex_apps.default_destructive_enabled,
    );
    write_flag(
        &mut out,
        "    codex_apps.default_open_world_enabled",
        policy.codex_apps.default_open_world_enabled,
    );
    out
}

/// The part on the tools.
pub open spec fn tools_part(tools: ToolsConfig) -> Seq<char> {
    "\nTools:\n"@
        + row("shell_type"@, tools.shell_type@)
        + row("unified_exec_backend"@, tools.unified_exec_backend@)
        + flag("allow_login_shell"@, tools.allow_login_shell)
        + row("apply_patch_tool_type"@, tools.apply_patch_tool_type@)
        + row("web_search_mode"@, tools.web_search_mode@)
        + flag("web_search_config_present"@, tools.web_search_config_present)
        + row("web_search_tool_type"@, tools.web_search_tool_type@)
        + flag("image_gen_tool"@, tools.image_gen_tool)
        + flag("search_tool"@, tools.search_tool)
        + flag("request_permission_enabled"@, tools.request_permission_enabled)
        + flag("request_permissions_tool_enabled"@, tools.request_permissions_tool_enabled)
        + flag("code_mode_enabled"@, tools.code_mode_enabled)
        + flag("js_repl_enabled"@, tools.js_repl_enabled)
        + flag("js_repl_tools_only"@, tools.js_repl_tools_only)
        + flag("collab_tools"@, tools.collab_tools)
        + flag("artifact_tools"@, tools.artifact_tools)
        + flag("request_user_input"@, tools.request_user_input)
        + flag("default_mode_request_user_input"@, tools.default_mode_request_user_input)
        + row(
            "experimental_supported_tools"@,
            listed(text::texts(tools.experimental_supported_tools@)),
        )
        + flag("agent_jobs_tools"@, tools.agent_jobs_tools)
        + flag("agent_jobs_worker_tools"@, tools.agent_jobs_worker_tools)
        + row("agent_roles"@, listed(text::texts(tools.agent_roles@)))
}

fn write_tools(tools: &ToolsConfig) -> (out: String)
    ensures
        out@ == tools_part(*tools),
{
    let mut out = "\nTools:\n".to_string();
    write_key_value(&mut out, "shell_type", tools.shell_type.as_str());
    write_key_value(&mut out, "unified_exec_backend", tools.unified_exec_backend.as_str());
    write_flag(&mut out, "allow_login_shell", tools.allow_login_shell);
    write_key_value(&mut out, "apply_patch_tool_type", tools.apply_patch_tool_type.as_str());
    write_key_value(&mut out, "web_search_mode", tools.web_search_mode.as_str());
    write_flag(&mut out, "web_search_config_present", tools.web_search_config_present);
    write_key_value(&mut out, "web_search_tool_type", tools.web_search_tool_type.as_str());
    write_flag(&mut out, "image_gen_tool", tools.image_gen_tool);
    write_flag(&mut out, "search_tool", tools.search_tool);
    write_flag(&mut out, "request_permission_enabled", tools.request_permission_enabled);
    write_flag(
        &mut out,
        "request_permissions_tool_enabled",
        tools.request_permissions_tool_enabled,
    );
    write_flag(&mut out, "code_mode_enabled", tools.code_mode_enabled);
    write_flag(&mut out, "js_repl_enabled", tools.js_repl_enabled);
    write_flag(&mut out, "js_repl_tools_only", tools.js_repl_tools_only);
    write_flag(&mut out, "collab_tools", tools.collab_tools);
    write_flag(&mut out, "artifact_tools", tools.artifact_tools);
    write_flag(&mut out, "request_user_input", tools.request_user_input);
    write_flag(&mut out, "default_mode_request_user_input", tools.default_mode_request_user_input);
    write_key_value(
        &mut out,
        "experimental_supported_tools",
        format_list(&tools.experimental_supported_tools).as_str(),
    );
    write_flag(&mut out, "agent_jobs_tools", tools.agent_jobs_tools);
    write_flag(&mut out, "agent_jobs_worker_tools", tools.agent_jobs_worker_tools);
    write_key_value(&mut out, "agent_roles", format_list(&tools.agent_roles).as_str());
    out
}

/// The part on the collaboration mode.
pub open spec fn collaboration_part(
    collaboration: RuntimeCollaborationContext,
    policy: RuntimeToolPolicyContext,
) -> Seq<char> {
    "\nCollaboration:\n"@ + row("mode_kind"@, mode_word(collaboration.mode_kind)) + row(
        "collaboration_model"@,
        collaboration.model@,
    ) + optional(
        "collaboration_reasoning_effort"@,
        text::opt_text(collaboration.reasoning_effort),
    ) + optional(
        "collaboration_developer_instructions"@,
        text::opt_text(collaboration.developer_instructions),
    ) + flag("realtime_active"@, collaboration.realtime_active) + policy_part(policy)
}

fn write_collaboration(
    collaboration: &RuntimeCollaborationContext,
    policy: &RuntimeToolPolicyContext,
) -> (out: String)
    ensures
        out@ == collaboration_part(*collaboration, *policy),
{
    let mut out = "\nCollaboration:\n".to_string();
    write_key_value(&mut out, "mode_kind", format_mode_kind(collaboration.mode_kind));
    write_key_value(&mut out, "collaboration_model", collaboration.model.as_str());
    write_optional_owned(
        &mut out,
        "collaboration_reasoning_effort",
        &collaboration.reasoning_effort,
    );
    write_optional_owned(
        &mut out,
        "collaboration_developer_instructions",
        &collaboration.developer_instructions,
    );
    write_flag(&mut out, "realtime_active", collaboration.realtime_active);
    out.append(write_policy(policy).as_str());
    out
}

/// A text, or a word that there is none.
pub open spec fn or_none(value: Option<Seq<char>>) -> Seq<char> {
    match value {
        Some(s) => s,
        None => "<none>"@,
    }
}

/// The row of an agent.
pub open spec fn subagent_row(index: nat, agent: RuntimeSubagent) -> Seq<char> {
    "    "@ + text::decimal(index + 1) + ". thread_id="@ + agent.thread_id@ + " nickname="@
        + or_none(text::opt_text(agent.agent_nickname)) + " role="@ + or_none(
        text::opt_text(agent.agent_role),
    ) + " status="@ + status_word(agent.status) + "\n"@
}

/// The rows of agents.
pub open spec fn subagent_rows(agents: Seq<RuntimeSubagent>) -> Seq<char>
    decreases agents.len(),
{
    if agents.len() == 0 {
        Seq::empty()
    } else {
        subagent_rows(agents.drop_last()) + subagent_row((agents.len() - 1) as nat, agents.last())
    }
}

/// A number that may be missing.
pub open spec fn number_text(value: Option<i64>) -> Option<Seq<char>> {
    match value {
        Some(n) => Some(text::decimal_int(n as int)),
        None => None,
    }
}

/// The part on the agent and those it has started.
pub open spec fn agent_part(agent: RuntimeAgentContext) -> Seq<char> {
    "\nAgent:\n"@ + optional("agent_id"@, text::opt_text(agent.agent_id)) + optional(
        "parent_session_id"@,
        text::opt_text(agent.parent_session_id),
    ) + optional("depth"@, number_text(agent.depth)) + optional(
        "agent_nickname"@,
        text::opt_text(agent.agent_nickname),
    ) + optional("agent_role"@, text::opt_text(agent.agent_role)) + row(
        "subagents"@,
        text::decimal(agent.subagents@.len()),
    ) + subagent_rows(agent.subagents@)
}

fn or_none_word(value: &Option<String>) -> (out: &str)
    ensures
        out@ == or_none(text::opt_text(*value)),
{
    match value {
        Some(s) => s.as_str(),
        None => "<none>",
    }
}

fn write_agent(agent: &RuntimeAgentContext) -> (out: String)
    ensures
        out@ == agent_part(*agent),
{
    let mut out = "\nAgent:\n".to_string();
    write_optional_owned(&mut out, "agent_id", &agent.agent_id);
    write_optional_owned(&mut out, "parent_session_id", &agent.parent_session_id);
    let depth = match agent.depth {
        Some(n) => Some(text::render_i64(n)),
        None => None,
    };
    write_optional_owned(&mut out, "depth", &depth);
    write_optional_owned(&mut out, "agent_nickname", &agent.agent_nickname);
    write_optional_owned(&mut out, "agent_role", &agent.agent_role);
    write_key_value(&mut out, "subagents", text::render_usize(agent.subagents.len()).as_str());
    let ghost before = out@;
    let mut i: usize = 0;
    proof {
        assert(out@ =~= before + subagent_rows(agent.subagents@.take(0)));
    }
    while i < agent.subagents.len()
        invariant
            i <= agent.subagents@.len(),
            out@ == before + subagent_rows(agent.subagents@.take(i as int)),
        decreases agent.subagents@.len() - i,
    {
        let one = &agent.subagents[i];
        let mut line = "    ".to_string();
        line.append(text::render_usize(i + 1).as_str());
        line.append(". thread_id=");
        line.append(one.thread_id.as_str());
        line.append(" nickname=");
        line.append(or_none_word(&one.agent_nickname));
        line.append(" role=");
        line.append(or_none_word(&one.agent_role));
        line.append(" status=");
        line.append(format_agent_status(&one.status).as_str());
        line.append("\n");
        out.append(line.as_str());
        proof {
            let agents = agent.subagents@;
            assert(agents.take(i + 1).drop_last() =~= agents.take(i as int));
            assert(agents.take(i + 1).last() == *one);
            assert(out@ =~= before + subagent_rows(agents.take(i + 1)));
        }
        i += 1;
    }
    proof {
        assert(agent.subagents@.take(i as int) =~= agent.subagents@);
    }
    out
}

/// The rows on the layers of instructions.
pub open spec fn layers_rows(layers: Option<ResolvedInstructionLayers>) -> Seq<char> {
    match layers {
        Some(layers) => count_row("resolved_layers"@, layers.sections@.len())
            + "    - base_instructions:\n"@ + indented(layers.base_instructions@, "      "@)
            + sections_rows(layers.sections@),
        None => row("resolved_layers"@, "<none>"@),
    }
}

/// The part on the instructions.
pub open spec fn instructions_part(instructions: RuntimeInstructionContext) -> Seq<char> {
    "\nInstructions:\n"@ + optional(
        "developer_instructions"@,
        text::opt_text(instructions.developer_instructions),
    ) + optional("user_instructions"@, text::opt_text(instructions.user_instructions)) + optional(
        "compact_prompt"@,
        text::opt_text(instructions.compact_prompt),
    ) + (count_row(
        "user_instruction_sections"@,
        instructions.user_instruction_sections@.len(),
    ) + sections_rows(instructions.user_instruction_sections@)) + layers_rows(
        instructions.resolved_layers,
    )
}

fn write_layers(out: &mut String, layers: &Option<ResolvedInstructionLayers>)
    ensures
        final(out)@ == old(out)@ + layers_rows(*layers),
{
    match layers {
        Some(layers) => {
            let mut rows = String::new();
            write_count(&mut rows, "resolved_layers", layers.sections.len());
            rows.append("    - base_instructions:\n");
            write_indented_text(&mut rows, layers.base_instructions.as_str(), "      ");
            write_sections(&mut rows, &layers.sections);
            proof {
                assert(rows@ =~= layers_rows(Some(*layers)));
            }
            out.append(rows.as_str());
        },
        None => {
            write_key_value(out, "resolved_layers", "<none>");
        },
    }
}

fn write_instructions(instructions: &RuntimeInstructionContext) -> (out: String)
    ensures
        out@ == instructions_part(*instructions),
{
    let mut out = "\nInstructions:\n".to_string();
    write_optional_owned(&mut out, "developer_instructions", &instructions.developer_instructions);
    write_optional_owned(&mut out, "user_instructions", &instructions.user_instructions);
    write_optional_owned(&mut out, "compact_prompt", &instructions.compact_prompt);
    write_instruction_sections(
        &mut out,
        "user_instruction_sections",
        &instructions.user_instruction_sections,
    );
    write_layers(&mut out, &instructions.resolved_layers);
    out
}

/// What is said about the schema of the final output.
pub open spec fn schema_words(schema: Option<json::JsonView>) -> Seq<char> {
    match schema {
        Some(value) => "present ("@ + text::decimal(text::utf8_len(json_text::compact(value)))
            + " chars)"@,
        None => "<none>"@,
    }
}

/// What is said about the network.
pub open spec fn network_row(execution: RuntimeExecutionContext) -> Seq<char> {
    row(
        "network"@,
        match execution.network {
            Some(network) => "allowed_domains="@ + listed(text::texts(network.allowed_domains@))
                + " denied_domains="@ + listed(text::texts(network.denied_domains@)),
            None => "<none>"@,
        },
    )
}

/// The part on what commands run under.
pub open spec fn execution_part(execution: RuntimeExecutionContext) -> Seq<char> {
    "\nExecution:\n"@ + row("approval_policy"@, execution.approval_policy@) + row(
        "sandbox_policy"@,
        execution.sandbox_policy@,
    ) + row(
        "shell_environment_policy"@,
        environment_words(execution.shell_environment_policy),
    ) + row("windows_sandbox_level"@, execution.windows_sandbox_level@) + network_row(execution)
        + row(
        "final_output_json_schema"@,
        schema_words(json::opt_view(execution.final_output_json_schema)),
    ) + row("truncation_policy"@, truncation_words(execution.truncation_policy))
}

fn write_execution(execution: &RuntimeExecutionContext) -> (out: String)
    ensures
        out@ == execution_part(*execution),
{
    let mut out = "\nExecution:\n".to_string();
    write_key_value(&mut out, "approval_policy", execution.approval_policy.as_str());
    write_key_value(&mut out, "sandbox_policy", execution.sandbox_policy.as_str());
    write_key_value(
        &mut out,
        "shell_environment_policy",
        format_shell_environment_policy(&execution.shell_environment_policy).as_str(),
    );
    write_key_value(&mut out, "windows_sandbox_level", execution.windows_sandbox_level.as_str());
    let network = match &execution.network {
        Some(network) => {
            let mut words = "allowed_domains=".to_string();
            words.append(format_list(&network.allowed_domains).as_str());
            words.append(" denied_domains=");
            words.append(format_list(&network.denied_domains).as_str());
            words
        },
        None => "<none>".to_string(),
    };
    write_key_value(&mut out, "network", network.as_str());
    let schema = match &execution.final_output_json_schema {
        Some(value) => {
            let written = json_text::compact_text(value);
            let mut words = "present (".to_string();
            words.append(text::render_usize(text::byte_len(written.as_str())).as_str());
            words.append(" chars)");
            words
        },
        None => "<none>".to_string(),
    };
    write_key_value(&mut out, "final_output_json_schema", schema.as_str());
    write_key_value(
        &mut out,
        "truncation_policy",
        format_truncation_policy(execution.truncation_policy).as_str(),
    );
    out
}

/// The report.
pub open spec fn report(runtime: RuntimeContext) -> Seq<char> {
    "/debug-runtime\n\n"@ + session_part(runtime) + agent_part(runtime.agent) + model_part(
        runtime.model,
    ) + instructions_part(runtime.instructions) + collaboration_part(
        runtime.collaboration,
        runtime.tools.tool_policy,
    ) + execution_part(runtime.execution) + tools_part(runtime.tools.tools_config)
}

/// Writes the report.
pub fn render_debug_runtime_text(runtime: &RuntimeContext) -> (out: String)
    ensures
        out@ == report(*runtime),
{
    let mut out = "/debug-runtime\n\n".to_string();
    out.append(write_session(runtime).as_str());
    out.append(write_agent(&runtime.agent).as_str());
    out.append(write_model(&runtime.model).as_str());
    out.append(write_instructions(&runtime.instructions).as_str());
    out.append(write_collaboration(&runtime.collaboration, &runtime.tools.tool_policy).as_str());
    out.append(write_execution(&runtime.execution).as_str());
    out.append(write_tools(&runtime.tools.tools_config).as_str());
    out
}

// ---------------------------------------------------------------------------
// What reports show.

/// The words for sections of instructions.
pub proof fn sections_have_their_words()
    ensures
        audience_word(InstructionAudience::Developer) == "developer"@,
        audience_word(InstructionAudience::ContextualUser) == "contextual-user"@,
        priority_word(InstructionPriority::System) == "system"@,
        priority_word(InstructionPriority::Developer) == "developer"@,
        priority_word(InstructionPriority::Mode) == "mode"@,
        priority_word(InstructionPriority::Repo) == "repo"@,
        priority_word(InstructionPriority::Skill) == "skill"@,
        priority_word(InstructionPriority::User) == "user"@,
        priority_word(InstructionPriority::Runtime) == "runtime"@,
        source_word(InstructionSource::ModelSwitch) == "model-switch"@,
        source_word(InstructionSource::PlatformPolicy) == "platform-policy"@,
        source_word(InstructionSource::DeveloperOverride) == "developer-override"@,
        source_word(InstructionSource::MemoryTool) == "memory-tool"@,
        source_word(InstructionSource::CollaborationMode) == "collaboration-mode"@,
        source_word(InstructionSource::RealtimeContext) == "realtime-context"@,
        source_word(InstructionSource::Personality) == "personality"@,
        source_word(InstructionSource::Apps) == "apps"@,
        source_word(InstructionSource::CommitMessage) == "commit-message"@,
        source_word(InstructionSource::UserConfig) == "user-config"@,
        source_word(InstructionSource::ProjectDoc) == "project-doc"@,
        source_word(InstructionSource::JsRepl) == "js-repl"@,
        source_word(InstructionSource::Plugins) == "plugins"@,
        source_word(InstructionSource::CodeMode) == "code-mode"@,
        source_word(InstructionSource::Skills) == "skills"@,
        source_word(InstructionSource::ChildAgents) == "child-agents"@,
        source_word(InstructionSource::EnvironmentContext) == "environment-context"@,
{
}

/// The words for modes, agents and limits.
pub proof fn states_have_their_words(message: String, n: usize)
    ensures
        mode_word(ModeKind::Default) == "default"@,
        mode_word(ModeKind::Plan) == "plan"@,
        status_word(AgentStatus::PendingInit) == "pending_init"@,
        status_word(AgentStatus::Running) == "running"@,
        status_word(AgentStatus::Completed(Some(message))) == "completed("@ + message@ + ")"@,
        status_word(AgentStatus::Completed(None)) == "completed"@,
        status_word(AgentStatus::Errored(message)) == "errored("@ + message@ + ")"@,
        status_word(AgentStatus::Shutdown) == "shutdown"@,
        status_word(AgentStatus::NotFound) == "not_found"@,
        truncation_words(TruncationPolicy::Bytes(n)) == "bytes("@ + text::decimal(n as nat) + ")"@,
        truncation_words(TruncationPolicy::Tokens(n)) == "tokens("@ + text::decimal(n as nat)
            + ")"@,
{
}

/// A line of a report.
pub open spec fn entry(key: Seq<char>, value: Seq<char>) -> Seq<char> {
    "  - "@ + key + ": "@ + value + "\n"@
}

/// A switch as a word.
pub open spec fn on_off(value: bool) -> Seq<char> {
    if value {
        "true"@
    } else {
        "false"@
    }
}

/// An entry that may be missing: its text on lines of its own.
pub open spec fn entry_if(key: Seq<char>, value: Option<String>) -> Seq<char> {
    if value is Some {
        "  - "@ + key + ":\n"@ + indented(value->Some_0@, "    "@)
    } else {
        entry(key, "<none>"@)
    }
}

/// Text is shown line by line behind its indentation, and an empty one as empty;
/// lists are shown with commas.
pub proof fn texts_are_indented(
    lines: Seq<Seq<char>>,
    line: Seq<char>,
    indent: Seq<char>,
    values: Seq<Seq<char>>,
)
    ensures
        indented(Seq::empty(), indent) == indent + "<empty>\n"@,
        indented_lines(Seq::empty(), indent).len() == 0,
        indented_lines(lines.push(line), indent) == indented_lines(lines, indent) + indent + line
            + "\n"@,
        line.len() > 0 ==> indented(line, indent) == indented_lines(text::bare_lines(line), indent),
        listed(Seq::empty()) == "<none>"@,
        values.len() > 0 ==> listed(values) == text::joined(values, ", "@),
{
    assert(lines.push(line).drop_last() =~= lines);
}

/// What is shown of a session, in this order.
pub proof fn sessions_are_shown(runtime: RuntimeContext)
    ensures
        session_part(runtime) == "Session:\n"@ + entry("session_id"@, runtime.session_id@) + entry(
            "turn_id"@,
            runtime.turn_id@,
        ) + entry_if("trace_id"@, runtime.trace_id) + entry(
            "session_source"@,
            runtime.session_source@,
        ) + entry("cwd"@, runtime.cwd@) + entry_if("current_date"@, runtime.current_date) + entry_if(
            "timezone"@,
            runtime.timezone,
        ) + entry_if("app_server_client_name"@, runtime.app_server_client_name),
{
}

/// What is shown of a model, in this order.
pub proof fn models_are_shown(model: RuntimeModelContext)
    ensures
        model_part(model) == "\nModel:\n"@ + entry("slug"@, model.slug@) + entry(
            "provider_name"@,
            model.provider_name@,
        ) + entry_if("provider_base_url"@, model.provider_base_url) + entry(
            "provider_wire_api"@,
            model.provider_wire_api@,
        ) + entry_if("reasoning_effort"@, model.reasoning_effort) + entry(
            "reasoning_summary"@,
            model.reasoning_summary@,
        ) + entry_if("personality"@, model.personality),
{
}

/// What is shown of the policy for tools: every switch, in this order.
pub proof fn policies_are_shown(policy: RuntimeToolPolicyContext)
    ensures
        policy_part(policy) == "  - tool_policy:\n"@
            + entry("    collaboration.allows_repo_mutation"@, on_off(policy.collaboration.allows_repo_mutation))
            + entry("    collaboration.update_plan_available"@, on_off(policy.collaboration.update_plan_available))
            + entry("    collaboration.request_user_input_available"@, on_off(policy.collaboration.request_user_input_available))
            + entry("    collaboration.requires_proposed_plan_block"@, on_off(policy.collaboration.requires_proposed_plan_block))
            + entry("    collaboration.streams_proposed_plan"@, on_off(policy.collaboration.streams_proposed_plan))
            + entry("    codex_apps.apps_configured"@, on_off(policy.codex_apps.apps_configured))
            + entry("    codex_apps.default_app_enabled"@, on_off(policy.codex_apps.default_app_enabled))
            + entry("    codex_apps.default_destructive_enabled"@, on_off(policy.codex_apps.default_destructive_enabled))
            + entry("    codex_apps.default_open_world_enabled"@, on_off(policy.codex_apps.default_open_world_enabled)),
{
}

/// What is shown of the tools: every setting, in this order.
pub proof fn tools_are_shown(tools: ToolsConfig)
    ensures
        tools_part(tools) == "\nTools:\n"@
            + entry("shell_type"@, tools.shell_type@)
            + entry("unified_exec_backend"@, tools.unified_exec_backend@)
            + entry("allow_login_shell"@, on_off(tools.allow_login_shell))
            + entry("apply_patch_tool_type"@, tools.apply_patch_tool_type@)
            + entry("web_search_mode"@, tools.web_search_mode@)
            + entry("web_search_config_present"@, on_off(tools.web_search_config_present))
            + entry("web_search_tool_type"@, tools.web_search_tool_type@)
            + entry("image_gen_tool"@, on_off(tools.image_gen_tool))
            + entry("search_tool"@, on_off(tools.search_tool))
            + entry("request_permission_enabled"@, on_off(tools.request_permission_enabled))
            + entry("request_permissions_tool_enabled"@, on_off(tools.request_permissions_tool_enabled))
            + entry("code_mode_enabled"@, on_off(tools.code_mode_enabled))
            + entry("js_repl_enabled"@, on_off(tools.js_repl_enabled))
            + entry("js_repl_tools_only"@, on_off(tools.js_repl_tools_only))
            + entry("collab_tools"@, on_off(tools.collab_tools))
            + entry("artifact_tools"@, on_off(tools.artifact_tools))
            + entry("request_user_input"@, on_off(tools.request_user_input))
            + entry("default_mode_request_user_input"@, on_off(tools.default_mode_request_user_input))
            + entry("experimental_supported_tools"@, listed(text::texts(tools.experimental_supported_tools@)))
            + entry("agent_jobs_tools"@, on_off(tools.agent_jobs_tools))
            + entry("agent_jobs_worker_tools"@, on_off(tools.agent_jobs_worker_tools))
            + entry("agent_roles"@, listed(text::texts(tools.agent_roles@))),
{
}

/// What is shown of the collaboration, in this order, before the policy for
/// tools.
pub proof fn collaborations_are_shown(
    collaboration: RuntimeCollaborationContext,
    policy: RuntimeToolPolicyContext,
)
    ensures
        collaboration_part(collaboration, policy) == "\nCollaboration:\n"@ + entry(
            "mode_kind"@,
            mode_word(collaboration.mode_kind),
        ) + entry("collaboration_model"@, collaboration.model@) + entry_if(
            "collaboration_reasoning_effort"@,
            collaboration.reasoning_effort,
        ) + entry_if(
            "collaboration_developer_instructions"@,
            collaboration.developer_instructions,
        ) + entry("realtime_active"@, on_off(collaboration.realtime_active)) + policy_part(policy),
{
}

/// What is shown of agents: the place of the session among them, and each agent
/// that it started with its number, counted from one, and its state.
pub proof fn agents_are_shown(
    agents: Seq<RuntimeSubagent>,
    agent: RuntimeSubagent,
    own: RuntimeAgentContext,
)
    ensures
        subagent_rows(Seq::empty()).len() == 0,
        ({
            let name = |value: Option<String>|
                if value is Some {
                    value->Some_0@
                } else {
                    "<none>"@
                };
            subagent_rows(agents.push(agent)) == subagent_rows(agents) + ("    "@ + text::decimal(
                agents.len() + 1,
            ) + ". thread_id="@ + agent.thread_id@ + " nickname="@ + name(agent.agent_nickname)
                + " role="@ + name(agent.agent_role) + " status="@ + status_word(agent.status)
                + "\n"@)
        }),
        agent_part(own) == "\nAgent:\n"@ + entry_if("agent_id"@, own.agent_id) + entry_if(
            "parent_session_id"@,
            own.parent_session_id,
        ) + optional("depth"@, number_text(own.depth)) + entry_if(
            "agent_nickname"@,
            own.agent_nickname,
        ) + entry_if("agent_role"@, own.agent_role) + entry(
            "subagents"@,
            text::decimal(own.subagents@.len()),
        ) + subagent_rows(own.subagents@),
        own.depth is None ==> optional("depth"@, number_text(own.depth)) == entry(
            "depth"@,
            "<none>"@,
        ),
        own.depth is Some ==> optional("depth"@, number_text(own.depth)) == "  - "@ + "depth"@
            + ":\n"@ + indented(text::decimal_int(own.depth->Some_0 as int), "    "@),
{
    assert(agents.push(agent).drop_last() =~= agents);
}

/// What is shown of instructions: each section with its number, counted from
/// one, its audience, priority and source, and its text.
pub proof fn instructions_are_shown(
    sections: Seq<InstructionSection>,
    section: InstructionSection,
    layers: ResolvedInstructionLayers,
    own: RuntimeInstructionContext,
)
    ensures
        sections_rows(Seq::empty()).len() == 0,
        sections_rows(sections.push(section)) == sections_rows(sections) + ("    "@ + text::decimal(
            sections.len() + 1,
        ) + ". audience="@ + audience_word(section.audience) + " priority="@ + priority_word(
            section.priority,
        ) + " source="@ + source_word(section.source) + "\n       text:\n"@ + indented(
            section.text@,
            "         "@,
        )),
        layers_rows(None) == entry("resolved_layers"@, "<none>"@),
        layers_rows(Some(layers)) == "  - "@ + "resolved_layers"@ + ": "@ + text::decimal(
            layers.sections@.len(),
        ) + " section(s)\n"@ + "    - base_instructions:\n"@ + indented(
            layers.base_instructions@,
            "      "@,
        ) + sections_rows(layers.sections@),
        instructions_part(own) == "\nInstructions:\n"@ + entry_if(
            "developer_instructions"@,
            own.developer_instructions,
        ) + entry_if("user_instructions"@, own.user_instructions) + entry_if(
            "compact_prompt"@,
            own.compact_prompt,
        ) + ("  - "@ + "user_instruction_sections"@ + ": "@ + text::decimal(
            own.user_instruction_sections@.len(),
        ) + " section(s)\n"@ + sections_rows(own.user_instruction_sections@)) + layers_rows(
            own.resolved_layers,
        ),
{
    assert(sections.push(section).drop_last() =~= sections);
}

/// What is shown of how commands run, in this order.
pub proof fn execution_is_shown(
    execution: RuntimeExecutionContext,
    network: crate::runtime_context::NetworkDomains,
)
    ensures
        execution_part(execution) == "\nExecution:\n"@ + entry(
            "approval_policy"@,
            execution.approval_policy@,
        ) + entry("sandbox_policy"@, execution.sandbox_policy@) + entry(
            "shell_environment_policy"@,
            environment_words(execution.shell_environment_policy),
        ) + entry("windows_sandbox_level"@, execution.windows_sandbox_level@) + network_row(
            execution,
        ) + entry(
            "final_output_json_schema"@,
            schema_words(json::opt_view(execution.final_output_json_schema)),
        ) + entry("truncation_policy"@, truncation_words(execution.truncation_policy)),
        execution.network is None ==> network_row(execution) == entry("network"@, "<none>"@),
        execution.network == Some(network) ==> network_row(execution) == entry(
            "network"@,
            "allowed_domains="@ + listed(text::texts(network.allowed_domains@))
                + " denied_domains="@ + listed(text::texts(network.denied_domains@)),
        ),
{
}

/// What is shown of the environment of commands: what it is based on, its
/// switches, and how many variables each of its lists has.
pub proof fn environments_are_shown(policy: ShellEnvironmentPolicy)
    ensures
        environment_words(policy) == "inherit="@ + policy.inherit@ + ", ignore_default_excludes="@
            + on_off(policy.ignore_default_excludes) + ", exclude="@ + text::decimal(
            policy.exclude@.len(),
        ) + ", set="@ + text::decimal(policy.assigned@.len()) + ", include_only="@ + text::decimal(
            policy.include_only@.len(),
        ) + ", use_profile="@ + on_off(policy.use_profile),
{
}

/// The report has its parts in this order.
pub proof fn reports_have_their_parts(runtime: RuntimeContext)
    ensures
        report(runtime) == "/debug-runtime\n\n"@ + session_part(runtime) + agent_part(
            runtime.agent,
        ) + model_part(runtime.model) + instructions_part(runtime.instructions)
            + collaboration_part(runtime.collaboration, runtime.tools.tool_policy)
            + execution_part(runtime.execution) + tools_part(runtime.tools.tools_config),
{
}

} // verus!
