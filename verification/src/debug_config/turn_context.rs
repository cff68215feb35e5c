//! What the latest turn ran with.

use vstd::prelude::*;

use crate::debug_config::layers::ConfigLayer;
use crate::debug_config::lines;
use crate::debug_config::lines::LineStyle;
use crate::debug_config::lines::StyledLine;
use crate::debug_config::requirements;
use crate::debug_config::requirements::ConfigRequirements;
use crate::instructions::InstructionAudience;
use crate::instructions::InstructionPriority;
use crate::instructions::InstructionSection;
use crate::instructions::InstructionSource;
use crate::instructions::ResolvedInstructionLayers;
use crate::modes;
use crate::modes::ModeKind;
use crate::text;

verus! {

/// When the user could be asked for input.
#[derive(Clone, Debug)]
pub struct UserInputPolicySnapshot {
    pub tool_enabled: bool,
    pub available: bool,
    pub default_mode_enabled: bool,
    pub allowed_modes: Vec<ModeKind>,
}

/// What a turn ran with.
#[derive(Clone, Debug)]
pub struct TurnContextSnapshot {
    pub turn_id: Option<String>,
    pub model: String,
    pub collaboration_mode: Option<ModeKind>,
    pub realtime_active: Option<bool>,
    pub tool_policy: Option<UserInputPolicySnapshot>,
    pub user_instruction_sections: Vec<InstructionSection>,
    pub resolved_instruction_layers: Option<ResolvedInstructionLayers>,
}

// ---------------------------------------------------------------------------
// Words.

/// The word for an audience.
pub open spec fn audience_word(audience: InstructionAudience) -> Seq<char> {
    match audience {
        InstructionAudience::Developer => "developer"@,
        InstructionAudience::ContextualUser => "contextual_user"@,
    }
}

/// The word for a priority.
pub open spec fn priority_word(priority: InstructionPriority) -> Seq<char> {
    match priority {
        InstructionPriority::System => "system"@,
        InstructionPriority::Developer => "developer"@,
        InstructionPriority::Mode => "mode"@,
        InstructionPriority::Repo => "repo"@,
        InstructionPriority::Skill => "skill"@,
        InstructionPriority::User => "user"@,
        InstructionPriority::Runtime => "runtime"@,
    }
}

/// The word for a source.
pub open spec fn source_word(source: InstructionSource) -> Seq<char> {
    match source {
        InstructionSource::ModelSwitch => "model_switch"@,
        InstructionSource::PlatformPolicy => "platform_policy"@,
        InstructionSource::DeveloperOverride => "developer_override"@,
        InstructionSource::MemoryTool => "memory_tool"@,
        InstructionSource::CollaborationMode => "collaboration_mode"@,
        InstructionSource::RealtimeContext => "realtime_context"@,
        InstructionSource::Personality => "personality"@,
        InstructionSource::Apps => "apps"@,
        InstructionSource::CommitMessage => "commit_message"@,
        InstructionSource::UserConfig => "user_config"@,
        InstructionSource::ProjectDoc => "project_doc"@,
        InstructionSource::JsRepl => "js_repl"@,
        InstructionSource::Plugins => "plugins"@,
        InstructionSource::CodeMode => "code_mode"@,
        InstructionSource::Skills => "skills"@,
        InstructionSource::ChildAgents => "child_agents"@,
        InstructionSource::EnvironmentContext => "environment_context"@,
    }
}

fn audience_name(audience: InstructionAudience) -> (word: &'static str)
    ensures
        word@ == audience_word(audience),
{
    match audience {
        InstructionAudience::Developer => "developer",
        InstructionAudience::ContextualUser => "contextual_user",
    }
}

fn priority_name(priority: InstructionPriority) -> (word: &'static str)
    ensures
        word@ == priority_word(priority),
{
    match priority {
        InstructionPriority::System => "system",
        InstructionPriority::Developer => "developer",
        InstructionPriority::Mode => "mode",
        InstructionPriority::Repo => "repo",
        InstructionPriority::Skill => "skill",
        InstructionPriority::User => "user",
        InstructionPriority::Runtime => "runtime",
    }
}

fn source_name(source: InstructionSource) -> (word: &'static str)
    ensures
        word@ == source_word(source),
{
    match source {
        InstructionSource::ModelSwitch => "model_switch",
        InstructionSource::PlatformPolicy => "platform_policy",
        InstructionSource::DeveloperOverride => "developer_override",
        InstructionSource::MemoryTool => "memory_tool",
        InstructionSource::CollaborationMode => "collaboration_mode",
        InstructionSource::RealtimeContext => "realtime_context",
        InstructionSource::Personality => "personality",
        InstructionSource::Apps => "apps",
        InstructionSource::CommitMessage => "commit_message",
        InstructionSource::UserConfig => "user_config",
        InstructionSource::ProjectDoc => "project_doc",
        InstructionSource::JsRepl => "js_repl",
        InstructionSource::Plugins => "plugins",
        InstructionSource::CodeMode => "code_mode",
        InstructionSource::Skills => "skills",
        InstructionSource::ChildAgents => "child_agents",
        InstructionSource::EnvironmentContext => "environment_context",
    }
}

// ---------------------------------------------------------------------------
// Instructions.

/// The lines on a section.
pub open spec fn section_lines(indent: Seq<char>, index: nat, section: InstructionSection) -> Seq<
    lines::LineView,
> {
    seq![
        lines::plain(
            indent + text::decimal(index + 1) + ". audience="@ + audience_word(section.audience)
                + " priority="@ + priority_word(section.priority) + " source="@ + source_word(
                section.source,
            ),
        ),
    ] + lines::text_block(indent + "   "@, section.text@)
}

/// The lines on sections.
pub open spec fn sections_lines(indent: Seq<char>, sections: Seq<InstructionSection>) -> Seq<
    lines::LineView,
>
    decreases sections.len(),
{
    if sections.len() == 0 {
        seq![]
    } else {
        sections_lines(indent, sections.drop_last()) + section_lines(
            indent,
            (sections.len() - 1) as nat,
            sections.last(),
        )
    }
}

fn render_section(indent: &str, index: usize, section: &InstructionSection) -> (out: Vec<
    StyledLine,
>)
    requires
        index < usize::MAX,
    ensures
        lines::line_views(out@) == section_lines(indent@, index as nat, *section),
{
    let mut out: Vec<StyledLine> = Vec::new();
    let mut line = indent.to_string();
    line.append(text::render_usize(index + 1).as_str());
    line.append(". audience=");
    line.append(audience_name(section.audience));
    line.append(" priority=");
    line.append(priority_name(section.priority));
    line.append(" source=");
    line.append(source_name(section.source));
    lines::push_line(&mut out, line, LineStyle::Plain);
    lines::push_lines(
        &mut out,
        lines::render_text_block(lines::concat(indent, "   ").as_str(), section.text.as_str()),
    );
    proof {
        assert(lines::line_views(out@) =~= section_lines(indent@, index as nat, *section));
    }
    out
}

/// Lists sections.
pub fn render_instruction_sections(indent: &str, sections: &[InstructionSection]) -> (out: Vec<
    StyledLine,
>)
    ensures
        lines::line_views(out@) == sections_lines(indent@, sections@),
{
    let mut out: Vec<StyledLine> = Vec::new();
    let mut i: usize = 0;
    proof {
        assert(lines::line_views(out@) =~= sections_lines(indent@, sections@.take(0)));
    }
    while i < sections.len()
        invariant
            i <= sections@.len(),
            lines::line_views(out@) == sections_lines(indent@, sections@.take(i as int)),
        decreases sections@.len() - i,
    {
        lines::push_lines(&mut out, render_section(indent, i, &sections[i]));
        proof {
            assert(sections@.take(i + 1).drop_last() =~= sections@.take(i as int));
        }
        i += 1;
    }
    proof {
        assert(sections@.take(i as int) =~= sections@);
    }
    out
}

/// The lines on the layers of instructions.
pub open spec fn layers_lines(layers: ResolvedInstructionLayers) -> Seq<lines::LineView> {
    seq![
        lines::plain("  - resolved_instruction_layers:"@),
        lines::plain("    - base_instructions:"@),
    ] + lines::text_block("      "@, layers.base_instructions@) + seq![
        lines::plain("    - sections: "@ + text::decimal(layers.sections@.len())),
    ] + (if layers.sections@.len() == 0 {
        seq![lines::dim("      <none>"@)]
    } else {
        sections_lines("      "@, layers.sections@)
    })
}

/// Lists the layers of instructions.
pub fn render_resolved_instruction_layers(layers: &ResolvedInstructionLayers) -> (out: Vec<
    StyledLine,
>)
    ensures
        lines::line_views(out@) == layers_lines(*layers),
{
    let mut out: Vec<StyledLine> = Vec::new();
    lines::push_plain(&mut out, "  - resolved_instruction_layers:");
    lines::push_plain(&mut out, "    - base_instructions:");
    lines::push_lines(
        &mut out,
        lines::render_text_block("      ", layers.base_instructions.as_str()),
    );
    lines::push_line(
        &mut out,
        lines::concat("    - sections: ", text::render_usize(layers.sections.len()).as_str()),
        LineStyle::Plain,
    );
    if layers.sections.len() == 0 {
        lines::push_dim(&mut out, "      <none>");
    } else {
        lines::push_lines(&mut out, render_instruction_sections("      ", &layers.sections));
    }
    proof {
        assert(lines::line_views(out@) =~= layers_lines(*layers));
    }
    out
}

// ---------------------------------------------------------------------------
// The snapshot.

/// The names of modes.
pub open spec fn mode_names(list: Seq<ModeKind>) -> Seq<Seq<char>> {
    Seq::new(list.len(), |i: int| modes::mode_name(list[i]))
}

/// The lines on when the user could be asked for input.
pub open spec fn policy_lines(policy: UserInputPolicySnapshot) -> Seq<lines::LineView> {
    seq![
        lines::plain("  - tool_policy.request_user_input:"@),
        lines::plain("    - tool_enabled: "@ + text::bool_word(policy.tool_enabled)),
        lines::plain("    - available: "@ + text::bool_word(policy.available)),
        lines::plain("    - default_mode_enabled: "@ + text::bool_word(policy.default_mode_enabled)),
        lines::plain(
            "    - allowed_modes: "@ + lines::joined_or_empty(mode_names(policy.allowed_modes@)),
        ),
    ]
}

fn push_flag(out: &mut Vec<StyledLine>, label: &str, value: bool)
    ensures
        lines::line_views(final(out)@) == lines::line_views(old(out)@).push(
            lines::plain(label@ + text::bool_word(value)),
        ),
{
    lines::push_line(
        out,
        lines::concat(label, text::render_bool(value).as_str()),
        LineStyle::Plain,
    );
}

/// Lists when the user could be asked for input.
pub fn render_turn_context_tool_policy(policy: &UserInputPolicySnapshot) -> (out: Vec<StyledLine>)
    ensures
        lines::line_views(out@) == policy_lines(*policy),
{
    let mut names: Vec<String> = Vec::new();
    let mut i: usize = 0;
    while i < policy.allowed_modes.len()
        invariant
            i <= policy.allowed_modes@.len(),
            names@.len() == i,
            forall|k: int|
                0 <= k < i ==> (#[trigger] names@[k])@ == modes::mode_name(
                    policy.allowed_modes@[k],
                ),
        decreases policy.allowed_modes@.len() - i,
    {
        names.push(policy.allowed_modes[i].display_name().to_string());
        i += 1;
    }
    proof {
        assert(text::texts(names@) =~= mode_names(policy.allowed_modes@));
    }
    let mut out: Vec<StyledLine> = Vec::new();
    lines::push_plain(&mut out, "  - tool_policy.request_user_input:");
    push_flag(&mut out, "    - tool_enabled: ", policy.tool_enabled);
    push_flag(&mut out, "    - available: ", policy.available);
    push_flag(&mut out, "    - default_mode_enabled: ", policy.default_mode_enabled);
    lines::push_line(
        &mut out,
        lines::concat("    - allowed_modes: ", lines::join_or_empty(&names).as_str()),
        LineStyle::Plain,
    );
    proof {
        assert(lines::line_views(out@) =~= policy_lines(*policy));
    }
    out
}

/// The lines on the mode of a turn.
pub open spec fn mode_lines(snapshot: TurnContextSnapshot) -> Seq<lines::LineView> {
    (match snapshot.collaboration_mode {
        Some(mode) => seq![lines::plain("  - collaboration_mode: "@ + modes::mode_name(mode))],
        None => seq![],
    }) + (match snapshot.realtime_active {
        Some(active) => seq![lines::plain("  - realtime_active: "@ + text::bool_word(active))],
        None => seq![],
    }) + (match snapshot.tool_policy {
        Some(policy) => policy_lines(policy),
        None => seq![],
    })
}

/// The lines on what a turn ran with.
pub open spec fn summary_lines(snapshot: TurnContextSnapshot) -> Seq<lines::LineView> {
    seq![
        lines::plain(
            "  - turn_id: "@ + (match snapshot.turn_id {
                Some(id) => id@,
                None => "<none>"@,
            }),
        ),
        lines::plain("  - model: "@ + snapshot.model@),
    ] + mode_lines(snapshot) + seq![
        lines::plain(
            "  - user_instruction_sections: "@ + text::decimal(
                snapshot.user_instruction_sections@.len(),
            ),
        ),
    ] + sections_lines("    "@, snapshot.user_instruction_sections@) + (
    match snapshot.resolved_instruction_layers {
        Some(layers) => layers_lines(layers),
        None => seq![lines::dim("  - resolved_instruction_layers: <unavailable>"@)],
    })
}

fn render_mode(snapshot: &TurnContextSnapshot) -> (out: Vec<StyledLine>)
    ensures
        lines::line_views(out@) == mode_lines(*snapshot),
{
    let mut out: Vec<StyledLine> = Vec::new();
    if let Some(mode) = snapshot.collaboration_mode {
        lines::push_line(
            &mut out,
            lines::concat("  - collaboration_mode: ", mode.display_name()),
            LineStyle::Plain,
        );
    }
    if let Some(active) = snapshot.realtime_active {
        push_flag(&mut out, "  - realtime_active: ", active);
    }
    if let Some(policy) = &snapshot.tool_policy {
        lines::push_lines(&mut out, render_turn_context_tool_policy(policy));
    }
    proof {
        assert(lines::line_views(out@) =~= mode_lines(*snapshot));
    }
    out
}

/// Lists what a turn ran with.
pub fn render_turn_context_summary_lines(snapshot: &TurnContextSnapshot) -> (out: Vec<StyledLine>)
    ensures
        lines::line_views(out@) == summary_lines(*snapshot),
{
    let mut out: Vec<StyledLine> = Vec::new();
    lines::push_line(
        &mut out,
        lines::concat(
            "  - turn_id: ",
            match &snapshot.turn_id {
                Some(id) => id.as_str(),
                None => "<none>",
            },
        ),
        LineStyle::Plain,
    );
    lines::push_line(
        &mut out,
        lines::concat("  - model: ", snapshot.model.as_str()),
        LineStyle::Plain,
    );
    lines::push_lines(&mut out, render_mode(snapshot));
    lines::push_line(
        &mut out,
        lines::concat(
            "  - user_instruction_sections: ",
            text::render_usize(snapshot.user_instruction_sections.len()).as_str(),
        ),
        LineStyle::Plain,
    );
    lines::push_lines(
        &mut out,
        render_instruction_sections("    ", &snapshot.user_instruction_sections),
    );
    match &snapshot.resolved_instruction_layers {
        Some(layers) => {
            lines::push_lines(&mut out, render_resolved_instruction_layers(layers));
        },
        None => {
            lines::push_dim(&mut out, "  - resolved_instruction_layers: <unavailable>");
        },
    }
    proof {
        assert(lines::line_views(out@) =~= summary_lines(*snapshot));
    }
    out
}

/// The lines on the latest turn, given where it was recorded and what was
/// found there.
pub open spec fn snapshot_lines(path: Option<Seq<char>>, snapshot: Option<TurnContextSnapshot>) -> Seq<
    lines::LineView,
> {
    match path {
        None => seq![],
        Some(p) => seq![
            lines::plain(""@),
            lines::bold("Latest persisted turn context:"@),
            lines::plain("  - rollout_path: "@ + p),
        ] + (match snapshot {
            Some(found) => summary_lines(found),
            None => seq![lines::dim("  - snapshot: <unavailable>"@)],
        }),
    }
}

/// What a reference to a snapshot refers to.
pub open spec fn found_snapshot(snapshot: Option<&TurnContextSnapshot>) -> Option<
    TurnContextSnapshot,
> {
    match snapshot {
        Some(found) => Some(*found),
        None => None,
    }
}

/// Lists what the latest turn ran with.
pub fn render_turn_context_snapshot_lines(
    rollout_path: Option<&str>,
    snapshot: Option<&TurnContextSnapshot>,
) -> (out: Vec<StyledLine>)
    ensures
        lines::line_views(out@) == snapshot_lines(
            text::opt_str(rollout_path),
            found_snapshot(snapshot),
        ),
{
    let mut out: Vec<StyledLine> = Vec::new();
    if let Some(path) = rollout_path {
        lines::push_plain(&mut out, "");
        lines::push_line(
            &mut out,
            "Latest persisted turn context:".to_string(),
            LineStyle::Bold,
        );
        lines::push_line(
            &mut out,
            lines::concat("  - rollout_path: ", path),
            LineStyle::Plain,
        );
        match snapshot {
            Some(found) => {
                lines::push_lines(&mut out, render_turn_context_summary_lines(found));
            },
            None => {
                lines::push_dim(&mut out, "  - snapshot: <unavailable>");
            },
        }
    }
    proof {
        assert(lines::line_views(out@) =~= snapshot_lines(
            text::opt_str(rollout_path),
            found_snapshot(snapshot),
        ));
    }
    out
}

// ---------------------------------------------------------------------------
// The proxy, and everything together.

/// The addresses of the proxy of a session.
#[derive(Clone, Debug)]
pub struct SessionNetworkProxyRuntime {
    pub http_addr: String,
    pub socks_addr: String,
}

/// The proxy for everything.
pub open spec fn proxy_url(http: Seq<char>, socks: Seq<char>, socks_enabled: bool) -> Seq<char> {
    if socks_enabled {
        "socks5h://"@ + socks
    } else {
        "http://"@ + http
    }
}

/// The proxy for everything.
pub fn session_all_proxy_url(http_addr: &str, socks_addr: &str, socks_enabled: bool) -> (out: String)
    ensures
        out@ == proxy_url(http_addr@, socks_addr@, socks_enabled),
{
    if socks_enabled {
        lines::concat("socks5h://", socks_addr)
    } else {
        lines::concat("http://", http_addr)
    }
}

/// The lines on the proxy.
pub open spec fn proxy_lines(proxy: Option<&SessionNetworkProxyRuntime>, socks_enabled: bool) -> Seq<
    lines::LineView,
> {
    match proxy {
        None => seq![],
        Some(p) => seq![
            lines::plain(""@),
            lines::bold("Session runtime:"@),
            lines::plain("  - network_proxy"@),
            lines::plain("    - HTTP_PROXY  = http://"@ + p.http_addr@),
            lines::plain(
                "    - ALL_PROXY   = "@ + proxy_url(p.http_addr@, p.socks_addr@, socks_enabled),
            ),
        ],
    }
}

fn render_proxy(proxy: Option<&SessionNetworkProxyRuntime>, socks_enabled: bool) -> (out: Vec<
    StyledLine,
>)
    ensures
        lines::line_views(out@) == proxy_lines(proxy, socks_enabled),
{
    let mut out: Vec<StyledLine> = Vec::new();
    if let Some(p) = proxy {
        lines::push_plain(&mut out, "");
        lines::push_line(&mut out, "Session runtime:".to_string(), LineStyle::Bold);
        lines::push_plain(&mut out, "  - network_proxy");
        lines::push_line(
            &mut out,
            lines::concat("    - HTTP_PROXY  = http://", p.http_addr.as_str()),
            LineStyle::Plain,
        );
        lines::push_line(
            &mut out,
            lines::concat(
                "    - ALL_PROXY   = ",
                session_all_proxy_url(
                    p.http_addr.as_str(),
                    p.socks_addr.as_str(),
                    socks_enabled,
                ).as_str(),
            ),
            LineStyle::Plain,
        );
    }
    proof {
        assert(lines::line_views(out@) =~= proxy_lines(proxy, socks_enabled));
    }
    out
}

/// Writes the report on the configuration, the latest turn and the proxy.
pub fn new_debug_config_output(
    list: &[ConfigLayer],
    requirements: &ConfigRequirements,
    rollout_path: Option<&str>,
    snapshot: Option<&TurnContextSnapshot>,
    proxy: Option<&SessionNetworkProxyRuntime>,
    socks_enabled: bool,
) -> (out: Vec<StyledLine>)
    ensures
        lines::line_views(out@) == requirements::config_report(list@, *requirements)
            + snapshot_lines(text::opt_str(rollout_path), found_snapshot(snapshot)) + proxy_lines(
            proxy,
            socks_enabled,
        ),
{
    let mut out = requirements::render_debug_config_lines(list, requirements);
    lines::push_lines(&mut out, render_turn_context_snapshot_lines(rollout_path, snapshot));
    lines::push_lines(&mut out, render_proxy(proxy, socks_enabled));
    out
}

/// Shows the report on what a session runs with, line by line.
pub fn new_debug_runtime_output(report: &str) -> (out: Vec<StyledLine>)
    ensures
        lines::line_views(out@) == Seq::new(
            text::bare_lines(report@).len(),
            |i: int| lines::plain(text::bare_lines(report@)[i]),
        ),
{
    let out = lines::indent_lines(report, "");
    proof {
        reveal_strlit("");
        let rows = text::bare_lines(report@);
        assert forall|i: int| 0 <= i < rows.len() implies lines::indented_lines(rows, ""@)[i]
            == lines::plain(rows[i]) by {
            assert(""@ + rows[i] =~= rows[i]);
        }
        assert(lines::indented_lines(rows, ""@) =~= Seq::new(
            rows.len(),
            |i: int| lines::plain(rows[i]),
        ));
    }
    out
}

/// The words for sections of instructions.
pub proof fn sections_have_their_words()
    ensures
        audience_word(InstructionAudience::Developer) == "developer"@,
        audience_word(InstructionAudience::ContextualUser) == "contextual_user"@,
        priority_word(InstructionPriority::System) == "system"@,
        priority_word(InstructionPriority::Developer) == "developer"@,
        priority_word(InstructionPriority::Mode) == "mode"@,
        priority_word(InstructionPriority::Repo) == "repo"@,
        priority_word(InstructionPriority::Skill) == "skill"@,
        priority_word(InstructionPriority::User) == "user"@,
        priority_word(InstructionPriority::Runtime) == "runtime"@,
        source_word(InstructionSource::ModelSwitch) == "model_switch"@,
        source_word(InstructionSource::PlatformPolicy) == "platform_policy"@,
        source_word(InstructionSource::DeveloperOverride) == "developer_override"@,
        source_word(InstructionSource::MemoryTool) == "memory_tool"@,
        source_word(InstructionSource::CollaborationMode) == "collaboration_mode"@,
        source_word(InstructionSource::RealtimeContext) == "realtime_context"@,
        source_word(InstructionSource::Personality) == "personality"@,
        source_word(InstructionSource::Apps) == "apps"@,
        source_word(InstructionSource::CommitMessage) == "commit_message"@,
        source_word(InstructionSource::UserConfig) == "user_config"@,
        source_word(InstructionSource::ProjectDoc) == "project_doc"@,
        source_word(InstructionSource::JsRepl) == "js_repl"@,
        source_word(InstructionSource::Plugins) == "plugins"@,
        source_word(InstructionSource::CodeMode) == "code_mode"@,
        source_word(InstructionSource::Skills) == "skills"@,
        source_word(InstructionSource::ChildAgents) == "child_agents"@,
        source_word(InstructionSource::EnvironmentContext) == "environment_context"@,
{
}

/// A line that is shown as it is.
pub open spec fn shown(text: Seq<char>) -> lines::LineView {
    lines::LineView { text, style: LineStyle::Plain }
}

/// A section is shown with its number, counted from one, its audience, priority
/// and source, and then its text; sections are shown in their order.
pub proof fn sections_are_shown_in_order(
    indent: Seq<char>,
    sections: Seq<InstructionSection>,
    section: InstructionSection,
)
    ensures
        sections_lines(indent, Seq::empty()).len() == 0,
        sections_lines(indent, sections.push(section)) == sections_lines(indent, sections) + (seq![
            shown(
                indent + text::decimal(sections.len() + 1) + ". audience="@ + audience_word(
                    section.audience,
                ) + " priority="@ + priority_word(section.priority) + " source="@ + source_word(
                    section.source,
                ),
            ),
        ] + lines::text_block(indent + "   "@, section.text@)),
{
    assert(sections.push(section).drop_last() =~= sections);
}

/// What is shown of a turn, in this order; what is not known is left out or said
/// to be missing.
pub proof fn turns_are_shown(snapshot: TurnContextSnapshot)
    ensures
        ({
            let turn = if snapshot.turn_id is Some {
                snapshot.turn_id->Some_0@
            } else {
                "<none>"@
            };
            let mode = if snapshot.collaboration_mode is Some {
                seq![
                    shown(
                        "  - collaboration_mode: "@ + modes::mode_name(
                            snapshot.collaboration_mode->Some_0,
                        ),
                    ),
                ]
            } else {
                seq![]
            };
            let realtime = if snapshot.realtime_active is Some {
                seq![
                    shown(
                        "  - realtime_active: "@ + (if snapshot.realtime_active->Some_0 {
                            "true"@
                        } else {
                            "false"@
                        }),
                    ),
                ]
            } else {
                seq![]
            };
            let policy = if snapshot.tool_policy is Some {
                policy_lines(snapshot.tool_policy->Some_0)
            } else {
                seq![]
            };
            let count = snapshot.user_instruction_sections@.len();
            let layers = if snapshot.resolved_instruction_layers is Some {
                layers_lines(snapshot.resolved_instruction_layers->Some_0)
            } else {
                seq![
                    (lines::LineView {
                        text: "  - resolved_instruction_layers: <unavailable>"@,
                        style: LineStyle::Dim,
                    }),
                ]
            };
            summary_lines(snapshot) == seq![
                shown("  - turn_id: "@ + turn),
                shown("  - model: "@ + snapshot.model@),
            ] + (mode + realtime + policy) + seq![
                shown("  - user_instruction_sections: "@ + text::decimal(count)),
            ] + sections_lines("    "@, snapshot.user_instruction_sections@) + layers
        }),
{
}

/// What is shown of asking the user: whether the tool is there, whether it may be
/// used, whether the default mode allows it, and which modes do.
pub proof fn policies_are_shown(policy: UserInputPolicySnapshot, names: Seq<Seq<char>>)
    requires
        names.len() == policy.allowed_modes@.len(),
        forall|i: int|
            0 <= i < names.len() ==> #[trigger] names[i] == modes::mode_name(
                policy.allowed_modes@[i],
            ),
    ensures
        ({
            let word = |b: bool|
                if b {
                    "true"@
                } else {
                    "false"@
                };
            policy_lines(policy) == seq![
                shown("  - tool_policy.request_user_input:"@),
                shown("    - tool_enabled: "@ + word(policy.tool_enabled)),
                shown("    - available: "@ + word(policy.available)),
                shown("    - default_mode_enabled: "@ + word(policy.default_mode_enabled)),
                shown("    - allowed_modes: "@ + lines::joined_or_empty(names)),
            ]
        }),
{
    assert(mode_names(policy.allowed_modes@) =~= names);
}

/// What is shown of resolved layers: the base instructions, the number of
/// sections, and the sections or that there are none.
pub proof fn resolved_layers_are_shown(layers: ResolvedInstructionLayers)
    ensures
        layers_lines(layers) == seq![
            shown("  - resolved_instruction_layers:"@),
            shown("    - base_instructions:"@),
        ] + lines::text_block("      "@, layers.base_instructions@) + seq![
            shown("    - sections: "@ + text::decimal(layers.sections@.len())),
        ] + if layers.sections@.len() > 0 {
            sections_lines("      "@, layers.sections@)
        } else {
            seq![(lines::LineView { text: "      <none>"@, style: LineStyle::Dim })]
        },
{
}

/// A snapshot is shown under its path, and nothing is where there is no path; a
/// proxy is shown by its addresses, the general one by its own kind.
pub proof fn snapshots_and_proxies_are_shown(
    path: Seq<char>,
    snapshot: TurnContextSnapshot,
    proxy: SessionNetworkProxyRuntime,
    http: Seq<char>,
    socks: Seq<char>,
)
    ensures
        ({
            let head = seq![
                shown(""@),
                (lines::LineView {
                    text: "Latest persisted turn context:"@,
                    style: LineStyle::Bold,
                }),
                shown("  - rollout_path: "@ + path),
            ];
            &&& snapshot_lines(None, Some(snapshot)).len() == 0
            &&& snapshot_lines(Some(path), Some(snapshot)) == head + summary_lines(snapshot)
            &&& snapshot_lines(Some(path), None) == head + seq![
                (lines::LineView {
                    text: "  - snapshot: <unavailable>"@,
                    style: LineStyle::Dim,
                }),
            ]
            &&& proxy_url(http, socks, true) == "socks5h://"@ + socks
            &&& proxy_url(http, socks, false) == "http://"@ + http
            &&& proxy_lines(None, true).len() == 0
            &&& proxy_lines(Some(&proxy), true) == seq![
                shown(""@),
                (lines::LineView { text: "Session runtime:"@, style: LineStyle::Bold }),
                shown("  - network_proxy"@),
                shown("    - HTTP_PROXY  = http://"@ + proxy.http_addr@),
                shown("    - ALL_PROXY   = "@ + ("socks5h://"@ + proxy.socks_addr@)),
            ]
            &&& proxy_lines(Some(&proxy), false) == seq![
                shown(""@),
                (lines::LineView { text: "Session runtime:"@, style: LineStyle::Bold }),
                shown("  - network_proxy"@),
                shown("    - HTTP_PROXY  = http://"@ + proxy.http_addr@),
                shown("    - ALL_PROXY   = "@ + ("http://"@ + proxy.http_addr@)),
            ]
        }),
{
}

} // verus!
