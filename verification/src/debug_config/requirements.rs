//! What is required of the configuration, and the report as a whole.

use vstd::prelude::*;

use crate::debug_config::layers;
use crate::debug_config::layers::ConfigLayer;
use crate::debug_config::lines;
use crate::debug_config::lines::LineStyle;
use crate::debug_config::lines::StyledLine;
use crate::text;

verus! {

/// A sandbox mode that is allowed.
#[derive(Clone, Copy, Debug, PartialEq, Eq, Structural)]
pub enum SandboxModeRequirement {
    ReadOnly,
    WorkspaceWrite,
    DangerFullAccess,
    ExternalSandbox,
}

/// A way to search the web that is allowed.
#[derive(Clone, Copy, Debug, PartialEq, Eq, Structural)]
pub enum WebSearchModeRequirement {
    Disabled,
    Cached,
    Live,
}

/// Where data has to stay.
#[derive(Clone, Copy, Debug, PartialEq, Eq, Structural)]
pub enum ResidencyRequirement {
    Us,
}

/// What is required of the network.
#[derive(Clone, Debug)]
pub struct NetworkConstraints {
    pub enabled: Option<bool>,
    pub http_port: Option<u16>,
    pub socks_port: Option<u16>,
    pub allow_upstream_proxy: Option<bool>,
    pub dangerously_allow_non_loopback_proxy: Option<bool>,
    pub dangerously_allow_all_unix_sockets: Option<bool>,
    pub allowed_domains: Option<Vec<String>>,
    pub managed_allowed_domains_only: Option<bool>,
    pub denied_domains: Option<Vec<String>>,
    pub allow_unix_sockets: Option<Vec<String>>,
    pub allow_local_binding: Option<bool>,
}

/// What is required of the configuration, with who requires it.
#[derive(Debug)]
pub struct ConfigRequirements {
    pub allowed_approval_policies: Option<Vec<String>>,
    pub approval_policy_source: Option<String>,
    pub allowed_sandbox_modes: Option<Vec<SandboxModeRequirement>>,
    pub sandbox_policy_source: Option<String>,
    pub allowed_web_search_modes: Option<Vec<WebSearchModeRequirement>>,
    pub web_search_mode_source: Option<String>,
    pub mcp_servers: Option<Vec<String>>,
    pub mcp_servers_source: Option<String>,
    pub rules_configured: bool,
    pub exec_policy_source: Option<String>,
    pub enforce_residency: Option<ResidencyRequirement>,
    pub enforce_residency_source: Option<String>,
    pub network: Option<(NetworkConstraints, String)>,
}

// ---------------------------------------------------------------------------
// Words.

/// The word for a sandbox mode.
pub open spec fn sandbox_word(mode: SandboxModeRequirement) -> Seq<char> {
    match mode {
        SandboxModeRequirement::ReadOnly => "read-only"@,
        SandboxModeRequirement::WorkspaceWrite => "workspace-write"@,
        SandboxModeRequirement::DangerFullAccess => "danger-full-access"@,
        SandboxModeRequirement::ExternalSandbox => "external-sandbox"@,
    }
}

/// The word for a sandbox mode.
pub fn format_sandbox_mode_requirement(mode: SandboxModeRequirement) -> (out: String)
    ensures
        out@ == sandbox_word(mode),
{
    match mode {
        SandboxModeRequirement::ReadOnly => "read-only".to_string(),
        SandboxModeRequirement::WorkspaceWrite => "workspace-write".to_string(),
        SandboxModeRequirement::DangerFullAccess => "danger-full-access".to_string(),
        SandboxModeRequirement::ExternalSandbox => "external-sandbox".to_string(),
    }
}

/// The word for a way to search the web.
pub open spec fn search_word(mode: WebSearchModeRequirement) -> Seq<char> {
    match mode {
        WebSearchModeRequirement::Disabled => "disabled"@,
        WebSearchModeRequirement::Cached => "cached"@,
        WebSearchModeRequirement::Live => "live"@,
    }
}

fn format_web_search_mode(mode: WebSearchModeRequirement) -> (out: String)
    ensures
        out@ == search_word(mode),
{
    match mode {
        WebSearchModeRequirement::Disabled => "disabled".to_string(),
        WebSearchModeRequirement::Cached => "cached".to_string(),
        WebSearchModeRequirement::Live => "live".to_string(),
    }
}

/// The word for where data has to stay.
pub open spec fn residency_word(requirement: ResidencyRequirement) -> Seq<char> {
    match requirement {
        ResidencyRequirement::Us => "us"@,
    }
}

/// The word for where data has to stay.
pub fn format_residency_requirement(requirement: ResidencyRequirement) -> (out: String)
    ensures
        out@ == residency_word(requirement),
{
    match requirement {
        ResidencyRequirement::Us => "us".to_string(),
    }
}

/// The ways to search the web that are allowed: not to search always is.
pub open spec fn normalized_modes(modes: Seq<WebSearchModeRequirement>) -> Seq<
    WebSearchModeRequirement,
> {
    if modes.contains(WebSearchModeRequirement::Disabled) {
        modes
    } else {
        modes.push(WebSearchModeRequirement::Disabled)
    }
}

/// Adds that not to search the web is allowed.
pub fn normalize_allowed_web_search_modes(modes: &[WebSearchModeRequirement]) -> (out: Vec<
    WebSearchModeRequirement,
>)
    ensures
        out@ == normalized_modes(modes@),
{
    let mut out: Vec<WebSearchModeRequirement> = Vec::new();
    let mut listed: bool = false;
    let mut i: usize = 0;
    while i < modes.len()
        invariant
            i <= modes@.len(),
            out@ == modes@.take(i as int),
            listed == modes@.take(i as int).contains(WebSearchModeRequirement::Disabled),
        decreases modes@.len() - i,
    {
        let mode = modes[i];
        out.push(mode);
        proof {
            let before = modes@.take(i as int);
            let after = modes@.take(i + 1);
            assert(after =~= before.push(mode));
            if before.contains(WebSearchModeRequirement::Disabled) {
                let k = choose|k: int|
                    0 <= k < before.len() && before[k] == WebSearchModeRequirement::Disabled;
                assert(after[k] == WebSearchModeRequirement::Disabled);
            }
            if mode is Disabled {
                assert(after[i as int] == WebSearchModeRequirement::Disabled);
            }
        }
        if mode == WebSearchModeRequirement::Disabled {
            listed = true;
        }
        i += 1;
    }
    proof {
        assert(modes@.take(i as int) =~= modes@);
    }
    if !listed {
        out.push(WebSearchModeRequirement::Disabled);
    }
    out
}

// ---------------------------------------------------------------------------
// The network.

/// A switch, where it is given.
pub open spec fn switch_part(name: Seq<char>, value: Option<bool>) -> Seq<Seq<char>> {
    match value {
        Some(on) => seq![name + "="@ + text::bool_word(on)],
        None => seq![],
    }
}

/// A port, where it is given.
pub open spec fn port_part(name: Seq<char>, value: Option<u16>) -> Seq<Seq<char>> {
    match value {
        Some(port) => seq![name + "="@ + text::decimal(port as nat)],
        None => seq![],
    }
}

/// A list, where it is given.
pub open spec fn list_part(name: Seq<char>, value: Option<Vec<String>>) -> Seq<Seq<char>> {
    match value {
        Some(items) => seq![
            name + "=["@ + text::joined(text::texts(items@), ", "@) + "]"@,
        ],
        None => seq![],
    }
}

/// What is required of the network, item by item.
pub open spec fn network_parts(network: NetworkConstraints) -> Seq<Seq<char>> {
    switch_part("enabled"@, network.enabled)
        + port_part("http_port"@, network.http_port)
        + port_part("socks_port"@, network.socks_port)
        + switch_part("allow_upstream_proxy"@, network.allow_upstream_proxy)
        + switch_part(
        "dangerously_allow_non_loopback_proxy"@,
        network.dangerously_allow_non_loopback_proxy,
    ) + switch_part(
        "dangerously_allow_all_unix_sockets"@,
        network.dangerously_allow_all_unix_sockets,
    ) + list_part("allowed_domains"@, network.allowed_domains) + switch_part(
        "managed_allowed_domains_only"@,
        network.managed_allowed_domains_only,
    ) + list_part("denied_domains"@, network.denied_domains) + list_part(
        "allow_unix_sockets"@,
        network.allow_unix_sockets,
    ) + switch_part("allow_local_binding"@, network.allow_local_binding)
}

fn push_part(parts: &mut Vec<String>, name: &str, between: &str, value: &str, behind: &str)
    ensures
        text::texts(final(parts)@) == text::texts(old(parts)@) + seq![
            name@ + between@ + value@ + behind@,
        ],
{
    let ghost before = text::texts(parts@);
    let mut part = name.to_string();
    part.append(between);
    part.append(value);
    part.append(behind);
    let ghost told = part@;
    parts.push(part);
    proof {
        assert(text::texts(parts@) =~= before + seq![told]);
    }
}

fn push_switch(parts: &mut Vec<String>, name: &str, value: Option<bool>)
    ensures
        text::texts(final(parts)@) == text::texts(old(parts)@) + switch_part(name@, value),
{
    let ghost before = text::texts(parts@);
    if let Some(on) = value {
        let word = text::render_bool(on);
        push_part(parts, name, "=", word.as_str(), "");
        proof {
            reveal_strlit("");
            assert(name@ + "="@ + text::bool_word(on) + ""@ =~= name@ + "="@ + text::bool_word(on));
        }
    }
    proof {
        assert(text::texts(parts@) =~= before + switch_part(name@, value));
    }
}

fn push_port(parts: &mut Vec<String>, name: &str, value: Option<u16>)
    ensures
        text::texts(final(parts)@) == text::texts(old(parts)@) + port_part(name@, value),
{
    let ghost before = text::texts(parts@);
    if let Some(port) = value {
        let numeral = text::render_u64(port as u64);
        push_part(parts, name, "=", numeral.as_str(), "");
        proof {
            reveal_strlit("");
            assert(name@ + "="@ + text::decimal(port as nat) + ""@ =~= name@ + "="@
                + text::decimal(port as nat));
        }
    }
    proof {
        assert(text::texts(parts@) =~= before + port_part(name@, value));
    }
}

fn push_list(parts: &mut Vec<String>, name: &str, value: &Option<Vec<String>>)
    ensures
        text::texts(final(parts)@) == text::texts(old(parts)@) + list_part(name@, *value),
{
    let ghost before = text::texts(parts@);
    if let Some(items) = value {
        let joined = text::join_texts(items, ", ");
        push_part(parts, name, "=[", joined.as_str(), "]");
    }
    proof {
        assert(text::texts(parts@) =~= before + list_part(name@, *value));
    }
}

/// Says what is required of the network.
pub fn format_network_constraints(network: &NetworkConstraints) -> (out: String)
    ensures
        out@ == lines::joined_or_empty(network_parts(*network)),
{
    let mut parts: Vec<String> = Vec::new();
    proof {
        assert(text::texts(parts@) =~= seq![]);
    }
    push_switch(&mut parts, "enabled", network.enabled);
    proof {
        assert(text::texts(parts@) =~= switch_part("enabled"@, network.enabled));
    }
    push_port(&mut parts, "http_port", network.http_port);
    push_port(&mut parts, "socks_port", network.socks_port);
    push_switch(&mut parts, "allow_upstream_proxy", network.allow_upstream_proxy);
    push_switch(
        &mut parts,
        "dangerously_allow_non_loopback_proxy",
        network.dangerously_allow_non_loopback_proxy,
    );
    push_switch(
        &mut parts,
        "dangerously_allow_all_unix_sockets",
        network.dangerously_allow_all_unix_sockets,
    );
    push_list(&mut parts, "allowed_domains", &network.allowed_domains);
    push_switch(
        &mut parts,
        "managed_allowed_domains_only",
        network.managed_allowed_domains_only,
    );
    push_list(&mut parts, "denied_domains", &network.denied_domains);
    push_list(&mut parts, "allow_unix_sockets", &network.allow_unix_sockets);
    push_switch(&mut parts, "allow_local_binding", network.allow_local_binding);
    lines::join_or_empty(&parts)
}

// ---------------------------------------------------------------------------
// The lines on requirements.

/// The line on a requirement.
pub open spec fn requirement(name: Seq<char>, value: Seq<char>, source: Option<Seq<char>>) -> lines::LineView {
    lines::plain(
        "  - "@ + name + ": "@ + value + " (source: "@ + (match source {
            Some(s) => s,
            None => "<unspecified>"@,
        }) + ")"@,
    )
}

/// Writes the line on a requirement.
pub fn requirement_line(name: &str, value: &str, source: Option<&str>) -> (line: StyledLine)
    ensures
        line@ == requirement(name@, value@, text::opt_str(source)),
{
    let mut out = "  - ".to_string();
    out.append(name);
    out.append(": ");
    out.append(value);
    out.append(" (source: ");
    out.append(
        match source {
            Some(s) => s,
            None => "<unspecified>",
        },
    );
    out.append(")");
    StyledLine { text: out, style: LineStyle::Plain }
}

/// The words for sandbox modes.
pub open spec fn sandbox_words(modes: Seq<SandboxModeRequirement>) -> Seq<Seq<char>> {
    Seq::new(modes.len(), |i: int| sandbox_word(modes[i]))
}

/// The words for ways to search the web.
pub open spec fn search_words(modes: Seq<WebSearchModeRequirement>) -> Seq<Seq<char>> {
    Seq::new(modes.len(), |i: int| search_word(modes[i]))
}

fn all_sandbox_words(modes: &[SandboxModeRequirement]) -> (out: Vec<String>)
    ensures
        text::texts(out@) == sandbox_words(modes@),
{
    let mut out: Vec<String> = Vec::new();
    let mut i: usize = 0;
    while i < modes.len()
        invariant
            i <= modes@.len(),
            out@.len() == i,
            forall|k: int| 0 <= k < i ==> (#[trigger] out@[k])@ == sandbox_word(modes@[k]),
        decreases modes@.len() - i,
    {
        out.push(format_sandbox_mode_requirement(modes[i]));
        i += 1;
    }
    proof {
        assert(text::texts(out@) =~= sandbox_words(modes@));
    }
    out
}

fn all_search_words(modes: &[WebSearchModeRequirement]) -> (out: Vec<String>)
    ensures
        text::texts(out@) == search_words(modes@),
{
    let mut out: Vec<String> = Vec::new();
    let mut i: usize = 0;
    while i < modes.len()
        invariant
            i <= modes@.len(),
            out@.len() == i,
            forall|k: int| 0 <= k < i ==> (#[trigger] out@[k])@ == search_word(modes@[k]),
        decreases modes@.len() - i,
    {
        out.push(format_web_search_mode(modes[i]));
        i += 1;
    }
    proof {
        assert(text::texts(out@) =~= search_words(modes@));
    }
    out
}

/// The line on what may be done without asking.
pub open spec fn approval_lines(r: ConfigRequirements) -> Seq<lines::LineView> {
    match r.allowed_approval_policies {
        Some(policies) => seq![
            requirement(
                "allowed_approval_policies"@,
                lines::joined_or_empty(text::texts(policies@)),
                text::opt_text(r.approval_policy_source),
            ),
        ],
        None => seq![],
    }
}

/// The line on sandbox modes.
pub open spec fn sandbox_lines(r: ConfigRequirements) -> Seq<lines::LineView> {
    match r.allowed_sandbox_modes {
        Some(modes) => seq![
            requirement(
                "allowed_sandbox_modes"@,
                lines::joined_or_empty(sandbox_words(modes@)),
                text::opt_text(r.sandbox_policy_source),
            ),
        ],
        None => seq![],
    }
}

/// The line on ways to search the web.
pub open spec fn search_lines(r: ConfigRequirements) -> Seq<lines::LineView> {
    match r.allowed_web_search_modes {
        Some(modes) => seq![
            requirement(
                "allowed_web_search_modes"@,
                lines::joined_or_empty(search_words(normalized_modes(modes@))),
                text::opt_text(r.web_search_mode_source),
            ),
        ],
        None => seq![],
    }
}

/// The line on servers.
pub open spec fn server_lines(r: ConfigRequirements) -> Seq<lines::LineView> {
    match r.mcp_servers {
        Some(servers) => seq![
            requirement(
                "mcp_servers"@,
                lines::joined_or_empty(text::texts(servers@)),
                text::opt_text(r.mcp_servers_source),
            ),
        ],
        None => seq![],
    }
}

/// The line on rules.
pub open spec fn rule_lines(r: ConfigRequirements) -> Seq<lines::LineView> {
    if r.rules_configured {
        seq![requirement("rules"@, "configured"@, text::opt_text(r.exec_policy_source))]
    } else {
        seq![]
    }
}

/// The line on where data has to stay.
pub open spec fn residency_lines(r: ConfigRequirements) -> Seq<lines::LineView> {
    match r.enforce_residency {
        Some(residency) => seq![
            requirement(
                "enforce_residency"@,
                residency_word(residency),
                text::opt_text(r.enforce_residency_source),
            ),
        ],
        None => seq![],
    }
}

/// The line on the network.
pub open spec fn network_lines(r: ConfigRequirements) -> Seq<lines::LineView> {
    match r.network {
        Some((network, source)) => seq![
            requirement(
                "experimental_network"@,
                lines::joined_or_empty(network_parts(network)),
                Some(source@),
            ),
        ],
        None => seq![],
    }
}

/// The lines on all requirements.
pub open spec fn requirement_lines(r: ConfigRequirements) -> Seq<lines::LineView> {
    approval_lines(r) + sandbox_lines(r) + search_lines(r) + server_lines(r) + rule_lines(r)
        + residency_lines(r) + network_lines(r)
}

fn opt_as_str(value: &Option<String>) -> (s: Option<&str>)
    ensures
        text::opt_str(s) == text::opt_text(*value),
{
    match value {
        Some(s) => Some(s.as_str()),
        None => None,
    }
}

fn push_requirement(out: &mut Vec<StyledLine>, name: &str, value: &str, source: Option<&str>)
    ensures
        lines::line_views(final(out)@) == lines::line_views(old(out)@) + seq![
            requirement(name@, value@, text::opt_str(source)),
        ],
{
    let ghost before = lines::line_views(out@);
    let line = requirement_line(name, value, source);
    let ghost told = line@;
    out.push(line);
    proof {
        assert(lines::line_views(out@) =~= before + seq![told]);
    }
}

fn render_requirements(r: &ConfigRequirements) -> (out: Vec<StyledLine>)
    ensures
        lines::line_views(out@) == requirement_lines(*r),
{
    let mut out: Vec<StyledLine> = Vec::new();
    if let Some(policies) = &r.allowed_approval_policies {
        push_requirement(
            &mut out,
            "allowed_approval_policies",
            lines::join_or_empty(policies).as_str(),
            opt_as_str(&r.approval_policy_source),
        );
    }
    proof {
        assert(lines::line_views(out@) =~= approval_lines(*r));
    }
    let ghost part = lines::line_views(out@);
    if let Some(modes) = &r.allowed_sandbox_modes {
        push_requirement(
            &mut out,
            "allowed_sandbox_modes",
            lines::join_or_empty(&all_sandbox_words(modes)).as_str(),
            opt_as_str(&r.sandbox_policy_source),
        );
    }
    proof {
        assert(lines::line_views(out@) =~= part + sandbox_lines(*r));
    }
    let ghost part = lines::line_views(out@);
    if let Some(modes) = &r.allowed_web_search_modes {
        push_requirement(
            &mut out,
            "allowed_web_search_modes",
            lines::join_or_empty(
                &all_search_words(&normalize_allowed_web_search_modes(modes)),
            ).as_str(),
            opt_as_str(&r.web_search_mode_source),
        );
    }
    proof {
        assert(lines::line_views(out@) =~= part + search_lines(*r));
    }
    let ghost part = lines::line_views(out@);
    if let Some(servers) = &r.mcp_servers {
        push_requirement(
            &mut out,
            "mcp_servers",
            lines::join_or_empty(servers).as_str(),
            opt_as_str(&r.mcp_servers_source),
        );
    }
    proof {
        assert(lines::line_views(out@) =~= part + server_lines(*r));
    }
    let ghost part = lines::line_views(out@);
    if r.rules_configured {
        push_requirement(&mut out, "rules", "configured", opt_as_str(&r.exec_policy_source));
    }
    proof {
        assert(lines::line_views(out@) =~= part + rule_lines(*r));
    }
    let ghost part = lines::line_views(out@);
    if let Some(residency) = r.enforce_residency {
        push_requirement(
            &mut out,
            "enforce_residency",
            format_residency_requirement(residency).as_str(),
            opt_as_str(&r.enforce_residency_source),
        );
    }
    proof {
        assert(lines::line_views(out@) =~= part + residency_lines(*r));
    }
    let ghost part = lines::line_views(out@);
    if let Some((network, source)) = &r.network {
        push_requirement(
            &mut out,
            "experimental_network",
            format_network_constraints(network).as_str(),
            Some(source.as_str()),
        );
    }
    proof {
        assert(lines::line_views(out@) =~= part + network_lines(*r));
    }
    out
}

// ---------------------------------------------------------------------------
// The report.

/// The report on the layers and the requirements.
pub open spec fn config_report(list: Seq<ConfigLayer>, r: ConfigRequirements) -> Seq<
    lines::LineView,
> {
    seq![
        (lines::LineView { text: "/debug-config"@, style: LineStyle::Magenta }),
        lines::plain(""@),
        lines::bold("Config layer stack (lowest precedence first):"@),
    ] + layers::layers_part(list) + seq![lines::plain(""@), lines::bold("Requirements:"@)] + (
    if requirement_lines(r).len() == 0 {
        seq![lines::dim("  <none>"@)]
    } else {
        requirement_lines(r)
    })
}

/// Writes the report on the layers and the requirements.
pub fn render_debug_config_lines(list: &[ConfigLayer], requirements: &ConfigRequirements) -> (out:
    Vec<StyledLine>)
    ensures
        lines::line_views(out@) == config_report(list@, *requirements),
{
    let mut out: Vec<StyledLine> = Vec::new();
    lines::push_line(&mut out, "/debug-config".to_string(), LineStyle::Magenta);
    lines::push_plain(&mut out, "");
    lines::push_line(
        &mut out,
        "Config layer stack (lowest precedence first):".to_string(),
        LineStyle::Bold,
    );
    lines::push_lines(&mut out, layers::render_layers(list));
    lines::push_plain(&mut out, "");
    lines::push_line(&mut out, "Requirements:".to_string(), LineStyle::Bold);
    let told = render_requirements(requirements);
    proof {
        assert(lines::line_views(told@).len() == told@.len());
    }
    if told.len() == 0 {
        lines::push_dim(&mut out, "  <none>");
    } else {
        lines::push_lines(&mut out, told);
    }
    proof {
        assert(lines::line_views(out@) =~= config_report(list@, *requirements));
    }
    out
}

/// Not to search the web is always allowed, and nothing that is allowed is
/// taken away.
pub proof fn not_searching_is_always_allowed(modes: Seq<WebSearchModeRequirement>)
    ensures
        normalized_modes(modes).contains(WebSearchModeRequirement::Disabled),
        forall|mode: WebSearchModeRequirement|
            modes.contains(mode) ==> #[trigger] normalized_modes(modes).contains(mode),
        normalized_modes(normalized_modes(modes)) == normalized_modes(modes),
{
    let out = normalized_modes(modes);
    if !modes.contains(WebSearchModeRequirement::Disabled) {
        assert(out[modes.len() as int] == WebSearchModeRequirement::Disabled);
    }
    assert forall|mode: WebSearchModeRequirement| modes.contains(mode) implies #[trigger] out.contains(
        mode,
    ) by {
        let k = choose|k: int| 0 <= k < modes.len() && modes[k] == mode;
        assert(out[k] == mode);
    }
}

// ---------------------------------------------------------------------------
// What is shown of requirements.

/// The words for what may be required.
pub proof fn requirements_have_their_words()
    ensures
        sandbox_word(SandboxModeRequirement::ReadOnly) == "read-only"@,
        sandbox_word(SandboxModeRequirement::WorkspaceWrite) == "workspace-write"@,
        sandbox_word(SandboxModeRequirement::DangerFullAccess) == "danger-full-access"@,
        sandbox_word(SandboxModeRequirement::ExternalSandbox) == "external-sandbox"@,
        search_word(WebSearchModeRequirement::Disabled) == "disabled"@,
        search_word(WebSearchModeRequirement::Cached) == "cached"@,
        search_word(WebSearchModeRequirement::Live) == "live"@,
        residency_word(ResidencyRequirement::Us) == "us"@,
{
}

/// A line of a requirement, where there is one.
pub open spec fn shown_if(present: bool, name: Seq<char>, value: Seq<char>, source: Option<String>)
    -> Seq<lines::LineView> {
    if present {
        seq![
            (lines::LineView {
                text: "  - "@ + name + ": "@ + value + " (source: "@ + (if source is Some {
                    source->Some_0@
                } else {
                    "<unspecified>"@
                }) + ")"@,
                style: LineStyle::Plain,
            }),
        ]
    } else {
        seq![]
    }
}

/// What is required is shown in this order, each with its source; what is not is
/// left out.
pub proof fn requirements_are_shown_with_their_source(
    r: ConfigRequirements,
    sandbox: Seq<Seq<char>>,
    search: Seq<Seq<char>>,
)
    requires
        r.allowed_sandbox_modes is Some ==> sandbox.len() == r.allowed_sandbox_modes->Some_0@.len()
            && forall|i: int|
            0 <= i < sandbox.len() ==> #[trigger] sandbox[i] == sandbox_word(
                r.allowed_sandbox_modes->Some_0@[i],
            ),
        r.allowed_web_search_modes is Some ==> {
            let modes = normalized_modes(r.allowed_web_search_modes->Some_0@);
            search.len() == modes.len() && forall|i: int|
                0 <= i < search.len() ==> #[trigger] search[i] == search_word(modes[i])
        },
    ensures
        requirement_lines(r) == shown_if(
            r.allowed_approval_policies is Some,
            "allowed_approval_policies"@,
            lines::joined_or_empty(text::texts(r.allowed_approval_policies->Some_0@)),
            r.approval_policy_source,
        ) + shown_if(
            r.allowed_sandbox_modes is Some,
            "allowed_sandbox_modes"@,
            lines::joined_or_empty(sandbox),
            r.sandbox_policy_source,
        ) + shown_if(
            r.allowed_web_search_modes is Some,
            "allowed_web_search_modes"@,
            lines::joined_or_empty(search),
            r.web_search_mode_source,
        ) + shown_if(
            r.mcp_servers is Some,
            "mcp_servers"@,
            lines::joined_or_empty(text::texts(r.mcp_servers->Some_0@)),
            r.mcp_servers_source,
        ) + shown_if(r.rules_configured, "rules"@, "configured"@, r.exec_policy_source) + shown_if(
            r.enforce_residency is Some,
            "enforce_residency"@,
            residency_word(r.enforce_residency->Some_0),
            r.enforce_residency_source,
        ) + shown_if(
            r.network is Some,
            "experimental_network"@,
            lines::joined_or_empty(network_parts(r.network->Some_0.0)),
            Some(r.network->Some_0.1),
        ),
{
    if r.allowed_sandbox_modes is Some {
        assert(sandbox_words(r.allowed_sandbox_modes->Some_0@) =~= sandbox);
    }
    if r.allowed_web_search_modes is Some {
        assert(search_words(normalized_modes(r.allowed_web_search_modes->Some_0@)) =~= search);
    }
}

/// A setting of the network, where it is made.
pub open spec fn made_if(present: bool, name: Seq<char>, value: Seq<char>) -> Seq<Seq<char>> {
    if present {
        seq![name + "="@ + value]
    } else {
        seq![]
    }
}

/// The settings of the network are shown in this order: switches as true or
/// false, ports as numbers, and lists in brackets; what is not set is left out.
pub proof fn network_settings_are_shown(n: NetworkConstraints)
    ensures
        ({
            let switch = |name: Seq<char>, value: Option<bool>|
                made_if(
                    value is Some,
                    name,
                    if value == Some(true) {
                        "true"@
                    } else {
                        "false"@
                    },
                );
            let port = |name: Seq<char>, value: Option<u16>|
                made_if(value is Some, name, text::decimal(value->Some_0 as nat));
            let list = |name: Seq<char>, value: Option<Vec<String>>|
                made_if(
                    value is Some,
                    name,
                    "["@ + text::joined(text::texts(value->Some_0@), ", "@) + "]"@,
                );
            network_parts(n) =~~= switch("enabled"@, n.enabled) + port("http_port"@, n.http_port)
                + port("socks_port"@, n.socks_port) + switch(
                "allow_upstream_proxy"@,
                n.allow_upstream_proxy,
            ) + switch(
                "dangerously_allow_non_loopback_proxy"@,
                n.dangerously_allow_non_loopback_proxy,
            ) + switch(
                "dangerously_allow_all_unix_sockets"@,
                n.dangerously_allow_all_unix_sockets,
            ) + list("allowed_domains"@, n.allowed_domains) + switch(
                "managed_allowed_domains_only"@,
                n.managed_allowed_domains_only,
            ) + list("denied_domains"@, n.denied_domains) + list(
                "allow_unix_sockets"@,
                n.allow_unix_sockets,
            ) + switch("allow_local_binding"@, n.allow_local_binding)
        }),
{
    lemma_list_part("allowed_domains"@, n.allowed_domains);
    lemma_list_part("denied_domains"@, n.denied_domains);
    lemma_list_part("allow_unix_sockets"@, n.allow_unix_sockets);
}

proof fn lemma_list_part(name: Seq<char>, value: Option<Vec<String>>)
    ensures
        list_part(name, value) == made_if(
            value is Some,
            name,
            "["@ + text::joined(text::texts(value->Some_0@), ", "@) + "]"@,
        ),
{
    reveal_strlit("=[");
    reveal_strlit("=");
    reveal_strlit("[");
    assert("=["@ =~= "="@ + "["@);
    if value is Some {
        let inner = text::joined(text::texts(value->Some_0@), ", "@);
        assert(name + "=["@ + inner + "]"@ =~= name + "="@ + ("["@ + inner + "]"@));
    }
}

/// The report shows the layers and then the requirements, each under its title,
/// and says so where there are none.
pub proof fn reports_show_layers_then_requirements(list: Seq<ConfigLayer>, r: ConfigRequirements)
    ensures
        ({
            let line = |text: Seq<char>, style: LineStyle| (lines::LineView { text, style });
            let none = seq![line("  <none>"@, LineStyle::Dim)];
            config_report(list, r) == seq![
                line("/debug-config"@, LineStyle::Magenta),
                line(""@, LineStyle::Plain),
                line("Config layer stack (lowest precedence first):"@, LineStyle::Bold),
            ] + layers::layers_part(list) + seq![
                line(""@, LineStyle::Plain),
                line("Requirements:"@, LineStyle::Bold),
            ] + if requirement_lines(r).len() > 0 {
                requirement_lines(r)
            } else {
                none
            }
        }),
{
}

} // verus!
