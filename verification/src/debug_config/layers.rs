//! The layers of the configuration.

use vstd::prelude::*;

use crate::debug_config::lines;
use crate::debug_config::lines::LineStyle;
use crate::debug_config::lines::StyledLine;
use crate::debug_config::toml_node;
use crate::debug_config::toml_node::TomlNode;
use crate::text;

verus! {

/// Where a layer comes from.
#[derive(Debug)]
pub enum ConfigLayerSource {
    Mdm { domain: String, key: String },
    System { file: String },
    User { file: String },
    Project { dot_codex_folder: String },
    SessionFlags,
    LegacyManagedConfigTomlFromFile { file: String },
    LegacyManagedConfigTomlFromMdm,
}

/// A layer: where it comes from, what it holds, how that was written, and why
/// it does not count, where that is so.
#[derive(Debug)]
pub struct ConfigLayer {
    pub source: ConfigLayerSource,
    pub config: TomlNode,
    pub raw_toml: Option<String>,
    pub disabled_reason: Option<String>,
}

/// The words for a source.
pub open spec fn source_words(source: ConfigLayerSource) -> Seq<char> {
    match source {
        ConfigLayerSource::Mdm { domain, key } => "MDM ("@ + domain@ + ":"@ + key@ + ")"@,
        ConfigLayerSource::System { file } => "system ("@ + file@ + ")"@,
        ConfigLayerSource::User { file } => "user ("@ + file@ + ")"@,
        ConfigLayerSource::Project { dot_codex_folder } => "project ("@ + dot_codex_folder@
            + "/config.toml)"@,
        ConfigLayerSource::SessionFlags => "session-flags"@,
        ConfigLayerSource::LegacyManagedConfigTomlFromFile { file } =>
            "legacy managed_config.toml ("@ + file@ + ")"@,
        ConfigLayerSource::LegacyManagedConfigTomlFromMdm => "legacy managed_config.toml (MDM)"@,
    }
}

fn wrapped(front: &str, inner: &str, back: &str) -> (out: String)
    ensures
        out@ == front@ + inner@ + back@,
{
    let mut out = front.to_string();
    out.append(inner);
    out.append(back);
    out
}

/// Says where a layer comes from.
pub fn format_config_layer_source(source: &ConfigLayerSource) -> (out: String)
    ensures
        out@ == source_words(*source),
{
    match source {
        ConfigLayerSource::Mdm { domain, key } => {
            let mut out = wrapped("MDM (", domain.as_str(), ":");
            out.append(key.as_str());
            out.append(")");
            out
        },
        ConfigLayerSource::System { file } => wrapped("system (", file.as_str(), ")"),
        ConfigLayerSource::User { file } => wrapped("user (", file.as_str(), ")"),
        ConfigLayerSource::Project { dot_codex_folder } => wrapped(
            "project (",
            dot_codex_folder.as_str(),
            "/config.toml)",
        ),
        ConfigLayerSource::SessionFlags => "session-flags".to_string(),
        ConfigLayerSource::LegacyManagedConfigTomlFromFile { file } => wrapped(
            "legacy managed_config.toml (",
            file.as_str(),
            ")",
        ),
        ConfigLayerSource::LegacyManagedConfigTomlFromMdm =>
            "legacy managed_config.toml (MDM)".to_string(),
    }
}

/// The lines on what was given on the command line.
pub open spec fn flag_lines(config: toml_node::TomlView) -> Seq<lines::LineView> {
    let list = toml_node::pairs(config, None);
    if list.len() == 0 {
        seq![lines::dim("     - <none>"@)]
    } else {
        Seq::new(
            list.len(),
            |i: int| lines::plain("     - "@ + list[i].0 + " = "@ + list[i].1),
        )
    }
}

/// Lists what was given on the command line.
pub fn render_session_flag_details(config: &TomlNode) -> (out: Vec<StyledLine>)
    ensures
        lines::line_views(out@) == flag_lines(config@),
{
    let mut list: Vec<(String, String)> = Vec::new();
    proof {
        assert(toml_node::pair_views(list@) =~= seq![]);
    }
    toml_node::flatten_toml_key_values(config, None, &mut list);
    let ghost told = toml_node::pairs(config@, None);
    let mut out: Vec<StyledLine> = Vec::new();
    proof {
        assert(toml_node::pair_views(list@) =~= told);
        assert(told.len() == list@.len());
        assert(lines::line_views(out@) =~= seq![]);
    }
    if list.len() == 0 {
        lines::push_dim(&mut out, "     - <none>");
        proof {
            assert(lines::line_views(out@) =~= flag_lines(config@));
        }
        return out;
    }
    let ghost all = flag_lines(config@);
    let mut i: usize = 0;
    while i < list.len()
        invariant
            i <= list@.len(),
            told == toml_node::pairs(config@, None),
            toml_node::pair_views(list@) == told,
            told.len() == list@.len(),
            told.len() > 0,
            all == flag_lines(config@),
            lines::line_views(out@) == all.take(i as int),
        decreases list@.len() - i,
    {
        proof {
            assert(told[i as int] == (list@[i as int].0@, list@[i as int].1@));
        }
        let mut line = wrapped("     - ", list[i].0.as_str(), " = ");
        line.append(list[i].1.as_str());
        lines::push_line(&mut out, line, LineStyle::Plain);
        proof {
            assert(all.take(i as int).push(all[i as int]) =~= all.take(i + 1));
        }
        i += 1;
    }
    proof {
        assert(all.take(i as int) =~= all);
    }
    out
}

/// The lines on what device management sets, given how it is written.
pub open spec fn mdm_lines(value: Seq<char>) -> Seq<lines::LineView> {
    if value.len() == 0 {
        seq![lines::dim("     MDM value: <empty>"@)]
    } else if value.contains('\n') {
        seq![lines::plain("     MDM value:"@)] + lines::indented_lines(
            text::bare_lines(value),
            "       "@,
        )
    } else {
        seq![lines::plain("     MDM value: "@ + value)]
    }
}

fn has_newline(s: &[char]) -> (r: bool)
    ensures
        r == s@.contains('\n'),
{
    let mut i: usize = 0;
    while i < s.len()
        invariant
            i <= s@.len(),
            forall|k: int| 0 <= k < i ==> (#[trigger] s@[k]) != '\n',
        decreases s@.len() - i,
    {
        if s[i] == '\n' {
            proof {
                assert(s@[i as int] == '\n');
            }
            return true;
        }
        i += 1;
    }
    false
}

/// Lists what device management sets, given how it is written.
pub fn render_mdm_value(value: &str) -> (out: Vec<StyledLine>)
    ensures
        lines::line_views(out@) == mdm_lines(value@),
{
    let mut out: Vec<StyledLine> = Vec::new();
    let chars = text::chars_of(value);
    proof {
        assert(lines::line_views(out@) =~= seq![]);
    }
    if chars.len() == 0 {
        lines::push_dim(&mut out, "     MDM value: <empty>");
    } else if has_newline(&chars) {
        lines::push_plain(&mut out, "     MDM value:");
        lines::push_lines(&mut out, lines::indent_lines(value, "       "));
    } else {
        lines::push_line(
            &mut out,
            lines::concat("     MDM value: ", value),
            LineStyle::Plain,
        );
    }
    proof {
        assert(lines::line_views(out@) =~= mdm_lines(value@));
    }
    out
}

/// How the contents of a layer are written: as they were, or as they are
/// written out.
pub open spec fn written(layer: ConfigLayer, out: Seq<char>) -> Seq<char> {
    match layer.raw_toml {
        Some(raw) => raw@,
        None => out,
    }
}

/// Lists what device management sets in a layer.
pub fn render_mdm_layer_details(layer: &ConfigLayer) -> (out: Vec<StyledLine>)
    ensures
        lines::line_views(out@) == mdm_lines(written(*layer, toml_node::toml_text(layer.config@))),
{
    match &layer.raw_toml {
        Some(raw) => render_mdm_value(raw.as_str()),
        None => {
            let value = toml_node::format_toml_value(&layer.config);
            render_mdm_value(value.as_str())
        },
    }
}

/// The lines on the contents of a layer that is in no file.
pub open spec fn detail_lines(layer: ConfigLayer) -> Seq<lines::LineView> {
    match layer.source {
        ConfigLayerSource::SessionFlags => flag_lines(layer.config@),
        ConfigLayerSource::Mdm { .. } | ConfigLayerSource::LegacyManagedConfigTomlFromMdm => {
            mdm_lines(written(layer, toml_node::toml_text(layer.config@)))
        },
        _ => seq![],
    }
}

/// Lists the contents of a layer that is in no file.
pub fn render_non_file_layer_details(layer: &ConfigLayer) -> (out: Vec<StyledLine>)
    ensures
        lines::line_views(out@) == detail_lines(*layer),
{
    match &layer.source {
        ConfigLayerSource::SessionFlags => render_session_flag_details(&layer.config),
        ConfigLayerSource::Mdm { .. } => render_mdm_layer_details(layer),
        ConfigLayerSource::LegacyManagedConfigTomlFromMdm => render_mdm_layer_details(layer),
        _ => {
            let out: Vec<StyledLine> = Vec::new();
            proof {
                assert(lines::line_views(out@) =~= detail_lines(*layer));
            }
            out
        },
    }
}

/// Whether a layer counts, in a word.
pub open spec fn state_word(layer: ConfigLayer) -> Seq<char> {
    if layer.disabled_reason is Some {
        "disabled"@
    } else {
        "enabled"@
    }
}

/// The lines on a layer.
pub open spec fn layer_lines(index: nat, layer: ConfigLayer) -> Seq<lines::LineView> {
    seq![
        lines::plain(
            "  "@ + text::decimal(index + 1) + ". "@ + source_words(layer.source) + " ("@
                + state_word(layer) + ")"@,
        ),
    ] + detail_lines(layer) + match layer.disabled_reason {
        Some(reason) => seq![lines::dim("     reason: "@ + reason@)],
        None => seq![],
    }
}

/// The lines on layers.
pub open spec fn all_layer_lines(layers: Seq<ConfigLayer>) -> Seq<lines::LineView>
    decreases layers.len(),
{
    if layers.len() == 0 {
        seq![]
    } else {
        all_layer_lines(layers.drop_last()) + layer_lines(
            (layers.len() - 1) as nat,
            layers.last(),
        )
    }
}

/// The part on the layers of the configuration.
pub open spec fn layers_part(layers: Seq<ConfigLayer>) -> Seq<lines::LineView> {
    if layers.len() == 0 {
        seq![lines::dim("  <none>"@)]
    } else {
        all_layer_lines(layers)
    }
}

fn render_layer(index: usize, layer: &ConfigLayer) -> (out: Vec<StyledLine>)
    requires
        index < usize::MAX,
    ensures
        lines::line_views(out@) == layer_lines(index as nat, *layer),
{
    let mut out: Vec<StyledLine> = Vec::new();
    proof {
        assert(lines::line_views(out@) =~= seq![]);
    }
    let mut line = wrapped("  ", text::render_usize(index + 1).as_str(), ". ");
    line.append(format_config_layer_source(&layer.source).as_str());
    line.append(" (");
    line.append(
        if layer.disabled_reason.is_some() {
            "disabled"
        } else {
            "enabled"
        },
    );
    line.append(")");
    lines::push_line(&mut out, line, LineStyle::Plain);
    lines::push_lines(&mut out, render_non_file_layer_details(layer));
    if let Some(reason) = &layer.disabled_reason {
        lines::push_line(
            &mut out,
            lines::concat("     reason: ", reason.as_str()),
            LineStyle::Dim,
        );
    }
    proof {
        assert(lines::line_views(out@) =~= layer_lines(index as nat, *layer));
    }
    out
}

/// Lists the layers of the configuration, lowest precedence first.
pub fn render_layers(layers: &[ConfigLayer]) -> (out: Vec<StyledLine>)
    ensures
        lines::line_views(out@) == layers_part(layers@),
{
    let mut out: Vec<StyledLine> = Vec::new();
    proof {
        assert(lines::line_views(out@) =~= seq![]);
    }
    if layers.len() == 0 {
        lines::push_dim(&mut out, "  <none>");
        proof {
            assert(lines::line_views(out@) =~= layers_part(layers@));
        }
        return out;
    }
    let mut i: usize = 0;
    proof {
        assert(lines::line_views(out@) =~= all_layer_lines(layers@.take(0)));
    }
    while i < layers.len()
        invariant
            i <= layers@.len(),
            lines::line_views(out@) == all_layer_lines(layers@.take(i as int)),
        decreases layers@.len() - i,
    {
        lines::push_lines(&mut out, render_layer(i, &layers[i]));
        proof {
            assert(layers@.take(i + 1).drop_last() =~= layers@.take(i as int));
        }
        i += 1;
    }
    proof {
        assert(layers@.take(i as int) =~= layers@);
    }
    out
}

// ---------------------------------------------------------------------------
// What is shown of layers.

/// How each source of a layer is named.
pub proof fn sources_are_named(a: String, b: String)
    ensures
        source_words(ConfigLayerSource::Mdm { domain: a, key: b }) == "MDM ("@ + a@ + ":"@ + b@
            + ")"@,
        source_words(ConfigLayerSource::System { file: a }) == "system ("@ + a@ + ")"@,
        source_words(ConfigLayerSource::User { file: a }) == "user ("@ + a@ + ")"@,
        source_words(ConfigLayerSource::Project { dot_codex_folder: a }) == "project ("@ + a@
            + "/config.toml)"@,
        source_words(ConfigLayerSource::SessionFlags) == "session-flags"@,
        source_words(ConfigLayerSource::LegacyManagedConfigTomlFromFile { file: a })
            == "legacy managed_config.toml ("@ + a@ + ")"@,
        source_words(ConfigLayerSource::LegacyManagedConfigTomlFromMdm)
            == "legacy managed_config.toml (MDM)"@,
{
}

/// A layer starts with its number, counted from one, its source and whether it is
/// enabled; it ends with the reason where it is not. Between them stands what it
/// holds, unless it comes from a file that can be read.
pub proof fn layers_show_source_and_state(index: nat, layer: ConfigLayer, reason: String)
    ensures
        ({
            let shown = layer_lines(index, layer);
            let head = |state: Seq<char>|
                (lines::LineView {
                    text: "  "@ + text::decimal(index + 1) + ". "@ + source_words(layer.source)
                        + " ("@ + state + ")"@,
                    style: LineStyle::Plain,
                });
            let last = lines::LineView {
                text: "     reason: "@ + reason@,
                style: LineStyle::Dim,
            };
            &&& layer.disabled_reason is None ==> shown == seq![head("enabled"@)] + detail_lines(
                layer,
            )
            &&& layer.disabled_reason == Some(reason) ==> shown == seq![head("disabled"@)]
                + detail_lines(layer) + seq![last]
            &&& layer.source is System || layer.source is User || layer.source is Project
                || layer.source is LegacyManagedConfigTomlFromFile ==> detail_lines(layer).len()
                == 0
            &&& layer.source is SessionFlags ==> detail_lines(layer) == flag_lines(layer.config@)
            &&& (layer.source is Mdm || layer.source is LegacyManagedConfigTomlFromMdm)
                && layer.raw_toml is Some ==> detail_lines(layer) == mdm_lines(
                layer.raw_toml->Some_0@,
            )
            &&& (layer.source is Mdm || layer.source is LegacyManagedConfigTomlFromMdm)
                && layer.raw_toml is None ==> detail_lines(layer) == mdm_lines(
                toml_node::toml_text(layer.config@),
            )
        }),
{
    let head = layer_lines(index, layer)[0];
    let none = Seq::<lines::LineView>::empty();
    assert(seq![head] + detail_lines(layer) + none =~= seq![head] + detail_lines(layer));
}

/// Layers are shown in their order, and that there are none is shown too.
pub proof fn layers_are_shown_in_order(layers: Seq<ConfigLayer>, layer: ConfigLayer)
    ensures
        layers_part(Seq::empty()) == seq![
            (lines::LineView { text: "  <none>"@, style: LineStyle::Dim }),
        ],
        layers.len() == 0 ==> layers_part(layers.push(layer)) == layer_lines(0, layer),
        layers.len() > 0 ==> layers_part(layers.push(layer)) == layers_part(layers) + layer_lines(
            layers.len(),
            layer,
        ),
{
    assert(layers.push(layer).drop_last() =~= layers);
    if layers.len() == 0 {
        assert(all_layer_lines(layers) + layer_lines(0, layer) =~= layer_lines(0, layer));
    }
}

/// Flags are shown as settings and their values; a value that is managed is shown
/// as it is, on its own lines where it has several, and as empty where it is.
pub proof fn values_are_shown(config: toml_node::TomlView, value: Seq<char>, i: int)
    ensures
        ({
            let list = toml_node::pairs(config, None);
            &&& list.len() == 0 ==> flag_lines(config) == seq![
                (lines::LineView { text: "     - <none>"@, style: LineStyle::Dim }),
            ]
            &&& list.len() > 0 ==> flag_lines(config).len() == list.len()
            &&& 0 <= i < list.len() ==> flag_lines(config)[i] == (lines::LineView {
                text: "     - "@ + list[i].0 + " = "@ + list[i].1,
                style: LineStyle::Plain,
            })
            &&& mdm_lines(Seq::empty()) == seq![
                (lines::LineView { text: "     MDM value: <empty>"@, style: LineStyle::Dim }),
            ]
            &&& value.len() > 0 && !value.contains('\n') ==> mdm_lines(value) == seq![
                (lines::LineView { text: "     MDM value: "@ + value, style: LineStyle::Plain }),
            ]
            &&& value.contains('\n') ==> mdm_lines(value) == seq![
                (lines::LineView { text: "     MDM value:"@, style: LineStyle::Plain }),
            ] + Seq::new(
                text::bare_lines(value).len(),
                |k: int|
                    (lines::LineView {
                        text: "       "@ + text::bare_lines(value)[k],
                        style: LineStyle::Plain,
                    }),
            )
        }),
{
    if value.contains('\n') {
        let k = choose|k: int| 0 <= k < value.len() && value[k] == '\n';
        assert(value.len() > 0);
        assert(lines::indented_lines(text::bare_lines(value), "       "@) =~= Seq::new(
            text::bare_lines(value).len(),
            |k: int|
                (lines::LineView {
                    text: "       "@ + text::bare_lines(value)[k],
                    style: LineStyle::Plain,
                }),
        ));
    }
}

} // verus!
