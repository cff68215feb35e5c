//! How the answers of a language server are shown.

use vstd::prelude::*;

use crate::json;
use crate::json::Json;
use crate::json_text;
use crate::lsp::actions;
use crate::lsp::actions::LspAction;
use crate::lsp::uri;
use crate::text;

verus! {

/// Whether the value under a key is a URI.
pub open spec fn is_uri_key(key: Seq<char>) -> bool {
    key == "uri"@ || key == "targetUri"@ || key == "oldUri"@ || key == "newUri"@
}

/// Whether the value under a key counts lines or characters.
pub open spec fn is_count_key(key: Seq<char>) -> bool {
    key == "line"@ || key == "character"@
}

/// A number that counts from zero as one that counts from one. The largest
/// number there is stays as it is.
pub open spec fn counted_from_one(n: int) -> json::JsonView {
    if n < i64::MAX {
        json::integer_view(n + 1)
    } else {
        json::integer_view(n)
    }
}

/// The value under a key as it is shown: a file URI as the path that it names,
/// a position counting from one.
pub open spec fn shown_entry(key: Seq<char>, value: json::JsonView) -> Option<json::JsonView> {
    if is_uri_key(key) {
        match value {
            json::JsonView::Str(u) => match uri::shown_path(
                uri::url_scheme_name(u),
                uri::url_path_name(u),
            ) {
                Some(path) => Some(json::JsonView::Str(path)),
                None => None,
            },
            _ => None,
        }
    } else if is_count_key(key) {
        match value.as_i64() {
            Some(n) => Some(counted_from_one(n)),
            None => None,
        }
    } else {
        None
    }
}

/// A value as it is shown, through all its layers.
pub open spec fn shown(value: json::JsonView) -> json::JsonView
    decreases value,
{
    match value {
        json::JsonView::Array(items) => json::JsonView::Array(
            Seq::new(
                items.len(),
                |i: int|
                    if 0 <= i < items.len() {
                        shown(items[i])
                    } else {
                        json::JsonView::Null
                    },
            ),
        ),
        json::JsonView::Object(entries) => json::JsonView::Object(
            Seq::new(
                entries.len(),
                |i: int|
                    if 0 <= i < entries.len() {
                        (
                            entries[i].0,
                            match shown_entry(entries[i].0, entries[i].1) {
                                Some(changed) => changed,
                                None => shown(entries[i].1),
                            },
                        )
                    } else {
                        (Seq::empty(), json::JsonView::Null)
                    },
            ),
        ),
        _ => value,
    }
}

fn show_entry(key: &str, value: &Json) -> (r: Option<Json>)
    ensures
        json::opt_view(r) == shown_entry(key@, value@),
{
    if text::same_text(key, "uri") || text::same_text(key, "targetUri") || text::same_text(
        key,
        "oldUri",
    ) || text::same_text(key, "newUri") {
        match value {
            Json::Str(u) => match uri::uri_display_path(u.as_str()) {
                Some(path) => Some(Json::Str(path)),
                None => None,
            },
            _ => None,
        }
    } else if text::same_text(key, "line") || text::same_text(key, "character") {
        match value.as_i64() {
            Some(n) => if n < i64::MAX {
                Some(json::integer(n + 1))
            } else {
                Some(json::integer(n))
            },
            None => None,
        }
    } else {
        None
    }
}

/// Shows file URIs as paths and positions counting from one, in a value and in
/// all that it holds.
pub fn normalize_value_for_output(value: &Json) -> (out: Json)
    ensures
        out@ == shown(value@),
    decreases value,
{
    match value {
        Json::Array(items) => {
            let mut out: Vec<Json> = Vec::new();
            let mut i: usize = 0;
            while i < items.len()
                invariant
                    *value == Json::Array(*items),
                    i <= items@.len(),
                    out@.len() == i,
                    forall|k: int| 0 <= k < i ==> #[trigger] out@[k]@ == shown(items@[k]@),
                decreases items@.len() - i,
            {
                proof {
                    assert(decreases_to!(*value => value->Array_0));
                }
                out.push(normalize_value_for_output(&items[i]));
                i += 1;
            }
            proof {
                json::lemma_array_view(*items);
                json::lemma_array_view(out);
                assert(json::views(out@) =~= shown(value@)->Array_0);
            }
            Json::Array(out)
        },
        Json::Object(entries) => {
            let mut out: Vec<(String, Json)> = Vec::new();
            let mut i: usize = 0;
            while i < entries.len()
                invariant
                    *value == Json::Object(*entries),
                    i <= entries@.len(),
                    out@.len() == i,
                    forall|k: int|
                        0 <= k < i ==> (#[trigger] out@[k]).0@ == entries@[k].0@ && out@[k].1@
                            == (match shown_entry(entries@[k].0@, entries@[k].1@) {
                            Some(changed) => changed,
                            None => shown(entries@[k].1@),
                        }),
                decreases entries@.len() - i,
            {
                proof {
                    assert(decreases_to!(*value => value->Object_0));
                }
                let key = entries[i].0.clone();
                let inner = match show_entry(key.as_str(), &entries[i].1) {
                    Some(changed) => changed,
                    None => normalize_value_for_output(&entries[i].1),
                };
                out.push((key, inner));
                i += 1;
            }
            proof {
                json::lemma_object_view(*entries);
                json::lemma_object_view(out);
                assert(json::entry_views(out@) =~= shown(value@)->Object_0);
            }
            Json::Object(out)
        },
        _ => value.duplicate(),
    }
}

/// The first items of an array; anything else is kept.
pub open spec fn first_items(value: json::JsonView, limit: int) -> json::JsonView {
    match value {
        json::JsonView::Array(items) => if items.len() > limit {
            json::JsonView::Array(items.take(limit))
        } else {
            value
        },
        _ => value,
    }
}

/// The object with its first value under `key` replaced.
pub open spec fn with_replaced(
    value: json::JsonView,
    key: Seq<char>,
    by: json::JsonView,
) -> json::JsonView {
    match value {
        json::JsonView::Object(entries) => json::JsonView::Object(
            json::with_entry(entries, key, by),
        ),
        _ => value,
    }
}

/// A result of at most `limit` items. A list of completions may stand inside
/// an object.
pub open spec fn truncated(action: LspAction, value: json::JsonView, limit: int) -> json::JsonView {
    if limit == 0 {
        value
    } else {
        match action {
            LspAction::Completion => match json::opt_as_array(value.get("items"@)) {
                Some(items) => with_replaced(
                    value,
                    "items"@,
                    first_items(json::JsonView::Array(items), limit),
                ),
                None => first_items(value, limit),
            },
            LspAction::Definition
            | LspAction::References
            | LspAction::Diagnostics
            | LspAction::DocumentSymbols
            | LspAction::WorkspaceSymbols
            | LspAction::CodeActions => first_items(value, limit),
            _ => value,
        }
    }
}

fn keep_first(value: Json, limit: usize) -> (out: Json)
    ensures
        out@ == first_items(value@, limit as int),
{
    match value {
        Json::Array(items) => {
            let mut items = items;
            proof {
                json::lemma_array_view(items);
            }
            let ghost before = json::views(items@);
            if items.len() > limit {
                items.truncate(limit);
                proof {
                    assert(json::views(items@) =~= before.take(limit as int));
                }
            }
            json::array(items)
        },
        other => other,
    }
}

/// Cuts a result down to a number of items.
pub fn truncate_result(action: LspAction, value: Json, limit: usize) -> (out: Json)
    ensures
        out@ == truncated(action, value@, limit as int),
{
    if limit == 0 {
        return value;
    }
    match action {
        LspAction::Completion => match value {
            Json::Object(entries) => {
                proof {
                    json::lemma_object_view(entries);
                    json::lemma_entry_index(json::entry_views(entries@), "items"@, 0);
                }
                let ghost all = json::entry_views(entries@);
                let mut entries = entries;
                let mut i: usize = 0;
                while i < entries.len()
                    invariant
                        i <= entries@.len(),
                        all == json::entry_views(entries@),
                        value@ == json::JsonView::Object(all),
                        limit > 0,
                        action is Completion,
                        json::entry_index(all, "items"@, 0) == json::entry_index(
                            all,
                            "items"@,
                            i as int,
                        ),
                        match json::entry_index(all, "items"@, 0) {
                            Some(k) => 0 <= k < all.len() && json::lookup(all, "items"@, 0) == Some(
                                all[k].1,
                            ),
                            None => json::lookup(all, "items"@, 0) is None,
                        },
                    decreases entries@.len() - i,
                {
                    proof {
                        assert(all[i as int] == (entries@[i as int].0@, entries@[i as int].1@));
                    }
                    if text::same_text(entries[i].0.as_str(), "items") {
                        let (key, inner) = entries.remove(i);
                        let ghost inner_view = inner@;
                        let inner = keep_first(inner, limit);
                        entries.insert(i, (key, inner));
                        proof {
                            json::lemma_object_view(entries);
                            assert(json::entry_views(entries@) =~= all.update(
                                i as int,
                                ("items"@, first_items(inner_view, limit as int)),
                            ));
                            if !(inner_view is Array) {
                                assert(all.update(i as int, ("items"@, inner_view)) =~= all);
                            }
                        }
                        return Json::Object(entries);
                    }
                    i += 1;
                }
                proof {
                    json::lemma_object_view(entries);
                }
                Json::Object(entries)
            },
            other => keep_first(other, limit),
        },
        LspAction::Definition
        | LspAction::References
        | LspAction::Diagnostics
        | LspAction::DocumentSymbols
        | LspAction::WorkspaceSymbols
        | LspAction::CodeActions => keep_first(value, limit),
        _ => value,
    }
}

/// An array is never longer than the limit, where there is one, for the
/// actions whose result is a list.
pub proof fn lists_keep_to_the_limit(action: LspAction, value: json::JsonView, limit: int)
    requires
        limit > 0,
        action is Definition || action is References || action is Diagnostics
            || action is DocumentSymbols || action is WorkspaceSymbols || action is CodeActions,
        value is Array,
    ensures
        truncated(action, value, limit) is Array,
        truncated(action, value, limit)->Array_0.len() <= limit,
        truncated(action, value, limit)->Array_0.is_prefix_of(value->Array_0),
{
    let items = value->Array_0;
    assert(items.is_prefix_of(items));
    if items.len() > limit {
        assert(items.take(limit).is_prefix_of(items));
    }
}

// ---------------------------------------------------------------------------
// The answer of the tool.

/// The facts about a finished request that its answer states.
pub struct ResultFacts {
    pub requested_action: LspAction,
    pub resolved_action: LspAction,
    pub provider: String,
    pub workspace_root: String,
    pub path: Option<String>,
    pub server_command: String,
    pub server_args: Vec<String>,
    pub apply_requested: bool,
    pub applied: bool,
}

/// What [`ResultFacts`] stand for.
#[verifier::ext_equal]
pub ghost struct FactsView {
    pub requested_action: LspAction,
    pub resolved_action: LspAction,
    pub provider: Seq<char>,
    pub workspace_root: Seq<char>,
    pub path: Option<Seq<char>>,
    pub server_command: Seq<char>,
    pub server_args: Seq<Seq<char>>,
    pub apply_requested: bool,
    pub applied: bool,
}

impl View for ResultFacts {
    type V = FactsView;

    open spec fn view(&self) -> FactsView {
        FactsView {
            requested_action: self.requested_action,
            resolved_action: self.resolved_action,
            provider: self.provider@,
            workspace_root: self.workspace_root@,
            path: text::opt_text(self.path),
            server_command: self.server_command@,
            server_args: text::texts(self.server_args@),
            apply_requested: self.apply_requested,
            applied: self.applied,
        }
    }
}

/// A string or null.
pub open spec fn text_or_null(value: Option<Seq<char>>) -> json::JsonView {
    match value {
        Some(s) => json::JsonView::Str(s),
        None => json::JsonView::Null,
    }
}

/// The answer of the tool to a request that went through.
pub open spec fn answer(facts: FactsView, raw: json::JsonView, limit: int) -> json::JsonView {
    let payload = json::JsonView::object().with(
        "requested_action"@,
        json::JsonView::Str(actions::action_name(facts.requested_action)),
    ).with(
        "resolved_action"@,
        json::JsonView::Str(actions::action_name(facts.resolved_action)),
    ).with("provider"@, json::JsonView::Str(facts.provider)).with(
        "workspace_root"@,
        json::JsonView::Str(facts.workspace_root),
    ).with("path"@, text_or_null(facts.path)).with(
        "server_command"@,
        json::JsonView::Str(facts.server_command),
    ).with("server_args"@, json::strings_view(facts.server_args)).with(
        "result"@,
        truncated(facts.resolved_action, shown(raw), limit),
    );
    if facts.resolved_action is Rename {
        payload.with("apply_requested"@, json::JsonView::Bool(facts.apply_requested)).with(
            "applied"@,
            json::JsonView::Bool(facts.applied),
        )
    } else {
        payload
    }
}

/// Builds the answer of the tool.
pub fn render_lsp_result(facts: &ResultFacts, raw_result: &Json, limit: usize) -> (out: Json)
    ensures
        out@ == answer(facts@, raw_result@, limit as int),
{
    let result = truncate_result(
        facts.resolved_action,
        normalize_value_for_output(raw_result),
        limit,
    );
    let payload = json::object().with(
        "requested_action",
        json::string(facts.requested_action.as_str()),
    ).with("resolved_action", json::string(facts.resolved_action.as_str())).with(
        "provider",
        json::string(facts.provider.as_str()),
    ).with("workspace_root", json::string(facts.workspace_root.as_str())).with(
        "path",
        json::opt_string(&facts.path),
    ).with("server_command", json::string(facts.server_command.as_str())).with(
        "server_args",
        json::strings(&facts.server_args),
    ).with("result", result);
    if facts.resolved_action == LspAction::Rename {
        payload.with("apply_requested", Json::Bool(facts.apply_requested)).with(
            "applied",
            Json::Bool(facts.applied),
        )
    } else {
        payload
    }
}

/// Writes an answer as the tool gives it.
pub fn answer_text(value: &Json) -> (out: String)
    ensures
        out@ == json_text::pretty(value@),
{
    json_text::pretty_text(value)
}

// ---------------------------------------------------------------------------
// What answers show.

/// Everything is shown as it is but for two things, wherever they stand: lines
/// and characters count from one, and locations are paths. Nothing is left out.
pub proof fn values_are_shown_as_they_are(
    items: Seq<json::JsonView>,
    entries: Seq<(Seq<char>, json::JsonView)>,
    leaf: json::JsonView,
    i: int,
    n: nat,
)
    requires
        0 <= i,
        n < i64::MAX,
    ensures
        !(leaf is Array) && !(leaf is Object) ==> shown(leaf) == leaf,
        shown(json::JsonView::Array(items)) is Array,
        shown(json::JsonView::Array(items))->Array_0.len() == items.len(),
        i < items.len() ==> shown(json::JsonView::Array(items))->Array_0[i] == shown(items[i]),
        shown(json::JsonView::Object(entries)) is Object,
        shown(json::JsonView::Object(entries))->Object_0.len() == entries.len(),
        i < entries.len() ==> {
            let entry = shown(json::JsonView::Object(entries))->Object_0[i];
            let key = entries[i].0;
            let value = entries[i].1;
            let counts = key == "line"@ || key == "character"@;
            let locates = key == "uri"@ || key == "targetUri"@ || key == "oldUri"@ || key
                == "newUri"@;
            &&& entry.0 == key
            &&& !counts && !locates ==> entry.1 == shown(value)
            &&& counts && !locates && value == json::JsonView::Number(json::NumberView::Unsigned(n))
                ==> entry.1 == json::JsonView::Number(json::NumberView::Unsigned(n + 1))
            &&& locates && value is Str && uri::url_scheme_name(value->Str_0) == Some("file"@)
                && uri::url_path_name(value->Str_0) is Some ==> entry.1 == json::JsonView::Str(
                uri::url_path_name(value->Str_0)->Some_0.0,
            )
            &&& locates && value is Str && uri::url_scheme_name(value->Str_0) != Some("file"@)
                ==> entry.1 == value
        },
{
    if i < entries.len() {
        let value = entries[i].1;
        if value is Str {
            assert(shown(value) == value);
        }
    }
}

/// A list of proposals is cut in its items and keeps everything else; a result
/// that is no list, and every result where there is no limit, is kept whole.
pub proof fn proposals_keep_to_the_limit(
    entries: Seq<(Seq<char>, json::JsonView)>,
    items: Seq<json::JsonView>,
    action: LspAction,
    value: json::JsonView,
    limit: int,
)
    requires
        limit > 0,
    ensures
        truncated(action, value, 0) == value,
        action is Hover || action is Rename || action is SignatureHelp || action is Providers
            || action is Auto ==> truncated(action, value, limit) == value,
        !(value is Array) && !(action is Completion) ==> truncated(action, value, limit) == value,
        json::lookup(entries, "items"@, 0) == Some(json::JsonView::Array(items)) && items.len()
            > limit ==> truncated(LspAction::Completion, json::JsonView::Object(entries), limit)
            == json::JsonView::Object(
            json::with_entry(entries, "items"@, json::JsonView::Array(items.take(limit))),
        ),
        value is Array ==> truncated(LspAction::Completion, value, limit) == json::JsonView::Array(
            if value->Array_0.len() > limit {
                value->Array_0.take(limit)
            } else {
                value->Array_0
            },
        ),
{
}

/// What an answer tells, in this order; only a rename tells in addition whether
/// applying it was asked for and whether it was applied.
pub proof fn answers_tell_the_facts(facts: FactsView, raw: json::JsonView, limit: int)
    ensures
        ({
            let common = seq![
                (
                    "requested_action"@,
                    json::JsonView::Str(actions::action_name(facts.requested_action)),
                ),
                (
                    "resolved_action"@,
                    json::JsonView::Str(actions::action_name(facts.resolved_action)),
                ),
                ("provider"@, json::JsonView::Str(facts.provider)),
                ("workspace_root"@, json::JsonView::Str(facts.workspace_root)),
                (
                    "path"@,
                    if facts.path is Some {
                        json::JsonView::Str(facts.path->Some_0)
                    } else {
                        json::JsonView::Null
                    },
                ),
                ("server_command"@, json::JsonView::Str(facts.server_command)),
                (
                    "server_args"@,
                    json::JsonView::Array(
                        facts.server_args.map_values(|s: Seq<char>| json::JsonView::Str(s)),
                    ),
                ),
                ("result"@, truncated(facts.resolved_action, shown(raw), limit)),
            ];
            &&& !(facts.resolved_action is Rename) ==> answer(facts, raw, limit)
                == json::JsonView::Object(common)
            &&& facts.resolved_action is Rename ==> answer(facts, raw, limit)
                == json::JsonView::Object(
                common.push(
                    ("apply_requested"@, json::JsonView::Bool(facts.apply_requested)),
                ).push(("applied"@, json::JsonView::Bool(facts.applied))),
            )
        }),
{
    let args = json::JsonView::Array(
        facts.server_args.map_values(|s: Seq<char>| json::JsonView::Str(s)),
    );
    assert(json::strings_view(facts.server_args)->Array_0 =~= args->Array_0);
    let common = seq![
        ("requested_action"@, json::JsonView::Str(actions::action_name(facts.requested_action))),
        ("resolved_action"@, json::JsonView::Str(actions::action_name(facts.resolved_action))),
        ("provider"@, json::JsonView::Str(facts.provider)),
        ("workspace_root"@, json::JsonView::Str(facts.workspace_root)),
        ("path"@, text_or_null(facts.path)),
        ("server_command"@, json::JsonView::Str(facts.server_command)),
        ("server_args"@, args),
        ("result"@, truncated(facts.resolved_action, shown(raw), limit)),
    ];
    if facts.resolved_action is Rename {
        assert(answer(facts, raw, limit)->Object_0 =~= common.push(
            ("apply_requested"@, json::JsonView::Bool(facts.apply_requested)),
        ).push(("applied"@, json::JsonView::Bool(facts.applied))));
    } else {
        assert(answer(facts, raw, limit)->Object_0 =~= common);
    }
}

} // verus!
