//! What the symbols of a document tell where a server's own answer is empty.

use vstd::prelude::*;

use crate::json;
use crate::json::Json;
use crate::lsp::actions::LspAction;
use crate::lsp::uri;
use crate::moments;
use crate::text;

verus! {

/// The longest wait before an empty answer is asked for again.
pub const EMPTY_RESULT_RETRY_MAX_WAIT_MS: u64 = 8_000;

/// Whether an answer holds no symbols.
pub open spec fn no_symbols(result: json::JsonView) -> bool {
    result is Null || (result is Array && result->Array_0.len() == 0)
}

/// Whether an answer holds no symbols.
pub fn is_empty_symbol_result(result: &Json) -> (r: bool)
    ensures
        r == no_symbols(result@),
{
    match result {
        Json::Null => true,
        Json::Array(items) => {
            proof {
                json::lemma_array_view(*items);
                assert(json::views(items@).len() == items@.len());
            }
            items.len() == 0
        },
        _ => false,
    }
}

/// Whether an empty answer may only mean that the server is not ready yet:
/// that of the Rust server about what stands at a position or about symbols.
pub open spec fn retries(provider_id: Seq<char>, action: LspAction, result: json::JsonView) -> bool {
    provider_id == "rust"@ && match action {
        LspAction::Hover => result is Null,
        LspAction::WorkspaceSymbols => no_symbols(result),
        _ => false,
    }
}

/// Whether to ask again after an empty answer.
pub fn should_retry_empty_result(provider_id: &str, action: LspAction, result: &Json) -> (r: bool)
    ensures
        r == retries(provider_id@, action, result@),
{
    if !text::same_text(provider_id, "rust") {
        return false;
    }
    match action {
        LspAction::Hover => result.is_null(),
        LspAction::WorkspaceSymbols => is_empty_symbol_result(result),
        _ => false,
    }
}

/// How long to wait before asking again: half the time allowed, but not too
/// long.
pub open spec fn retry_budget(timeout: u128) -> u128 {
    moments::shorter_of(timeout / 2, moments::millis(EMPTY_RESULT_RETRY_MAX_WAIT_MS))
}

/// How long to wait before asking again.
pub fn empty_result_retry_budget(timeout: u128) -> (budget: u128)
    ensures
        budget == retry_budget(timeout),
{
    moments::shorter(timeout / 2, moments::millis(EMPTY_RESULT_RETRY_MAX_WAIT_MS))
}

// ---------------------------------------------------------------------------
// Symbols that match a query.

/// The entry of an object under `children`, where it is a list.
pub open spec fn children_index(entries: Seq<(Seq<char>, json::JsonView)>) -> Option<int> {
    match json::entry_index(entries, "children"@, 0) {
        Some(i) => if 0 <= i < entries.len() && entries[i].1 is Array {
            Some(i)
        } else {
            None
        },
        None => None,
    }
}

/// How well a symbol matches a query in lower case: its name exactly, by its
/// start, somewhere, or its detail. Everything matches the empty query.
pub open spec fn query_score(item: json::JsonView, query: Seq<char>) -> Option<int> {
    let name = match json::opt_as_str(item.get("name"@)) {
        Some(s) => text::lowered(s),
        None => Seq::empty(),
    };
    if query.len() == 0 || name == query {
        Some(0)
    } else if text::begins(name, query) {
        Some(1)
    } else if text::holds_text(name, query) {
        Some(2)
    } else {
        match json::opt_as_str(item.get("detail"@)) {
            Some(detail) => if text::holds_text(text::lowered(detail), query) {
                Some(3)
            } else {
                None
            },
            None => None,
        }
    }
}

/// The range of a symbol: that of its name, or else its whole range.
pub open spec fn symbol_range(item: json::JsonView) -> json::JsonView {
    match item.get("selectionRange"@) {
        Some(range) => range,
        None => json::or_null(item.get("range"@)),
    }
}

/// A symbol of a document as one of the workspace.
pub open spec fn workspace_symbol(item: json::JsonView, uri: Seq<char>) -> json::JsonView {
    json::JsonView::object().with("name"@, json::or_null(item.get("name"@))).with(
        "kind"@,
        json::or_null(item.get("kind"@)),
    ).with(
        "location"@,
        json::JsonView::object().with("uri"@, json::JsonView::Str(uri)).with(
            "range"@,
            symbol_range(item),
        ),
    )
}

/// The matches of one symbol and of those below it, each with its score.
pub open spec fn matches_in_item(item: json::JsonView, uri: Seq<char>, query: Seq<char>) -> Seq<
    (int, json::JsonView),
>
    decreases item, 0nat,
{
    (match query_score(item, query) {
        Some(score) => seq![(score, workspace_symbol(item, uri))],
        None => seq![],
    }) + (match item {
        json::JsonView::Object(entries) => match json::entry_index(entries, "children"@, 0) {
            Some(i) => if 0 <= i < entries.len() {
                match entries[i].1 {
                    json::JsonView::Array(children) => matches_in_items(children, uri, query),
                    _ => seq![],
                }
            } else {
                seq![]
            },
            None => seq![],
        },
        _ => seq![],
    })
}

/// The matches of a list of symbols and of those below them, in the order in
/// which they stand in the document.
pub open spec fn matches_in_items(items: Seq<json::JsonView>, uri: Seq<char>, query: Seq<char>)
    -> Seq<(int, json::JsonView)>
    decreases items, 1nat,
{
    if items.len() == 0 {
        seq![]
    } else {
        matches_in_items(items.drop_last(), uri, query) + matches_in_item(
            items.last(),
            uri,
            query,
        )
    }
}

/// The matches with the given score.
pub open spec fn with_score(matches: Seq<(int, json::JsonView)>, score: int) -> Seq<json::JsonView>
    decreases matches.len(),
{
    if matches.len() == 0 {
        seq![]
    } else {
        let earlier = with_score(matches.drop_last(), score);
        if matches.last().0 == score {
            earlier.push(matches.last().1)
        } else {
            earlier
        }
    }
}

/// The matches, better ones first; equally good ones keep their order.
pub open spec fn ranked(matches: Seq<(int, json::JsonView)>) -> Seq<json::JsonView> {
    with_score(matches, 0) + with_score(matches, 1) + with_score(matches, 2) + with_score(
        matches,
        3,
    )
}

/// The first `limit` items of a list.
pub open spec fn at_most(items: Seq<json::JsonView>, limit: int) -> Seq<json::JsonView> {
    if items.len() > limit {
        items.take(limit)
    } else {
        items
    }
}

/// The symbols of a document that answer a query for symbols of the workspace.
pub open spec fn fallback_symbols(
    document_symbols: json::JsonView,
    url: Result<Seq<char>, Seq<char>>,
    query: Option<Seq<char>>,
    limit: int,
) -> Result<json::JsonView, Seq<char>> {
    match document_symbols {
        json::JsonView::Array(items) => match url {
            Err(message) => Err(message),
            Ok(u) => {
                let wanted = match query {
                    Some(q) => text::lowered(text::trimmed(q)),
                    None => Seq::empty(),
                };
                Ok(json::JsonView::Array(at_most(ranked(matches_in_items(items, u, wanted)), limit)))
            },
        },
        _ => Ok(json::JsonView::Array(seq![])),
    }
}

/// Lower case and trimming leave nothing of a query that is not there.
fn wanted_query(query: Option<&str>) -> (wanted: Vec<char>)
    ensures
        wanted@ == (match text::opt_str(query) {
            Some(q) => text::lowered(text::trimmed(q)),
            None => Seq::empty(),
        }),
{
    match query {
        Some(q) => {
            let chars = text::chars_of(q);
            text::lower(text::trim(&chars))
        },
        None => Vec::new(),
    }
}

fn lowered_text_at(item: &Json, key: &str) -> (r: Option<Vec<char>>)
    ensures
        match r {
            Some(s) => json::opt_as_str(item@.get(key@)) is Some && s@ == text::lowered(
                json::opt_as_str(item@.get(key@)).unwrap(),
            ),
            None => json::opt_as_str(item@.get(key@)) is None,
        },
{
    match item.get(key) {
        Some(value) => match value.as_str() {
            Some(s) => {
                let chars = text::chars_of(s);
                Some(text::lower(&chars))
            },
            None => None,
        },
        None => None,
    }
}

/// How well a symbol matches a query in lower case.
pub fn document_symbol_query_score(item: &Json, query: &[char]) -> (score: Option<u8>)
    ensures
        match score {
            Some(n) => query_score(item@, query@) == Some(n as int) && n <= 3,
            None => query_score(item@, query@) is None,
        },
{
    if query.len() == 0 {
        return Some(0);
    }
    let name = match lowered_text_at(item, "name") {
        Some(name) => name,
        None => Vec::new(),
    };
    if text::same_chars(&name, query) {
        return Some(0);
    }
    if text::starts_with(&name, query) {
        return Some(1);
    }
    if text::has_text(&name, query) {
        return Some(2);
    }
    match lowered_text_at(item, "detail") {
        Some(detail) => if text::has_text(&detail, query) {
            Some(3)
        } else {
            None
        },
        None => None,
    }
}

fn range_of(item: &Json) -> (range: Json)
    ensures
        range@ == symbol_range(item@),
{
    match item.get("selectionRange") {
        Some(range) => range.duplicate(),
        None => json::duplicate_or_null(item.get("range")),
    }
}

fn as_workspace_symbol(item: &Json, uri: &str) -> (symbol: Json)
    ensures
        symbol@ == workspace_symbol(item@, uri@),
{
    json::object().with("name", json::duplicate_or_null(item.get("name"))).with(
        "kind",
        json::duplicate_or_null(item.get("kind")),
    ).with(
        "location",
        json::object().with("uri", json::string(uri)).with("range", range_of(item)),
    )
}

/// The views of scored matches.
pub open spec fn scored(matches: Seq<(u8, Json)>) -> Seq<(int, json::JsonView)> {
    Seq::new(matches.len(), |i: int| (matches[i].0 as int, matches[i].1@))
}

/// The list under `children` of a symbol.
fn children_of(item: &Json) -> (r: Option<&Vec<Json>>)
    ensures
        match r {
            Some(children) => item@ is Object && children_index(item@->Object_0) is Some
                && item@->Object_0[children_index(item@->Object_0).unwrap()].1
                == json::JsonView::Array(json::views(children@)) && decreases_to!(item => children),
            None => item@ is Object ==> children_index(item@->Object_0) is None,
        },
{
    match item {
        Json::Object(entries) => {
            proof {
                json::lemma_object_view(*entries);
            }
            let ghost all = json::entry_views(entries@);
            let mut i: usize = 0;
            while i < entries.len()
                invariant
                    i <= entries@.len(),
                    *item == Json::Object(*entries),
                    all == json::entry_views(entries@),
                    item@ == json::JsonView::Object(all),
                    json::entry_index(all, "children"@, 0) == json::entry_index(
                        all,
                        "children"@,
                        i as int,
                    ),
                decreases entries@.len() - i,
            {
                proof {
                    assert(all[i as int] == (entries@[i as int].0@, entries@[i as int].1@));
                }
                if text::same_text(entries[i].0.as_str(), "children") {
                    proof {
                        assert(decreases_to!(*item => item->Object_0));
                        assert(decreases_to!(*entries => entries@[i as int]));
                        let value = entries@[i as int].1;
                        if value is Array {
                            assert(decreases_to!(value => value->Array_0));
                        }
                    }
                    return entries[i].1.as_array();
                }
                i += 1;
            }
            None
        },
        _ => None,
    }
}

fn collect_matching_document_symbols(
    items: &Vec<Json>,
    uri: &str,
    query: &[char],
    found: &mut Vec<(u8, Json)>,
)
    ensures
        scored(final(found)@) == scored(old(found)@) + matches_in_items(
            json::views(items@),
            uri@,
            query@,
        ),
    decreases items,
{
    let ghost all = json::views(items@);
    let ghost start = scored(found@);
    let mut i: usize = 0;
    proof {
        assert(start + matches_in_items(all.take(0), uri@, query@) =~= start);
    }
    while i < items.len()
        invariant
            i <= items@.len(),
            all == json::views(items@),
            start == scored(old(found)@),
            scored(found@) == start + matches_in_items(all.take(i as int), uri@, query@),
        decreases items@.len() - i,
    {
        let item = &items[i];
        let ghost before = scored(found@);
        proof {
            assert(all.take(i + 1).drop_last() =~= all.take(i as int));
            assert(all.take(i + 1).last() == item@);
        }
        if let Some(score) = document_symbol_query_score(item, query) {
            found.push((score, as_workspace_symbol(item, uri)));
            proof {
                assert(scored(found@) =~= before.push(
                    (score as int, workspace_symbol(item@, uri@)),
                ));
            }
        }
        let ghost middle = scored(found@);
        proof {
            assert(decreases_to!(*items => items@));
            assert(decreases_to!(items@ => items@[i as int]));
        }
        if let Some(children) = children_of(item) {
            collect_matching_document_symbols(children, uri, query, found);
        }
        proof {
            let own = match query_score(item@, query@) {
                Some(score) => seq![(score, workspace_symbol(item@, uri@))],
                None => seq![],
            };
            assert(middle =~= before + own);
            assert(scored(found@) =~= before + matches_in_item(item@, uri@, query@));
            assert(scored(found@) =~= start + matches_in_items(all.take(i + 1), uri@, query@));
        }
        i += 1;
    }
    proof {
        assert(all.take(items@.len() as int) =~= all);
    }
}

fn push_with_score(out: &mut Vec<Json>, found: &[(u8, Json)], score: u8)
    ensures
        json::views(final(out)@) == json::views(old(out)@) + with_score(
            scored(found@),
            score as int,
        ),
{
    let ghost start = json::views(out@);
    let ghost all = scored(found@);
    let mut i: usize = 0;
    proof {
        assert(start + with_score(all.take(0), score as int) =~= start);
    }
    while i < found.len()
        invariant
            i <= found@.len(),
            all == scored(found@),
            start == json::views(old(out)@),
            json::views(out@) == start + with_score(all.take(i as int), score as int),
        decreases found@.len() - i,
    {
        let ghost before = json::views(out@);
        proof {
            assert(all.take(i + 1).drop_last() =~= all.take(i as int));
            assert(all.take(i + 1).last() == (found@[i as int].0 as int, found@[i as int].1@));
        }
        if found[i].0 == score {
            out.push(found[i].1.duplicate());
            proof {
                assert(json::views(out@) =~= before.push(found@[i as int].1@));
            }
        }
        proof {
            assert(json::views(out@) =~= start + with_score(all.take(i + 1), score as int));
        }
        i += 1;
    }
    proof {
        assert(all.take(found@.len() as int) =~= all);
    }
}

/// The symbols of a document that answer a query for symbols of the workspace,
/// better matches first.
pub fn fallback_workspace_symbols_from_document_symbols(
    document_symbols: &Json,
    path: &str,
    query: Option<&str>,
    limit: usize,
) -> (r: Result<Json, String>)
    ensures
        (match r {
            Ok(value) => Ok(value@),
            Err(message) => Err(message@),
        }) == fallback_symbols(
            document_symbols@,
            uri::url_outcome(path@, uri::file_url_name(path@)),
            text::opt_str(query),
            limit as int,
        ),
{
    match document_symbols {
        Json::Array(items) => {
            proof {
                json::lemma_array_view(*items);
            }
            let url = match uri::path_to_file_url(path) {
                Ok(url) => url,
                Err(message) => {
                    return Err(message);
                },
            };
            let wanted = wanted_query(query);
            let mut found: Vec<(u8, Json)> = Vec::new();
            proof {
                assert(scored(found@) =~= seq![]);
            }
            collect_matching_document_symbols(items, url.as_str(), &wanted, &mut found);
            let mut out: Vec<Json> = Vec::new();
            let ghost matches = matches_in_items(json::views(items@), url@, wanted@);
            proof {
                assert(scored(found@) =~= matches);
                assert(json::views(out@) =~= seq![]);
            }
            push_with_score(&mut out, &found, 0);
            push_with_score(&mut out, &found, 1);
            push_with_score(&mut out, &found, 2);
            push_with_score(&mut out, &found, 3);
            proof {
                assert(json::views(out@) =~= ranked(matches));
                assert(json::views(out@).len() == out@.len());
            }
            if out.len() > limit {
                out.truncate(limit);
                proof {
                    assert(json::views(out@) =~= ranked(matches).take(limit as int));
                }
            }
            Ok(json::array(out))
        },
        _ => {
            let out: Vec<Json> = Vec::new();
            proof {
                assert(json::views(out@) =~= seq![]);
            }
            Ok(json::array(out))
        },
    }
}

// ---------------------------------------------------------------------------
// The symbol at a position.

/// A number inside the range of a symbol.
pub open spec fn bound(item: json::JsonView, end: Seq<char>, key: Seq<char>) -> Option<int> {
    json::opt_as_i64(json::opt_get(json::opt_get(item.get("range"@), end), key))
}

/// Whether a position lies in the range of a symbol, its ends included.
pub open spec fn contains_position(item: json::JsonView, line: int, column: int) -> bool {
    match (
        bound(item, "start"@, "line"@),
        bound(item, "start"@, "character"@),
        bound(item, "end"@, "line"@),
        bound(item, "end"@, "character"@),
    ) {
        (Some(start_line), Some(start_character), Some(end_line), Some(end_character)) => {
            &&& line > start_line || (line == start_line && column >= start_character)
            &&& line < end_line || (line == end_line && column <= end_character)
        },
        _ => false,
    }
}

/// The deepest symbol at a position, among a list of symbols from the `i`-th
/// on and those below them.
pub open spec fn deepest(items: Seq<json::JsonView>, i: int, line: int, column: int) -> Option<
    json::JsonView,
>
    decreases items, items.len() - i,
{
    if i < 0 || i >= items.len() {
        None
    } else if !contains_position(items[i], line, column) {
        deepest(items, i + 1, line, column)
    } else {
        match items[i] {
            json::JsonView::Object(entries) => match json::entry_index(entries, "children"@, 0) {
                Some(k) => if 0 <= k < entries.len() {
                    match entries[k].1 {
                        json::JsonView::Array(children) => match deepest(
                            children,
                            0,
                            line,
                            column,
                        ) {
                            Some(child) => Some(child),
                            None => Some(items[i]),
                        },
                        _ => Some(items[i]),
                    }
                } else {
                    Some(items[i])
                },
                None => Some(items[i]),
            },
            _ => Some(items[i]),
        }
    }
}

/// What is shown about a symbol.
pub open spec fn symbol_note(name: Seq<char>, detail: Option<Seq<char>>) -> Seq<char> {
    match detail {
        Some(d) => if d.len() > 0 {
            "```text\n"@ + name + "\n"@ + d + "\n```"@
        } else {
            "```text\n"@ + name + "\n```"@
        },
        None => "```text\n"@ + name + "\n```"@,
    }
}

/// What is shown about the deepest symbol at a position that counts from one.
pub open spec fn hover_note(
    document_symbols: json::JsonView,
    line: Option<u32>,
    column: Option<u32>,
) -> Option<json::JsonView> {
    match (line, column, document_symbols) {
        (Some(l), Some(c), json::JsonView::Array(items)) => if l == 0 || c == 0 {
            None
        } else {
            match deepest(items, 0, l - 1, c - 1) {
                None => None,
                Some(symbol) => match json::opt_as_str(symbol.get("name"@)) {
                    None => None,
                    Some(name) => Some(
                        json::JsonView::object().with(
                            "contents"@,
                            json::JsonView::object().with(
                                "kind"@,
                                json::JsonView::Str("markdown"@),
                            ).with(
                                "value"@,
                                json::JsonView::Str(
                                    symbol_note(name, json::opt_as_str(symbol.get("detail"@))),
                                ),
                            ),
                        ).with("range"@, symbol_range(symbol)),
                    ),
                },
            }
        },
        _ => None,
    }
}

fn bound_at(item: &Json, end: &str, key: &str) -> (r: Option<i64>)
    ensures
        match r {
            Some(n) => bound(item@, end@, key@) == Some(n as int),
            None => bound(item@, end@, key@) is None,
        },
{
    match item.get("range") {
        Some(range) => match range.get(end) {
            Some(place) => match place.get(key) {
                Some(value) => value.as_i64(),
                None => None,
            },
            None => None,
        },
        None => None,
    }
}

/// Whether a position lies in the range of a symbol.
pub fn document_symbol_contains_position(item: &Json, line: i64, column: i64) -> (r: bool)
    ensures
        r == contains_position(item@, line as int, column as int),
{
    match (
        bound_at(item, "start", "line"),
        bound_at(item, "start", "character"),
        bound_at(item, "end", "line"),
        bound_at(item, "end", "character"),
    ) {
        (Some(start_line), Some(start_character), Some(end_line), Some(end_character)) => {
            let starts_before_or_at: bool = line > start_line || (line == start_line && column
                >= start_character);
            let ends_after_or_at: bool = line < end_line || (line == end_line && column
                <= end_character);
            starts_before_or_at && ends_after_or_at
        },
        _ => false,
    }
}

/// The deepest symbol at a position.
pub fn find_deepest_document_symbol_at_position(items: &Vec<Json>, line: i64, column: i64) -> (r:
    Option<&Json>)
    ensures
        json::opt_ref_view(r) == deepest(json::views(items@), 0, line as int, column as int),
    decreases items,
{
    let ghost all = json::views(items@);
    let mut i: usize = 0;
    while i < items.len()
        invariant
            i <= items@.len(),
            all == json::views(items@),
            deepest(all, 0, line as int, column as int) == deepest(
                all,
                i as int,
                line as int,
                column as int,
            ),
        decreases items@.len() - i,
    {
        let item = &items[i];
        proof {
            assert(all[i as int] == item@);
        }
        if document_symbol_contains_position(item, line, column) {
            proof {
                assert(decreases_to!(*items => items@));
                assert(decreases_to!(items@ => items@[i as int]));
            }
            if let Some(children) = children_of(item) {
                if let Some(child) = find_deepest_document_symbol_at_position(
                    children,
                    line,
                    column,
                ) {
                    return Some(child);
                }
            }
            return Some(item);
        }
        i += 1;
    }
    None
}

fn note(name: &str, detail: Option<&str>) -> (out: String)
    ensures
        out@ == symbol_note(name@, text::opt_str(detail)),
{
    let mut out = "```text\n".to_string();
    out.append(name);
    if let Some(d) = detail {
        let chars = text::chars_of(d);
        if chars.len() > 0 {
            out.append("\n");
            out.append(d);
            out.append("\n```");
            return out;
        }
    }
    out.append("\n```");
    out
}

/// What to show about the symbol at a position where the server has nothing
/// to say.
pub fn hover_fallback_from_document_symbols(
    document_symbols: &Json,
    line: Option<u32>,
    column: Option<u32>,
) -> (r: Option<Json>)
    ensures
        json::opt_view(r) == hover_note(document_symbols@, line, column),
{
    match (line, column, document_symbols) {
        (Some(l), Some(c), Json::Array(items)) => {
            proof {
                json::lemma_array_view(*items);
            }
            if l == 0 || c == 0 {
                return None;
            }
            match find_deepest_document_symbol_at_position(
                items,
                (l - 1) as i64,
                (c - 1) as i64,
            ) {
                None => None,
                Some(symbol) => {
                    let name = match symbol.get("name") {
                        Some(value) => value.as_str(),
                        None => None,
                    };
                    let detail = match symbol.get("detail") {
                        Some(value) => value.as_str(),
                        None => None,
                    };
                    match name {
                        None => None,
                        Some(name) => Some(
                            json::object().with(
                                "contents",
                                json::object().with("kind", json::string("markdown")).with(
                                    "value",
                                    Json::Str(note(name, detail)),
                                ),
                            ).with("range", range_of(symbol)),
                        ),
                    }
                },
            }
        },
        _ => None,
    }
}

// ---------------------------------------------------------------------------
// Laws.

/// The children of a symbol.
pub open spec fn children(item: json::JsonView) -> Seq<json::JsonView> {
    match item {
        json::JsonView::Object(entries) => match children_index(entries) {
            Some(i) => entries[i].1->Array_0,
            None => seq![],
        },
        _ => seq![],
    }
}

/// The symbol found at a position holds that position, and none of its
/// children does.
pub proof fn deepest_symbol_is_innermost(
    items: Seq<json::JsonView>,
    i: int,
    line: int,
    column: int,
)
    requires
        0 <= i,
    ensures
        match deepest(items, i, line, column) {
            Some(symbol) => contains_position(symbol, line, column) && forall|k: int|
                0 <= k < children(symbol).len() ==> !contains_position(
                    #[trigger] children(symbol)[k],
                    line,
                    column,
                ),
            None => forall|k: int|
                i <= k < items.len() ==> !contains_position(#[trigger] items[k], line, column),
        },
    decreases items, items.len() - i,
{
    if i < items.len() {
        if !contains_position(items[i], line, column) {
            deepest_symbol_is_innermost(items, i + 1, line, column);
        } else {
            match items[i] {
                json::JsonView::Object(entries) => {
                    json::lemma_entry_index(entries, "children"@, 0);
                    match json::entry_index(entries, "children"@, 0) {
                        Some(k) => match entries[k].1 {
                            json::JsonView::Array(below) => {
                                deepest_symbol_is_innermost(below, 0, line, column);
                            },
                            _ => {},
                        },
                        None => {},
                    }
                },
                _ => {},
            }
        }
    }
}

/// Whether every score is one of those that are ranked.
pub open spec fn scores_known(matches: Seq<(int, json::JsonView)>) -> bool {
    forall|i: int| 0 <= i < matches.len() ==> 0 <= (#[trigger] matches[i]).0 <= 3
}

proof fn lemma_item_scores(item: json::JsonView, uri: Seq<char>, query: Seq<char>)
    ensures
        scores_known(matches_in_item(item, uri, query)),
    decreases item, 0nat,
{
    match item {
        json::JsonView::Object(entries) => match json::entry_index(entries, "children"@, 0) {
            Some(i) => if 0 <= i < entries.len() {
                match entries[i].1 {
                    json::JsonView::Array(below) => {
                        lemma_items_scores(below, uri, query);
                    },
                    _ => {},
                }
            },
            None => {},
        },
        _ => {},
    }
}

proof fn lemma_items_scores(items: Seq<json::JsonView>, uri: Seq<char>, query: Seq<char>)
    ensures
        scores_known(matches_in_items(items, uri, query)),
    decreases items, 1nat,
{
    if items.len() > 0 {
        lemma_items_scores(items.drop_last(), uri, query);
        lemma_item_scores(items.last(), uri, query);
    }
}

proof fn lemma_ranked_len(matches: Seq<(int, json::JsonView)>)
    requires
        scores_known(matches),
    ensures
        ranked(matches).len() == matches.len(),
    decreases matches.len(),
{
    if matches.len() > 0 {
        let last = matches[matches.len() - 1];
        assert(0 <= last.0 <= 3);
        assert(scores_known(matches.drop_last())) by {
            assert forall|i: int| 0 <= i < matches.drop_last().len() implies 0 <= (
            #[trigger] matches.drop_last()[i]).0 <= 3 by {
                assert(matches.drop_last()[i] == matches[i]);
            }
        }
        lemma_ranked_len(matches.drop_last());
    }
}

/// Ranking the symbols that match loses none of them.
pub proof fn ranking_keeps_every_match(
    items: Seq<json::JsonView>,
    uri: Seq<char>,
    query: Seq<char>,
)
    ensures
        ranked(matches_in_items(items, uri, query)).len() == matches_in_items(
            items,
            uri,
            query,
        ).len(),
{
    lemma_items_scores(items, uri, query);
    lemma_ranked_len(matches_in_items(items, uri, query));
}

// ---------------------------------------------------------------------------
// How symbols are found.

/// How well a symbol matches, in lower case: best where its name is the query,
/// then where it begins with it, then where it holds it, and last where only its
/// detail does. An empty query matches every symbol best.
pub proof fn symbols_match_by_name_then_detail(
    item: json::JsonView,
    query: Seq<char>,
    name: Seq<char>,
    detail: Seq<char>,
)
    requires
        item.get("name"@) == Some(json::JsonView::Str(name)),
        query.len() > 0,
    ensures
        ({
            let low = text::lowered(name);
            &&& low == query ==> query_score(item, query) == Some(0int)
            &&& low != query && text::begins(low, query) ==> query_score(item, query) == Some(1int)
            &&& !text::begins(low, query) && text::holds_text(low, query) ==> query_score(
                item,
                query,
            ) == Some(2int)
            &&& !text::holds_text(low, query) && item.get("detail"@) == Some(
                json::JsonView::Str(detail),
            ) && text::holds_text(text::lowered(detail), query) ==> query_score(item, query)
                == Some(3int)
            &&& !text::holds_text(low, query) && item.get("detail"@) == Some(
                json::JsonView::Str(detail),
            ) && !text::holds_text(text::lowered(detail), query) ==> query_score(item, query)
                is None
            &&& !text::holds_text(low, query) && item.get("detail"@) is None ==> query_score(
                item,
                query,
            ) is None
            &&& query_score(item, Seq::empty()) == Some(0int)
        }),
{
    let low = text::lowered(name);
    if low == query {
        assert(low.subrange(0, low.len() as int) =~= low);
        assert(text::occurs_at(low, query, 0));
    }
    if text::begins(low, query) {
        assert(text::occurs_at(low, query, 0));
    }
}

/// What becomes of a symbol of a document: its name, its kind and its place,
/// which is that of its name where the server tells it.
pub proof fn symbols_keep_name_kind_and_place(
    item: json::JsonView,
    uri: Seq<char>,
    name: json::JsonView,
    kind: json::JsonView,
    place: json::JsonView,
)
    requires
        item.get("name"@) == Some(name),
        item.get("kind"@) == Some(kind),
        item.get("selectionRange"@) == Some(place) || (item.get("selectionRange"@) is None
            && item.get("range"@) == Some(place)),
    ensures
        workspace_symbol(item, uri) == json::JsonView::Object(
            seq![
                ("name"@, name),
                ("kind"@, kind),
                (
                    "location"@,
                    json::JsonView::Object(
                        seq![("uri"@, json::JsonView::Str(uri)), ("range"@, place)],
                    ),
                ),
            ],
        ),
{
    let made = workspace_symbol(item, uri)->Object_0;
    let location = seq![("uri"@, json::JsonView::Str(uri)), ("range"@, place)];
    assert(made[2].1->Object_0 =~= location);
    assert(made =~= seq![
        ("name"@, name),
        ("kind"@, kind),
        ("location"@, json::JsonView::Object(location)),
    ]);
}

/// A symbol is looked at before what is in it, and what is in it before the
/// symbols behind it; none is passed over.
pub proof fn symbols_are_searched_with_what_is_in_them(
    items: Seq<json::JsonView>,
    item: json::JsonView,
    uri: Seq<char>,
    query: Seq<char>,
)
    ensures
        matches_in_items(Seq::empty(), uri, query).len() == 0,
        matches_in_items(items.push(item), uri, query) == matches_in_items(items, uri, query)
            + matches_in_item(item, uri, query),
        query_score(item, query) is Some ==> matches_in_item(item, uri, query) == seq![
            (query_score(item, query)->Some_0, workspace_symbol(item, uri)),
        ] + matches_in_items(children(item), uri, query),
        query_score(item, query) is None ==> matches_in_item(item, uri, query)
            == matches_in_items(children(item), uri, query),
{
    assert(items.push(item).drop_last() =~= items);
    let none = Seq::<(int, json::JsonView)>::empty();
    let below = matches_in_items(children(item), uri, query);
    assert(none + below =~= below);
    assert(matches_in_items(Seq::<json::JsonView>::empty(), uri, query) =~= none);
    if item is Object {
        json::lemma_entry_index(item->Object_0, "children"@, 0);
        match json::entry_index(item->Object_0, "children"@, 0) {
            Some(i) => {
                if !(item->Object_0[i].1 is Array) {
                    assert(children(item) =~= Seq::<json::JsonView>::empty());
                }
            },
            None => {
                assert(children(item) =~= Seq::<json::JsonView>::empty());
            },
        }
    } else {
        assert(children(item) =~= Seq::<json::JsonView>::empty());
    }
}

/// Whether a match has a score.
pub open spec fn scored_as(score: int) -> spec_fn((int, json::JsonView)) -> bool {
    |m: (int, json::JsonView)| m.0 == score
}

/// What was matched.
pub open spec fn matched() -> spec_fn((int, json::JsonView)) -> json::JsonView {
    |m: (int, json::JsonView)| m.1
}

/// The matches of one score, in their order.
pub open spec fn of_score(matches: Seq<(int, json::JsonView)>, score: int) -> Seq<json::JsonView> {
    matches.filter(scored_as(score)).map_values(matched())
}

/// Matches are ranked by their score, and those with the same score keep their
/// order.
pub proof fn better_matches_come_first(matches: Seq<(int, json::JsonView)>)
    ensures
        ranked(matches) == of_score(matches, 0) + of_score(matches, 1) + of_score(matches, 2)
            + of_score(matches, 3),
{
    lemma_with_score(matches, 0);
    lemma_with_score(matches, 1);
    lemma_with_score(matches, 2);
    lemma_with_score(matches, 3);
}

proof fn lemma_with_score(matches: Seq<(int, json::JsonView)>, score: int)
    ensures
        with_score(matches, score) == of_score(matches, score),
    decreases matches.len(),
{
    reveal(Seq::filter);
    let same = scored_as(score);
    let value = matched();
    if matches.len() > 0 {
        lemma_with_score(matches.drop_last(), score);
        let earlier = matches.drop_last().filter(same);
        assert(with_score(matches.drop_last(), score) == earlier.map_values(value));
        assert(earlier.push(matches.last()).map_values(value) =~= earlier.map_values(value).push(
            matches.last().1,
        ));
    } else {
        assert(with_score(matches, score) =~= matches.filter(same).map_values(value));
    }
}

/// The symbols that stand in are the best matches for the query, trimmed and in
/// lower case, no more than the limit; what is no list of symbols gives none.
pub proof fn stand_ins_are_the_best_matches(
    items: Seq<json::JsonView>,
    value: json::JsonView,
    uri: Seq<char>,
    query: Seq<char>,
    limit: int,
)
    requires
        limit >= 0,
    ensures
        ({
            let best = ranked(
                matches_in_items(items, uri, text::lowered(text::trimmed(query))),
            );
            let found = fallback_symbols(
                json::JsonView::Array(items),
                Ok(uri),
                Some(query),
                limit,
            );
            let all = fallback_symbols(json::JsonView::Array(items), Ok(uri), None, limit);
            &&& best.len() <= limit ==> found == Ok::<_, Seq<char>>(json::JsonView::Array(best))
            &&& best.len() > limit ==> found == Ok::<_, Seq<char>>(
                json::JsonView::Array(best.take(limit)),
            )
            &&& !(value is Array) ==> fallback_symbols(value, Ok(uri), Some(query), limit) == Ok::<
                _,
                Seq<char>,
            >(json::JsonView::Array(Seq::empty()))
            &&& ranked(matches_in_items(items, uri, Seq::empty())).len() <= limit ==> all == Ok::<
                _,
                Seq<char>,
            >(json::JsonView::Array(ranked(matches_in_items(items, uri, Seq::empty()))))
        }),
{
}

/// A position lies in a symbol where it is not before its start and not behind
/// its end, both of which belong to it.
pub proof fn symbols_reach_from_start_to_end(
    item: json::JsonView,
    range: json::JsonView,
    start: json::JsonView,
    end: json::JsonView,
    from: (nat, nat),
    to: (nat, nat),
    line: nat,
    column: nat,
)
    requires
        item.get("range"@) == Some(range),
        range.get("start"@) == Some(start),
        range.get("end"@) == Some(end),
        start.get("line"@) == Some(json::JsonView::Number(json::NumberView::Unsigned(from.0))),
        start.get("character"@) == Some(json::JsonView::Number(json::NumberView::Unsigned(from.1))),
        end.get("line"@) == Some(json::JsonView::Number(json::NumberView::Unsigned(to.0))),
        end.get("character"@) == Some(json::JsonView::Number(json::NumberView::Unsigned(to.1))),
        from.0 <= i64::MAX && from.1 <= i64::MAX && to.0 <= i64::MAX && to.1 <= i64::MAX,
    ensures
        line < from.0 ==> !contains_position(item, line as int, column as int),
        line == from.0 && column < from.1 ==> !contains_position(item, line as int, column as int),
        line > to.0 ==> !contains_position(item, line as int, column as int),
        line == to.0 && column > to.1 ==> !contains_position(item, line as int, column as int),
        from.0 < line < to.0 ==> contains_position(item, line as int, column as int),
        line == from.0 && line < to.0 && column >= from.1 ==> contains_position(
            item,
            line as int,
            column as int,
        ),
        line == to.0 && line > from.0 && column <= to.1 ==> contains_position(
            item,
            line as int,
            column as int,
        ),
        line == from.0 && line == to.0 && from.1 <= column <= to.1 ==> contains_position(
            item,
            line as int,
            column as int,
        ),
{
}

/// A note on a symbol shows its name and, where there is one, its detail, and
/// its place; without a symbol at the position there is none.
pub proof fn notes_show_name_and_detail(
    items: Seq<json::JsonView>,
    line: u32,
    column: u32,
    symbol: json::JsonView,
    name: Seq<char>,
    detail: Seq<char>,
)
    requires
        line > 0,
        column > 0,
    ensures
        deepest(items, 0, line - 1, column - 1) is None ==> hover_note(
            json::JsonView::Array(items),
            Some(line),
            Some(column),
        ) is None,
        hover_note(json::JsonView::Array(items), None, Some(column)) is None,
        hover_note(json::JsonView::Array(items), Some(line), None) is None,
        hover_note(json::JsonView::Array(items), Some(0u32), Some(column)) is None,
        hover_note(json::JsonView::Array(items), Some(line), Some(0u32)) is None,
        deepest(items, 0, line - 1, column - 1) == Some(symbol) && symbol.get("name"@) == Some(
            json::JsonView::Str(name),
        ) && (symbol.get("detail"@) is None || (symbol.get("detail"@) == Some(
            json::JsonView::Str(detail),
        ))) ==> hover_note(json::JsonView::Array(items), Some(line), Some(column)) == Some(
            json::JsonView::Object(
                seq![
                    (
                        "contents"@,
                        json::JsonView::Object(
                            seq![
                                ("kind"@, json::JsonView::Str("markdown"@)),
                                (
                                    "value"@,
                                    json::JsonView::Str(
                                        "```text\n"@ + name + (if symbol.get("detail"@) is Some
                                            && detail.len() > 0 {
                                            "\n"@ + detail
                                        } else {
                                            Seq::empty()
                                        }) + "\n```"@,
                                    ),
                                ),
                            ],
                        ),
                    ),
                    ("range"@, symbol_range(symbol)),
                ],
            ),
        ),
{
    if deepest(items, 0, line - 1, column - 1) == Some(symbol) && symbol.get("name"@) == Some(
        json::JsonView::Str(name),
    ) && (symbol.get("detail"@) is None || (symbol.get("detail"@) == Some(
        json::JsonView::Str(detail),
    ))) {
        let more = if symbol.get("detail"@) is Some && detail.len() > 0 {
            "\n"@ + detail
        } else {
            Seq::empty()
        };
        let value = "```text\n"@ + name + more + "\n```"@;
        assert(symbol_note(name, json::opt_as_str(symbol.get("detail"@))) =~= value);
        let made = hover_note(json::JsonView::Array(items), Some(line), Some(column))->Some_0;
        let contents = seq![
            ("kind"@, json::JsonView::Str("markdown"@)),
            ("value"@, json::JsonView::Str(value)),
        ];
        assert(made->Object_0[0].1->Object_0 =~= contents);
        assert(made->Object_0 =~= seq![
            ("contents"@, json::JsonView::Object(contents)),
            ("range"@, symbol_range(symbol)),
        ]);
    }
}

/// Only a server for Rust is asked again, and only where it found nothing at a
/// place or in the workspace.
pub proof fn only_empty_results_are_retried(
    provider_id: Seq<char>,
    action: LspAction,
    result: json::JsonView,
    timeout: u128,
)
    ensures
        provider_id != "rust"@ ==> !retries(provider_id, action, result),
        !(action is Hover || action is WorkspaceSymbols) ==> !retries(provider_id, action, result),
        retries("rust"@, LspAction::Hover, result) == (result is Null),
        result is Null ==> retries("rust"@, LspAction::WorkspaceSymbols, result),
        result is Array ==> retries("rust"@, LspAction::WorkspaceSymbols, result) == (
        result->Array_0.len() == 0),
        !(result is Null) && !(result is Array) ==> !no_symbols(result),
        timeout <= 16_000_000_000 ==> retry_budget(timeout) == timeout / 2,
        timeout > 16_000_000_001 ==> retry_budget(timeout) == 8_000_000_000,
{
}

} // verus!
