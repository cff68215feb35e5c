//! The actions of the language server tool: which one is meant, what to ask
//! the server and how to show the answer.

use vstd::prelude::*;

use crate::json;
use crate::json::Json;
use crate::lsp::uri;
use crate::moments;
use crate::text;

verus! {

/// How long to wait for a server where nothing else is said, in milliseconds.
pub const DEFAULT_TIMEOUT_MS: u64 = 15_000;

/// How many results to show where nothing else is said.
pub const DEFAULT_LIMIT: usize = 50;

/// How long a request for code actions waits for diagnostics at most.
pub const CODE_ACTION_DIAGNOSTICS_MAX_WAIT_MS: u64 = 2_000;

/// What the tool is asked to do.
#[derive(Clone, Copy, Debug, PartialEq, Eq, Structural)]
pub enum LspAction {
    Auto,
    Providers,
    Diagnostics,
    Definition,
    References,
    Hover,
    DocumentSymbols,
    WorkspaceSymbols,
    Rename,
    Completion,
    SignatureHelp,
    CodeActions,
}

/// The name of an action.
pub open spec fn action_name(action: LspAction) -> Seq<char> {
    match action {
        LspAction::Auto => "auto"@,
        LspAction::Providers => "providers"@,
        LspAction::Diagnostics => "diagnostics"@,
        LspAction::Definition => "definition"@,
        LspAction::References => "references"@,
        LspAction::Hover => "hover"@,
        LspAction::DocumentSymbols => "document_symbols"@,
        LspAction::WorkspaceSymbols => "workspace_symbols"@,
        LspAction::Rename => "rename"@,
        LspAction::Completion => "completion"@,
        LspAction::SignatureHelp => "signature_help"@,
        LspAction::CodeActions => "code_actions"@,
    }
}

impl LspAction {
    /// The name of the action.
    pub fn as_str(&self) -> (name: &'static str)
        ensures
            name@ == action_name(*self),
    {
        match self {
            LspAction::Auto => "auto",
            LspAction::Providers => "providers",
            LspAction::Diagnostics => "diagnostics",
            LspAction::Definition => "definition",
            LspAction::References => "references",
            LspAction::Hover => "hover",
            LspAction::DocumentSymbols => "document_symbols",
            LspAction::WorkspaceSymbols => "workspace_symbols",
            LspAction::Rename => "rename",
            LspAction::Completion => "completion",
            LspAction::SignatureHelp => "signature_help",
            LspAction::CodeActions => "code_actions",
        }
    }

    /// Whether the action works on a file.
    pub fn requires_file(&self) -> (r: bool)
        ensures
            r == !(*self is Auto || *self is Providers || *self is WorkspaceSymbols),
    {
        !matches!(self, LspAction::Auto | LspAction::Providers | LspAction::WorkspaceSymbols)
    }
}

/// A request to the tool.
#[derive(Clone, Debug)]
pub struct LspToolRequest {
    pub action: LspAction,
    pub path: Option<String>,
    pub language: Option<String>,
    pub goal: Option<String>,
    pub line: Option<u32>,
    pub column: Option<u32>,
    pub end_line: Option<u32>,
    pub end_column: Option<u32>,
    pub query: Option<String>,
    pub new_name: Option<String>,
    pub include_declaration: Option<bool>,
    pub limit: Option<usize>,
    pub trigger_character: Option<String>,
    pub only: Vec<String>,
    pub apply: bool,
    pub timeout_ms: Option<u64>,
}

// ---------------------------------------------------------------------------
// Which action is meant.

/// Whether a text holds one of the given words.
pub open spec fn mentions(s: Seq<char>, words: Seq<&str>) -> bool {
    exists|i: int| 0 <= i < words.len() && text::holds_text(s, (#[trigger] words[i])@)
}

/// What a request says in words, in lower case: its goal or else its query.
pub open spec fn stated_goal(request: LspToolRequest) -> Seq<char> {
    match request.goal {
        Some(goal) => text::lowered(goal@),
        None => match request.query {
            Some(query) => text::lowered(query@),
            None => Seq::empty(),
        },
    }
}

/// Whether a goal is about errors.
pub open spec fn about_diagnostics(goal: Seq<char>) -> bool {
    mentions(
        goal,
        seq![
            "error",
            "errors",
            "warning",
            "warnings",
            "diagnostic",
            "diagnostics",
            "broken",
            "compile",
            "problem",
        ],
    )
}

/// Whether a goal is about what uses a symbol.
pub open spec fn about_references(goal: Seq<char>) -> bool {
    mentions(
        goal,
        seq![
            "reference",
            "references",
            "usage",
            "usages",
            "used",
            "what uses",
            "who calls",
            "who uses",
            "callers",
            "impact",
            "affected",
        ],
    )
}

/// Whether a goal is about where a symbol is defined.
pub open spec fn about_definition(goal: Seq<char>) -> bool {
    mentions(goal, seq!["defined", "definition", "declared", "where is", "jump to", "go to"])
}

/// Whether a goal is about what a symbol means.
pub open spec fn about_meaning(goal: Seq<char>) -> bool {
    mentions(
        goal,
        seq![
            "hover",
            "type",
            "what is",
            "what does",
            "explain",
            "signature",
            "parameter",
            "params",
            "argument",
            "doc",
        ],
    )
}

/// Whether a goal is about the parameters of a call.
pub open spec fn about_signature(goal: Seq<char>) -> bool {
    mentions(goal, seq!["signature", "parameter", "params", "argument"])
}

/// Whether a goal is about what could be typed.
pub open spec fn about_completion(goal: Seq<char>) -> bool {
    mentions(goal, seq!["complete", "completion", "suggest", "suggestion", "autocomplete"])
}

/// Whether a goal is about changing code.
pub open spec fn about_code_actions(goal: Seq<char>) -> bool {
    mentions(
        goal,
        seq![
            "quick fix",
            "quickfix",
            "code action",
            "fix this",
            "organize imports",
            "refactor",
        ],
    )
}

/// The action that a request without one means. What it holds decides before
/// what it says, and the first subject that it mentions before later ones.
pub open spec fn inferred_action(request: LspToolRequest, has_path: bool) -> LspAction {
    let goal = stated_goal(request);
    if request.new_name is Some {
        LspAction::Rename
    } else if request.only@.len() > 0 || request.end_line is Some || request.end_column is Some {
        LspAction::CodeActions
    } else if request.trigger_character is Some {
        LspAction::Completion
    } else if about_diagnostics(goal) {
        LspAction::Diagnostics
    } else if about_references(goal) {
        LspAction::References
    } else if about_definition(goal) {
        LspAction::Definition
    } else if about_meaning(goal) {
        if about_signature(goal) {
            LspAction::SignatureHelp
        } else {
            LspAction::Hover
        }
    } else if about_completion(goal) {
        LspAction::Completion
    } else if about_code_actions(goal) {
        LspAction::CodeActions
    } else if request.query is Some {
        if has_path {
            LspAction::DocumentSymbols
        } else {
            LspAction::WorkspaceSymbols
        }
    } else if request.line is Some && request.column is Some {
        LspAction::Hover
    } else if has_path {
        LspAction::DocumentSymbols
    } else {
        LspAction::Providers
    }
}

fn mentions_any(s: &[char], words: &[&str]) -> (r: bool)
    ensures
        r == mentions(s@, words@),
{
    let mut i: usize = 0;
    while i < words.len()
        invariant
            i <= words@.len(),
            forall|k: int| 0 <= k < i ==> !text::holds_text(s@, (#[trigger] words@[k])@),
        decreases words@.len() - i,
    {
        if text::has_str(s, words[i]) {
            proof {
                assert(text::holds_text(s@, words@[i as int]@));
            }
            return true;
        }
        i += 1;
    }
    false
}

fn goal_chars(request: &LspToolRequest) -> (goal: Vec<char>)
    ensures
        goal@ == stated_goal(*request),
{
    match &request.goal {
        Some(goal) => text::lower(&text::chars_of(goal.as_str())),
        None => match &request.query {
            Some(query) => text::lower(&text::chars_of(query.as_str())),
            None => Vec::new(),
        },
    }
}

/// The action that a request without one means.
pub fn infer_auto_action(request: &LspToolRequest, has_path: bool) -> (action: LspAction)
    ensures
        action == inferred_action(*request, has_path),
{
    if request.new_name.is_some() {
        return LspAction::Rename;
    }
    if request.only.len() > 0 || request.end_line.is_some() || request.end_column.is_some() {
        return LspAction::CodeActions;
    }
    if request.trigger_character.is_some() {
        return LspAction::Completion;
    }
    let goal = goal_chars(request);
    let words: [&str; 9] = [
        "error",
        "errors",
        "warning",
        "warnings",
        "diagnostic",
        "diagnostics",
        "broken",
        "compile",
        "problem",
    ];
    if mentions_any(&goal, &words) {
        return LspAction::Diagnostics;
    }
    let words: [&str; 11] = [
        "reference",
        "references",
        "usage",
        "usages",
        "used",
        "what uses",
        "who calls",
        "who uses",
        "callers",
        "impact",
        "affected",
    ];
    if mentions_any(&goal, &words) {
        return LspAction::References;
    }
    let words: [&str; 6] = ["defined", "definition", "declared", "where is", "jump to", "go to"];
    if mentions_any(&goal, &words) {
        return LspAction::Definition;
    }
    let words: [&str; 10] = [
        "hover",
        "type",
        "what is",
        "what does",
        "explain",
        "signature",
        "parameter",
        "params",
        "argument",
        "doc",
    ];
    if mentions_any(&goal, &words) {
        let words: [&str; 4] = ["signature", "parameter", "params", "argument"];
        return if mentions_any(&goal, &words) {
            LspAction::SignatureHelp
        } else {
            LspAction::Hover
        };
    }
    let words: [&str; 5] = ["complete", "completion", "suggest", "suggestion", "autocomplete"];
    if mentions_any(&goal, &words) {
        return LspAction::Completion;
    }
    let words: [&str; 6] = [
        "quick fix",
        "quickfix",
        "code action",
        "fix this",
        "organize imports",
        "refactor",
    ];
    if mentions_any(&goal, &words) {
        return LspAction::CodeActions;
    }
    if request.query.is_some() {
        return if has_path {
            LspAction::DocumentSymbols
        } else {
            LspAction::WorkspaceSymbols
        };
    }
    if request.line.is_some() && request.column.is_some() {
        return LspAction::Hover;
    }
    if has_path {
        return LspAction::DocumentSymbols;
    }
    LspAction::Providers
}

// ---------------------------------------------------------------------------
// What to ask the server.

/// The outcome of building a value.
pub open spec fn json_outcome(r: Result<Json, String>) -> Result<json::JsonView, Seq<char>> {
    match r {
        Ok(value) => Ok(value@),
        Err(message) => Err(message@),
    }
}

/// The position object of a line and a column that count from one.
pub open spec fn position(line: Option<u32>, column: Option<u32>) -> Result<
    json::JsonView,
    Seq<char>,
> {
    match (line, column) {
        (None, _) => Err("line is required"@),
        (_, None) => Err("column is required"@),
        (Some(l), Some(c)) => if l == 0 || c == 0 {
            Err("line and column must be 1-indexed"@)
        } else {
            Ok(
                json::JsonView::object().with("line"@, json::integer_view(l - 1)).with(
                    "character"@,
                    json::integer_view(c - 1),
                ),
            )
        },
    }
}

/// The position object of a line and a column that count from one.
pub fn position_value(line: Option<u32>, column: Option<u32>) -> (r: Result<Json, String>)
    ensures
        json_outcome(r) == position(line, column),
{
    match (line, column) {
        (None, _) => Err("line is required".to_string()),
        (_, None) => Err("column is required".to_string()),
        (Some(l), Some(c)) => if l == 0 || c == 0 {
            Err("line and column must be 1-indexed".to_string())
        } else {
            Ok(
                json::object().with("line", json::unsigned((l - 1) as u64)).with(
                    "character",
                    json::unsigned((c - 1) as u64),
                ),
            )
        },
    }
}

/// The value or, where there is none, the other one.
pub open spec fn first_some(a: Option<u32>, b: Option<u32>) -> Option<u32> {
    if a is Some {
        a
    } else {
        b
    }
}

/// The range object from a start to an end, which is the start where it is
/// not given.
pub open spec fn range(
    start_line: Option<u32>,
    start_column: Option<u32>,
    end_line: Option<u32>,
    end_column: Option<u32>,
) -> Result<json::JsonView, Seq<char>> {
    match position(start_line, start_column) {
        Err(message) => Err(message),
        Ok(start) => match position(
            first_some(end_line, start_line),
            first_some(end_column, start_column),
        ) {
            Err(message) => Err(message),
            Ok(end) => Ok(json::JsonView::object().with("start"@, start).with("end"@, end)),
        },
    }
}

/// The range object from a start to an end.
pub fn range_value(
    start_line: Option<u32>,
    start_column: Option<u32>,
    end_line: Option<u32>,
    end_column: Option<u32>,
) -> (r: Result<Json, String>)
    ensures
        json_outcome(r) == range(start_line, start_column, end_line, end_column),
{
    let start = match position_value(start_line, start_column) {
        Ok(start) => start,
        Err(message) => {
            return Err(message);
        },
    };
    let last_line: Option<u32> = if end_line.is_some() {
        end_line
    } else {
        start_line
    };
    let last_column: Option<u32> = if end_column.is_some() {
        end_column
    } else {
        start_column
    };
    match position_value(last_line, last_column) {
        Ok(end) => Ok(json::object().with("start", start).with("end", end)),
        Err(message) => Err(message),
    }
}

/// The object that names a document.
pub open spec fn document(uri: Seq<char>) -> json::JsonView {
    json::JsonView::object().with("uri"@, json::JsonView::Str(uri))
}

/// The object that names a document.
pub fn document_value(uri: &str) -> (value: Json)
    ensures
        value@ == document(uri@),
{
    json::object().with("uri", json::string(uri))
}

/// The parameters of a request about a position in a document.
pub open spec fn position_request(
    missing: Seq<char>,
    uri: Option<Seq<char>>,
    line: Option<u32>,
    column: Option<u32>,
) -> Result<json::JsonView, Seq<char>> {
    match uri {
        None => Err(missing),
        Some(u) => match position(line, column) {
            Err(message) => Err(message),
            Ok(place) => Ok(
                json::JsonView::object().with("textDocument"@, document(u)).with(
                    "position"@,
                    place,
                ),
            ),
        },
    }
}

/// The parameters of a request about a position in a document; `missing` is
/// the failure where no document is open.
pub fn position_params(
    missing: &str,
    uri: Option<&str>,
    line: Option<u32>,
    column: Option<u32>,
) -> (r: Result<Json, String>)
    ensures
        json_outcome(r) == position_request(missing@, text::opt_str(uri), line, column),
{
    match uri {
        None => Err(missing.to_string()),
        Some(u) => match position_value(line, column) {
            Ok(place) => Ok(
                json::object().with("textDocument", document_value(u)).with("position", place),
            ),
            Err(message) => Err(message),
        },
    }
}

/// The context of a request for completion or for help with a call.
pub open spec fn trigger_context(trigger: Option<Seq<char>>) -> json::JsonView {
    match trigger {
        Some(character) => json::JsonView::object().with(
            "triggerKind"@,
            json::integer_view(2),
        ).with("triggerCharacter"@, json::JsonView::Str(character)),
        None => json::JsonView::object().with("triggerKind"@, json::integer_view(1)),
    }
}

fn trigger_context_value(trigger: &Option<String>) -> (value: Json)
    ensures
        value@ == trigger_context(text::opt_text(*trigger)),
{
    match trigger {
        Some(character) => json::object().with("triggerKind", json::unsigned(2)).with(
            "triggerCharacter",
            json::string(character.as_str()),
        ),
        None => json::object().with("triggerKind", json::unsigned(1)),
    }
}

/// The next thing to do for an action.
pub enum DispatchStep {
    /// Wait for the diagnostics of a document; they are the result.
    Diagnostics { uri: String },
    /// Wait for the diagnostics of a document, which the request for code
    /// actions carries.
    CodeActionDiagnostics { uri: String },
    /// Ask whether a symbol can be renamed.
    PrepareRename { params: Json },
    /// Send a request; its answer is the result.
    Send { method: String, params: Json },
}

/// What a [`DispatchStep`] stands for.
#[verifier::ext_equal]
pub ghost enum DispatchView {
    Diagnostics(Seq<char>),
    CodeActionDiagnostics(Seq<char>),
    PrepareRename(json::JsonView),
    Send(Seq<char>, json::JsonView),
}

impl View for DispatchStep {
    type V = DispatchView;

    open spec fn view(&self) -> DispatchView {
        match self {
            DispatchStep::Diagnostics { uri } => DispatchView::Diagnostics(uri@),
            DispatchStep::CodeActionDiagnostics { uri } => DispatchView::CodeActionDiagnostics(
                uri@,
            ),
            DispatchStep::PrepareRename { params } => DispatchView::PrepareRename(params@),
            DispatchStep::Send { method, params } => DispatchView::Send(method@, params@),
        }
    }
}

/// The outcome of planning a step.
pub open spec fn step_outcome(r: Result<DispatchStep, String>) -> Result<
    DispatchView,
    Seq<char>,
> {
    match r {
        Ok(step) => Ok(step@),
        Err(message) => Err(message@),
    }
}

/// The step that sends a request, where its parameters could be built.
pub open spec fn send(method: Seq<char>, params: Result<json::JsonView, Seq<char>>) -> Result<
    DispatchView,
    Seq<char>,
> {
    match params {
        Ok(value) => Ok(DispatchView::Send(method, value)),
        Err(message) => Err(message),
    }
}

/// The value with one more entry, where it could be built.
pub open spec fn also(
    params: Result<json::JsonView, Seq<char>>,
    key: Seq<char>,
    value: json::JsonView,
) -> Result<json::JsonView, Seq<char>> {
    match params {
        Ok(object) => Ok(object.with(key, value)),
        Err(message) => Err(message),
    }
}

/// The request that renames a symbol, once nothing speaks against it.
pub open spec fn rename_step(
    request: LspToolRequest,
    params: Result<json::JsonView, Seq<char>>,
) -> Result<DispatchView, Seq<char>> {
    match params {
        Err(message) => Err(message),
        Ok(object) => match request.new_name {
            Some(name) => Ok(
                DispatchView::Send(
                    "textDocument/rename"@,
                    object.with("newName"@, json::JsonView::Str(name@)),
                ),
            ),
            None => Err("rename requires new_name"@),
        },
    }
}

/// The first step of an action, other than to find one out or to list the
/// providers.
pub open spec fn first_step(
    request: LspToolRequest,
    action: LspAction,
    uri: Option<Seq<char>>,
    supports_prepare_rename: bool,
) -> Result<DispatchView, Seq<char>> {
    let line = request.line;
    let column = request.column;
    match action {
        LspAction::Diagnostics => match uri {
            Some(u) => Ok(DispatchView::Diagnostics(u)),
            None => Err("diagnostics requires an opened document"@),
        },
        LspAction::Definition => send(
            "textDocument/definition"@,
            position_request("document uri is required"@, uri, line, column),
        ),
        LspAction::Hover => send(
            "textDocument/hover"@,
            position_request("document uri is required"@, uri, line, column),
        ),
        LspAction::References => send(
            "textDocument/references"@,
            also(
                position_request("references requires an opened document"@, uri, line, column),
                "context"@,
                json::JsonView::object().with(
                    "includeDeclaration"@,
                    json::JsonView::Bool(
                        match request.include_declaration {
                            Some(wanted) => wanted,
                            None => true,
                        },
                    ),
                ),
            ),
        ),
        LspAction::DocumentSymbols => match uri {
            Some(u) => Ok(
                DispatchView::Send(
                    "textDocument/documentSymbol"@,
                    json::JsonView::object().with("textDocument"@, document(u)),
                ),
            ),
            None => Err("document_symbols requires an opened document"@),
        },
        LspAction::WorkspaceSymbols => Ok(
            DispatchView::Send(
                "workspace/symbol"@,
                json::JsonView::object().with(
                    "query"@,
                    json::JsonView::Str(
                        match request.query {
                            Some(query) => query@,
                            None => Seq::empty(),
                        },
                    ),
                ),
            ),
        ),
        LspAction::Rename => {
            let params = position_request("rename requires an opened document"@, uri, line, column);
            match params {
                Ok(object) => if supports_prepare_rename {
                    Ok(DispatchView::PrepareRename(object))
                } else {
                    rename_step(request, params)
                },
                Err(message) => Err(message),
            }
        },
        LspAction::Completion => send(
            "textDocument/completion"@,
            also(
                position_request("completion requires an opened document"@, uri, line, column),
                "context"@,
                trigger_context(text::opt_text(request.trigger_character)),
            ),
        ),
        LspAction::SignatureHelp => send(
            "textDocument/signatureHelp"@,
            also(
                position_request("signature_help requires an opened document"@, uri, line, column),
                "context"@,
                trigger_context(text::opt_text(request.trigger_character)),
            ),
        ),
        LspAction::CodeActions => match uri {
            Some(u) => Ok(DispatchView::CodeActionDiagnostics(u)),
            None => Err("code_actions requires an opened document"@),
        },
        LspAction::Auto | LspAction::Providers => Err(Seq::empty()),
    }
}

/// The step that follows the server's word on whether a symbol can be renamed.
pub open spec fn step_after_prepare_rename(
    request: LspToolRequest,
    uri: Seq<char>,
    answer: json::JsonView,
) -> Result<DispatchView, Seq<char>> {
    if answer is Null {
        Err("rename is not valid at the requested position"@)
    } else {
        rename_step(
            request,
            position_request(
                "rename requires an opened document"@,
                Some(uri),
                request.line,
                request.column,
            ),
        )
    }
}

/// The context of a request for code actions.
pub open spec fn code_action_context(only: Seq<Seq<char>>, diagnostics: json::JsonView)
    -> json::JsonView {
    let context = json::JsonView::object().with("diagnostics"@, diagnostics);
    if only.len() > 0 {
        context.with("only"@, json::strings_view(only))
    } else {
        context
    }
}

/// The step that follows the diagnostics that a request for code actions
/// carries.
pub open spec fn step_after_diagnostics(
    request: LspToolRequest,
    uri: Seq<char>,
    diagnostics: json::JsonView,
) -> Result<DispatchView, Seq<char>> {
    match range(request.line, request.column, request.end_line, request.end_column) {
        Err(message) => Err(message),
        Ok(place) => Ok(
            DispatchView::Send(
                "textDocument/codeAction"@,
                json::JsonView::object().with("textDocument"@, document(uri)).with(
                    "range"@,
                    place,
                ).with("context"@, code_action_context(text::texts(request.only@), diagnostics)),
            ),
        ),
    }
}

fn send_value(method: &str, params: Result<Json, String>) -> (r: Result<DispatchStep, String>)
    ensures
        step_outcome(r) == send(method@, json_outcome(params)),
{
    match params {
        Ok(params) => Ok(DispatchStep::Send { method: method.to_string(), params }),
        Err(message) => Err(message),
    }
}

fn also_value(params: Result<Json, String>, key: &str, value: Json) -> (r: Result<Json, String>)
    ensures
        json_outcome(r) == also(json_outcome(params), key@, value@),
{
    match params {
        Ok(object) => Ok(object.with(key, value)),
        Err(message) => Err(message),
    }
}

fn rename_value(request: &LspToolRequest, params: Result<Json, String>) -> (r: Result<
    DispatchStep,
    String,
>)
    ensures
        step_outcome(r) == rename_step(*request, json_outcome(params)),
{
    match params {
        Err(message) => Err(message),
        Ok(object) => match &request.new_name {
            Some(name) => Ok(
                DispatchStep::Send {
                    method: "textDocument/rename".to_string(),
                    params: object.with("newName", json::string(name.as_str())),
                },
            ),
            None => Err("rename requires new_name".to_string()),
        },
    }
}

/// Plans the first step of an action.
pub fn dispatch_transport_request(
    request: &LspToolRequest,
    effective_action: LspAction,
    opened_document_uri: Option<&str>,
    supports_prepare_rename: bool,
) -> (r: Result<DispatchStep, String>)
    requires
        !(effective_action is Auto || effective_action is Providers),
    ensures
        step_outcome(r) == first_step(
            *request,
            effective_action,
            text::opt_str(opened_document_uri),
            supports_prepare_rename,
        ),
{
    let uri = opened_document_uri;
    let line = request.line;
    let column = request.column;
    match effective_action {
        LspAction::Diagnostics => match uri {
            Some(u) => Ok(DispatchStep::Diagnostics { uri: u.to_string() }),
            None => Err("diagnostics requires an opened document".to_string()),
        },
        LspAction::Definition => send_value(
            "textDocument/definition",
            position_params("document uri is required", uri, line, column),
        ),
        LspAction::Hover => send_value(
            "textDocument/hover",
            position_params("document uri is required", uri, line, column),
        ),
        LspAction::References => {
            let declaration: bool = match request.include_declaration {
                Some(wanted) => wanted,
                None => true,
            };
            send_value(
                "textDocument/references",
                also_value(
                    position_params("references requires an opened document", uri, line, column),
                    "context",
                    json::object().with("includeDeclaration", Json::Bool(declaration)),
                ),
            )
        },
        LspAction::DocumentSymbols => match uri {
            Some(u) => Ok(
                DispatchStep::Send {
                    method: "textDocument/documentSymbol".to_string(),
                    params: json::object().with("textDocument", document_value(u)),
                },
            ),
            None => Err("document_symbols requires an opened document".to_string()),
        },
        LspAction::WorkspaceSymbols => {
            let query = match &request.query {
                Some(query) => query.clone(),
                None => String::new(),
            };
            Ok(
                DispatchStep::Send {
                    method: "workspace/symbol".to_string(),
                    params: json::object().with("query", Json::Str(query)),
                },
            )
        },
        LspAction::Rename => {
            let params = position_params("rename requires an opened document", uri, line, column);
            match params {
                Ok(object) => if supports_prepare_rename {
                    Ok(DispatchStep::PrepareRename { params: object })
                } else {
                    rename_value(request, Ok(object))
                },
                Err(message) => Err(message),
            }
        },
        LspAction::Completion => send_value(
            "textDocument/completion",
            also_value(
                position_params("completion requires an opened document", uri, line, column),
                "context",
                trigger_context_value(&request.trigger_character),
            ),
        ),
        LspAction::SignatureHelp => send_value(
            "textDocument/signatureHelp",
            also_value(
                position_params("signature_help requires an opened document", uri, line, column),
                "context",
                trigger_context_value(&request.trigger_character),
            ),
        ),
        LspAction::CodeActions => match uri {
            Some(u) => Ok(DispatchStep::CodeActionDiagnostics { uri: u.to_string() }),
            None => Err("code_actions requires an opened document".to_string()),
        },
        LspAction::Auto | LspAction::Providers => Err(String::new()),
    }
}

/// Plans the step after the server's word on whether a symbol can be renamed.
pub fn dispatch_after_prepare_rename(request: &LspToolRequest, uri: &str, answer: &Json) -> (r:
    Result<DispatchStep, String>)
    ensures
        step_outcome(r) == step_after_prepare_rename(*request, uri@, answer@),
{
    if answer.is_null() {
        return Err("rename is not valid at the requested position".to_string());
    }
    rename_value(
        request,
        position_params(
            "rename requires an opened document",
            Some(uri),
            request.line,
            request.column,
        ),
    )
}

/// How long to wait for the diagnostics that a request for code actions
/// carries: the time allowed, in whole milliseconds, but not too long.
pub fn code_action_diagnostics_timeout(timeout: u128) -> (wait: u128)
    ensures
        wait == moments::shorter_of(
            (timeout / 1_000_000 * 1_000_000) as u128,
            moments::millis(CODE_ACTION_DIAGNOSTICS_MAX_WAIT_MS),
        ),
{
    moments::shorter(
        timeout / 1_000_000 * 1_000_000,
        moments::millis(CODE_ACTION_DIAGNOSTICS_MAX_WAIT_MS),
    )
}

/// Plans the step after the diagnostics that a request for code actions
/// carries.
pub fn dispatch_after_diagnostics(request: &LspToolRequest, uri: &str, diagnostics: Json) -> (r:
    Result<DispatchStep, String>)
    ensures
        step_outcome(r) == step_after_diagnostics(*request, uri@, diagnostics@),
{
    let place = match range_value(
        request.line,
        request.column,
        request.end_line,
        request.end_column,
    ) {
        Ok(place) => place,
        Err(message) => {
            return Err(message);
        },
    };
    let mut context = json::object().with("diagnostics", diagnostics);
    proof {
        assert(text::texts(request.only@).len() == request.only@.len());
    }
    if request.only.len() > 0 {
        context = context.with("only", json::strings(&request.only));
    }
    Ok(
        DispatchStep::Send {
            method: "textDocument/codeAction".to_string(),
            params: json::object().with("textDocument", document_value(uri)).with(
                "range",
                place,
            ).with("context", context),
        },
    )
}

/// Every action on a document is refused while no document is open, and only
/// looking for symbols in the whole workspace goes without one.
pub proof fn actions_need_their_document(
    request: LspToolRequest,
    action: LspAction,
    supports_prepare_rename: bool,
)
    requires
        !(action is Auto || action is Providers),
    ensures
        first_step(request, action, None, supports_prepare_rename) is Ok == (
        action is WorkspaceSymbols),
{
}

// ---------------------------------------------------------------------------
// What requests mean.

/// Whether a request without an action has a word in what it says: in its goal
/// or, where it has none, in its query, written in capitals or not.
pub open spec fn says(request: LspToolRequest, word: &str) -> bool {
    match (request.goal, request.query) {
        (Some(goal), _) => text::holds_text(text::lowered(goal@), word@),
        (None, Some(query)) => text::holds_text(text::lowered(query@), word@),
        (None, None) => text::holds_text(Seq::empty(), word@),
    }
}

/// Whether a request says a word about errors and warnings.
pub open spec fn says_errors(request: LspToolRequest) -> bool {
    ||| says(request, "error")
    ||| says(request, "errors")
    ||| says(request, "warning")
    ||| says(request, "warnings")
    ||| says(request, "diagnostic")
    ||| says(request, "diagnostics")
    ||| says(request, "broken")
    ||| says(request, "compile")
    ||| says(request, "problem")
}

/// Whether a request says a word about what uses a symbol.
pub open spec fn says_uses(request: LspToolRequest) -> bool {
    ||| says(request, "reference")
    ||| says(request, "references")
    ||| says(request, "usage")
    ||| says(request, "usages")
    ||| says(request, "used")
    ||| says(request, "what uses")
    ||| says(request, "who calls")
    ||| says(request, "who uses")
    ||| says(request, "callers")
    ||| says(request, "impact")
    ||| says(request, "affected")
}

/// Whether a request says a word about where a symbol is defined.
pub open spec fn says_place(request: LspToolRequest) -> bool {
    ||| says(request, "defined")
    ||| says(request, "definition")
    ||| says(request, "declared")
    ||| says(request, "where is")
    ||| says(request, "jump to")
    ||| says(request, "go to")
}

/// Whether a request says a word about what a symbol means.
pub open spec fn says_meaning(request: LspToolRequest) -> bool {
    ||| says(request, "hover")
    ||| says(request, "type")
    ||| says(request, "what is")
    ||| says(request, "what does")
    ||| says(request, "explain")
    ||| says(request, "signature")
    ||| says(request, "parameter")
    ||| says(request, "params")
    ||| says(request, "argument")
    ||| says(request, "doc")
}

/// Whether a request says a word about the parameters of a call.
pub open spec fn says_call(request: LspToolRequest) -> bool {
    ||| says(request, "signature")
    ||| says(request, "parameter")
    ||| says(request, "params")
    ||| says(request, "argument")
}

/// Whether a request says a word about what could be typed.
pub open spec fn says_typing(request: LspToolRequest) -> bool {
    ||| says(request, "complete")
    ||| says(request, "completion")
    ||| says(request, "suggest")
    ||| says(request, "suggestion")
    ||| says(request, "autocomplete")
}

/// Whether a request says a word about a change to the code.
pub open spec fn says_change(request: LspToolRequest) -> bool {
    ||| says(request, "quick fix")
    ||| says(request, "quickfix")
    ||| says(request, "code action")
    ||| says(request, "fix this")
    ||| says(request, "organize imports")
    ||| says(request, "refactor")
}

proof fn lemma_says_errors(request: LspToolRequest)
    ensures
        about_diagnostics(stated_goal(request)) == says_errors(request),
{
    let goal = stated_goal(request);
    let words = seq![
        "error",
        "errors",
        "warning",
        "warnings",
        "diagnostic",
        "diagnostics",
        "broken",
        "compile",
        "problem",
    ];
    assert(words[0] == "error");
    assert(words[1] == "errors");
    assert(words[2] == "warning");
    assert(words[3] == "warnings");
    assert(words[4] == "diagnostic");
    assert(words[5] == "diagnostics");
    assert(words[6] == "broken");
    assert(words[7] == "compile");
    assert(words[8] == "problem");
    assert(about_diagnostics(goal) == mentions(goal, words));
}

proof fn lemma_says_uses(request: LspToolRequest)
    ensures
        about_references(stated_goal(request)) == says_uses(request),
{
    let goal = stated_goal(request);
    let words = seq![
        "reference",
        "references",
        "usage",
        "usages",
        "used",
        "what uses",
        "who calls",
        "who uses",
        "callers",
        "impact",
        "affected",
    ];
    assert(words[0] == "reference");
    assert(words[1] == "references");
    assert(words[2] == "usage");
    assert(words[3] == "usages");
    assert(words[4] == "used");
    assert(words[5] == "what uses");
    assert(words[6] == "who calls");
    assert(words[7] == "who uses");
    assert(words[8] == "callers");
    assert(words[9] == "impact");
    assert(words[10] == "affected");
    assert(about_references(goal) == mentions(goal, words));
}

proof fn lemma_says_place(request: LspToolRequest)
    ensures
        about_definition(stated_goal(request)) == says_place(request),
{
    let goal = stated_goal(request);
    let words = seq![
        "defined",
        "definition",
        "declared",
        "where is",
        "jump to",
        "go to",
    ];
    assert(words[0] == "defined");
    assert(words[1] == "definition");
    assert(words[2] == "declared");
    assert(words[3] == "where is");
    assert(words[4] == "jump to");
    assert(words[5] == "go to");
    assert(about_definition(goal) == mentions(goal, words));
}

proof fn lemma_says_meaning(request: LspToolRequest)
    ensures
        about_meaning(stated_goal(request)) == says_meaning(request),
{
    let goal = stated_goal(request);
    let words = seq![
        "hover",
        "type",
        "what is",
        "what does",
        "explain",
        "signature",
        "parameter",
        "params",
        "argument",
        "doc",
    ];
    assert(words[0] == "hover");
    assert(words[1] == "type");
    assert(words[2] == "what is");
    assert(words[3] == "what does");
    assert(words[4] == "explain");
    assert(words[5] == "signature");
    assert(words[6] == "parameter");
    assert(words[7] == "params");
    assert(words[8] == "argument");
    assert(words[9] == "doc");
    assert(about_meaning(goal) == mentions(goal, words));
}

proof fn lemma_says_call(request: LspToolRequest)
    ensures
        about_signature(stated_goal(request)) == says_call(request),
{
    let goal = stated_goal(request);
    let words = seq![
        "signature",
        "parameter",
        "params",
        "argument",
    ];
    assert(words[0] == "signature");
    assert(words[1] == "parameter");
    assert(words[2] == "params");
    assert(words[3] == "argument");
    assert(about_signature(goal) == mentions(goal, words));
}

proof fn lemma_says_typing(request: LspToolRequest)
    ensures
        about_completion(stated_goal(request)) == says_typing(request),
{
    let goal = stated_goal(request);
    let words = seq![
        "complete",
        "completion",
        "suggest",
        "suggestion",
        "autocomplete",
    ];
    assert(words[0] == "complete");
    assert(words[1] == "completion");
    assert(words[2] == "suggest");
    assert(words[3] == "suggestion");
    assert(words[4] == "autocomplete");
    assert(about_completion(goal) == mentions(goal, words));
}

proof fn lemma_says_change(request: LspToolRequest)
    ensures
        about_code_actions(stated_goal(request)) == says_change(request),
{
    let goal = stated_goal(request);
    let words = seq![
        "quick fix",
        "quickfix",
        "code action",
        "fix this",
        "organize imports",
        "refactor",
    ];
    assert(words[0] == "quick fix");
    assert(words[1] == "quickfix");
    assert(words[2] == "code action");
    assert(words[3] == "fix this");
    assert(words[4] == "organize imports");
    assert(words[5] == "refactor");
    assert(about_code_actions(goal) == mentions(goal, words));
}

/// Whether only what a request says tells which action it means.
pub open spec fn only_says(request: LspToolRequest) -> bool {
    &&& request.new_name is None
    &&& request.only@.len() == 0
    &&& request.end_line is None
    &&& request.end_column is None
    &&& request.trigger_character is None
}

/// What a request holds decides before what it says: a new name is for
/// renaming, kinds of actions or the end of a range are for code actions, and a
/// character that was typed is for completion.
pub proof fn what_requests_hold_decides_first(request: LspToolRequest, has_path: bool)
    ensures
        request.new_name is Some ==> inferred_action(request, has_path) is Rename,
        request.new_name is None && request.only@.len() > 0 ==> inferred_action(
            request,
            has_path,
        ) is CodeActions,
        request.new_name is None && request.end_line is Some ==> inferred_action(
            request,
            has_path,
        ) is CodeActions,
        request.new_name is None && request.end_column is Some ==> inferred_action(
            request,
            has_path,
        ) is CodeActions,
        request.new_name is None && request.only@.len() == 0 && request.end_line is None
            && request.end_column is None && request.trigger_character is Some ==> inferred_action(
            request,
            has_path,
        ) is Completion,
{
}

/// A request that says a word about errors means the diagnostics.
pub proof fn goals_about_errors_mean_diagnostics(request: LspToolRequest, has_path: bool)
    requires
        only_says(request),
        says_errors(request),
    ensures
        inferred_action(request, has_path) == LspAction::Diagnostics,
{
    lemma_says_errors(request);
}

/// A request that says a word about what uses a symbol, and none about errors,
/// means the references.
pub proof fn goals_about_uses_mean_references(request: LspToolRequest, has_path: bool)
    requires
        only_says(request),
        says_uses(request),
        !says_errors(request),
    ensures
        inferred_action(request, has_path) == LspAction::References,
{
    lemma_says_errors(request);
    lemma_says_uses(request);
}

/// A request that says a word about where a symbol is defined, and none about
/// errors or uses, means the definition.
pub proof fn goals_about_places_mean_the_definition(request: LspToolRequest, has_path: bool)
    requires
        only_says(request),
        says_place(request),
        !says_errors(request),
        !says_uses(request),
    ensures
        inferred_action(request, has_path) == LspAction::Definition,
{
    lemma_says_errors(request);
    lemma_says_uses(request);
    lemma_says_place(request);
}

/// A request that says a word about the parameters of a call, and none about
/// errors, uses or definitions, means help with the call.
pub proof fn goals_about_calls_mean_signature_help(request: LspToolRequest, has_path: bool)
    requires
        only_says(request),
        says_call(request),
        !says_errors(request),
        !says_uses(request),
        !says_place(request),
    ensures
        inferred_action(request, has_path) == LspAction::SignatureHelp,
{
    lemma_says_errors(request);
    lemma_says_uses(request);
    lemma_says_place(request);
    lemma_says_meaning(request);
    lemma_says_call(request);
}

/// A request that says a word about what a symbol means, none about the
/// parameters of a call and none about errors, uses or definitions, means what
/// the server shows at a place.
pub proof fn goals_about_meanings_mean_hover(request: LspToolRequest, has_path: bool)
    requires
        only_says(request),
        says_meaning(request),
        !says_errors(request),
        !says_uses(request),
        !says_place(request),
        !says_call(request),
    ensures
        inferred_action(request, has_path) == LspAction::Hover,
{
    lemma_says_errors(request);
    lemma_says_uses(request);
    lemma_says_place(request);
    lemma_says_call(request);
    lemma_says_meaning(request);
}

/// A request that says a word about what could be typed, and none about errors,
/// uses, definitions or meanings, means completion.
pub proof fn goals_about_typing_mean_completion(request: LspToolRequest, has_path: bool)
    requires
        only_says(request),
        says_typing(request),
        !says_errors(request),
        !says_uses(request),
        !says_place(request),
        !says_meaning(request),
    ensures
        inferred_action(request, has_path) == LspAction::Completion,
{
    lemma_says_errors(request);
    lemma_says_uses(request);
    lemma_says_place(request);
    lemma_says_meaning(request);
    lemma_says_typing(request);
}

/// A request that says a word about a change to the code, and none about any
/// other subject, means code actions.
pub proof fn goals_about_changes_mean_code_actions(request: LspToolRequest, has_path: bool)
    requires
        only_says(request),
        says_change(request),
        !says_errors(request),
        !says_uses(request),
        !says_place(request),
        !says_meaning(request),
        !says_typing(request),
    ensures
        inferred_action(request, has_path) == LspAction::CodeActions,
{
    lemma_says_errors(request);
    lemma_says_uses(request);
    lemma_says_place(request);
    lemma_says_meaning(request);
    lemma_says_typing(request);
    lemma_says_change(request);
}

/// A request that says nothing of any subject means symbols where it has a
/// query, those of the document where there is one and of the workspace where
/// there is none. Without a query a place means what the server shows there,
/// and a document alone its symbols; with nothing the providers are listed.
pub proof fn requests_without_a_subject_go_by_what_they_have(
    request: LspToolRequest,
    has_path: bool,
)
    requires
        only_says(request),
        !says_errors(request),
        !says_uses(request),
        !says_place(request),
        !says_meaning(request),
        !says_typing(request),
        !says_change(request),
    ensures
        request.query is Some && has_path ==> inferred_action(request, has_path)
            == LspAction::DocumentSymbols,
        request.query is Some && !has_path ==> inferred_action(request, has_path)
            == LspAction::WorkspaceSymbols,
        request.query is None && request.line is Some && request.column is Some
            ==> inferred_action(request, has_path) == LspAction::Hover,
        request.query is None && (request.line is None || request.column is None) && has_path
            ==> inferred_action(request, has_path) == LspAction::DocumentSymbols,
        request.query is None && (request.line is None || request.column is None) && !has_path
            ==> inferred_action(request, has_path) == LspAction::Providers,
{
    lemma_says_errors(request);
    lemma_says_uses(request);
    lemma_says_place(request);
    lemma_says_meaning(request);
    lemma_says_typing(request);
    lemma_says_change(request);
}

/// No request means to find an action out.
pub proof fn some_action_is_meant(request: LspToolRequest, has_path: bool)
    ensures
        !(inferred_action(request, has_path) is Auto),
        inferred_action(request, has_path) is WorkspaceSymbols ==> !has_path,
        inferred_action(request, has_path) is Providers ==> !has_path,
{
}

// ---------------------------------------------------------------------------
// What servers are asked.

/// The method that each action sends, as the protocol names it, and the step
/// that it starts with otherwise.
pub proof fn actions_use_the_methods_of_the_protocol(
    request: LspToolRequest,
    action: LspAction,
    uri: Option<Seq<char>>,
    supports_prepare_rename: bool,
    step: DispatchView,
)
    requires
        !(action is Auto || action is Providers),
        first_step(request, action, uri, supports_prepare_rename) == Ok::<_, Seq<char>>(step),
    ensures
        match action {
            LspAction::Diagnostics => uri is Some && step == DispatchView::Diagnostics(
                uri->Some_0,
            ),
            LspAction::CodeActions => uri is Some && step == DispatchView::CodeActionDiagnostics(
                uri->Some_0,
            ),
            LspAction::Definition => step is Send && step->Send_0 == "textDocument/definition"@,
            LspAction::References => step is Send && step->Send_0 == "textDocument/references"@,
            LspAction::Hover => step is Send && step->Send_0 == "textDocument/hover"@,
            LspAction::DocumentSymbols => step is Send && step->Send_0
                == "textDocument/documentSymbol"@,
            LspAction::WorkspaceSymbols => step is Send && step->Send_0 == "workspace/symbol"@,
            LspAction::Completion => step is Send && step->Send_0 == "textDocument/completion"@,
            LspAction::SignatureHelp => step is Send && step->Send_0
                == "textDocument/signatureHelp"@,
            LspAction::Rename => if supports_prepare_rename {
                step is PrepareRename
            } else {
                step is Send && step->Send_0 == "textDocument/rename"@
            },
            LspAction::Auto | LspAction::Providers => false,
        },
{
}

/// The object that names a document and a place in it: the protocol counts
/// lines and characters from zero where requests count from one.
pub open spec fn place_in_document(uri: Seq<char>, line: u32, column: u32) -> Seq<
    (Seq<char>, json::JsonView),
> {
    seq![
        ("textDocument"@, json::JsonView::Object(seq![("uri"@, json::JsonView::Str(uri))])),
        ("position"@, place(line, column)),
    ]
}

/// A place as the protocol counts it.
pub open spec fn place(line: u32, column: u32) -> json::JsonView {
    json::JsonView::Object(
        seq![("line"@, whole_number(line - 1)), ("character"@, whole_number(column - 1))],
    )
}

/// A whole number.
pub open spec fn whole_number(n: int) -> json::JsonView {
    json::JsonView::Number(json::NumberView::Unsigned(n as nat))
}

proof fn lemma_place(line: u32, column: u32)
    requires
        line > 0,
        column > 0,
    ensures
        position(Some(line), Some(column)) == Ok::<_, Seq<char>>(place(line, column)),
{
    let made = position(Some(line), Some(column))->Ok_0;
    assert(made->Object_0 =~= place(line, column)->Object_0);
}

proof fn lemma_place_in_document(missing: Seq<char>, uri: Seq<char>, line: u32, column: u32)
    requires
        line > 0,
        column > 0,
    ensures
        position_request(missing, Some(uri), Some(line), Some(column)) == Ok::<_, Seq<char>>(
            json::JsonView::Object(place_in_document(uri, line, column)),
        ),
{
    lemma_place(line, column);
    let made = position_request(missing, Some(uri), Some(line), Some(column))->Ok_0;
    let named = json::JsonView::Object(seq![("uri"@, json::JsonView::Str(uri))]);
    assert(document(uri)->Object_0 =~= named->Object_0);
    assert(made->Object_0 =~= place_in_document(uri, line, column));
}

/// What a request about a place in a document carries: the document and the
/// place; for references also whether the declaration counts, which it does
/// where nothing is said; for completion and help with a call also what
/// triggered it.
pub proof fn requests_carry_their_place(
    request: LspToolRequest,
    uri: Seq<char>,
    line: u32,
    column: u32,
    supports_prepare_rename: bool,
)
    requires
        request.line == Some(line),
        request.column == Some(column),
        line > 0,
        column > 0,
    ensures
        ({
            let asked = |action: LspAction|
                first_step(request, action, Some(uri), supports_prepare_rename);
            let here = place_in_document(uri, line, column);
            let with_context = |entries: Seq<(Seq<char>, json::JsonView)>|
                json::JsonView::Object(here.push(("context"@, json::JsonView::Object(entries))));
            let trigger = match request.trigger_character {
                Some(character) => seq![
                    ("triggerKind"@, whole_number(2)),
                    ("triggerCharacter"@, json::JsonView::Str(character@)),
                ],
                None => seq![("triggerKind"@, whole_number(1))],
            };
            let declaration = request.include_declaration != Some(false);
            &&& asked(LspAction::Definition) == Ok::<_, Seq<char>>(
                DispatchView::Send("textDocument/definition"@, json::JsonView::Object(here)),
            )
            &&& asked(LspAction::Hover) == Ok::<_, Seq<char>>(
                DispatchView::Send("textDocument/hover"@, json::JsonView::Object(here)),
            )
            &&& asked(LspAction::References) == Ok::<_, Seq<char>>(
                DispatchView::Send(
                    "textDocument/references"@,
                    with_context(
                        seq![("includeDeclaration"@, json::JsonView::Bool(declaration))],
                    ),
                ),
            )
            &&& asked(LspAction::Completion) == Ok::<_, Seq<char>>(
                DispatchView::Send("textDocument/completion"@, with_context(trigger)),
            )
            &&& asked(LspAction::SignatureHelp) == Ok::<_, Seq<char>>(
                DispatchView::Send("textDocument/signatureHelp"@, with_context(trigger)),
            )
        }),
{
    let here = place_in_document(uri, line, column);
    lemma_place_in_document("document uri is required"@, uri, line, column);
    lemma_place_in_document("references requires an opened document"@, uri, line, column);
    lemma_place_in_document("completion requires an opened document"@, uri, line, column);
    lemma_place_in_document("signature_help requires an opened document"@, uri, line, column);
    let trigger = match request.trigger_character {
        Some(character) => seq![
            ("triggerKind"@, whole_number(2)),
            ("triggerCharacter"@, json::JsonView::Str(character@)),
        ],
        None => seq![("triggerKind"@, whole_number(1))],
    };
    assert(trigger_context(text::opt_text(request.trigger_character))->Object_0 =~= trigger);
    let declaration = request.include_declaration != Some(false);
    let counted = json::JsonView::object().with(
        "includeDeclaration"@,
        json::JsonView::Bool(declaration),
    );
    assert(counted->Object_0 =~= seq![
        ("includeDeclaration"@, json::JsonView::Bool(declaration)),
    ]);
}

/// Renaming asks first whether the symbol can be renamed, where the server can
/// tell, and is then refused on a null answer alone; it sends the place and the
/// new name.
pub proof fn renaming_sends_the_new_name(
    request: LspToolRequest,
    uri: Seq<char>,
    line: u32,
    column: u32,
    answer: json::JsonView,
)
    requires
        request.line == Some(line),
        request.column == Some(column),
        line > 0,
        column > 0,
    ensures
        ({
            let here = place_in_document(uri, line, column);
            let sent = match request.new_name {
                Some(name) => Ok(
                    DispatchView::Send(
                        "textDocument/rename"@,
                        json::JsonView::Object(
                            here.push(("newName"@, json::JsonView::Str(name@))),
                        ),
                    ),
                ),
                None => Err("rename requires new_name"@),
            };
            &&& first_step(request, LspAction::Rename, Some(uri), true) == Ok::<_, Seq<char>>(
                DispatchView::PrepareRename(json::JsonView::Object(here)),
            )
            &&& first_step(request, LspAction::Rename, Some(uri), false) == sent
            &&& step_after_prepare_rename(request, uri, json::JsonView::Null) == Err::<
                DispatchView,
                _,
            >("rename is not valid at the requested position"@)
            &&& !(answer is Null) ==> step_after_prepare_rename(request, uri, answer) == sent
        }),
{
    lemma_place_in_document("rename requires an opened document"@, uri, line, column);
}

/// What a request for code actions carries: the document, the range, which ends
/// where it starts unless an end is given, and the diagnostics, together with
/// the kinds of actions that are wanted where some are.
pub proof fn code_actions_carry_their_range(
    request: LspToolRequest,
    uri: Seq<char>,
    line: u32,
    column: u32,
    diagnostics: json::JsonView,
)
    requires
        request.line == Some(line),
        request.column == Some(column),
        line > 0,
        column > 0,
        request.end_line != Some(0u32),
        request.end_column != Some(0u32),
    ensures
        ({
            let last_line = match request.end_line {
                Some(l) => l,
                None => line,
            };
            let last_column = match request.end_column {
                Some(c) => c,
                None => column,
            };
            let kinds = json::JsonView::Array(
                Seq::new(request.only@.len(), |i: int| json::JsonView::Str(request.only@[i]@)),
            );
            let context = if request.only@.len() == 0 {
                seq![("diagnostics"@, diagnostics)]
            } else {
                seq![("diagnostics"@, diagnostics), ("only"@, kinds)]
            };
            step_after_diagnostics(request, uri, diagnostics) == Ok::<_, Seq<char>>(
                DispatchView::Send(
                    "textDocument/codeAction"@,
                    json::JsonView::Object(
                        seq![
                            (
                                "textDocument"@,
                                json::JsonView::Object(seq![("uri"@, json::JsonView::Str(uri))]),
                            ),
                            (
                                "range"@,
                                json::JsonView::Object(
                                    seq![
                                        ("start"@, place(line, column)),
                                        ("end"@, place(last_line, last_column)),
                                    ],
                                ),
                            ),
                            ("context"@, json::JsonView::Object(context)),
                        ],
                    ),
                ),
            )
        }),
{
    let last_line = match request.end_line {
        Some(l) => l,
        None => line,
    };
    let last_column = match request.end_column {
        Some(c) => c,
        None => column,
    };
    lemma_place(line, column);
    lemma_place(last_line, last_column);
    let only = text::texts(request.only@);
    let kinds = json::JsonView::Array(
        Seq::new(request.only@.len(), |i: int| json::JsonView::Str(request.only@[i]@)),
    );
    assert(json::strings_view(only)->Array_0 =~= kinds->Array_0);
    let context = if request.only@.len() == 0 {
        seq![("diagnostics"@, diagnostics)]
    } else {
        seq![("diagnostics"@, diagnostics), ("only"@, kinds)]
    };
    assert(code_action_context(only, diagnostics)->Object_0 =~= context);
    assert(document(uri)->Object_0 =~= seq![("uri"@, json::JsonView::Str(uri))]);
    let span = range(request.line, request.column, request.end_line, request.end_column)->Ok_0;
    assert(span->Object_0 =~= seq![
        ("start"@, place(line, column)),
        ("end"@, place(last_line, last_column)),
    ]);
    let sent = step_after_diagnostics(request, uri, diagnostics)->Ok_0->Send_1;
    assert(sent->Object_0 =~= seq![
        ("textDocument"@, document(uri)),
        ("range"@, span),
        ("context"@, code_action_context(only, diagnostics)),
    ]);
}

/// Asking for symbols carries the document or, for the whole workspace, the
/// query, which is empty where none is given.
pub proof fn symbol_requests_carry_document_or_query(
    request: LspToolRequest,
    uri: Seq<char>,
    opened: Option<Seq<char>>,
    supports_prepare_rename: bool,
)
    ensures
        first_step(request, LspAction::DocumentSymbols, Some(uri), supports_prepare_rename) == Ok::<
            _,
            Seq<char>,
        >(
            DispatchView::Send(
                "textDocument/documentSymbol"@,
                json::JsonView::Object(
                    seq![
                        (
                            "textDocument"@,
                            json::JsonView::Object(seq![("uri"@, json::JsonView::Str(uri))]),
                        ),
                    ],
                ),
            ),
        ),
        first_step(request, LspAction::WorkspaceSymbols, opened, supports_prepare_rename) == Ok::<
            _,
            Seq<char>,
        >(
            DispatchView::Send(
                "workspace/symbol"@,
                json::JsonView::Object(
                    seq![
                        (
                            "query"@,
                            json::JsonView::Str(
                                if request.query is Some {
                                    request.query->Some_0@
                                } else {
                                    Seq::empty()
                                },
                            ),
                        ),
                    ],
                ),
            ),
        ),
{
    assert(document(uri)->Object_0 =~= seq![("uri"@, json::JsonView::Str(uri))]);
    let named = json::JsonView::object().with("textDocument"@, document(uri));
    assert(named->Object_0 =~= seq![("textDocument"@, document(uri))]);
    let sent = first_step(
        request,
        LspAction::WorkspaceSymbols,
        opened,
        supports_prepare_rename,
    )->Ok_0->Send_1;
    assert(sent->Object_0 =~= seq![("query"@, sent->Object_0[0].1)]);
}

/// A place needs a line and a column, both counted from one; what is missing is
/// told, the document before them and the line before the column.
pub proof fn places_are_checked(
    request: LspToolRequest,
    action: LspAction,
    uri: Option<Seq<char>>,
    supports_prepare_rename: bool,
)
    requires
        action is Definition || action is Hover || action is References || action is Rename
            || action is Completion || action is SignatureHelp,
    ensures
        ({
            let step = first_step(request, action, uri, supports_prepare_rename);
            let told = |message: Seq<char>| Err::<DispatchView, _>(message);
            &&& uri is None && (action is Definition || action is Hover) ==> step == told(
                "document uri is required"@,
            )
            &&& uri is None && action is References ==> step == told(
                "references requires an opened document"@,
            )
            &&& uri is None && action is Rename ==> step == told(
                "rename requires an opened document"@,
            )
            &&& uri is None && action is Completion ==> step == told(
                "completion requires an opened document"@,
            )
            &&& uri is None && action is SignatureHelp ==> step == told(
                "signature_help requires an opened document"@,
            )
            &&& uri is Some && request.line is None ==> step == told("line is required"@)
            &&& uri is Some && request.line is Some && request.column is None ==> step == told(
                "column is required"@,
            )
            &&& uri is Some && request.line is Some && request.column is Some && (request.line
                == Some(0u32) || request.column == Some(0u32)) ==> step == told(
                "line and column must be 1-indexed"@,
            )
        }),
{
}

/// Each action goes by its own name.
pub proof fn actions_have_their_names()
    ensures
        action_name(LspAction::Auto) == "auto"@,
        action_name(LspAction::Providers) == "providers"@,
        action_name(LspAction::Diagnostics) == "diagnostics"@,
        action_name(LspAction::Definition) == "definition"@,
        action_name(LspAction::References) == "references"@,
        action_name(LspAction::Hover) == "hover"@,
        action_name(LspAction::DocumentSymbols) == "document_symbols"@,
        action_name(LspAction::WorkspaceSymbols) == "workspace_symbols"@,
        action_name(LspAction::Rename) == "rename"@,
        action_name(LspAction::Completion) == "completion"@,
        action_name(LspAction::SignatureHelp) == "signature_help"@,
        action_name(LspAction::CodeActions) == "code_actions"@,
{
}

} // verus!
