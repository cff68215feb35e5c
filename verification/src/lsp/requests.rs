//! How a request goes through: which document is opened, what is asked of the
//! server and in which order, and what the tool answers.

use vstd::prelude::*;

use crate::errors;
use crate::errors::FunctionCallError;
use crate::json;
use crate::json::Json;
use crate::lsp::actions;
use crate::lsp::actions::LspAction;
use crate::lsp::actions::LspToolRequest;
use crate::lsp::output;
use crate::lsp::output::ResultFacts;
use crate::lsp::sessions;
use crate::lsp::symbols;
use crate::lsp::uri;
use crate::lsp::workspace_edit;
use crate::moments;
use crate::text;

verus! {

/// The least time that a second attempt gets.
pub const MIN_EMPTY_RESULT_RETRY_TIMEOUT_MS: u64 = 250;

// ---------------------------------------------------------------------------
// Before a server is started.

/// The time allowed for a request, in milliseconds.
pub open spec fn allowed_time(request: LspToolRequest, configured: Option<Seq<char>>) -> nat {
    match request.timeout_ms {
        Some(ms) => ms as nat,
        None => sessions::positive(
            configured,
            u64::MAX as nat,
            actions::DEFAULT_TIMEOUT_MS as nat,
        ),
    }
}

/// The number of results that a request may give: at least one.
pub open spec fn allowed_results(request: LspToolRequest) -> int {
    let wanted = match request.limit {
        Some(n) => n,
        None => actions::DEFAULT_LIMIT,
    };
    if wanted > 1 {
        wanted as int
    } else {
        1
    }
}

/// The action that a request comes down to.
pub open spec fn effective(request: LspToolRequest, has_path: bool) -> LspAction {
    if request.action is Auto {
        actions::inferred_action(request, has_path)
    } else {
        request.action
    }
}

/// Whether an action is about a document.
pub open spec fn needs_file(action: LspAction) -> bool {
    !(action is WorkspaceSymbols || action is Providers || action is Auto)
}

/// What a request comes down to, before anything is looked up for it.
#[derive(Clone, Copy, Debug, PartialEq, Eq, Structural)]
pub struct RequestPlan {
    pub timeout: u128,
    pub limit: usize,
    pub action: LspAction,
}

/// Decides what a request comes down to.
pub fn plan_invocation(
    request: &LspToolRequest,
    configured_timeout: Option<&str>,
    has_path: bool,
) -> (r: Result<RequestPlan, String>)
    ensures
        match r {
            Ok(plan) => {
                &&& plan.action == effective(*request, has_path)
                &&& plan.timeout == allowed_time(*request, text::opt_str(configured_timeout))
                    * 1_000_000
                &&& plan.limit == allowed_results(*request)
                &&& !needs_file(plan.action) || has_path
            },
            Err(message) => {
                let action = effective(*request, has_path);
                &&& needs_file(action) && !has_path
                &&& message@ == "path is required for "@ + actions::action_name(action)
            },
        },
{
    let timeout_ms: u64 = match request.timeout_ms {
        Some(ms) => ms,
        None => sessions::positive_u64(configured_timeout, actions::DEFAULT_TIMEOUT_MS),
    };
    let wanted: usize = match request.limit {
        Some(n) => n,
        None => actions::DEFAULT_LIMIT,
    };
    let limit: usize = if wanted > 1 {
        wanted
    } else {
        1
    };
    let action = match request.action {
        LspAction::Auto => actions::infer_auto_action(request, has_path),
        other => other,
    };
    if action.requires_file() && !has_path {
        return Err(required_path(action));
    }
    Ok(RequestPlan { timeout: moments::millis(timeout_ms), limit, action })
}

fn required_path(action: LspAction) -> (message: String)
    ensures
        message@ == "path is required for "@ + actions::action_name(action),
{
    let mut message = "path is required for ".to_string();
    message.append(action.as_str());
    message
}

// ---------------------------------------------------------------------------
// The course of a request.

/// What a request works with.
#[derive(Debug)]
pub struct RequestContext {
    pub request: LspToolRequest,
    pub action: LspAction,
    pub provider_id: String,
    pub server_command: String,
    pub server_args: Vec<String>,
    pub workspace_root: String,
    pub path: Option<String>,
    pub limit: usize,
    pub timeout: u128,
}

/// What is to be done next for a request.
#[derive(Debug)]
pub enum Next {
    /// Open the document, and go on with [`after_open`].
    Open { path: String },
    /// Ask the server, and go on with [`after_answer`].
    Ask { uri: Option<String>, timeout: u128 },
    /// Wait until the server has settled, and go on with [`after_wait`].
    Settle { uri: Option<String>, result: Json, budget: u128 },
    /// Ask the server once more, and go on with [`after_second_answer`].
    AskAgain { uri: Option<String>, timeout: u128 },
    /// Open the document, ask for its symbols, and go on with
    /// [`after_document_symbols`].
    OpenForSymbols { path: String, result: Json, timeout: u128 },
    /// Ask for the symbols of a document, and go on with [`after_hover_symbols`].
    AskForHover { uri: String, timeout: u128 },
    /// Apply an edit of the workspace, and go on with [`after_edit`].
    Apply { edit: Json, preview: Json },
    /// Give this answer.
    Finish { answer: Json },
}

/// What a [`Next`] stands for.
#[verifier::ext_equal]
pub ghost enum NextView {
    Open(Seq<char>),
    Ask(Option<Seq<char>>, u128),
    Settle(Option<Seq<char>>, json::JsonView, u128),
    AskAgain(Option<Seq<char>>, u128),
    OpenForSymbols(Seq<char>, json::JsonView, u128),
    AskForHover(Seq<char>, u128),
    Apply(json::JsonView, json::JsonView),
    Finish(json::JsonView),
}

impl View for Next {
    type V = NextView;

    open spec fn view(&self) -> NextView {
        match self {
            Next::Open { path } => NextView::Open(path@),
            Next::Ask { uri, timeout } => NextView::Ask(text::opt_text(*uri), *timeout),
            Next::Settle { uri, result, budget } => NextView::Settle(
                text::opt_text(*uri),
                result@,
                *budget,
            ),
            Next::AskAgain { uri, timeout } => NextView::AskAgain(
                text::opt_text(*uri),
                *timeout,
            ),
            Next::OpenForSymbols { path, result, timeout } => NextView::OpenForSymbols(
                path@,
                result@,
                *timeout,
            ),
            Next::AskForHover { uri, timeout } => NextView::AskForHover(uri@, *timeout),
            Next::Apply { edit, preview } => NextView::Apply(edit@, preview@),
            Next::Finish { answer } => NextView::Finish(answer@),
        }
    }
}

/// The outcome of deciding what is next.
pub open spec fn next_outcome(r: Result<Next, String>) -> Result<NextView, Seq<char>> {
    match r {
        Ok(next) => Ok(next@),
        Err(message) => Err(message@),
    }
}

impl RequestContext {
    /// What the answer states about the request.
    pub open spec fn facts(&self, path: Option<Seq<char>>, applied: bool) -> output::FactsView {
        output::FactsView {
            requested_action: self.request.action,
            resolved_action: self.action,
            provider: self.provider_id@,
            workspace_root: self.workspace_root@,
            path,
            server_command: self.server_command@,
            server_args: text::texts(self.server_args@),
            apply_requested: self.request.apply,
            applied,
        }
    }

    /// The path of the document that was opened at first, where one was.
    pub open spec fn opened_path(&self) -> Option<Seq<char>> {
        if self.action is WorkspaceSymbols {
            None
        } else {
            text::opt_text(self.path)
        }
    }

    /// The answer that is given.
    pub open spec fn finished(
        &self,
        path: Option<Seq<char>>,
        result: json::JsonView,
        applied: bool,
    ) -> NextView {
        NextView::Finish(output::answer(self.facts(path, applied), result, self.limit as int))
    }

    fn finish(&self, path: Option<&str>, result: &Json, applied: bool) -> (next: Next)
        ensures
            next@ == self.finished(text::opt_str(path), result@, applied),
    {
        let facts = ResultFacts {
            requested_action: self.request.action,
            resolved_action: self.action,
            provider: self.provider_id.clone(),
            workspace_root: self.workspace_root.clone(),
            path: match path {
                Some(p) => Some(p.to_string()),
                None => None,
            },
            server_command: self.server_command.clone(),
            server_args: text::clone_texts(&self.server_args),
            apply_requested: self.request.apply,
            applied,
        };
        proof {
            assert(facts@ =~= self.facts(text::opt_str(path), applied));
        }
        Next::Finish { answer: output::render_lsp_result(&facts, result, self.limit) }
    }

    fn finish_plainly(&self, result: &Json) -> (next: Next)
        ensures
            next@ == self.finished(self.opened_path(), result@, false),
    {
        match self.action {
            LspAction::WorkspaceSymbols => self.finish(None, result, false),
            _ => match &self.path {
                Some(p) => self.finish(Some(p.as_str()), result, false),
                None => self.finish(None, result, false),
            },
        }
    }
}

/// How a request starts. `is_file` tells whether its path is that of a file.
pub open spec fn first_move(context: RequestContext, is_file: bool) -> Result<NextView, Seq<char>> {
    if context.action is WorkspaceSymbols {
        Ok(NextView::Ask(None, context.timeout))
    } else {
        match context.path {
            None => Err("path is required for "@ + actions::action_name(context.action)),
            Some(path) => if is_file {
                Ok(NextView::Open(path@))
            } else {
                Err("path must point to a file for "@ + actions::action_name(context.action))
            },
        }
    }
}

/// Starts a request.
pub fn begin(context: &RequestContext, is_file: bool) -> (r: Result<Next, String>)
    ensures
        next_outcome(r) == first_move(*context, is_file),
{
    match context.action {
        LspAction::WorkspaceSymbols => Ok(
            Next::Ask { uri: None, timeout: context.timeout },
        ),
        _ => match &context.path {
            None => Err(required_path(context.action)),
            Some(path) => if is_file {
                Ok(Next::Open { path: path.clone() })
            } else {
                let mut message = "path must point to a file for ".to_string();
                message.append(context.action.as_str());
                Err(message)
            },
        },
    }
}

/// Goes on once the document is open.
pub fn after_open(context: &RequestContext, uri: &str) -> (next: Next)
    ensures
        next@ == NextView::Ask(Some(uri@), context.timeout),
{
    Next::Ask { uri: Some(uri.to_string()), timeout: context.timeout }
}

/// What follows the first answer.
pub open spec fn move_after_answer(
    context: RequestContext,
    uri: Option<Seq<char>>,
    result: json::JsonView,
) -> Result<NextView, Seq<char>> {
    if symbols::retries(context.provider_id@, context.action, result) && symbols::retry_budget(
        context.timeout,
    ) > 0 {
        Ok(NextView::Settle(uri, result, symbols::retry_budget(context.timeout)))
    } else {
        move_after_result(context, uri, result)
    }
}

/// What follows the answer that counts.
pub open spec fn move_after_result(
    context: RequestContext,
    uri: Option<Seq<char>>,
    result: json::JsonView,
) -> Result<NextView, Seq<char>> {
    match context.action {
        LspAction::WorkspaceSymbols if symbols::no_symbols(result) && context.path is Some => Ok(
            NextView::OpenForSymbols(context.path->Some_0@, result, context.timeout),
        ),
        LspAction::Hover if result is Null && uri is Some => Ok(
            NextView::AskForHover(uri->Some_0, context.timeout),
        ),
        LspAction::Rename => match workspace_edit::preview(result, context.limit as int) {
            Err(message) => Err(message),
            Ok(preview) => if context.request.apply && workspace_edit::stated_operation_count(
                preview,
            ) > 0 {
                Ok(NextView::Apply(result, preview))
            } else {
                Ok(context.finished(context.opened_path(), preview, false))
            },
        },
        _ => Ok(context.finished(context.opened_path(), result, false)),
    }
}

/// Goes on once the server has answered.
pub fn after_answer(context: &RequestContext, uri: Option<String>, result: Json) -> (r: Result<
    Next,
    String,
>)
    ensures
        next_outcome(r) == move_after_answer(*context, text::opt_text(uri), result@),
{
    if symbols::should_retry_empty_result(context.provider_id.as_str(), context.action, &result) {
        let budget: u128 = symbols::empty_result_retry_budget(context.timeout);
        if budget > 0 {
            return Ok(Next::Settle { uri, result, budget });
        }
    }
    after_second_answer(context, uri, result)
}

/// Goes on with the answer that counts.
pub fn after_second_answer(context: &RequestContext, uri: Option<String>, result: Json) -> (r:
    Result<Next, String>)
    ensures
        next_outcome(r) == move_after_result(*context, text::opt_text(uri), result@),
{
    match context.action {
        LspAction::WorkspaceSymbols => {
            if symbols::is_empty_symbol_result(&result) {
                if let Some(path) = &context.path {
                    return Ok(
                        Next::OpenForSymbols {
                            path: path.clone(),
                            result,
                            timeout: context.timeout,
                        },
                    );
                }
            }
            Ok(context.finish_plainly(&result))
        },
        LspAction::Hover => {
            if result.is_null() {
                if let Some(uri) = uri {
                    return Ok(Next::AskForHover { uri, timeout: context.timeout });
                }
            }
            Ok(context.finish_plainly(&result))
        },
        LspAction::Rename => match workspace_edit::summarize_workspace_edit(
            &result,
            context.limit,
        ) {
            Err(message) => Err(message),
            Ok(preview) => {
                if context.request.apply && workspace_edit::rename_preview_operation_count(&preview)
                    > 0 {
                    Ok(Next::Apply { edit: result, preview })
                } else {
                    Ok(context.finish_plainly(&preview))
                }
            },
        },
        _ => Ok(context.finish_plainly(&result)),
    }
}

/// The time that the second attempt gets: what is left of the budget, but not
/// too little.
pub open spec fn second_attempt_time(budget: u128, waited: u128) -> u128 {
    let left = moments::since(waited, budget);
    if left >= moments::millis(MIN_EMPTY_RESULT_RETRY_TIMEOUT_MS) {
        left
    } else {
        moments::millis(MIN_EMPTY_RESULT_RETRY_TIMEOUT_MS)
    }
}

/// Goes on once the server has settled: it is asked again where it reported
/// progress.
pub fn after_wait(
    context: &RequestContext,
    uri: Option<String>,
    result: Json,
    budget: u128,
    observed_progress: bool,
    waited: u128,
) -> (r: Result<Next, String>)
    ensures
        next_outcome(r) == if observed_progress {
            Ok(NextView::AskAgain(text::opt_text(uri), second_attempt_time(budget, waited)))
        } else {
            move_after_result(*context, text::opt_text(uri), result@)
        },
{
    if !observed_progress {
        return after_second_answer(context, uri, result);
    }
    let left: u128 = moments::elapsed(waited, budget);
    let timeout: u128 = if left >= moments::millis(MIN_EMPTY_RESULT_RETRY_TIMEOUT_MS) {
        left
    } else {
        moments::millis(MIN_EMPTY_RESULT_RETRY_TIMEOUT_MS)
    };
    Ok(Next::AskAgain { uri, timeout })
}

/// What follows the symbols of the document that stand in for those of the
/// workspace.
pub open spec fn move_after_symbols(
    context: RequestContext,
    path: Seq<char>,
    result: json::JsonView,
    document_symbols: json::JsonView,
) -> Result<NextView, Seq<char>> {
    match symbols::fallback_symbols(
        document_symbols,
        uri::url_outcome(path, uri::file_url_name(path)),
        text::opt_text(context.request.query),
        context.limit as int,
    ) {
        Err(message) => Err(message),
        Ok(found) => if symbols::no_symbols(found) {
            Ok(context.finished(None, result, false))
        } else {
            Ok(context.finished(Some(path), found, false))
        },
    }
}

/// Goes on with the symbols of the document, which stand in for those of the
/// workspace.
pub fn after_document_symbols(
    context: &RequestContext,
    path: &str,
    result: Json,
    document_symbols: &Json,
) -> (r: Result<Next, String>)
    ensures
        next_outcome(r) == move_after_symbols(*context, path@, result@, document_symbols@),
{
    let query = match &context.request.query {
        Some(q) => Some(q.as_str()),
        None => None,
    };
    match symbols::fallback_workspace_symbols_from_document_symbols(
        document_symbols,
        path,
        query,
        context.limit,
    ) {
        Err(message) => Err(message),
        Ok(found) => if symbols::is_empty_symbol_result(&found) {
            Ok(context.finish(None, &result, false))
        } else {
            Ok(context.finish(Some(path), &found, false))
        },
    }
}

/// Goes on with the symbols of the document, where the server had nothing to
/// say about the position.
pub fn after_hover_symbols(context: &RequestContext, document_symbols: &Json) -> (next: Next)
    ensures
        next@ == context.finished(
            context.opened_path(),
            json::or_null(
                symbols::hover_note(document_symbols@, context.request.line, context.request.column),
            ),
            false,
        ),
{
    match symbols::hover_fallback_from_document_symbols(
        document_symbols,
        context.request.line,
        context.request.column,
    ) {
        Some(note) => context.finish_plainly(&note),
        None => context.finish_plainly(&Json::Null),
    }
}

/// Goes on once the edit of the workspace has been applied.
pub fn after_edit(context: &RequestContext, preview: &Json) -> (next: Next)
    ensures
        next@ == context.finished(context.opened_path(), preview@, true),
{
    match context.action {
        LspAction::WorkspaceSymbols => context.finish(None, preview, true),
        _ => match &context.path {
            Some(p) => context.finish(Some(p.as_str()), preview, true),
            None => context.finish(None, preview, true),
        },
    }
}

/// How many things can still be done for a request.
pub open spec fn remaining(next: NextView) -> nat {
    match next {
        NextView::Open(_) => 5,
        NextView::Ask(_, _) => 4,
        NextView::Settle(_, _, _) => 3,
        NextView::AskAgain(_, _) => 2,
        NextView::OpenForSymbols(_, _, _) => 1,
        NextView::AskForHover(_, _) => 1,
        NextView::Apply(_, _) => 1,
        NextView::Finish(_) => 0,
    }
}

/// Every request comes to an end: whatever the server answers, what follows a
/// step is nearer to the answer than the step was.
pub proof fn requests_come_to_an_end(
    context: RequestContext,
    uri: Option<Seq<char>>,
    path: Seq<char>,
    result: json::JsonView,
    document_symbols: json::JsonView,
)
    ensures
        move_after_answer(context, uri, result) matches Ok(next) ==> remaining(next) < remaining(
            NextView::Ask(uri, context.timeout),
        ),
        move_after_result(context, uri, result) matches Ok(next) ==> remaining(next) <= 1,
        move_after_symbols(context, path, result, document_symbols) matches Ok(next)
            ==> next is Finish,
{
}

/// A workspace is changed only by a rename that asks for it.
pub proof fn only_requested_renames_are_applied(
    context: RequestContext,
    uri: Option<Seq<char>>,
    result: json::JsonView,
)
    requires
        move_after_answer(context, uri, result) matches Ok(next) && next is Apply,
    ensures
        context.action is Rename,
        context.request.apply,
{
}

// ---------------------------------------------------------------------------
// The tool.

/// The tool that asks language servers.
pub struct LspHandler;

impl LspHandler {
    /// Checks whether the tool was called as a function.
    pub fn check_payload(is_function: bool) -> (r: Result<(), FunctionCallError>)
        ensures
            match r {
                Ok(_) => is_function,
                Err(fault) => !is_function && fault@ == errors::CallFault::RespondToModel(
                    "lsp handler received unsupported payload"@,
                ),
            },
    {
        if is_function {
            Ok(())
        } else {
            Err(errors::respond("lsp handler received unsupported payload"))
        }
    }

    /// Passes on what came of a request. The outer outcome is that of the task
    /// that ran it.
    pub fn answer(outcome: Result<Result<String, String>, String>) -> (r: Result<
        String,
        FunctionCallError,
    >)
        ensures
            match (outcome, r) {
                (Ok(Ok(rendered)), Ok(out)) => out@ == rendered@,
                (Ok(Err(message)), Err(fault)) => fault@ == errors::CallFault::RespondToModel(
                    message@,
                ),
                (Err(reason), Err(fault)) => fault@ == errors::CallFault::RespondToModel(
                    "failed to join lsp task: "@ + reason@,
                ),
                _ => false,
            },
    {
        match outcome {
            Ok(Ok(rendered)) => Ok(rendered),
            Ok(Err(message)) => Err(FunctionCallError::RespondToModel(message)),
            Err(reason) => {
                let mut message = "failed to join lsp task: ".to_string();
                message.append(reason.as_str());
                Err(FunctionCallError::RespondToModel(message))
            },
        }
    }
}

// ---------------------------------------------------------------------------
// How requests proceed.

/// A request has the time that it states, or else the configured one, or else a
/// quarter of a minute; and it gets as many results as it states, one at least,
/// or else fifty.
pub proof fn requests_have_time_and_limit(request: LspToolRequest, ms: nat, n: usize)
    ensures
        request.timeout_ms is Some ==> allowed_time(request, None)
            == request.timeout_ms->Some_0 as nat && allowed_time(
            request,
            Some(text::decimal(ms)),
        ) == request.timeout_ms->Some_0 as nat,
        request.timeout_ms is None ==> allowed_time(request, None) == 15_000,
        request.timeout_ms is None && 0 < ms <= u64::MAX ==> allowed_time(
            request,
            Some(text::decimal(ms)),
        ) == ms,
        request.timeout_ms is None && ms == 0 ==> allowed_time(request, Some(text::decimal(ms)))
            == 15_000,
        request.limit is None ==> allowed_results(request) == 50,
        request.limit == Some(n) && n >= 1 ==> allowed_results(request) == n,
        request.limit == Some(0usize) ==> allowed_results(request) == 1,
{
    sessions::settings_are_read(
        Seq::empty(),
        ms,
        u64::MAX as nat,
        actions::DEFAULT_TIMEOUT_MS as nat,
    );
}

/// An action that a request states is the one that is done; only where it leaves
/// that open is one found out.
pub proof fn stated_actions_are_done(request: LspToolRequest, has_path: bool)
    ensures
        !(request.action is Auto) ==> effective(request, has_path) == request.action,
        request.action is Auto ==> effective(request, has_path) == actions::inferred_action(
            request,
            has_path,
        ),
        !(effective(request, has_path) is Auto),
        needs_file(LspAction::Diagnostics),
        needs_file(LspAction::Definition),
        needs_file(LspAction::References),
        needs_file(LspAction::Hover),
        needs_file(LspAction::DocumentSymbols),
        needs_file(LspAction::Rename),
        needs_file(LspAction::Completion),
        needs_file(LspAction::SignatureHelp),
        needs_file(LspAction::CodeActions),
        !needs_file(LspAction::WorkspaceSymbols),
        !needs_file(LspAction::Providers),
{
}

/// Looking for symbols in the workspace asks at once; everything else opens its
/// document first, and is refused where there is none.
pub proof fn documents_are_opened_first(context: RequestContext, is_file: bool)
    ensures
        context.action is WorkspaceSymbols ==> first_move(context, is_file) == Ok::<_, Seq<char>>(
            NextView::Ask(None, context.timeout),
        ),
        !(context.action is WorkspaceSymbols) && context.path is None ==> first_move(
            context,
            is_file,
        ) == Err::<NextView, _>("path is required for "@ + actions::action_name(context.action)),
        !(context.action is WorkspaceSymbols) && context.path is Some && is_file ==> first_move(
            context,
            is_file,
        ) == Ok::<_, Seq<char>>(NextView::Open(context.path->Some_0@)),
        !(context.action is WorkspaceSymbols) && context.path is Some && !is_file ==> first_move(
            context,
            is_file,
        ) == Err::<NextView, _>(
            "path must point to a file for "@ + actions::action_name(context.action),
        ),
{
}

/// The answer that ends a request: what was asked and done, by which server and
/// where, and the result.
pub open spec fn told(
    context: RequestContext,
    path: Option<Seq<char>>,
    result: json::JsonView,
    applied: bool,
) -> NextView {
    NextView::Finish(
        output::answer(
            (output::FactsView {
                requested_action: context.request.action,
                resolved_action: context.action,
                provider: context.provider_id@,
                workspace_root: context.workspace_root@,
                path,
                server_command: context.server_command@,
                server_args: text::texts(context.server_args@),
                apply_requested: context.request.apply,
                applied,
            }),
            result,
            context.limit as int,
        ),
    )
}

/// What a result leads to: an empty one for the workspace to the symbols of the
/// document, a null one for a place to a note on the symbol there, a rename to
/// its preview, which is applied where that was asked for and something is to be
/// done, and every other result to the answer.
pub proof fn results_lead_to_answers(
    context: RequestContext,
    uri: Option<Seq<char>>,
    result: json::JsonView,
    preview: json::JsonView,
)
    ensures
        ({
            let next = move_after_result(context, uri, result);
            let path = if context.action is WorkspaceSymbols {
                None
            } else {
                text::opt_text(context.path)
            };
            let plainly = Ok::<_, Seq<char>>(told(context, path, result, false));
            let nothing = result is Null || result == json::JsonView::Array(Seq::empty());
            &&& context.action is WorkspaceSymbols && nothing && context.path is Some ==> next
                == Ok::<_, Seq<char>>(
                NextView::OpenForSymbols(context.path->Some_0@, result, context.timeout),
            )
            &&& context.action is WorkspaceSymbols && context.path is None ==> next == plainly
            &&& context.action is WorkspaceSymbols && result is Array && result->Array_0.len() > 0
                ==> next == plainly
            &&& context.action is Hover && result is Null && uri is Some ==> next == Ok::<
                _,
                Seq<char>,
            >(NextView::AskForHover(uri->Some_0, context.timeout))
            &&& context.action is Hover && !(result is Null) ==> next == plainly
            &&& context.action is Definition || context.action is References
                || context.action is Diagnostics || context.action is DocumentSymbols
                || context.action is Completion || context.action is SignatureHelp
                || context.action is CodeActions ==> next == plainly
            &&& context.action is Rename && workspace_edit::preview(result, context.limit as int)
                == Ok::<_, Seq<char>>(preview) ==> next == if context.request.apply
                && workspace_edit::stated_operation_count(preview) > 0 {
                Ok::<_, Seq<char>>(NextView::Apply(result, preview))
            } else {
                Ok(told(context, path, preview, false))
            }
        }),
{
    if result is Array && result->Array_0.len() == 0 {
        assert(result->Array_0 =~= Seq::<json::JsonView>::empty());
    }
}

/// Only a server for Rust that found nothing at a place or in the workspace is
/// asked again, once it has settled, for half of the time and eight seconds at
/// most; the second time it has what is left of that, a quarter of a second at
/// least.
pub proof fn empty_results_are_asked_for_again(
    context: RequestContext,
    uri: Option<Seq<char>>,
    result: json::JsonView,
    budget: u128,
    waited: u128,
)
    ensures
        ({
            let next = move_after_answer(context, uri, result);
            let once_more = context.provider_id@ == "rust"@ && ((context.action is Hover
                && result is Null) || (context.action is WorkspaceSymbols && (result is Null || (
            result is Array && result->Array_0.len() == 0))));
            let half = context.timeout / 2;
            &&& !once_more ==> next == move_after_result(context, uri, result)
            &&& once_more && 0 < half <= 8_000_000_000 ==> next == Ok::<_, Seq<char>>(
                NextView::Settle(uri, result, half),
            )
            &&& once_more && half > 8_000_000_000 ==> next == Ok::<_, Seq<char>>(
                NextView::Settle(uri, result, 8_000_000_000),
            )
            &&& once_more && half == 0 ==> next == move_after_result(context, uri, result)
            &&& budget >= waited + 250_000_000 ==> second_attempt_time(budget, waited) == budget
                - waited
            &&& budget < waited + 250_000_000 ==> second_attempt_time(budget, waited) == 250_000_000
        }),
{
}

/// Symbols of the document take the place of an empty result, where there are
/// some, and the answer then names the document.
pub proof fn document_symbols_stand_in(
    context: RequestContext,
    path: Seq<char>,
    result: json::JsonView,
    document_symbols: json::JsonView,
    found: Seq<json::JsonView>,
)
    requires
        symbols::fallback_symbols(
            document_symbols,
            uri::url_outcome(path, uri::file_url_name(path)),
            text::opt_text(context.request.query),
            context.limit as int,
        ) == Ok::<_, Seq<char>>(json::JsonView::Array(found)),
    ensures
        found.len() == 0 ==> move_after_symbols(context, path, result, document_symbols) == Ok::<
            _,
            Seq<char>,
        >(told(context, None, result, false)),
        found.len() > 0 ==> move_after_symbols(context, path, result, document_symbols) == Ok::<
            _,
            Seq<char>,
        >(told(context, Some(path), json::JsonView::Array(found), false)),
{
}

} // verus!
