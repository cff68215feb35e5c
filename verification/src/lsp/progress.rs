//! Requests that take a while: their progress, and how long to wait for them.

use vstd::prelude::*;

use crate::json;
use crate::json::Json;
use crate::json::JsonNumber;
use crate::json_text;
use crate::lsp::transport;
use crate::moments;
use crate::text;
use crate::text_map::TextMap;

verus! {

/// How long a request may go without a sign of progress.
pub const REQUEST_PROGRESS_GRACE_PERIOD_MS: u64 = 2_000;

/// How much longer than asked a request may take while it makes progress.
pub const MAX_PROGRESS_TIMEOUT_EXTENSION_MS: u64 = 45_000;

/// How long there must be no news before a server counts as quiet.
pub const WORK_DONE_PROGRESS_QUIET_PERIOD_MS: u64 = 250;

/// How long there must be no news before diagnostics count as complete.
pub const DIAGNOSTICS_QUIET_PERIOD_MS: u64 = 300;

/// The work that a server says it is doing.
pub struct WorkDoneProgressState {
    pub active_tokens: TextMap<()>,
    pub last_activity_at: Option<u128>,
    pub token_last_activity_at: TextMap<u128>,
}

/// What a server says about its work: the token, and the kind of news.
pub open spec fn progress_news(params: Option<json::JsonView>) -> Option<(Seq<char>, Seq<char>)> {
    match token_text(json::opt_get(params, "token"@)) {
        None => None,
        Some(token) => match json::opt_as_str(
            json::opt_get(json::opt_get(params, "value"@), "kind"@),
        ) {
            None => None,
            Some(kind) => Some((token, kind)),
        },
    }
}

/// The text of a number.
pub open spec fn number_text(n: json::NumberView) -> Seq<char> {
    match n {
        json::NumberView::Unsigned(k) => text::decimal(k),
        json::NumberView::Negative(k) => text::decimal_int(k),
        json::NumberView::Float(s) => s,
    }
}

/// The text of a token, which may be a string or a number.
pub open spec fn token_text(token: Option<json::JsonView>) -> Option<Seq<char>> {
    match token {
        Some(json::JsonView::Str(s)) => Some(s),
        Some(json::JsonView::Number(n)) => Some(number_text(n)),
        _ => None,
    }
}

/// Whether a kind of news means that work goes on.
pub open spec fn goes_on(kind: Seq<char>) -> bool {
    kind == "begin"@ || kind == "report"@
}

/// The text of a token.
pub fn progress_token_key(token: Option<&Json>) -> (key: Option<String>)
    ensures
        text::opt_text(key) == token_text(json::opt_ref_view(token)),
{
    match token {
        Some(Json::Str(s)) => Some(s.clone()),
        Some(Json::Number(n)) => match n {
            JsonNumber::Unsigned(k) => Some(text::render_u64(*k)),
            JsonNumber::Negative(k) => Some(text::render_i64(*k)),
            JsonNumber::Float(s) => Some(s.clone()),
        },
        _ => None,
    }
}

impl WorkDoneProgressState {
    /// No work.
    pub fn new() -> (s: Self)
        ensures
            s.active_tokens@ == Map::<Seq<char>, ()>::empty(),
            s.last_activity_at is None,
            s.token_last_activity_at@ == Map::<Seq<char>, u128>::empty(),
    {
        WorkDoneProgressState {
            active_tokens: TextMap::new(),
            last_activity_at: None,
            token_last_activity_at: TextMap::new(),
        }
    }

    /// Whether the time of the last news is known for exactly the active
    /// tokens.
    pub open spec fn wf(&self) -> bool {
        self.active_tokens@.dom() == self.token_last_activity_at@.dom()
    }

    /// Notes what a server says about its work. News without a token or a kind
    /// is no news.
    pub fn record_work_done_progress(&mut self, params: Option<&Json>, now: u128)
        ensures
            match progress_news(json::opt_ref_view(params)) {
                None => *final(self) == *old(self),
                Some((token, kind)) => {
                    &&& final(self).last_activity_at == Some(now)
                    &&& if goes_on(kind) {
                        &&& final(self).active_tokens@ == old(self).active_tokens@.insert(token, ())
                        &&& final(self).token_last_activity_at@ == old(
                            self).token_last_activity_at@.insert(token, now)
                    } else if kind == "end"@ {
                        &&& final(self).active_tokens@ == old(self).active_tokens@.remove(token)
                        &&& final(self).token_last_activity_at@ == old(
                            self).token_last_activity_at@.remove(token)
                    } else {
                        &&& final(self).active_tokens@ == old(self).active_tokens@
                        &&& final(self).token_last_activity_at@ == old(
                            self).token_last_activity_at@
                    }
                },
            },
            old(self).wf() ==> final(self).wf(),
    {
        let params = match params {
            Some(params) => params,
            None => {
                return;
            },
        };
        let token = match progress_token_key(params.get("token")) {
            Some(token) => token,
            None => {
                return;
            },
        };
        let found = match params.get("value") {
            Some(value) => value.get("kind"),
            None => None,
        };
        let kind = match found {
            Some(kind) => match kind.as_str() {
                Some(kind) => kind,
                None => {
                    return;
                },
            },
            None => {
                return;
            },
        };
        self.last_activity_at = Some(now);
        if text::same_text(kind, "begin") || text::same_text(kind, "report") {
            self.active_tokens.insert(token.as_str(), ());
            self.token_last_activity_at.insert(token.as_str(), now);
        } else if text::same_text(kind, "end") {
            let _ = self.active_tokens.remove(token.as_str());
            let _ = self.token_last_activity_at.remove(token.as_str());
        }
        proof {
            if old(self).wf() {
                assert(self.active_tokens@.dom() =~= self.token_last_activity_at@.dom());
            }
        }
    }

    /// Forgets the work under a token.
    pub fn clear_progress_token(&mut self, token: Option<&str>)
        ensures
            match token {
                Some(t) => final(self).active_tokens@ == old(self).active_tokens@.remove(t@)
                    && final(self).token_last_activity_at@ == old(
                    self).token_last_activity_at@.remove(t@) && final(self).last_activity_at == old(
                    self).last_activity_at,
                None => *final(self) == *old(self),
            },
            old(self).wf() ==> final(self).wf(),
    {
        if let Some(token) = token {
            let _ = self.active_tokens.remove(token);
            let _ = self.token_last_activity_at.remove(token);
        }
        proof {
            if old(self).wf() {
                assert(self.active_tokens@.dom() =~= self.token_last_activity_at@.dom());
            }
        }
    }
}

/// How much longer than asked a request may take.
pub open spec fn extension_budget(timeout: u128) -> u128 {
    moments::shorter_of(timeout, moments::millis(MAX_PROGRESS_TIMEOUT_EXTENSION_MS))
}

/// How much longer than asked a request may take.
pub fn progress_extension_budget(timeout: u128) -> (budget: u128)
    ensures
        budget == extension_budget(timeout),
{
    moments::shorter(timeout, moments::millis(MAX_PROGRESS_TIMEOUT_EXTENSION_MS))
}

/// The new deadline of a request whose time is up: a grace period from now on,
/// but not beyond the last deadline. Only work that is under way and was heard
/// of within the grace period gets more time.
pub open spec fn extended_deadline(
    state: WorkDoneProgressState,
    token: Seq<char>,
    now: u128,
    current_deadline: u128,
    max_deadline: u128,
) -> Option<int> {
    let candidate = if now + moments::millis(REQUEST_PROGRESS_GRACE_PERIOD_MS) > max_deadline {
        max_deadline as int
    } else {
        now + moments::millis(REQUEST_PROGRESS_GRACE_PERIOD_MS)
    };
    if state.active_tokens@.contains_key(token) && state.token_last_activity_at@.contains_key(token)
        && moments::since(state.token_last_activity_at@[token], now) <= moments::millis(
        REQUEST_PROGRESS_GRACE_PERIOD_MS,
    )
        && candidate > current_deadline {
        Some(candidate)
    } else {
        None
    }
}

/// The new deadline of a request whose time is up.
pub fn next_request_deadline_for_progress(
    state: &WorkDoneProgressState,
    token: &str,
    now: u128,
    current_deadline: u128,
    max_deadline: u128,
) -> (r: Option<u128>)
    ensures
        match r {
            Some(deadline) => extended_deadline(*state, token@, now, current_deadline, max_deadline)
                == Some(deadline as int),
            None => extended_deadline(*state, token@, now, current_deadline, max_deadline) is None,
        },
{
    if !state.active_tokens.contains(token) {
        return None;
    }
    let last_activity_at: u128 = match state.token_last_activity_at.get(token) {
        Some(at) => *at,
        None => {
            return None;
        },
    };
    if moments::elapsed(last_activity_at, now) > moments::millis(REQUEST_PROGRESS_GRACE_PERIOD_MS) {
        return None;
    }
    let extended: u128 = moments::later(now, moments::millis(REQUEST_PROGRESS_GRACE_PERIOD_MS));
    let next_deadline: u128 = if extended > max_deadline {
        max_deadline
    } else {
        extended
    };
    if next_deadline > current_deadline {
        Some(next_deadline)
    } else {
        None
    }
}

/// A deadline only ever moves forward, and never beyond the last one.
pub proof fn deadlines_stay_within_bounds(
    state: WorkDoneProgressState,
    token: Seq<char>,
    now: u128,
    current_deadline: u128,
    max_deadline: u128,
)
    ensures
        match extended_deadline(state, token, now, current_deadline, max_deadline) {
            Some(deadline) => current_deadline < deadline <= max_deadline,
            None => true,
        },
{
}

/// Whether a server can be asked to report on a request.
pub open spec fn reports_progress(method: Seq<char>) -> bool {
    ||| method == "textDocument/definition"@
    ||| method == "textDocument/references"@
    ||| method == "textDocument/hover"@
    ||| method == "textDocument/documentSymbol"@
    ||| method == "workspace/symbol"@
    ||| method == "textDocument/prepareRename"@
    ||| method == "textDocument/rename"@
    ||| method == "textDocument/completion"@
    ||| method == "textDocument/signatureHelp"@
    ||| method == "textDocument/codeAction"@
}

/// Whether a server can be asked to report on a request.
pub fn request_supports_work_done_progress(method: &str) -> (r: bool)
    ensures
        r == reports_progress(method@),
{
    text::same_text(method, "textDocument/definition") || text::same_text(
        method,
        "textDocument/references",
    ) || text::same_text(method, "textDocument/hover") || text::same_text(
        method,
        "textDocument/documentSymbol",
    ) || text::same_text(method, "workspace/symbol") || text::same_text(
        method,
        "textDocument/prepareRename",
    ) || text::same_text(method, "textDocument/rename") || text::same_text(
        method,
        "textDocument/completion",
    ) || text::same_text(method, "textDocument/signatureHelp") || text::same_text(
        method,
        "textDocument/codeAction",
    )
}

/// The token under which a server reports on a request.
pub open spec fn request_token(method: Seq<char>, id: int) -> Seq<char> {
    "codex:"@ + method + ":"@ + text::decimal_int(id)
}

/// The token under which a server reports on a request.
pub fn build_request_progress_token(method: &str, request_id: i64) -> (token: String)
    ensures
        token@ == request_token(method@, request_id as int),
{
    let mut token = "codex:".to_string();
    token.append(method);
    token.append(":");
    token.append(text::render_i64(request_id).as_str());
    token
}

/// Parameters that carry a token, which objects can.
pub open spec fn with_token(params: json::JsonView, token: Seq<char>) -> json::JsonView {
    match params {
        json::JsonView::Object(entries) => json::JsonView::Object(
            json::with_entry(entries, "workDoneToken"@, json::JsonView::Str(token)),
        ),
        _ => params,
    }
}

/// Puts a token into the parameters of a request.
pub fn attach_work_done_progress_token(params: Json, token: &str) -> (out: Json)
    ensures
        out@ == with_token(params@, token@),
{
    match params {
        Json::Object(entries) => {
            let mut entries = entries;
            let ghost all = json::entry_views(entries@);
            proof {
                json::lemma_object_view(entries);
            }
            let mut i: usize = 0;
            while i < entries.len()
                invariant
                    i <= entries@.len(),
                    all == json::entry_views(entries@),
                    params@ == json::JsonView::Object(all),
                    json::entry_index(all, "workDoneToken"@, 0) == json::entry_index(
                        all,
                        "workDoneToken"@,
                        i as int,
                    ),
                decreases entries@.len() - i,
            {
                proof {
                    assert(all[i as int] == (entries@[i as int].0@, entries@[i as int].1@));
                }
                if text::same_text(entries[i].0.as_str(), "workDoneToken") {
                    entries.set(i, ("workDoneToken".to_string(), json::string(token)));
                    proof {
                        json::lemma_object_view(entries);
                        assert(json::entry_views(entries@) =~= all.update(
                            i as int,
                            ("workDoneToken"@, json::JsonView::Str(token@)),
                        ));
                    }
                    return Json::Object(entries);
                }
                i += 1;
            }
            entries.push(("workDoneToken".to_string(), json::string(token)));
            proof {
                json::lemma_object_view(entries);
                assert(json::entry_views(entries@) =~= all.push(
                    ("workDoneToken"@, json::JsonView::Str(token@)),
                ));
            }
            Json::Object(entries)
        },
        other => other,
    }
}

// ---------------------------------------------------------------------------
// A request on its way.

/// A request that waits for its answer.
pub struct PendingRequest {
    pub id: i64,
    pub method: String,
    pub token: Option<String>,
    pub deadline: u128,
    pub max_deadline: u128,
}

/// The message of a request.
pub open spec fn request_message(id: int, method: Seq<char>, params: json::JsonView)
    -> json::JsonView {
    json::JsonView::object().with("jsonrpc"@, json::JsonView::Str("2.0"@)).with(
        "id"@,
        json::integer_view(id),
    ).with("method"@, json::JsonView::Str(method)).with("params"@, params)
}

/// The message of a notification.
pub open spec fn notification_message(method: Seq<char>, params: json::JsonView) -> json::JsonView {
    json::JsonView::object().with("jsonrpc"@, json::JsonView::Str("2.0"@)).with(
        "method"@,
        json::JsonView::Str(method),
    ).with("params"@, params)
}

/// Builds the message of a notification.
pub fn notification(method: &str, params: Json) -> (out: Json)
    ensures
        out@ == notification_message(method@, params@),
{
    json::object().with("jsonrpc", json::string("2.0")).with("method", json::string(method)).with(
        "params",
        params,
    )
}

/// The parameters that a request is sent with.
pub open spec fn sent_params(method: Seq<char>, id: int, params: json::JsonView) -> json::JsonView {
    if reports_progress(method) {
        with_token(params, request_token(method, id))
    } else {
        params
    }
}

/// Starts a request: the message to send, and what to wait for.
pub fn begin_request(id: i64, method: &str, params: Json, now: u128, timeout: u128) -> (r: (
    PendingRequest,
    Json,
))
    ensures
        r.0.id == id,
        r.0.method@ == method@,
        text::opt_text(r.0.token) == if reports_progress(method@) {
            Some(request_token(method@, id as int))
        } else {
            None
        },
        r.0.deadline == moments::after(now, timeout),
        r.0.max_deadline == moments::after(r.0.deadline, extension_budget(timeout)),
        r.1@ == request_message(
            id as int,
            method@,
            sent_params(method@, id as int, params@),
        ),
{
    let deadline: u128 = moments::later(now, timeout);
    let max_deadline: u128 = moments::later(deadline, progress_extension_budget(timeout));
    let (token, params) = if request_supports_work_done_progress(method) {
        let token = build_request_progress_token(method, id);
        let params = attach_work_done_progress_token(params, token.as_str());
        (Some(token), params)
    } else {
        (None, params)
    };
    let message = json::object().with("jsonrpc", json::string("2.0")).with(
        "id",
        json::integer(id),
    ).with("method", json::string(method)).with("params", params);
    (PendingRequest { id, method: method.to_string(), token, deadline, max_deadline }, message)
}

/// What to do for a request that has no answer yet.
#[derive(Clone, Copy, Debug, PartialEq, Eq, Structural)]
pub enum Patience {
    /// Wait for news, this long at most.
    Wait { time: u128 },
    /// The time is up.
    TimedOut,
}

/// The deadline of a request, extended where its time is up and work goes on.
pub open spec fn deadline_at(
    request: PendingRequest,
    progress: WorkDoneProgressState,
    now: u128,
) -> int {
    match request.token {
        Some(token) => if now >= request.deadline {
            match extended_deadline(
                progress,
                token@,
                now,
                request.deadline,
                request.max_deadline,
            ) {
                Some(deadline) => deadline,
                None => request.deadline as int,
            }
        } else {
            request.deadline as int
        },
        None => request.deadline as int,
    }
}

/// What came while a server was listened to.
#[derive(Clone, Debug)]
pub enum News {
    /// A message; `counts` tells whether it is of the kind waited for.
    Message { counts: bool },
    /// Nothing, for as long as was waited.
    Silence,
    /// The server ended.
    Closed,
    /// The message could not be read.
    Failed { message: String },
}

/// Why nothing more can come from a server, given the end of its error output.
pub open spec fn end_of_wait(news: News, errors: Seq<char>) -> Option<Seq<char>> {
    match news {
        News::Message { .. } | News::Silence => None,
        News::Closed => Some(transport::closed_message(errors)),
        News::Failed { message } => Some(message@),
    }
}

impl PendingRequest {
    /// Decides whether to go on waiting.
    pub fn patience(&mut self, progress: &WorkDoneProgressState, now: u128) -> (p: Patience)
        ensures
            final(self).deadline == deadline_at(*old(self), *progress, now),
            final(self).id == old(self).id,
            final(self).method == old(self).method,
            final(self).token == old(self).token,
            final(self).max_deadline == old(self).max_deadline,
            p == if now < final(self).deadline {
                Patience::Wait { time: (final(self).deadline - now) as u128 }
            } else {
                Patience::TimedOut
            },
    {
        if now >= self.deadline {
            let next: Option<u128> = match &self.token {
                Some(token) => next_request_deadline_for_progress(
                    progress,
                    token.as_str(),
                    now,
                    self.deadline,
                    self.max_deadline,
                ),
                None => None,
            };
            if let Some(deadline) = next {
                self.deadline = deadline;
            }
        }
        if now < self.deadline {
            Patience::Wait { time: self.deadline - now }
        } else {
            Patience::TimedOut
        }
    }

    /// The failure of a request whose time is up.
    pub fn timeout_message(&self) -> (message: String)
        ensures
            message@ == "LSP request timed out: "@ + self.method@,
    {
        let mut message = "LSP request timed out: ".to_string();
        message.append(self.method.as_str());
        message
    }

    /// The failure of a request that the server refused with an error.
    pub fn failure_message(&self, error: &Json) -> (message: String)
        ensures
            message@ == "LSP request failed for "@ + self.method@ + ": "@ + json_text::compact(
                error@,
            ),
    {
        let mut message = "LSP request failed for ".to_string();
        message.append(self.method.as_str());
        message.append(": ");
        message.append(json_text::compact_text(error).as_str());
        message
    }

    /// Decides whether the wait for the answer goes on after other news.
    pub fn hear(&self, news: &News, stderr_tail: &str) -> (r: Result<(), String>)
        ensures
            match r {
                Ok(_) => news is Message || news is Silence,
                Err(message) => end_of_wait(*news, stderr_tail@) == Some(message@),
            },
    {
        match news {
            News::Message { .. } | News::Silence => Ok(()),
            News::Closed => Err(transport::closed_before_responding_error(stderr_tail)),
            News::Failed { message } => Err(message.clone()),
        }
    }

    /// The message that takes a request back.
    pub fn cancel_message(&self) -> (out: Json)
        ensures
            out@ == notification_message(
                "$/cancelRequest"@,
                json::JsonView::object().with("id"@, json::integer_view(self.id as int)),
            ),
    {
        notification("$/cancelRequest", json::object().with("id", json::integer(self.id)))
    }

    /// Reads a message as the answer to this request.
    pub fn reply(&self, message: &Json) -> (r: Reply)
        ensures
            r@ == reply_in(self.id as int, message@),
    {
        let own: bool = match message.get("id") {
            Some(id) => match id.as_i64() {
                Some(n) => n == self.id,
                None => false,
            },
            None => false,
        };
        if !own {
            return Reply::Other;
        }
        match message.get("error") {
            Some(error) => Reply::Failed(error.duplicate()),
            None => Reply::Answer(json::duplicate_or_null(message.get("result"))),
        }
    }
}

/// A message, read as the answer to a request.
pub enum Reply {
    /// The answer.
    Answer(Json),
    /// The server refused; this is its error.
    Failed(Json),
    /// The message is about something else.
    Other,
}

/// What a [`Reply`] stands for.
#[verifier::ext_equal]
pub ghost enum ReplyView {
    Answer(json::JsonView),
    Failed(json::JsonView),
    Other,
}

impl View for Reply {
    type V = ReplyView;

    open spec fn view(&self) -> ReplyView {
        match self {
            Reply::Answer(value) => ReplyView::Answer(value@),
            Reply::Failed(error) => ReplyView::Failed(error@),
            Reply::Other => ReplyView::Other,
        }
    }
}

/// A message, read as the answer to the request with the given number.
pub open spec fn reply_in(id: int, message: json::JsonView) -> ReplyView {
    if json::opt_as_i64(message.get("id"@)) != Some(id) {
        ReplyView::Other
    } else {
        match message.get("error"@) {
            Some(error) => ReplyView::Failed(error),
            None => ReplyView::Answer(json::or_null(message.get("result"@))),
        }
    }
}

// ---------------------------------------------------------------------------
// Waiting for a server to settle.

/// How long to wait for more diagnostics; none where they are complete or the
/// time is up.
pub open spec fn diagnostics_patience(
    started_at: u128,
    last_seen_at: Option<u128>,
    now: u128,
    timeout: u128,
    quiet_period: u128,
) -> Option<int> {
    let settled = match last_seen_at {
        Some(at) => moments::since(at, now) >= quiet_period,
        None => false,
    };
    if settled || moments::since(started_at, now) >= timeout {
        None
    } else {
        Some(timeout - moments::since(started_at, now))
    }
}

/// How long to wait for more diagnostics.
pub fn diagnostics_wait(
    started_at: u128,
    last_seen_at: Option<u128>,
    now: u128,
    timeout: u128,
    quiet_period: u128,
) -> (wait: Option<u128>)
    ensures
        match wait {
            Some(time) => diagnostics_patience(started_at, last_seen_at, now, timeout, quiet_period)
                == Some(time as int),
            None => diagnostics_patience(started_at, last_seen_at, now, timeout, quiet_period)
                is None,
        },
{
    if let Some(at) = last_seen_at {
        if moments::elapsed(at, now) >= quiet_period {
            return None;
        }
    }
    let spent: u128 = moments::elapsed(started_at, now);
    if spent >= timeout {
        return None;
    }
    Some(timeout - spent)
}

/// The wait for the diagnostics of a document.
#[derive(Clone, Copy, Debug)]
pub struct DiagnosticsWait {
    pub started_at: u128,
    pub last_seen_at: Option<u128>,
    pub timeout: u128,
}

impl DiagnosticsWait {
    /// Starts to wait.
    pub fn start(now: u128, timeout: u128) -> (w: Self)
        ensures
            w.started_at == now,
            w.last_seen_at is None,
            w.timeout == timeout,
    {
        DiagnosticsWait { started_at: now, last_seen_at: None, timeout }
    }

    /// How long to wait for more diagnostics; none where they are complete or
    /// the time is up.
    pub fn patience(&self, now: u128) -> (wait: Option<u128>)
        ensures
            match wait {
                Some(time) => self.left(now) == Some(time as int),
                None => self.left(now) is None,
            },
    {
        diagnostics_wait(
            self.started_at,
            self.last_seen_at,
            now,
            self.timeout,
            moments::millis(DIAGNOSTICS_QUIET_PERIOD_MS),
        )
    }

    /// How long the wait may still take.
    pub open spec fn left(self, now: u128) -> Option<int> {
        diagnostics_patience(
            self.started_at,
            self.last_seen_at,
            now,
            self.timeout,
            moments::millis(DIAGNOSTICS_QUIET_PERIOD_MS),
        )
    }

    /// Notes what came, and tells whether to go on waiting. A message counts
    /// where diagnostics for the document are there after it.
    pub fn hear(&mut self, news: &News, now: u128) -> (r: Result<bool, String>)
        ensures
            *final(self) == (DiagnosticsWait {
                last_seen_at: if *news == (News::Message { counts: true }) {
                    Some(now)
                } else {
                    old(self).last_seen_at
                },
                ..*old(self)
            }),
            match r {
                Ok(goes_on) => !(news is Failed) && goes_on == (news is Message),
                Err(message) => news is Failed && message@ == news->message@,
            },
    {
        match news {
            News::Message { counts } => {
                if *counts {
                    self.last_seen_at = Some(now);
                }
                Ok(true)
            },
            News::Silence | News::Closed => Ok(false),
            News::Failed { message } => Err(message.clone()),
        }
    }
}

/// How a wait for a server to settle ended.
#[derive(Clone, Copy, Debug, PartialEq, Eq, Structural)]
pub struct ProgressWaitOutcome {
    pub observed_progress: bool,
    pub waited: u128,
}

/// What to do while a server settles.
#[derive(Clone, Copy, Debug, PartialEq, Eq, Structural)]
pub enum Settling {
    /// Wait for news, this long at most.
    Wait { time: u128 },
    /// The wait is over.
    Done { outcome: ProgressWaitOutcome },
}

/// What to do while a server settles: it is over once work was seen and there
/// has been no news for the quiet period, or once the time is up.
pub open spec fn settling(
    started_at: u128,
    observed_progress: bool,
    last_activity_at: Option<u128>,
    now: u128,
    max_wait: u128,
    quiet_period: u128,
) -> Settling {
    let waited = moments::since(started_at, now);
    let quiet = match last_activity_at {
        Some(at) => moments::since(at, now) >= quiet_period,
        None => true,
    };
    if (observed_progress && quiet) || waited >= max_wait {
        Settling::Done { outcome: ProgressWaitOutcome { observed_progress, waited } }
    } else if max_wait - waited <= quiet_period {
        Settling::Wait { time: (max_wait - waited) as u128 }
    } else {
        Settling::Wait { time: quiet_period }
    }
}

/// Decides what to do while a server settles.
pub fn wait_for_progress_quiet(
    started_at: u128,
    observed_progress: bool,
    last_activity_at: Option<u128>,
    now: u128,
    max_wait: u128,
    quiet_period: u128,
) -> (s: Settling)
    ensures
        s == settling(
            started_at,
            observed_progress,
            last_activity_at,
            now,
            max_wait,
            quiet_period,
        ),
{
    let waited: u128 = moments::elapsed(started_at, now);
    let quiet: bool = match last_activity_at {
        Some(at) => moments::elapsed(at, now) >= quiet_period,
        None => true,
    };
    if (observed_progress && quiet) || waited >= max_wait {
        return Settling::Done { outcome: ProgressWaitOutcome { observed_progress, waited } };
    }
    let left: u128 = max_wait - waited;
    if left <= quiet_period {
        Settling::Wait { time: left }
    } else {
        Settling::Wait { time: quiet_period }
    }
}

/// The wait for a server to settle.
#[derive(Clone, Copy, Debug)]
pub struct ProgressWait {
    pub started_at: u128,
    pub observed_progress: bool,
    pub max_wait: u128,
}

impl ProgressWait {
    /// Starts to wait. Work that the server says it is doing counts as seen.
    pub fn start(progress: &WorkDoneProgressState, now: u128, max_wait: u128) -> (w: Self)
        ensures
            w.started_at == now,
            w.observed_progress == (progress.active_tokens@.len() > 0),
            w.max_wait == max_wait,
    {
        ProgressWait {
            started_at: now,
            observed_progress: progress.active_tokens.len() > 0,
            max_wait,
        }
    }

    /// Decides what to do while the server settles.
    pub fn patience(&self, progress: &WorkDoneProgressState, now: u128) -> (s: Settling)
        ensures
            s == settling(
                self.started_at,
                self.observed_progress,
                progress.last_activity_at,
                now,
                self.max_wait,
                moments::millis(WORK_DONE_PROGRESS_QUIET_PERIOD_MS),
            ),
    {
        wait_for_progress_quiet(
            self.started_at,
            self.observed_progress,
            progress.last_activity_at,
            now,
            self.max_wait,
            moments::millis(WORK_DONE_PROGRESS_QUIET_PERIOD_MS),
        )
    }

    /// Notes what came, and tells how the wait ended where it did: once work
    /// was seen, silence ends it.
    pub fn hear(&mut self, news: &News, stderr_tail: &str, now: u128) -> (r: Result<
        Option<ProgressWaitOutcome>,
        String,
    >)
        ensures
            *final(self) == (ProgressWait {
                observed_progress: old(self).observed_progress || *news == (News::Message {
                    counts: true,
                }),
                ..*old(self)
            }),
            match r {
                Ok(Some(outcome)) => {
                    &&& news is Silence && old(self).observed_progress
                    &&& outcome == ProgressWaitOutcome {
                        observed_progress: true,
                        waited: moments::since(old(self).started_at, now),
                    }
                },
                Ok(None) => news is Message || (news is Silence && !old(self).observed_progress),
                Err(message) => end_of_wait(*news, stderr_tail@) == Some(message@),
            },
    {
        match news {
            News::Message { counts } => {
                if *counts {
                    self.observed_progress = true;
                }
                Ok(None)
            },
            News::Silence => if self.observed_progress {
                Ok(
                    Some(
                        ProgressWaitOutcome {
                            observed_progress: true,
                            waited: moments::elapsed(self.started_at, now),
                        },
                    ),
                )
            } else {
                Ok(None)
            },
            News::Closed => Err(transport::closed_before_responding_error(stderr_tail)),
            News::Failed { message } => Err(message.clone()),
        }
    }
}

// ---------------------------------------------------------------------------
// How long to wait.

/// Progress extends a deadline only while work under the token goes on and was
/// heard of within the last two seconds. The deadline is then two seconds from
/// now, but not beyond the last one allowed, and only where that is later.
pub proof fn progress_extends_deadlines(
    state: WorkDoneProgressState,
    token: Seq<char>,
    now: u128,
    current_deadline: u128,
    max_deadline: u128,
)
    ensures
        ({
            let extended = extended_deadline(state, token, now, current_deadline, max_deadline);
            let active = state.active_tokens@.contains_key(token)
                && state.token_last_activity_at@.contains_key(token);
            let heard = state.token_last_activity_at@[token];
            let lively = active && now - heard <= 2_000_000_000;
            let wanted = now + 2_000_000_000;
            &&& !active ==> extended is None
            &&& active && now - heard > 2_000_000_000 ==> extended is None
            &&& lively && wanted <= max_deadline && wanted > current_deadline ==> extended == Some(
                wanted,
            )
            &&& lively && wanted > max_deadline && max_deadline > current_deadline ==> extended
                == Some(max_deadline as int)
            &&& max_deadline <= current_deadline || wanted <= current_deadline ==> extended is None
        }),
{
}

/// A request may be extended by as long as it was given, and by three quarters
/// of a minute at most.
pub proof fn extensions_are_bounded(timeout: u128)
    ensures
        timeout <= 45_000_000_000 ==> extension_budget(timeout) == timeout,
        timeout > 45_000_000_000 ==> extension_budget(timeout) == 45_000_000_000,
{
}

/// The requests that can report progress are those that actions send; they
/// carry a token of their own, and no other request does.
pub proof fn action_requests_carry_a_token(method: Seq<char>, id: int, params: json::JsonView)
    ensures
        ({
            let named = method == "textDocument/definition"@ || method
                == "textDocument/references"@ || method == "textDocument/hover"@ || method
                == "textDocument/documentSymbol"@ || method == "workspace/symbol"@ || method
                == "textDocument/prepareRename"@ || method == "textDocument/rename"@ || method
                == "textDocument/completion"@ || method == "textDocument/signatureHelp"@ || method
                == "textDocument/codeAction"@;
            let token = "codex:"@ + method + ":"@ + text::decimal_int(id);
            &&& reports_progress(method) == named
            &&& !named ==> sent_params(method, id, params) == params
            &&& !(params is Object) ==> sent_params(method, id, params) == params
            &&& named && params is Object ==> sent_params(method, id, params).get(
                "workDoneToken"@,
            ) == Some(json::JsonView::Str(token))
        }),
{
    if params is Object {
        let entries = params->Object_0;
        let token = json::JsonView::Str(request_token(method, id));
        json::lemma_entry_index(entries, "workDoneToken"@, 0);
        let more = json::with_entry(entries, "workDoneToken"@, token);
        lemma_set_entry(entries, "workDoneToken"@, token, "workDoneToken"@, 0);
    }
}

/// A token leaves the rest of what a request carries as it is.
pub proof fn tokens_leave_the_rest(
    method: Seq<char>,
    id: int,
    params: json::JsonView,
    key: Seq<char>,
)
    requires
        key != "workDoneToken"@,
    ensures
        sent_params(method, id, params).get(key) == params.get(key),
{
    if params is Object && reports_progress(method) {
        let entries = params->Object_0;
        let token = json::JsonView::Str(request_token(method, id));
        lemma_set_entry(entries, "workDoneToken"@, token, key, 0);
    }
}

proof fn lemma_set_entry(
    entries: Seq<(Seq<char>, json::JsonView)>,
    key: Seq<char>,
    value: json::JsonView,
    asked: Seq<char>,
    from: int,
)
    requires
        0 <= from <= entries.len(),
        forall|j: int| 0 <= j < from ==> (#[trigger] entries[j]).0 != key,
    ensures
        asked == key ==> json::lookup(json::with_entry(entries, key, value), asked, from) == Some(
            value,
        ),
        asked != key ==> json::lookup(json::with_entry(entries, key, value), asked, from)
            == json::lookup(entries, asked, from),
    decreases entries.len() - from,
{
    json::lemma_entry_index(entries, key, 0);
    let more = json::with_entry(entries, key, value);
    lemma_first_entry(entries, key, 0);
    match json::entry_index(entries, key, 0) {
        Some(i) => {
            assert(from <= i);
            if from < i {
                assert(more[from] == entries[from]);
                lemma_set_entry(entries, key, value, asked, from + 1);
            } else {
                assert(more[from] == (key, value));
                if asked != key {
                    lemma_lookup_same(more, entries, asked, from + 1);
                }
            }
        },
        None => {
            if from < entries.len() {
                assert(more[from] == entries[from]);
                lemma_set_entry(entries, key, value, asked, from + 1);
            } else {
                assert(more.len() == entries.len() + 1);
                assert(more[from] == (key, value));
                if asked != key {
                    assert(json::lookup(more, asked, from + 1) is None);
                }
            }
        },
    }
}

proof fn lemma_first_entry(entries: Seq<(Seq<char>, json::JsonView)>, key: Seq<char>, from: int)
    requires
        0 <= from <= entries.len(),
    ensures
        match json::entry_index(entries, key, from) {
            Some(i) => from <= i < entries.len() && entries[i].0 == key && forall|j: int|
                from <= j < i ==> (#[trigger] entries[j]).0 != key,
            None => forall|j: int| from <= j < entries.len() ==> (#[trigger] entries[j]).0 != key,
        },
    decreases entries.len() - from,
{
    if from < entries.len() && entries[from].0 != key {
        lemma_first_entry(entries, key, from + 1);
    }
}

proof fn lemma_lookup_same(
    a: Seq<(Seq<char>, json::JsonView)>,
    b: Seq<(Seq<char>, json::JsonView)>,
    key: Seq<char>,
    from: int,
)
    requires
        0 <= from <= a.len(),
        a.len() == b.len(),
        forall|j: int| from <= j < a.len() ==> #[trigger] a[j] == b[j],
    ensures
        json::lookup(a, key, from) == json::lookup(b, key, from),
    decreases a.len() - from,
{
    if from < a.len() {
        assert(a[from] == b[from]);
        lemma_lookup_same(a, b, key, from + 1);
    }
}

/// What is sent over the wire: the version of the protocol, the method and the
/// parameters, and for a request its number.
pub proof fn messages_name_protocol_and_method(id: nat, method: Seq<char>, params: json::JsonView)
    ensures
        request_message(id as int, method, params) == json::JsonView::Object(
            seq![
                ("jsonrpc"@, json::JsonView::Str("2.0"@)),
                ("id"@, json::JsonView::Number(json::NumberView::Unsigned(id))),
                ("method"@, json::JsonView::Str(method)),
                ("params"@, params),
            ],
        ),
        notification_message(method, params) == json::JsonView::Object(
            seq![
                ("jsonrpc"@, json::JsonView::Str("2.0"@)),
                ("method"@, json::JsonView::Str(method)),
                ("params"@, params),
            ],
        ),
{
    assert(request_message(id as int, method, params)->Object_0 =~= seq![
        ("jsonrpc"@, json::JsonView::Str("2.0"@)),
        ("id"@, json::JsonView::Number(json::NumberView::Unsigned(id))),
        ("method"@, json::JsonView::Str(method)),
        ("params"@, params),
    ]);
    assert(notification_message(method, params)->Object_0 =~= seq![
        ("jsonrpc"@, json::JsonView::Str("2.0"@)),
        ("method"@, json::JsonView::Str(method)),
        ("params"@, params),
    ]);
}

/// A message with the number of a request is its reply: an error where it holds
/// one, and otherwise its result, which is null where it holds none. Any other
/// message is about something else.
pub proof fn replies_bear_the_number_of_their_request(
    id: int,
    message: json::JsonView,
    value: json::JsonView,
)
    ensures
        message.get("id"@) is None ==> reply_in(id, message) is Other,
        message.get("id"@) is Some && message.get("id"@)->Some_0.as_i64() != Some(id) ==> reply_in(
            id,
            message,
        ) is Other,
        message.get("id"@) is Some && message.get("id"@)->Some_0.as_i64() == Some(id) ==> {
            &&& message.get("error"@) == Some(value) ==> reply_in(id, message) == ReplyView::Failed(
                value,
            )
            &&& message.get("error"@) is None && message.get("result"@) == Some(value) ==> reply_in(
                id,
                message,
            ) == ReplyView::Answer(value)
            &&& message.get("error"@) is None && message.get("result"@) is None ==> reply_in(
                id,
                message,
            ) == ReplyView::Answer(json::JsonView::Null)
        },
{
}

/// Waiting for diagnostics ends when none came for the quiet period after the
/// last, or when the time is up, and otherwise goes on for what is left of it.
pub proof fn diagnostics_are_waited_for(
    started_at: u128,
    seen_at: u128,
    now: u128,
    timeout: u128,
    quiet_period: u128,
)
    requires
        started_at <= now,
        seen_at <= now,
    ensures
        now - started_at >= timeout ==> diagnostics_patience(
            started_at,
            None,
            now,
            timeout,
            quiet_period,
        ) is None && diagnostics_patience(started_at, Some(seen_at), now, timeout, quiet_period)
            is None,
        now - started_at < timeout ==> diagnostics_patience(
            started_at,
            None,
            now,
            timeout,
            quiet_period,
        ) == Some(timeout - (now - started_at)),
        now - seen_at >= quiet_period ==> diagnostics_patience(
            started_at,
            Some(seen_at),
            now,
            timeout,
            quiet_period,
        ) is None,
        now - started_at < timeout && now - seen_at < quiet_period ==> diagnostics_patience(
            started_at,
            Some(seen_at),
            now,
            timeout,
            quiet_period,
        ) == Some(timeout - (now - started_at)),
        DIAGNOSTICS_QUIET_PERIOD_MS == 300,
        WORK_DONE_PROGRESS_QUIET_PERIOD_MS == 250,
{
}

/// Waiting for work to settle ends when work was seen and nothing was heard of
/// any for the quiet period, or when the time is up, and tells how long it took
/// and whether work was seen. Until then it goes on for the quiet period or what
/// is left of the time.
pub proof fn work_is_waited_for(
    started_at: u128,
    observed_progress: bool,
    heard_at: Option<u128>,
    now: u128,
    max_wait: u128,
    quiet_period: u128,
)
    requires
        started_at <= now,
        heard_at is Some ==> heard_at->Some_0 <= now,
    ensures
        ({
            let step = settling(
                started_at,
                observed_progress,
                heard_at,
                now,
                max_wait,
                quiet_period,
            );
            let waited = now - started_at;
            let quiet = heard_at is None || now - heard_at->Some_0 >= quiet_period;
            &&& waited >= max_wait || (observed_progress && quiet) ==> step == (Settling::Done {
                outcome: ProgressWaitOutcome { observed_progress, waited: waited as u128 },
            })
            &&& waited < max_wait && !(observed_progress && quiet) && max_wait - waited
                < quiet_period ==> step == (Settling::Wait { time: (max_wait - waited) as u128 })
            &&& waited < max_wait && !(observed_progress && quiet) && max_wait - waited
                >= quiet_period ==> step == (Settling::Wait { time: quiet_period })
        }),
{
}

/// News of progress names its token, by a text or a number, and its kind.
pub proof fn progress_names_its_token(
    params: json::JsonView,
    token: Seq<char>,
    number: nat,
    value: json::JsonView,
    kind: Seq<char>,
)
    ensures
        params.get("token"@) is None ==> progress_news(Some(params)) is None,
        params.get("value"@) is None ==> progress_news(Some(params)) is None,
        progress_news(None) is None,
        params.get("token"@) == Some(json::JsonView::Str(token)) && params.get("value"@) == Some(
            value,
        ) && value.get("kind"@) == Some(json::JsonView::Str(kind)) ==> progress_news(Some(params))
            == Some((token, kind)),
        params.get("token"@) == Some(json::JsonView::Number(json::NumberView::Unsigned(number)))
            && params.get("value"@) == Some(value) && value.get("kind"@) == Some(
            json::JsonView::Str(kind),
        ) ==> progress_news(Some(params)) == Some((text::decimal(number), kind)),
        goes_on("begin"@),
        goes_on("report"@),
        !goes_on("end"@),
{
    reveal_strlit("begin");
    reveal_strlit("report");
    reveal_strlit("end");
    assert("begin"@.len() == 5 && "report"@.len() == 6 && "end"@.len() == 3);
}

/// A request waits until its deadline; once that has come, it waits on where
/// progress allows.
pub proof fn requests_wait_until_their_deadline(
    request: PendingRequest,
    progress: WorkDoneProgressState,
    now: u128,
)
    ensures
        now < request.deadline ==> deadline_at(request, progress, now) == request.deadline,
        request.token is None ==> deadline_at(request, progress, now) == request.deadline,
        request.token is Some && !progress.active_tokens@.contains_key(request.token->Some_0@)
            ==> deadline_at(request, progress, now) == request.deadline,
        now >= request.deadline && request.token is Some && request.deadline < request.max_deadline
            && progress.active_tokens@.contains_key(request.token->Some_0@)
            && progress.token_last_activity_at@.contains_key(request.token->Some_0@)
            && progress.token_last_activity_at@[request.token->Some_0@] == now ==> deadline_at(
            request,
            progress,
            now,
        ) > request.deadline,
        deadline_at(request, progress, now) <= request.deadline || deadline_at(
            request,
            progress,
            now,
        ) <= request.max_deadline,
{
}

/// A wait ends in failure only where the server ended or its message could not
/// be read.
pub proof fn waits_end_with_the_server(message: String, counts: bool, errors: Seq<char>)
    ensures
        end_of_wait(News::Message { counts }, errors) is None,
        end_of_wait(News::Silence, errors) is None,
        end_of_wait(News::Closed, errors) == Some(transport::closed_message(errors)),
        end_of_wait(News::Failed { message }, errors) == Some(message@),
{
}

} // verus!
