//! Messages between this side and a language server: their frames, what a
//! server may ask, and what it is told.

use vstd::prelude::*;
use vstd::slice::slice_subrange;

use crate::json;
use crate::json::Json;
use crate::json_text;
use crate::lsp::settings;
use crate::lsp::uri;
use crate::paths;
use crate::text;

verus! {

/// How much of a server's error output is kept, in bytes.
pub const LSP_STDERR_TAIL_LIMIT: usize = 8192;

// ---------------------------------------------------------------------------
// Frames.

/// The header of a message whose body has the given number of bytes.
pub open spec fn header(len: nat) -> Seq<char> {
    "Content-Length: "@ + text::decimal(len) + "\r\n\r\n"@
}

/// The header of a message.
pub fn frame_header(payload_len: usize) -> (out: String)
    ensures
        out@ == header(payload_len as nat),
{
    let mut out = "Content-Length: ".to_string();
    out.append(text::render_usize(payload_len).as_str());
    out.append("\r\n\r\n");
    out
}

/// A message whose body is given, as it is sent.
pub open spec fn framed(body: Seq<char>) -> Seq<char> {
    header(text::utf8_len(body)) + body
}

/// Frames the body of a message.
pub fn frame_body(body: &str) -> (out: String)
    ensures
        out@ == framed(body@),
{
    let mut out = frame_header(text::byte_len(body));
    out.append(body);
    out
}

/// Writes a message as it is sent.
pub fn write_message(value: &Json) -> (out: String)
    ensures
        out@ == framed(json_text::compact(value@)),
{
    let body = json_text::compact_text(value);
    frame_body(body.as_str())
}

/// Reads the body of a message.
pub fn read_body(body: &[u8]) -> (r: Result<Json, String>)
    ensures
        json_text::outcome(r) == json_text::parsed_bytes(body@),
{
    json_text::parse_bytes(body)
}

/// What the next line of a header means.
#[derive(Debug)]
pub enum HeaderStep {
    /// More lines follow; this is the length, as far as it is known.
    More(Option<usize>),
    /// The body follows.
    Body(usize),
    /// There are no more messages.
    Closed,
    /// The header cannot be understood.
    Failed(String),
}

/// What a [`HeaderStep`] stands for.
#[verifier::ext_equal]
pub ghost enum HeaderView {
    More(Option<nat>),
    Body(nat),
    Closed,
    Failed(Seq<char>),
}

impl View for HeaderStep {
    type V = HeaderView;

    open spec fn view(&self) -> HeaderView {
        match self {
            HeaderStep::More(known) => HeaderView::More(opt_nat(*known)),
            HeaderStep::Body(n) => HeaderView::Body(*n as nat),
            HeaderStep::Closed => HeaderView::Closed,
            HeaderStep::Failed(message) => HeaderView::Failed(message@),
        }
    }
}

/// The optional number as a natural one.
pub open spec fn opt_nat(n: Option<usize>) -> Option<nat> {
    match n {
        Some(k) => Some(k as nat),
        None => None,
    }
}

/// The length of a line without the line break at its end.
pub open spec fn bare_len(line: Seq<char>, len: int) -> int
    decreases len,
{
    if 0 < len <= line.len() && (line[len - 1] == '\r' || line[len - 1] == '\n') {
        bare_len(line, len - 1)
    } else {
        len
    }
}

/// What a line of a header, or the end of the input, means after the lines
/// before it.
pub open spec fn header_step(known: Option<nat>, line: Option<Seq<char>>) -> HeaderView {
    match line {
        None => if known is None {
            HeaderView::Closed
        } else {
            HeaderView::Failed("unexpected EOF while reading LSP headers"@)
        },
        Some(full) => {
            let bare = full.take(bare_len(full, full.len() as int));
            let colon = text::find_char(bare, ':', 0);
            if bare.len() == 0 {
                match known {
                    Some(n) => HeaderView::Body(n),
                    None => HeaderView::Failed("missing Content-Length header"@),
                }
            } else if colon < bare.len() && text::lowered(bare.take(colon)) == text::lowered(
                "Content-Length"@,
            ) {
                match text::numeral_value(text::trimmed(bare.skip(colon + 1))) {
                    Some(n) => if n <= usize::MAX {
                        HeaderView::More(Some(n))
                    } else {
                        HeaderView::Failed("invalid Content-Length header"@)
                    },
                    None => HeaderView::Failed("invalid Content-Length header"@),
                }
            } else {
                HeaderView::More(known)
            }
        },
    }
}

/// Reads the next line of a header.
pub fn read_header_line(known: Option<usize>, line: Option<&str>) -> (step: HeaderStep)
    ensures
        step@ == header_step(opt_nat(known), text::opt_str(line)),
{
    let full = match line {
        Some(line) => text::chars_of(line),
        None => {
            return if known.is_none() {
                HeaderStep::Closed
            } else {
                HeaderStep::Failed("unexpected EOF while reading LSP headers".to_string())
            };
        },
    };
    let mut len: usize = full.len();
    while len > 0 && (full[len - 1] == '\r' || full[len - 1] == '\n')
        invariant
            len <= full@.len(),
            bare_len(full@, len as int) == bare_len(full@, full@.len() as int),
        decreases len,
    {
        len -= 1;
    }
    let bare = slice_subrange(&full, 0, len);
    proof {
        assert(bare@ =~= full@.take(len as int));
    }
    if bare.len() == 0 {
        return match known {
            Some(n) => HeaderStep::Body(n),
            None => HeaderStep::Failed("missing Content-Length header".to_string()),
        };
    }
    let colon: usize = text::find_char_from(bare, ':', 0);
    if colon == bare.len() {
        return HeaderStep::More(known);
    }
    let name = slice_subrange(bare, 0, colon);
    let value = slice_subrange(bare, colon + 1, bare.len());
    proof {
        assert(name@ =~= bare@.take(colon as int));
        assert(value@ =~= bare@.skip(colon + 1));
    }
    let wanted = text::chars_of("Content-Length");
    if !text::same_chars(&text::lower(name), &text::lower(&wanted)) {
        return HeaderStep::More(known);
    }
    match text::parse_u64(text::trim(value)) {
        Some(n) => if n <= usize::MAX as u64 {
            HeaderStep::More(Some(n as usize))
        } else {
            HeaderStep::Failed("invalid Content-Length header".to_string())
        },
        None => HeaderStep::Failed("invalid Content-Length header".to_string()),
    }
}

proof fn lemma_decimal_digits(n: nat)
    ensures
        text::decimal(n).len() > 0,
        text::all_digits(text::decimal(n)),
        text::digits_value(text::decimal(n)) == n,
    decreases n,
{
    let s = text::decimal(n);
    if n < 10 {
        assert(s =~= seq![text::digit_char(n)]);
        assert(s.drop_last() =~= Seq::<char>::empty());
        assert(text::digits_value(s.drop_last()) == 0);
        assert(s.last() == text::digit_char(n));
    } else {
        lemma_decimal_digits(n / 10);
        assert(s.drop_last() =~= text::decimal(n / 10));
        assert(s.last() == text::digit_char(n % 10));
    }
}

proof fn lemma_trim_numeral(s: Seq<char>)
    requires
        s.len() > 0,
        text::all_digits(s),
    ensures
        text::trimmed(seq![' '] + s) == s,
{
    let padded = seq![' '] + s;
    assert(padded[0] == ' ');
    assert(padded[1] == s[0]);
    assert(text::is_digit(s[0]));
    assert(text::skip_white(padded, 1) == 1);
    assert(text::skip_white(padded, 0) == 1);
    assert(text::trimmed_start(padded) =~= s);
    assert(text::is_digit(s[s.len() - 1]));
    assert(text::trimmed_len(s) == s.len());
    assert(s.take(s.len() as int) =~= s);
}

/// A reader that is given the two lines of a header finds the length that was
/// written into it.
pub proof fn headers_are_read_back(len: nat)
    requires
        len <= usize::MAX,
    ensures
        header(len) == ("Content-Length: "@ + text::decimal(len) + "\r\n"@) + "\r\n"@,
        header_step(None, Some("Content-Length: "@ + text::decimal(len) + "\r\n"@))
            == HeaderView::More(Some(len)),
        header_step(Some(len), Some("\r\n"@)) == HeaderView::Body(len),
{
    reveal_strlit("Content-Length: ");
    reveal_strlit("Content-Length");
    reveal_strlit("\r\n\r\n");
    reveal_strlit("\r\n");
    let digits = text::decimal(len);
    lemma_decimal_digits(len);
    assert(header(len) =~= ("Content-Length: "@ + digits + "\r\n"@) + "\r\n"@);
    let line = "Content-Length: "@ + digits + "\r\n"@;
    let bare = "Content-Length: "@ + digits;
    assert(text::is_digit(digits[digits.len() - 1]));
    assert(line[bare.len() - 1] == digits[digits.len() - 1]);
    assert(line[bare.len() as int] == '\r');
    assert(line[bare.len() as int + 1] == '\n');
    assert(bare_len(line, bare.len() as int) == bare.len());
    assert(bare_len(line, bare.len() as int + 1) == bare.len());
    assert(bare_len(line, line.len() as int) == bare.len());
    assert(line.take(bare.len() as int) =~= bare);
    text::lemma_find_char(bare, ':', 0);
    let colon = text::find_char(bare, ':', 0);
    assert(bare[14] == ':');
    assert forall|i: int| 0 <= i < 14 implies #[trigger] bare[i] != ':' by {
        assert(bare[i] == "Content-Length: "@[i]);
    }
    assert(colon == 14);
    assert(bare.take(14) =~= "Content-Length"@);
    assert(bare.skip(15) =~= seq![' '] + digits);
    lemma_trim_numeral(digits);
    assert(digits[0] != '+') by {
        assert(text::is_digit(digits[0]));
    }
    let blank = "\r\n"@;
    assert(bare_len(blank, 0) == 0);
    assert(bare_len(blank, 1) == 0);
    assert(bare_len(blank, 2) == 0);
    assert(blank.take(0).len() == 0);
}

// ---------------------------------------------------------------------------
// Error output.

/// The last bytes of an output.
pub open spec fn tail(output: Seq<u8>, limit: int) -> Seq<u8> {
    if output.len() > limit {
        output.skip(output.len() - limit)
    } else {
        output
    }
}

/// Adds output to what is kept of it.
pub fn extend_tail(kept: Vec<u8>, chunk: &[u8]) -> (out: Vec<u8>)
    ensures
        out@ == tail(kept@ + chunk@, LSP_STDERR_TAIL_LIMIT as int),
{
    let ghost all = kept@ + chunk@;
    let mut out: Vec<u8> = Vec::new();
    let kept_len: usize = kept.len();
    let chunk_len: usize = chunk.len();
    // How many of the bytes that were kept stay.
    let room: usize = if chunk_len >= LSP_STDERR_TAIL_LIMIT {
        0
    } else {
        LSP_STDERR_TAIL_LIMIT - chunk_len
    };
    let mut i: usize = if kept_len > room {
        kept_len - room
    } else {
        0
    };
    let ghost first = i as int;
    while i < kept_len
        invariant
            0 <= first <= i <= kept_len == kept@.len(),
            all == kept@ + chunk@,
            out@ == all.subrange(first, i as int),
        decreases kept_len - i,
    {
        out.push(kept[i]);
        i += 1;
        proof {
            assert(out@ =~= all.subrange(first, i as int));
        }
    }
    let mut j: usize = if chunk_len > LSP_STDERR_TAIL_LIMIT {
        chunk_len - LSP_STDERR_TAIL_LIMIT
    } else {
        0
    };
    let ghost start = if chunk_len > LSP_STDERR_TAIL_LIMIT {
        kept_len + j
    } else {
        first
    };
    proof {
        assert(out@ =~= all.subrange(start, kept_len + j));
    }
    while j < chunk_len
        invariant
            j <= chunk_len == chunk@.len(),
            kept_len == kept@.len(),
            0 <= start <= kept_len + j,
            all == kept@ + chunk@,
            out@ == all.subrange(start, kept_len + j),
        decreases chunk_len - j,
    {
        out.push(chunk[j]);
        j += 1;
        proof {
            assert(out@ =~= all.subrange(start, kept_len + j));
        }
    }
    proof {
        assert(out@ =~= tail(all, LSP_STDERR_TAIL_LIMIT as int));
    }
    out
}

/// What is said of a server that ended before it answered, with the end of
/// its error output.
pub open spec fn closed_message(errors: Seq<char>) -> Seq<char> {
    if text::is_blank(errors) {
        "language server closed before responding"@
    } else {
        "language server closed before responding; stderr tail:\n"@ + text::trimmed(errors)
    }
}

/// What is said of a server that ended before it answered.
pub fn closed_before_responding_error(stderr_tail: &str) -> (message: String)
    ensures
        message@ == closed_message(stderr_tail@),
{
    let chars = text::chars_of(stderr_tail);
    if text::blank(&chars) {
        return "language server closed before responding".to_string();
    }
    let mut message = "language server closed before responding; stderr tail:\n".to_string();
    message.append(text::text_of(text::trim(&chars)).as_str());
    message
}

/// Whether a failure means that the session with a server is of no more use.
pub open spec fn is_fatal(message: Seq<char>) -> bool {
    let said = text::lowered(message);
    ||| text::holds_text(said, "closed before responding"@)
    ||| text::holds_text(said, "failed to write"@)
    ||| text::holds_text(said, "unexpected eof"@)
    ||| text::holds_text(said, "missing content-length header"@)
    ||| text::holds_text(said, "invalid content-length header"@)
    ||| text::holds_text(said, "failed to start language server"@)
    ||| text::holds_text(said, "timed out"@)
}

/// Whether a failure means that the session with a server is of no more use.
pub fn should_discard_cached_session_after_error(message: &str) -> (r: bool)
    ensures
        r == is_fatal(message@),
{
    let said = text::lower(&text::chars_of(message));
    text::has_str(&said, "closed before responding") || text::has_str(&said, "failed to write")
        || text::has_str(&said, "unexpected eof") || text::has_str(
        &said,
        "missing content-length header",
    ) || text::has_str(&said, "invalid content-length header") || text::has_str(
        &said,
        "failed to start language server",
    ) || text::has_str(&said, "timed out")
}

// ---------------------------------------------------------------------------
// Messages of a server.

/// A message of a server that is no answer.
pub enum Incoming {
    /// The server asks for something.
    Request,
    /// News about work that the server is doing.
    Progress,
    /// The problems that the server sees in a document.
    Diagnostics { uri: String, diagnostics: Json },
    /// Nothing to act on.
    Ignored,
}

/// What an [`Incoming`] stands for.
#[verifier::ext_equal]
pub ghost enum IncomingView {
    Request,
    Progress,
    Diagnostics { uri: Seq<char>, diagnostics: json::JsonView },
    Ignored,
}

impl View for Incoming {
    type V = IncomingView;

    open spec fn view(&self) -> IncomingView {
        match self {
            Incoming::Request => IncomingView::Request,
            Incoming::Progress => IncomingView::Progress,
            Incoming::Diagnostics { uri, diagnostics } => IncomingView::Diagnostics {
                uri: uri@,
                diagnostics: diagnostics@,
            },
            Incoming::Ignored => IncomingView::Ignored,
        }
    }
}

/// What a message of a server is.
pub open spec fn incoming(message: json::JsonView) -> IncomingView {
    let method = json::opt_as_str(message.get("method"@));
    if message.get("method"@) is Some && message.get("id"@) is Some {
        IncomingView::Request
    } else if method == Some("$/progress"@) {
        IncomingView::Progress
    } else if method == Some("textDocument/publishDiagnostics"@) {
        match json::opt_as_str(json::opt_get(message.get("params"@), "uri"@)) {
            None => IncomingView::Ignored,
            Some(uri) => IncomingView::Diagnostics {
                uri,
                diagnostics: match json::opt_get(message.get("params"@), "diagnostics"@) {
                    Some(list) => list,
                    None => json::JsonView::Array(seq![]),
                },
            },
        }
    } else {
        IncomingView::Ignored
    }
}

/// Whether a value is the given string.
fn is_string(value: Option<&Json>, wanted: &str) -> (r: bool)
    ensures
        r == (json::opt_as_str(json::opt_ref_view(value)) == Some(wanted@)),
{
    match value {
        Some(v) => match v.as_str() {
            Some(s) => text::same_text(s, wanted),
            None => false,
        },
        None => false,
    }
}

fn empty_array() -> (value: Json)
    ensures
        value@ == json::JsonView::Array(seq![]),
{
    let items: Vec<Json> = Vec::new();
    proof {
        assert(json::views(items@) =~= seq![]);
    }
    json::array(items)
}

/// Tells what a message of a server is.
pub fn handle_message(message: &Json) -> (r: Incoming)
    ensures
        r@ == incoming(message@),
{
    let method = message.get("method");
    if method.is_some() && message.get("id").is_some() {
        return Incoming::Request;
    }
    if is_string(method, "$/progress") {
        return Incoming::Progress;
    }
    if is_string(method, "textDocument/publishDiagnostics") {
        let params = match message.get("params") {
            Some(params) => params,
            None => {
                return Incoming::Ignored;
            },
        };
        let uri = match params.get("uri") {
            Some(uri) => match uri.as_str() {
                Some(uri) => uri.to_string(),
                None => {
                    return Incoming::Ignored;
                },
            },
            None => {
                return Incoming::Ignored;
            },
        };
        let diagnostics = match params.get("diagnostics") {
            Some(list) => list.duplicate(),
            None => empty_array(),
        };
        return Incoming::Diagnostics { uri, diagnostics };
    }
    Incoming::Ignored
}

/// What a server asks for, and the answer as far as it is known without doing
/// anything.
pub enum ServerRequest {
    /// The answer is this value.
    Reply(Json),
    /// The answer is null, and whether the server wants to hear of changed
    /// files is now known.
    Registered(bool),
    /// The answer tells whether the edit in the parameters could be made.
    ApplyEdit,
}

/// What a [`ServerRequest`] stands for.
#[verifier::ext_equal]
pub ghost enum ServerRequestView {
    Reply(json::JsonView),
    Registered(bool),
    ApplyEdit,
}

impl View for ServerRequest {
    type V = ServerRequestView;

    open spec fn view(&self) -> ServerRequestView {
        match self {
            ServerRequest::Reply(value) => ServerRequestView::Reply(value@),
            ServerRequest::Registered(b) => ServerRequestView::Registered(*b),
            ServerRequest::ApplyEdit => ServerRequestView::ApplyEdit,
        }
    }
}

/// Whether one of the items is about changed files.
pub open spec fn about_watched_files(items: Seq<json::JsonView>) -> bool {
    exists|i: int|
        0 <= i < items.len() && json::opt_as_str((#[trigger] items[i]).get("method"@)) == Some(
            "workspace/didChangeWatchedFiles"@,
        )
}

/// Whether a server wants to hear of changed files after it has registered or
/// taken back some capabilities.
pub open spec fn registration(params: json::JsonView, enabled: bool, before: bool) -> bool {
    let key = if enabled {
        "registrations"@
    } else {
        "unregisterations"@
    };
    match json::opt_as_array(params.get(key)) {
        Some(items) => if about_watched_files(items) {
            enabled
        } else {
            before
        },
        None => before,
    }
}

/// Decides whether a server wants to hear of changed files.
pub fn update_capability_registration(params: &Json, enabled: bool, registered: bool) -> (r: bool)
    ensures
        r == registration(params@, enabled, registered),
{
    let key = if enabled {
        "registrations"
    } else {
        "unregisterations"
    };
    let found = match params.get(key) {
        Some(value) => value.as_array(),
        None => None,
    };
    if let Some(items) = found {
        let mut i: usize = 0;
        while i < items.len()
            invariant
                i <= items@.len(),
                json::opt_as_array(
                    params@.get(
                        if enabled {
                            "registrations"@
                        } else {
                            "unregisterations"@
                        },
                    ),
                ) == Some(json::views(items@)),
                forall|k: int|
                    0 <= k < i ==> json::opt_as_str(
                        (#[trigger] json::views(items@)[k]).get("method"@),
                    ) != Some("workspace/didChangeWatchedFiles"@),
            decreases items@.len() - i,
        {
            if is_string(items[i].get("method"), "workspace/didChangeWatchedFiles") {
                proof {
                    assert(json::opt_as_str(json::views(items@)[i as int].get("method"@)) == Some(
                        "workspace/didChangeWatchedFiles"@,
                    ));
                }
                return enabled;
            }
            i += 1;
        }
    }
    registered
}

/// The name of a workspace: that of its folder, or the path where it has none.
pub open spec fn workspace_name(root: Seq<char>) -> Seq<char> {
    match paths::name_of(root) {
        Some(name) => name,
        None => root,
    }
}

/// The folders of a workspace, of which there is one, given its URL.
pub open spec fn workspace_folders(root: Seq<char>, url: Result<Seq<char>, Seq<char>>) -> Result<
    json::JsonView,
    Seq<char>,
> {
    match url {
        Err(message) => Err(message),
        Ok(u) => Ok(
            json::JsonView::Array(
                seq![
                    json::JsonView::object().with("uri"@, json::JsonView::Str(u)).with(
                        "name"@,
                        json::JsonView::Str(workspace_name(root)),
                    ),
                ],
            ),
        ),
    }
}

/// The URL of a path, or why it has none.
pub open spec fn url_of(path: Seq<char>) -> Result<Seq<char>, Seq<char>> {
    uri::url_outcome(path, uri::file_url_name(path))
}

/// The outcome of building a value.
pub open spec fn json_outcome(r: Result<Json, String>) -> Result<json::JsonView, Seq<char>> {
    match r {
        Ok(value) => Ok(value@),
        Err(message) => Err(message@),
    }
}

/// The folders of a workspace.
pub fn workspace_folders_value(workspace_root: &str) -> (r: Result<Json, String>)
    ensures
        json_outcome(r) == workspace_folders(workspace_root@, url_of(workspace_root@)),
{
    let url = match uri::path_to_file_url(workspace_root) {
        Ok(url) => url,
        Err(message) => {
            return Err(message);
        },
    };
    let name = match paths::file_name(workspace_root) {
        Some(name) => name,
        None => workspace_root.to_string(),
    };
    let mut folders: Vec<Json> = Vec::new();
    folders.push(json::object().with("uri", Json::Str(url)).with("name", Json::Str(name)));
    proof {
        assert(json::views(folders@) =~= workspace_folders(
            workspace_root@,
            url_of(workspace_root@),
        )->Ok_0->Array_0);
    }
    Ok(json::array(folders))
}

/// What a server asks for.
pub open spec fn server_request(
    request: json::JsonView,
    workspace_settings: json::JsonView,
    workspace_root: Seq<char>,
    registered: bool,
) -> Result<ServerRequestView, Seq<char>> {
    let params = json::or_null(request.get("params"@));
    match json::opt_as_str(request.get("method"@)) {
        None => Err("server request missing method"@),
        Some(method) => if request.get("id"@) is None {
            Err("server request missing id"@)
        } else if method == "workspace/configuration"@ {
            Ok(ServerRequestView::Reply(settings::configuration(workspace_settings, params)))
        } else if method == "client/registerCapability"@ {
            Ok(ServerRequestView::Registered(registration(params, true, registered)))
        } else if method == "client/unregisterCapability"@ {
            Ok(ServerRequestView::Registered(registration(params, false, registered)))
        } else if method == "workspace/workspaceFolders"@ {
            match workspace_folders(workspace_root, url_of(workspace_root)) {
                Ok(folders) => Ok(ServerRequestView::Reply(folders)),
                Err(message) => Err(message),
            }
        } else if method == "workspace/applyEdit"@ {
            Ok(ServerRequestView::ApplyEdit)
        } else if method == "window/showDocument"@ {
            Ok(
                ServerRequestView::Reply(
                    json::JsonView::object().with("success"@, json::JsonView::Bool(false)),
                ),
            )
        } else {
            Ok(ServerRequestView::Reply(json::JsonView::Null))
        },
    }
}

/// The outcome of reading a request of a server.
pub open spec fn request_outcome(r: Result<ServerRequest, String>) -> Result<
    ServerRequestView,
    Seq<char>,
> {
    match r {
        Ok(request) => Ok(request@),
        Err(message) => Err(message@),
    }
}

/// Decides what a server gets that asks for something.
pub fn respond_to_server_request(
    request: &Json,
    workspace_settings: &Json,
    workspace_root: &str,
    watched_files_registered: bool,
) -> (r: Result<ServerRequest, String>)
    ensures
        request_outcome(r) == server_request(
            request@,
            workspace_settings@,
            workspace_root@,
            watched_files_registered,
        ),
{
    let method = match request.get("method") {
        Some(value) => match value.as_str() {
            Some(method) => method,
            None => {
                return Err("server request missing method".to_string());
            },
        },
        None => {
            return Err("server request missing method".to_string());
        },
    };
    if request.get("id").is_none() {
        return Err("server request missing id".to_string());
    }
    let params = json::duplicate_or_null(request.get("params"));
    if text::same_text(method, "workspace/configuration") {
        return Ok(
            ServerRequest::Reply(
                settings::workspace_configuration_response(workspace_settings, &params),
            ),
        );
    }
    if text::same_text(method, "client/registerCapability") {
        return Ok(
            ServerRequest::Registered(
                update_capability_registration(&params, true, watched_files_registered),
            ),
        );
    }
    if text::same_text(method, "client/unregisterCapability") {
        return Ok(
            ServerRequest::Registered(
                update_capability_registration(&params, false, watched_files_registered),
            ),
        );
    }
    if text::same_text(method, "workspace/workspaceFolders") {
        return match workspace_folders_value(workspace_root) {
            Ok(folders) => Ok(ServerRequest::Reply(folders)),
            Err(message) => Err(message),
        };
    }
    if text::same_text(method, "workspace/applyEdit") {
        return Ok(ServerRequest::ApplyEdit);
    }
    if text::same_text(method, "window/showDocument") {
        return Ok(ServerRequest::Reply(json::object().with("success", Json::Bool(false))));
    }
    Ok(ServerRequest::Reply(Json::Null))
}

/// The message that answers a server.
pub open spec fn response(request: json::JsonView, result: json::JsonView) -> json::JsonView {
    json::JsonView::object().with("jsonrpc"@, json::JsonView::Str("2.0"@)).with(
        "id"@,
        json::or_null(request.get("id"@)),
    ).with("result"@, result)
}

/// Builds the message that answers a server.
pub fn response_message(request: &Json, result: Json) -> (out: Json)
    ensures
        out@ == response(request@, result@),
{
    json::object().with("jsonrpc", json::string("2.0")).with(
        "id",
        json::duplicate_or_null(request.get("id")),
    ).with("result", result)
}

// ---------------------------------------------------------------------------
// What a server is told.

/// The notification about changed settings.
pub open spec fn settings_params(workspace_settings: json::JsonView) -> json::JsonView {
    json::JsonView::object().with("settings"@, workspace_settings)
}

/// The notification about settings, where they differ from what the server
/// has.
pub fn set_workspace_settings(current: &Json, new: &Json) -> (params: Option<Json>)
    ensures
        json::opt_view(params) == if json::equal_values(current@, new@) {
            None
        } else {
            Some(settings_params(new@))
        },
{
    if json::same_json(current, new) {
        None
    } else {
        Some(json::object().with("settings", new.duplicate()))
    }
}

/// What happened to a file.
#[derive(Clone, Copy, Debug, PartialEq, Eq, Structural)]
pub enum LspWatchedFileChangeKind {
    Created,
    Changed,
    Deleted,
}

/// The number under which servers know what happened.
pub open spec fn change_code(kind: LspWatchedFileChangeKind) -> int {
    match kind {
        LspWatchedFileChangeKind::Created => 1,
        LspWatchedFileChangeKind::Changed => 2,
        LspWatchedFileChangeKind::Deleted => 3,
    }
}

impl LspWatchedFileChangeKind {
    /// The number under which servers know what happened.
    pub fn as_lsp_code(self) -> (code: i64)
        ensures
            code == change_code(self),
    {
        match self {
            LspWatchedFileChangeKind::Created => 1,
            LspWatchedFileChangeKind::Changed => 2,
            LspWatchedFileChangeKind::Deleted => 3,
        }
    }
}

/// A file that changed.
#[derive(Clone, Debug, PartialEq, Eq)]
pub struct LspWatchedFileChange {
    pub path: String,
    pub kind: LspWatchedFileChangeKind,
}

/// What a server is told about one change, given the URL of the file.
pub open spec fn change_entry(url: Seq<char>, kind: LspWatchedFileChangeKind) -> json::JsonView {
    json::JsonView::object().with("uri"@, json::JsonView::Str(url)).with(
        "type"@,
        json::integer_view(change_code(kind)),
    )
}

/// What a server is told about changes: those in its workspace. The first file
/// without a URL decides.
pub open spec fn change_entries(changes: Seq<LspWatchedFileChange>, root: Seq<char>) -> Result<
    Seq<json::JsonView>,
    Seq<char>,
>
    decreases changes.len(),
{
    if changes.len() == 0 {
        Ok(seq![])
    } else {
        match change_entries(changes.drop_last(), root) {
            Err(message) => Err(message),
            Ok(earlier) => {
                let change = changes.last();
                if !paths::below(change.path@, root) {
                    Ok(earlier)
                } else {
                    match url_of(change.path@) {
                        Err(message) => Err(message),
                        Ok(url) => Ok(earlier.push(change_entry(url, change.kind))),
                    }
                }
            },
        }
    }
}

proof fn lemma_change_entries_stop(changes: Seq<LspWatchedFileChange>, root: Seq<char>, k: int)
    requires
        0 <= k <= changes.len(),
        change_entries(changes.take(k), root) is Err,
    ensures
        change_entries(changes, root) == change_entries(changes.take(k), root),
    decreases changes.len() - k,
{
    if k == changes.len() {
        assert(changes.take(k) =~= changes);
    } else {
        assert(changes.take(k + 1).drop_last() =~= changes.take(k));
        lemma_change_entries_stop(changes, root, k + 1);
    }
}

/// The notification about changed files, where there is something to tell.
pub open spec fn watched_params(changes: Seq<LspWatchedFileChange>, root: Seq<char>) -> Result<
    Option<json::JsonView>,
    Seq<char>,
> {
    match change_entries(changes, root) {
        Err(message) => Err(message),
        Ok(entries) => Ok(
            if entries.len() == 0 {
                None
            } else {
                Some(json::JsonView::object().with("changes"@, json::JsonView::Array(entries)))
            },
        ),
    }
}

/// Builds the notification about changed files for a server that wants it.
pub fn watched_files_params(changes: &[LspWatchedFileChange], workspace_root: &str) -> (r: Result<
    Option<Json>,
    String,
>)
    ensures
        (match r {
            Ok(params) => Ok(json::opt_view(params)),
            Err(message) => Err(message@),
        }) == watched_params(changes@, workspace_root@),
{
    let mut entries: Vec<Json> = Vec::new();
    let mut i: usize = 0;
    proof {
        assert(changes@.take(0) =~= seq![]);
        assert(json::views(entries@) =~= seq![]);
    }
    while i < changes.len()
        invariant
            i <= changes@.len(),
            change_entries(changes@.take(i as int), workspace_root@) == Ok::<_, Seq<char>>(
                json::views(entries@),
            ),
        decreases changes@.len() - i,
    {
        let change = &changes[i];
        let ghost before = json::views(entries@);
        proof {
            assert(changes@.take(i + 1).drop_last() =~= changes@.take(i as int));
            assert(changes@.take(i + 1).last() == *change);
        }
        if paths::starts_with(change.path.as_str(), workspace_root) {
            match uri::path_to_file_url(change.path.as_str()) {
                Ok(url) => {
                    let ghost url_text = url@;
                    entries.push(
                        json::object().with("uri", Json::Str(url)).with(
                            "type",
                            json::integer(change.kind.as_lsp_code()),
                        ),
                    );
                    proof {
                        assert(json::views(entries@) =~= before.push(
                            change_entry(url_text, change.kind),
                        ));
                    }
                },
                Err(message) => {
                    proof {
                        lemma_change_entries_stop(changes@, workspace_root@, i + 1);
                    }
                    return Err(message);
                },
            }
        }
        i += 1;
    }
    proof {
        assert(changes@.take(changes@.len() as int) =~= changes@);
        assert(json::views(entries@).len() == entries@.len());
    }
    if entries.len() == 0 {
        Ok(None)
    } else {
        Ok(Some(json::object().with("changes", json::array(entries))))
    }
}

// ---------------------------------------------------------------------------
// The first message.

/// An object with one entry.
pub open spec fn only(key: Seq<char>, value: json::JsonView) -> json::JsonView {
    json::JsonView::object().with(key, value)
}

/// The kinds of code actions that are understood.
pub open spec fn code_action_kinds() -> json::JsonView {
    json::strings_view(
        seq![
            "quickfix"@,
            "refactor"@,
            "refactor.extract"@,
            "refactor.inline"@,
            "refactor.rewrite"@,
            "source"@,
            "source.organizeImports"@,
        ],
    )
}

/// The forms of text that are understood.
pub open spec fn text_formats() -> json::JsonView {
    json::strings_view(seq!["markdown"@, "plaintext"@])
}

/// What this side can do for a workspace.
pub open spec fn workspace_capabilities() -> json::JsonView {
    let yes = json::JsonView::Bool(true);
    json::JsonView::object().with("applyEdit"@, yes).with(
        "didChangeWatchedFiles"@,
        only("dynamicRegistration"@, yes),
    ).with("workspaceFolders"@, yes).with("configuration"@, yes)
}

/// What this side can do for a document.
pub open spec fn document_capabilities() -> json::JsonView {
    let yes = json::JsonView::Bool(true);
    let no = json::JsonView::Bool(false);
    json::JsonView::object().with(
        "publishDiagnostics"@,
        only("relatedInformation"@, yes).with("versionSupport"@, yes),
    ).with(
        "codeAction"@,
        only("dynamicRegistration"@, no).with(
            "codeActionLiteralSupport"@,
            only("codeActionKind"@, only("valueSet"@, code_action_kinds())),
        ),
    ).with(
        "completion"@,
        only("dynamicRegistration"@, no).with(
            "completionItem"@,
            only("snippetSupport"@, no).with("documentationFormat"@, text_formats()),
        ),
    ).with("hover"@, only("contentFormat"@, text_formats())).with(
        "signatureHelp"@,
        only(
            "signatureInformation"@,
            only("documentationFormat"@, text_formats()).with(
                "parameterInformation"@,
                only("labelOffsetSupport"@, yes),
            ),
        ),
    ).with("definition"@, only("linkSupport"@, yes)).with(
        "references"@,
        json::JsonView::object(),
    ).with("rename"@, only("prepareSupport"@, yes)).with(
        "documentSymbol"@,
        only("hierarchicalDocumentSymbolSupport"@, yes),
    )
}

/// The parameters of the first request to a server.
pub open spec fn initialize_request(
    process_id: u32,
    root: Seq<char>,
    url: Result<Seq<char>, Seq<char>>,
) -> Result<json::JsonView, Seq<char>> {
    match url {
        Err(message) => Err(message),
        Ok(u) => match workspace_folders(root, url) {
            Err(message) => Err(message),
            Ok(folders) => Ok(
                json::JsonView::object().with(
                    "processId"@,
                    json::integer_view(process_id as int),
                ).with("rootUri"@, json::JsonView::Str(u)).with("workspaceFolders"@, folders).with(
                    "capabilities"@,
                    json::JsonView::object().with("workspace"@, workspace_capabilities()).with(
                        "window"@,
                        only("workDoneProgress"@, json::JsonView::Bool(true)),
                    ).with("textDocument"@, document_capabilities()),
                ).with("clientInfo"@, only("name"@, json::JsonView::Str("codex-cli"@))),
            ),
        },
    }
}

fn only_value(key: &str, value: Json) -> (out: Json)
    ensures
        out@ == only(key@, value@),
{
    json::object().with(key, value)
}

fn text_formats_value() -> (out: Json)
    ensures
        out@ == text_formats(),
{
    let mut names: Vec<String> = Vec::new();
    names.push("markdown".to_string());
    names.push("plaintext".to_string());
    proof {
        assert(text::texts(names@) =~= seq!["markdown"@, "plaintext"@]);
    }
    json::strings(&names)
}

fn code_action_kinds_value() -> (out: Json)
    ensures
        out@ == code_action_kinds(),
{
    let mut names: Vec<String> = Vec::new();
    names.push("quickfix".to_string());
    names.push("refactor".to_string());
    names.push("refactor.extract".to_string());
    names.push("refactor.inline".to_string());
    names.push("refactor.rewrite".to_string());
    names.push("source".to_string());
    names.push("source.organizeImports".to_string());
    proof {
        assert(text::texts(names@) =~= seq![
            "quickfix"@,
            "refactor"@,
            "refactor.extract"@,
            "refactor.inline"@,
            "refactor.rewrite"@,
            "source"@,
            "source.organizeImports"@,
        ]);
    }
    json::strings(&names)
}

fn workspace_capabilities_value() -> (out: Json)
    ensures
        out@ == workspace_capabilities(),
{
    json::object().with("applyEdit", Json::Bool(true)).with(
        "didChangeWatchedFiles",
        only_value("dynamicRegistration", Json::Bool(true)),
    ).with("workspaceFolders", Json::Bool(true)).with("configuration", Json::Bool(true))
}

fn document_capabilities_value() -> (out: Json)
    ensures
        out@ == document_capabilities(),
{
    json::object().with(
        "publishDiagnostics",
        only_value("relatedInformation", Json::Bool(true)).with(
            "versionSupport",
            Json::Bool(true),
        ),
    ).with(
        "codeAction",
        only_value("dynamicRegistration", Json::Bool(false)).with(
            "codeActionLiteralSupport",
            only_value("codeActionKind", only_value("valueSet", code_action_kinds_value())),
        ),
    ).with(
        "completion",
        only_value("dynamicRegistration", Json::Bool(false)).with(
            "completionItem",
            only_value("snippetSupport", Json::Bool(false)).with(
                "documentationFormat",
                text_formats_value(),
            ),
        ),
    ).with("hover", only_value("contentFormat", text_formats_value())).with(
        "signatureHelp",
        only_value(
            "signatureInformation",
            only_value("documentationFormat", text_formats_value()).with(
                "parameterInformation",
                only_value("labelOffsetSupport", Json::Bool(true)),
            ),
        ),
    ).with("definition", only_value("linkSupport", Json::Bool(true))).with(
        "references",
        json::object(),
    ).with("rename", only_value("prepareSupport", Json::Bool(true))).with(
        "documentSymbol",
        only_value("hierarchicalDocumentSymbolSupport", Json::Bool(true)),
    )
}

/// Builds the parameters of the first request to a server.
pub fn initialize_params(process_id: u32, workspace_root: &str) -> (r: Result<Json, String>)
    ensures
        json_outcome(r) == initialize_request(process_id, workspace_root@, url_of(workspace_root@)),
{
    let url = match uri::path_to_file_url(workspace_root) {
        Ok(url) => url,
        Err(message) => {
            return Err(message);
        },
    };
    let folders = match workspace_folders_value(workspace_root) {
        Ok(folders) => folders,
        Err(message) => {
            return Err(message);
        },
    };
    Ok(
        json::object().with("processId", json::unsigned(process_id as u64)).with(
            "rootUri",
            Json::Str(url),
        ).with("workspaceFolders", folders).with(
            "capabilities",
            json::object().with("workspace", workspace_capabilities_value()).with(
                "window",
                only_value("workDoneProgress", Json::Bool(true)),
            ).with("textDocument", document_capabilities_value()),
        ).with("clientInfo", only_value("name", json::string("codex-cli"))),
    )
}

/// What a changed file asks for.
#[derive(Clone, Copy, Debug, PartialEq, Eq, Structural)]
pub enum ChangeHandling {
    /// Nothing: the file is not in the workspace.
    Ignore,
    /// Only that the server is told.
    Tell,
    /// That its document, where it is open, is read again.
    Refresh,
    /// That its document, where it is open, is closed.
    Close,
}

/// Decides what a changed file asks for.
pub fn change_handling(change: &LspWatchedFileChange, workspace_root: &str) -> (h: ChangeHandling)
    ensures
        h == if !paths::below(change.path@, workspace_root@) {
            ChangeHandling::Ignore
        } else {
            match change.kind {
                LspWatchedFileChangeKind::Created => ChangeHandling::Tell,
                LspWatchedFileChangeKind::Changed => ChangeHandling::Refresh,
                LspWatchedFileChangeKind::Deleted => ChangeHandling::Close,
            }
        },
{
    if !paths::starts_with(change.path.as_str(), workspace_root) {
        return ChangeHandling::Ignore;
    }
    match change.kind {
        LspWatchedFileChangeKind::Created => ChangeHandling::Tell,
        LspWatchedFileChangeKind::Changed => ChangeHandling::Refresh,
        LspWatchedFileChangeKind::Deleted => ChangeHandling::Close,
    }
}

// ---------------------------------------------------------------------------
// What is said over the wire.

/// A message is its header and its body, and the header gives the length of the
/// body in bytes.
pub proof fn messages_give_their_length(body: Seq<char>)
    ensures
        framed(body) == "Content-Length: "@ + text::decimal(text::utf8_len(body)) + "\r\n\r\n"@
            + body,
{
}

/// Headers end with an empty line, which needs a length before it; the end of
/// the input is the end of the messages only before a header; other headers are
/// passed over.
pub proof fn headers_need_a_length(known: Option<nat>, n: nat, name: Seq<char>, value: Seq<char>)
    requires
        !name.contains(':'),
        !name.contains('\r'),
        !name.contains('\n'),
        name.len() > 0,
        !value.contains('\r'),
        !value.contains('\n'),
    ensures
        header_step(None, None) == HeaderView::Closed,
        header_step(Some(n), None) == HeaderView::Failed(
            "unexpected EOF while reading LSP headers"@,
        ),
        header_step(None, Some("\r\n"@)) == HeaderView::Failed("missing Content-Length header"@),
        header_step(Some(n), Some("\r\n"@)) == HeaderView::Body(n),
        text::lowered(name) != text::lowered("Content-Length"@) ==> header_step(
            known,
            Some(name + seq![':'] + value),
        ) == HeaderView::More(known),
        text::lowered(name) == text::lowered("Content-Length"@) && text::numeral_value(
            text::trimmed(value),
        ) is None ==> header_step(known, Some(name + seq![':'] + value)) == HeaderView::Failed(
            "invalid Content-Length header"@,
        ),
        text::lowered(name) == text::lowered("Content-Length"@) && text::numeral_value(
            text::trimmed(value),
        ) == Some(n) && n <= usize::MAX ==> header_step(known, Some(name + seq![':'] + value))
            == HeaderView::More(Some(n)),
{
    reveal_strlit("\r\n");
    let end = "\r\n"@;
    assert(end[0] == '\r' && end[1] == '\n' && end.len() == 2);
    reveal_with_fuel(bare_len, 3);
    assert(bare_len(end, 2) == 0);
    let line = name + seq![':'] + value;
    let last = line.len() - 1;
    if value.len() > 0 {
        assert(line[last] == value.last());
        assert(value.contains(value.last()));
    } else {
        assert(line[last] == ':');
    }
    assert(bare_len(line, line.len() as int) == line.len());
    assert(line.take(line.len() as int) =~= line);
    text::lemma_find_char(line, ':', 0);
    let colon = text::find_char(line, ':', 0);
    assert(line[name.len() as int] == ':');
    if colon < name.len() {
        assert(line[colon] == name[colon]);
        assert(name.contains(name[colon]));
    }
    assert(colon == name.len());
    assert(line.take(colon) =~= name);
    assert(line.skip(colon + 1) =~= value);
}

/// Only the end of what a server wrote is kept, and all of it where it is short.
pub proof fn the_end_is_kept(output: Seq<u8>, limit: int)
    requires
        limit >= 0,
    ensures
        output.len() <= limit ==> tail(output, limit) == output,
        output.len() > limit ==> tail(output, limit).len() == limit && output == output.take(
            output.len() - limit,
        ) + tail(output, limit),
        LSP_STDERR_TAIL_LIMIT == 8192,
{
    if output.len() > limit {
        assert(output =~= output.take(output.len() - limit) + tail(output, limit));
    }
}

/// A server that ended is told of with the last that it wrote, where it wrote
/// something.
pub proof fn ends_are_told_with_the_last_words(errors: Seq<char>)
    ensures
        text::is_blank(errors) ==> closed_message(errors)
            == "language server closed before responding"@,
        !text::is_blank(errors) ==> closed_message(errors)
            == "language server closed before responding; stderr tail:\n"@ + text::trimmed(errors),
{
}

/// The failures after which a session is not used again, however they are
/// written.
pub proof fn broken_sessions_are_given_up(message: Seq<char>)
    ensures
        is_fatal(message) <==> {
            let said = text::lowered(message);
            ||| text::holds_text(said, "closed before responding"@)
            ||| text::holds_text(said, "failed to write"@)
            ||| text::holds_text(said, "unexpected eof"@)
            ||| text::holds_text(said, "missing content-length header"@)
            ||| text::holds_text(said, "invalid content-length header"@)
            ||| text::holds_text(said, "failed to start language server"@)
            ||| text::holds_text(said, "timed out"@)
        },
{
}

/// What a message of the server is: a request where it has a method and a
/// number, and otherwise what its method says.
pub proof fn messages_are_told_apart(
    message: json::JsonView,
    params: json::JsonView,
    uri: Seq<char>,
    list: json::JsonView,
)
    ensures
        ({
            let states = |method: Seq<char>|
                message.get("method"@) == Some(json::JsonView::Str(method));
            let no_id = message.get("id"@) is None;
            &&& message.get("method"@) is Some && message.get("id"@) is Some ==> incoming(message)
                is Request
            &&& states("$/progress"@) && no_id ==> incoming(message) is Progress
            &&& states("textDocument/publishDiagnostics"@) && no_id && message.get("params"@) == Some(
                params,
            ) && params.get("uri"@) == Some(json::JsonView::Str(uri)) && params.get(
                "diagnostics"@,
            ) == Some(list) ==> incoming(message) == (IncomingView::Diagnostics {
                uri,
                diagnostics: list,
            })
            &&& states("textDocument/publishDiagnostics"@) && no_id && message.get("params"@) == Some(
                params,
            ) && params.get("uri"@) == Some(json::JsonView::Str(uri)) && params.get(
                "diagnostics"@,
            ) is None ==> incoming(message) == (IncomingView::Diagnostics {
                uri,
                diagnostics: json::JsonView::Array(Seq::empty()),
            })
            &&& states("textDocument/publishDiagnostics"@) && no_id && message.get("params"@) is None
                ==> incoming(message) is Ignored
            &&& message.get("method"@) is None ==> incoming(message) is Ignored
            &&& no_id && !states("$/progress"@) && !states("textDocument/publishDiagnostics"@) ==> incoming(
                message,
            ) is Ignored
        }),
{
    lemma_notifications_differ();
}

proof fn lemma_notifications_differ()
    ensures
        "$/progress"@ != "textDocument/publishDiagnostics"@,
{
    reveal_strlit("$/progress");
    reveal_strlit("textDocument/publishDiagnostics");
    assert("$/progress"@[0] == '$' && "textDocument/publishDiagnostics"@[0] == 't');
}

/// A server that registers for changed files is told of them, one that takes
/// that back is not, and other registrations change nothing.
pub proof fn servers_register_for_changed_files(
    params: json::JsonView,
    items: Seq<json::JsonView>,
    before: bool,
    i: int,
)
    ensures
        params.get("registrations"@) is None ==> registration(params, true, before) == before,
        params.get("unregisterations"@) is None ==> registration(params, false, before) == before,
        params.get("registrations"@) == Some(json::JsonView::Array(items)) && 0 <= i < items.len()
            && items[i].get("method"@) == Some(
            json::JsonView::Str("workspace/didChangeWatchedFiles"@),
        ) ==> registration(params, true, before),
        params.get("unregisterations"@) == Some(json::JsonView::Array(items)) && 0 <= i
            < items.len() && items[i].get("method"@) == Some(
            json::JsonView::Str("workspace/didChangeWatchedFiles"@),
        ) ==> !registration(params, false, before),
        (forall|k: int|
            0 <= k < items.len() ==> (#[trigger] items[k]).get("method"@) != Some(
                json::JsonView::Str("workspace/didChangeWatchedFiles"@),
            )) ==> (params.get("registrations"@) == Some(json::JsonView::Array(items))
            ==> registration(params, true, before) == before) && (params.get("unregisterations"@)
            == Some(json::JsonView::Array(items)) ==> registration(params, false, before)
            == before),
{
    if 0 <= i < items.len() && items[i].get("method"@) == Some(
        json::JsonView::Str("workspace/didChangeWatchedFiles"@),
    ) {
        assert(about_watched_files(items));
    }
}

/// What a server is answered to each request: its settings, its workspace, that
/// documents cannot be shown, and null to everything else.
pub proof fn server_requests_are_answered(
    request: json::JsonView,
    settings: json::JsonView,
    root: Seq<char>,
    registered: bool,
    method: Seq<char>,
    params: json::JsonView,
    url: Seq<char>,
)
    requires
        request.get("id"@) is Some,
        request.get("method"@) == Some(json::JsonView::Str(method)),
        request.get("params"@) == Some(params),
    ensures
        ({
            let answer = server_request(request, settings, root, registered);
            let reply = |value: json::JsonView|
                Ok::<_, Seq<char>>(ServerRequestView::Reply(value));
            &&& method == "workspace/configuration"@ ==> answer == reply(
                settings::configuration(settings, params),
            )
            &&& method == "client/registerCapability"@ ==> answer == Ok::<_, Seq<char>>(
                ServerRequestView::Registered(registration(params, true, registered)),
            )
            &&& method == "client/unregisterCapability"@ ==> answer == Ok::<_, Seq<char>>(
                ServerRequestView::Registered(registration(params, false, registered)),
            )
            &&& method == "workspace/workspaceFolders"@ && url_of(root) == Ok::<_, Seq<char>>(url)
                ==> answer == reply(
                json::JsonView::Array(
                    seq![
                        json::JsonView::Object(
                            seq![
                                ("uri"@, json::JsonView::Str(url)),
                                (
                                    "name"@,
                                    json::JsonView::Str(
                                        if paths::name_of(root) is Some {
                                            paths::name_of(root)->Some_0
                                        } else {
                                            root
                                        },
                                    ),
                                ),
                            ],
                        ),
                    ],
                ),
            )
            &&& method == "workspace/applyEdit"@ ==> answer == Ok::<_, Seq<char>>(
                ServerRequestView::ApplyEdit,
            )
            &&& method == "window/showDocument"@ ==> answer == reply(
                json::JsonView::Object(seq![("success"@, json::JsonView::Bool(false))]),
            )
            &&& method != "workspace/configuration"@ && method != "client/registerCapability"@
                && method != "client/unregisterCapability"@ && method
                != "workspace/workspaceFolders"@ && method != "workspace/applyEdit"@ && method
                != "window/showDocument"@ ==> answer == reply(json::JsonView::Null)
        }),
{
    lemma_requests_differ();
    let shown = json::JsonView::object().with("success"@, json::JsonView::Bool(false));
    assert(shown->Object_0 =~= seq![("success"@, json::JsonView::Bool(false))]);
    lemma_folders(root, url);
}

proof fn lemma_folders(root: Seq<char>, url: Seq<char>)
    ensures
        workspace_folders(root, Ok(url)) == Ok::<_, Seq<char>>(
            json::JsonView::Array(
                seq![
                    json::JsonView::Object(
                        seq![
                            ("uri"@, json::JsonView::Str(url)),
                            (
                                "name"@,
                                json::JsonView::Str(
                                    if paths::name_of(root) is Some {
                                        paths::name_of(root)->Some_0
                                    } else {
                                        root
                                    },
                                ),
                            ),
                        ],
                    ),
                ],
            ),
        ),
{
    let folder = json::JsonView::object().with("uri"@, json::JsonView::Str(url)).with(
        "name"@,
        json::JsonView::Str(workspace_name(root)),
    );
    assert(folder->Object_0 =~= seq![
        ("uri"@, json::JsonView::Str(url)),
        ("name"@, json::JsonView::Str(workspace_name(root))),
    ]);
}

proof fn lemma_requests_differ()
    ensures
        "workspace/configuration"@ != "client/registerCapability"@,
        "workspace/configuration"@ != "client/unregisterCapability"@,
        "workspace/configuration"@ != "workspace/workspaceFolders"@,
        "workspace/configuration"@ != "workspace/applyEdit"@,
        "workspace/configuration"@ != "window/showDocument"@,
        "client/registerCapability"@ != "client/unregisterCapability"@,
        "client/registerCapability"@ != "workspace/workspaceFolders"@,
        "client/registerCapability"@ != "workspace/applyEdit"@,
        "client/registerCapability"@ != "window/showDocument"@,
        "client/unregisterCapability"@ != "workspace/workspaceFolders"@,
        "client/unregisterCapability"@ != "workspace/applyEdit"@,
        "client/unregisterCapability"@ != "window/showDocument"@,
        "workspace/workspaceFolders"@ != "workspace/applyEdit"@,
        "workspace/workspaceFolders"@ != "window/showDocument"@,
        "workspace/applyEdit"@ != "window/showDocument"@,
{
    reveal_strlit("workspace/configuration");
    reveal_strlit("client/registerCapability");
    reveal_strlit("client/unregisterCapability");
    reveal_strlit("workspace/workspaceFolders");
    reveal_strlit("workspace/applyEdit");
    reveal_strlit("window/showDocument");
    assert("workspace/configuration"@.len() == 23);
    assert("client/registerCapability"@.len() == 25);
    assert("client/unregisterCapability"@.len() == 27);
    assert("workspace/workspaceFolders"@.len() == 26);
    assert("workspace/applyEdit"@.len() == 19);
    assert("window/showDocument"@.len() == 19);
    assert("workspace/applyEdit"@[1] == 'o');
    assert("window/showDocument"@[1] == 'i');
}

/// A request without a method or a number cannot be answered.
pub proof fn server_requests_are_complete(
    request: json::JsonView,
    settings: json::JsonView,
    root: Seq<char>,
    registered: bool,
)
    ensures
        request.get("method"@) is None ==> server_request(request, settings, root, registered)
            == Err::<ServerRequestView, _>("server request missing method"@),
        request.get("method"@) is Some && request.get("method"@)->Some_0 is Str && request.get(
            "id"@,
        ) is None ==> server_request(request, settings, root, registered) == Err::<
            ServerRequestView,
            _,
        >("server request missing id"@),
{
}

/// An answer bears the number of its request.
pub proof fn answers_bear_the_number_of_their_request(
    request: json::JsonView,
    id: json::JsonView,
    result: json::JsonView,
)
    requires
        request.get("id"@) == Some(id),
    ensures
        response(request, result) == json::JsonView::Object(
            seq![("jsonrpc"@, json::JsonView::Str("2.0"@)), ("id"@, id), ("result"@, result)],
        ),
{
    assert(response(request, result)->Object_0 =~= seq![
        ("jsonrpc"@, json::JsonView::Str("2.0"@)),
        ("id"@, id),
        ("result"@, result),
    ]);
}

/// The changes of files in the workspace are told in their order, with the code
/// of the protocol for their kind; those outside are not, and nothing is told
/// where nothing changed in it.
pub proof fn changes_in_the_workspace_are_told(
    changes: Seq<LspWatchedFileChange>,
    change: LspWatchedFileChange,
    root: Seq<char>,
    earlier: Seq<json::JsonView>,
    url: Seq<char>,
    code: nat,
)
    requires
        change_entries(changes, root) == Ok::<_, Seq<char>>(earlier),
        change.kind is Created ==> code == 1,
        change.kind is Changed ==> code == 2,
        change.kind is Deleted ==> code == 3,
    ensures
        change_entries(Seq::empty(), root) == Ok::<_, Seq<char>>(Seq::<json::JsonView>::empty()),
        !paths::below(change.path@, root) ==> change_entries(changes.push(change), root) == Ok::<
            _,
            Seq<char>,
        >(earlier),
        paths::below(change.path@, root) && url_of(change.path@) == Ok::<_, Seq<char>>(url)
            ==> change_entries(changes.push(change), root) == Ok::<_, Seq<char>>(
            earlier.push(
                json::JsonView::Object(
                    seq![
                        ("uri"@, json::JsonView::Str(url)),
                        ("type"@, json::JsonView::Number(json::NumberView::Unsigned(code))),
                    ],
                ),
            ),
        ),
        earlier.len() == 0 ==> watched_params(changes, root) == Ok::<_, Seq<char>>(
            None::<json::JsonView>,
        ),
        earlier.len() > 0 ==> watched_params(changes, root) == Ok::<_, Seq<char>>(
            Some(json::JsonView::Object(seq![("changes"@, json::JsonView::Array(earlier))])),
        ),
{
    assert(changes.push(change).drop_last() =~= changes);
    let entry = change_entry(url, change.kind);
    assert(entry->Object_0 =~= seq![
        ("uri"@, json::JsonView::Str(url)),
        ("type"@, json::JsonView::Number(json::NumberView::Unsigned(code))),
    ]);
    let told = json::JsonView::object().with("changes"@, json::JsonView::Array(earlier));
    assert(told->Object_0 =~= seq![("changes"@, json::JsonView::Array(earlier))]);
}

/// What a server hears first: who asks, for which workspace, and what is
/// supported.
pub proof fn servers_are_greeted(process_id: u32, root: Seq<char>, url: Seq<char>)
    ensures
        initialize_request(process_id, root, Err(url)) == Err::<json::JsonView, _>(url),
        ({
            let yes = json::JsonView::Bool(true);
            let no = json::JsonView::Bool(false);
            let one = |key: Seq<char>, value: json::JsonView|
                json::JsonView::Object(seq![(key, value)]);
            let asked = initialize_request(process_id, root, Ok(url));
            &&& asked is Ok
            &&& asked->Ok_0 == json::JsonView::Object(
                seq![
                    (
                        "processId"@,
                        json::JsonView::Number(json::NumberView::Unsigned(process_id as nat)),
                    ),
                    ("rootUri"@, json::JsonView::Str(url)),
                    ("workspaceFolders"@, workspace_folders(root, Ok(url))->Ok_0),
                    (
                        "capabilities"@,
                        json::JsonView::Object(
                            seq![
                                (
                                    "workspace"@,
                                    json::JsonView::Object(
                                        seq![
                                            ("applyEdit"@, yes),
                                            (
                                                "didChangeWatchedFiles"@,
                                                one("dynamicRegistration"@, yes),
                                            ),
                                            ("workspaceFolders"@, yes),
                                            ("configuration"@, yes),
                                        ],
                                    ),
                                ),
                                ("window"@, one("workDoneProgress"@, yes)),
                                ("textDocument"@, document_capabilities()),
                            ],
                        ),
                    ),
                    ("clientInfo"@, one("name"@, json::JsonView::Str("codex-cli"@))),
                ],
            )
        }),
{
    let yes = json::JsonView::Bool(true);
    let watched = only("dynamicRegistration"@, yes);
    assert(watched->Object_0 =~= seq![("dynamicRegistration"@, yes)]);
    let window = only("workDoneProgress"@, yes);
    assert(window->Object_0 =~= seq![("workDoneProgress"@, yes)]);
    let client = only("name"@, json::JsonView::Str("codex-cli"@));
    assert(client->Object_0 =~= seq![("name"@, json::JsonView::Str("codex-cli"@))]);
    let workspace = seq![
        ("applyEdit"@, yes),
        ("didChangeWatchedFiles"@, watched),
        ("workspaceFolders"@, yes),
        ("configuration"@, yes),
    ];
    assert(workspace_capabilities()->Object_0 =~= workspace);
    let made = initialize_request(process_id, root, Ok(url))->Ok_0->Object_0;
    let capabilities = seq![
        ("workspace"@, json::JsonView::Object(workspace)),
        ("window"@, window),
        ("textDocument"@, document_capabilities()),
    ];
    assert(made[3].1->Object_0 =~= capabilities);
    assert(made =~= seq![
        (
            "processId"@,
            json::JsonView::Number(json::NumberView::Unsigned(process_id as nat)),
        ),
        ("rootUri"@, json::JsonView::Str(url)),
        ("workspaceFolders"@, workspace_folders(root, Ok(url))->Ok_0),
        ("capabilities"@, json::JsonView::Object(capabilities)),
        ("clientInfo"@, client),
    ]);
}

/// An object with one entry.
pub open spec fn one_entry(key: Seq<char>, value: json::JsonView) -> json::JsonView {
    json::JsonView::Object(seq![(key, value)])
}

/// An object with two entries.
pub open spec fn two_entries(
    first: Seq<char>,
    value: json::JsonView,
    second: Seq<char>,
    other: json::JsonView,
) -> json::JsonView {
    json::JsonView::Object(seq![(first, value), (second, other)])
}

/// What is supported for documents: whole problems with what relates to them,
/// the kinds of code actions, plain proposals, text in Markdown or plain, links,
/// asking before renaming, and symbols within symbols.
pub proof fn document_support_is_told(formats: json::JsonView, kinds: json::JsonView)
    requires
        formats == json::JsonView::Array(
            seq![json::JsonView::Str("markdown"@), json::JsonView::Str("plaintext"@)],
        ),
        kinds == json::JsonView::Array(
            seq![
                json::JsonView::Str("quickfix"@),
                json::JsonView::Str("refactor"@),
                json::JsonView::Str("refactor.extract"@),
                json::JsonView::Str("refactor.inline"@),
                json::JsonView::Str("refactor.rewrite"@),
                json::JsonView::Str("source"@),
                json::JsonView::Str("source.organizeImports"@),
            ],
        ),
    ensures
        ({
            let yes = json::JsonView::Bool(true);
            let no = json::JsonView::Bool(false);
            document_capabilities() == json::JsonView::Object(
                seq![
                    (
                        "publishDiagnostics"@,
                        two_entries("relatedInformation"@, yes, "versionSupport"@, yes),
                    ),
                    (
                        "codeAction"@,
                        two_entries(
                            "dynamicRegistration"@,
                            no,
                            "codeActionLiteralSupport"@,
                            one_entry("codeActionKind"@, one_entry("valueSet"@, kinds)),
                        ),
                    ),
                    (
                        "completion"@,
                        two_entries(
                            "dynamicRegistration"@,
                            no,
                            "completionItem"@,
                            two_entries("snippetSupport"@, no, "documentationFormat"@, formats),
                        ),
                    ),
                    ("hover"@, one_entry("contentFormat"@, formats)),
                    (
                        "signatureHelp"@,
                        one_entry(
                            "signatureInformation"@,
                            two_entries(
                                "documentationFormat"@,
                                formats,
                                "parameterInformation"@,
                                one_entry("labelOffsetSupport"@, yes),
                            ),
                        ),
                    ),
                    ("definition"@, one_entry("linkSupport"@, yes)),
                    ("references"@, json::JsonView::Object(Seq::empty())),
                    ("rename"@, one_entry("prepareSupport"@, yes)),
                    ("documentSymbol"@, one_entry("hierarchicalDocumentSymbolSupport"@, yes)),
                ],
            )
        }),
{
    let yes = json::JsonView::Bool(true);
    let no = json::JsonView::Bool(false);
    assert(text_formats()->Array_0 =~= formats->Array_0);
    assert(code_action_kinds()->Array_0 =~= kinds->Array_0);
    lemma_one_entry("valueSet"@, kinds);
    lemma_one_entry("codeActionKind"@, one_entry("valueSet"@, kinds));
    lemma_one_entry("contentFormat"@, formats);
    lemma_one_entry("labelOffsetSupport"@, yes);
    lemma_one_entry("linkSupport"@, yes);
    lemma_one_entry("prepareSupport"@, yes);
    lemma_one_entry("hierarchicalDocumentSymbolSupport"@, yes);
    lemma_two_entries("relatedInformation"@, yes, "versionSupport"@, yes);
    let literals = one_entry("codeActionKind"@, one_entry("valueSet"@, kinds));
    lemma_two_entries("dynamicRegistration"@, no, "codeActionLiteralSupport"@, literals);
    lemma_two_entries("snippetSupport"@, no, "documentationFormat"@, formats);
    let item = two_entries("snippetSupport"@, no, "documentationFormat"@, formats);
    lemma_two_entries("dynamicRegistration"@, no, "completionItem"@, item);
    let labels = one_entry("labelOffsetSupport"@, yes);
    lemma_two_entries("documentationFormat"@, formats, "parameterInformation"@, labels);
    let help = two_entries("documentationFormat"@, formats, "parameterInformation"@, labels);
    lemma_one_entry("signatureInformation"@, help);
    assert(document_capabilities()->Object_0 =~= seq![
        ("publishDiagnostics"@, two_entries("relatedInformation"@, yes, "versionSupport"@, yes)),
        (
            "codeAction"@,
            two_entries("dynamicRegistration"@, no, "codeActionLiteralSupport"@, literals),
        ),
        ("completion"@, two_entries("dynamicRegistration"@, no, "completionItem"@, item)),
        ("hover"@, one_entry("contentFormat"@, formats)),
        ("signatureHelp"@, one_entry("signatureInformation"@, help)),
        ("definition"@, one_entry("linkSupport"@, yes)),
        ("references"@, json::JsonView::Object(Seq::empty())),
        ("rename"@, one_entry("prepareSupport"@, yes)),
        ("documentSymbol"@, one_entry("hierarchicalDocumentSymbolSupport"@, yes)),
    ]);
}

proof fn lemma_one_entry(key: Seq<char>, value: json::JsonView)
    ensures
        only(key, value) == one_entry(key, value),
{
    assert(only(key, value)->Object_0 =~= seq![(key, value)]);
}

proof fn lemma_two_entries(
    first: Seq<char>,
    value: json::JsonView,
    second: Seq<char>,
    other: json::JsonView,
)
    ensures
        only(first, value).with(second, other) == two_entries(first, value, second, other),
{
    assert(only(first, value).with(second, other)->Object_0 =~= seq![
        (first, value),
        (second, other),
    ]);
}

} // verus!
