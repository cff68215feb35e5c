//! The documents that are open in a language server, and what is known about
//! them.

use vstd::prelude::*;

use crate::json;
use crate::json::Json;
use crate::lsp::uri;
use crate::paths;
use crate::text;
use crate::text_map::TextMap;

verus! {

/// What a server wants to hear about open documents.
#[derive(Clone, Copy, Debug, PartialEq, Eq, Structural)]
pub struct TextDocumentSyncSupport {
    pub open_close: bool,
    pub supports_did_change: bool,
}

impl Default for TextDocumentSyncSupport {
    fn default() -> (s: Self)
        ensures
            s.open_close,
            s.supports_did_change,
    {
        TextDocumentSyncSupport { open_close: true, supports_did_change: true }
    }
}

/// What a server says about open documents when it starts. Without a word it
/// wants to hear everything.
pub open spec fn sync_support(initialize_result: json::JsonView) -> TextDocumentSyncSupport {
    let all = TextDocumentSyncSupport { open_close: true, supports_did_change: true };
    match json::opt_get(initialize_result.get("capabilities"@), "textDocumentSync"@) {
        None => all,
        Some(value) => match value {
            json::JsonView::Number(_) => if value.as_i64() == Some(0int) {
                TextDocumentSyncSupport { open_close: false, supports_did_change: false }
            } else {
                all
            },
            json::JsonView::Object(_) => TextDocumentSyncSupport {
                open_close: json::opt_as_bool(value.get("openClose"@)) != Some(false),
                supports_did_change: match json::opt_as_i64(value.get("change"@)) {
                    Some(n) => n >= 1,
                    None => false,
                },
            },
            _ => all,
        },
    }
}

/// Reads what a server says about open documents when it starts.
pub fn text_document_sync_support(initialize_result: &Json) -> (s: TextDocumentSyncSupport)
    ensures
        s == sync_support(initialize_result@),
{
    let found = match initialize_result.get("capabilities") {
        Some(capabilities) => capabilities.get("textDocumentSync"),
        None => None,
    };
    let value = match found {
        Some(value) => value,
        None => {
            return TextDocumentSyncSupport { open_close: true, supports_did_change: true };
        },
    };
    match value {
        Json::Number(_) => match value.as_i64() {
            Some(kind) => if kind == 0 {
                TextDocumentSyncSupport { open_close: false, supports_did_change: false }
            } else {
                TextDocumentSyncSupport { open_close: true, supports_did_change: true }
            },
            None => TextDocumentSyncSupport { open_close: true, supports_did_change: true },
        },
        Json::Object(_) => {
            let open_close: bool = match value.get("openClose") {
                Some(inner) => match inner.as_bool() {
                    Some(b) => b,
                    None => true,
                },
                None => true,
            };
            let supports_did_change: bool = match value.get("change") {
                Some(inner) => match inner.as_i64() {
                    Some(n) => n >= 1,
                    None => false,
                },
                None => false,
            };
            TextDocumentSyncSupport { open_close, supports_did_change }
        },
        _ => TextDocumentSyncSupport { open_close: true, supports_did_change: true },
    }
}

/// Whether a server says that it can tell what can be renamed.
pub open spec fn prepares_rename(initialize_result: json::JsonView) -> bool {
    match json::opt_get(initialize_result.get("capabilities"@), "renameProvider"@) {
        Some(provider) => json::opt_as_bool(provider.get("prepareProvider"@)) == Some(true),
        None => false,
    }
}

/// Reads whether a server can tell what can be renamed.
pub fn server_supports_prepare_rename(initialize_result: &Json) -> (r: bool)
    ensures
        r == prepares_rename(initialize_result@),
{
    match initialize_result.get("capabilities") {
        Some(capabilities) => match capabilities.get("renameProvider") {
            Some(provider) => match provider.get("prepareProvider") {
                Some(value) => match value.as_bool() {
                    Some(b) => b,
                    None => false,
                },
                None => false,
            },
            None => false,
        },
        None => false,
    }
}

/// A document that is open in a server.
#[derive(Debug)]
pub struct OpenDocumentState {
    pub language_id: String,
    pub text: String,
    pub version: i32,
    pub last_accessed_at: u128,
}

/// What an [`OpenDocumentState`] stands for.
#[verifier::ext_equal]
pub ghost struct DocumentView {
    pub language_id: Seq<char>,
    pub text: Seq<char>,
    pub version: i32,
    pub last_accessed_at: u128,
}

impl View for OpenDocumentState {
    type V = DocumentView;

    open spec fn view(&self) -> DocumentView {
        DocumentView {
            language_id: self.language_id@,
            text: self.text@,
            version: self.version,
            last_accessed_at: self.last_accessed_at,
        }
    }
}

/// What is known of the open documents: the documents themselves, and the last
/// diagnostics for each URI.
pub struct DocumentCache {
    pub documents: TextMap<OpenDocumentState>,
    pub diagnostics: TextMap<Json>,
}

/// A notification for the server. Where it need not arrive, it is of no
/// consequence that it cannot be sent.
pub struct Notification {
    pub method: String,
    pub params: Json,
    pub must_arrive: bool,
}

/// What a [`Notification`] stands for.
#[verifier::ext_equal]
pub ghost struct NotificationView {
    pub method: Seq<char>,
    pub params: json::JsonView,
    pub must_arrive: bool,
}

impl View for Notification {
    type V = NotificationView;

    open spec fn view(&self) -> NotificationView {
        NotificationView {
            method: self.method@,
            params: self.params@,
            must_arrive: self.must_arrive,
        }
    }
}

/// The views of a list of notifications.
pub open spec fn notification_views(list: Seq<Notification>) -> Seq<NotificationView> {
    Seq::new(list.len(), |i: int| list[i]@)
}

// ---------------------------------------------------------------------------
// Keeping a document up to date.

/// What it takes to bring the server's copy of a document up to date.
#[derive(Clone, Copy, Debug, PartialEq, Eq, Structural)]
pub enum SyncPlan {
    /// The server has this text already.
    Unchanged,
    /// The server sees the document for the first time.
    Open,
    /// The server has to forget the document first.
    Reopen,
    /// The server gets the new text under the next version.
    Change { version: i32 },
}

/// The next version of a document; the largest one is used again.
pub open spec fn next_version(version: i32) -> i32 {
    if version < i32::MAX {
        (version + 1) as i32
    } else {
        version
    }
}

/// What it takes to bring the server's copy of a document up to date.
pub open spec fn sync_plan(
    known: Option<DocumentView>,
    support: TextDocumentSyncSupport,
    language_id: Seq<char>,
    content: Seq<char>,
) -> SyncPlan {
    match known {
        None => SyncPlan::Open,
        Some(document) => if document.language_id == language_id && document.text == content {
            SyncPlan::Unchanged
        } else if document.language_id != language_id || !support.supports_did_change {
            SyncPlan::Reopen
        } else {
            SyncPlan::Change { version: next_version(document.version) }
        },
    }
}

/// The notification that opens a document.
pub open spec fn open_params(uri: Seq<char>, language_id: Seq<char>, content: Seq<char>)
    -> json::JsonView {
    json::JsonView::object().with(
        "textDocument"@,
        json::JsonView::object().with("uri"@, json::JsonView::Str(uri)).with(
            "languageId"@,
            json::JsonView::Str(language_id),
        ).with("version"@, json::integer_view(1)).with("text"@, json::JsonView::Str(content)),
    )
}

/// The notification that closes a document.
pub open spec fn close_params(uri: Seq<char>) -> json::JsonView {
    json::JsonView::object().with(
        "textDocument"@,
        json::JsonView::object().with("uri"@, json::JsonView::Str(uri)),
    )
}

/// The notification that changes a document.
pub open spec fn change_params(uri: Seq<char>, version: i32, content: Seq<char>) -> json::JsonView {
    json::JsonView::object().with(
        "textDocument"@,
        json::JsonView::object().with("uri"@, json::JsonView::Str(uri)).with(
            "version"@,
            json::integer_view(version as int),
        ),
    ).with(
        "contentChanges"@,
        json::JsonView::Array(
            seq![json::JsonView::object().with("text"@, json::JsonView::Str(content))],
        ),
    )
}

/// The notification that a document is open.
pub open spec fn open_notification(
    uri: Seq<char>,
    language_id: Seq<char>,
    content: Seq<char>,
) -> NotificationView {
    NotificationView {
        method: "textDocument/didOpen"@,
        params: open_params(uri, language_id, content),
        must_arrive: true,
    }
}

/// The notification that a document is closed.
pub open spec fn close_notification(uri: Seq<char>, must_arrive: bool) -> NotificationView {
    NotificationView {
        method: "textDocument/didClose"@,
        params: close_params(uri),
        must_arrive,
    }
}

/// The notification that a document has changed.
pub open spec fn change_notification(
    uri: Seq<char>,
    version: i32,
    content: Seq<char>,
) -> NotificationView {
    NotificationView {
        method: "textDocument/didChange"@,
        params: change_params(uri, version, content),
        must_arrive: true,
    }
}

/// The notifications that bring the server's copy up to date. All have to
/// arrive, except that a document is closed before it is opened again.
pub open spec fn sync_notifications(
    plan: SyncPlan,
    support: TextDocumentSyncSupport,
    uri: Seq<char>,
    language_id: Seq<char>,
    content: Seq<char>,
) -> Seq<NotificationView> {
    let opened = open_notification(uri, language_id, content);
    match plan {
        SyncPlan::Unchanged => seq![],
        SyncPlan::Open => seq![opened],
        SyncPlan::Reopen => if support.open_close {
            seq![close_notification(uri, false), opened]
        } else {
            seq![opened]
        },
        SyncPlan::Change { version } => seq![change_notification(uri, version, content)],
    }
}

/// The document as it is known once the server's copy is up to date.
pub open spec fn synced_document(
    plan: SyncPlan,
    known: Option<DocumentView>,
    language_id: Seq<char>,
    content: Seq<char>,
    now: u128,
) -> DocumentView {
    DocumentView {
        language_id,
        text: content,
        version: match plan {
            SyncPlan::Unchanged => match known {
                Some(document) => document.version,
                None => 1,
            },
            SyncPlan::Change { version } => version,
            _ => 1,
        },
        last_accessed_at: now,
    }
}

/// The document that is known for a URI.
pub open spec fn known_document(documents: Map<Seq<char>, OpenDocumentState>, uri: Seq<char>)
    -> Option<DocumentView> {
    if documents.contains_key(uri) {
        Some(documents[uri]@)
    } else {
        None
    }
}

/// Builds the notifications that bring the server's copy up to date.
pub fn sync_messages(
    plan: SyncPlan,
    support: TextDocumentSyncSupport,
    uri: &str,
    language_id: &str,
    content: &str,
) -> (out: Vec<Notification>)
    ensures
        notification_views(out@) == sync_notifications(
            plan,
            support,
            uri@,
            language_id@,
            content@,
        ),
{
    let mut out: Vec<Notification> = Vec::new();
    match plan {
        SyncPlan::Unchanged => {},
        SyncPlan::Open => {
            out.push(did_open(uri, language_id, content));
        },
        SyncPlan::Reopen => {
            if support.open_close {
                out.push(did_close(uri, false));
            }
            out.push(did_open(uri, language_id, content));
        },
        SyncPlan::Change { version } => {
            out.push(did_change(uri, version, content));
        },
    }
    proof {
        assert(notification_views(out@) =~= sync_notifications(
            plan,
            support,
            uri@,
            language_id@,
            content@,
        ));
    }
    out
}

fn did_open(uri: &str, language_id: &str, content: &str) -> (n: Notification)
    ensures
        n@ == open_notification(uri@, language_id@, content@),
{
    Notification {
        method: "textDocument/didOpen".to_string(),
        params: json::object().with(
            "textDocument",
            json::object().with("uri", json::string(uri)).with(
                "languageId",
                json::string(language_id),
            ).with("version", json::unsigned(1)).with("text", json::string(content)),
        ),
        must_arrive: true,
    }
}

/// The notification that closes a document.
pub fn did_close(uri: &str, must_arrive: bool) -> (n: Notification)
    ensures
        n@ == close_notification(uri@, must_arrive),
{
    Notification {
        method: "textDocument/didClose".to_string(),
        params: json::object().with(
            "textDocument",
            json::object().with("uri", json::string(uri)),
        ),
        must_arrive,
    }
}

fn did_change(uri: &str, version: i32, content: &str) -> (n: Notification)
    ensures
        n@ == change_notification(uri@, version, content@),
{
    let mut changes: Vec<Json> = Vec::new();
    changes.push(json::object().with("text", json::string(content)));
    proof {
        assert(json::views(changes@) =~= seq![
            json::JsonView::object().with("text"@, json::JsonView::Str(content@)),
        ]);
    }
    Notification {
        method: "textDocument/didChange".to_string(),
        params: json::object().with(
            "textDocument",
            json::object().with("uri", json::string(uri)).with(
                "version",
                json::integer(version as i64),
            ),
        ).with("contentChanges", json::array(changes)),
        must_arrive: true,
    }
}

impl DocumentCache {
    /// The cache of a server that has just started.
    pub fn new() -> (c: Self)
        ensures
            c.documents@ == Map::<Seq<char>, OpenDocumentState>::empty(),
            c.diagnostics@ == Map::<Seq<char>, Json>::empty(),
    {
        DocumentCache { documents: TextMap::new(), diagnostics: TextMap::new() }
    }

    /// Plans how to bring the server's copy of a document up to date.
    pub fn plan_sync(
        &self,
        support: TextDocumentSyncSupport,
        uri: &str,
        language_id: &str,
        content: &str,
    ) -> (plan: SyncPlan)
        ensures
            plan == sync_plan(
                known_document(self.documents@, uri@),
                support,
                language_id@,
                content@,
            ),
    {
        match self.documents.get(uri) {
            None => SyncPlan::Open,
            Some(document) => {
                let same_language: bool = text::same_text(
                    document.language_id.as_str(),
                    language_id,
                );
                if same_language && text::same_text(document.text.as_str(), content) {
                    SyncPlan::Unchanged
                } else if !same_language || !support.supports_did_change {
                    SyncPlan::Reopen
                } else {
                    let version: i32 = document.version;
                    if version < i32::MAX {
                        SyncPlan::Change { version: version + 1 }
                    } else {
                        SyncPlan::Change { version }
                    }
                }
            },
        }
    }

    /// Notes that the server's copy of a document is up to date. What was known
    /// of its problems no longer holds, unless it is the text that the server
    /// had or has been made to forget.
    pub fn note_synced(
        &mut self,
        plan: SyncPlan,
        uri: &str,
        language_id: &str,
        content: &str,
        now: u128,
    )
        ensures
            final(self).documents@.dom() == old(self).documents@.dom().insert(uri@),
            final(self).documents@[uri@]@ == synced_document(
                plan,
                known_document(old(self).documents@, uri@),
                language_id@,
                content@,
                now,
            ),
            forall|other: Seq<char>|
                other != uri@ && old(self).documents@.contains_key(other)
                    ==> final(self).documents@[other] == #[trigger] old(self).documents@[other],
            final(self).diagnostics@ == if plan is Open || plan is Change {
                old(self).diagnostics@.remove(uri@)
            } else {
                old(self).diagnostics@
            },
    {
        let version: i32 = match plan {
            SyncPlan::Unchanged => match self.documents.get(uri) {
                Some(document) => document.version,
                None => 1,
            },
            SyncPlan::Change { version } => version,
            _ => 1,
        };
        self.documents.insert(
            uri,
            OpenDocumentState {
                language_id: language_id.to_string(),
                text: content.to_string(),
                version,
                last_accessed_at: now,
            },
        );
        match plan {
            SyncPlan::Open | SyncPlan::Change { version: _ } => {
                let _ = self.diagnostics.remove(uri);
            },
            _ => {},
        }
    }

    /// The diagnostics for a document: none where the server sent none.
    pub fn diagnostics_for(&self, uri: &str) -> (out: Json)
        ensures
            out@ == if self.diagnostics@.contains_key(uri@) {
                self.diagnostics@[uri@]@
            } else {
                json::JsonView::Array(Seq::empty())
            },
    {
        match self.diagnostics.get(uri) {
            Some(diagnostics) => diagnostics.duplicate(),
            None => {
                let none: Vec<Json> = Vec::new();
                proof {
                    assert(json::views(none@) =~= Seq::<json::JsonView>::empty());
                }
                json::array(none)
            },
        }
    }

    /// Forgets a document, and says whether it was open.
    pub fn forget(&mut self, uri: &str) -> (was_open: bool)
        ensures
            was_open == old(self).documents@.contains_key(uri@),
            final(self).documents@ == old(self).documents@.remove(uri@),
            final(self).diagnostics@ == if was_open {
                old(self).diagnostics@.remove(uri@)
            } else {
                old(self).diagnostics@
            },
    {
        let removed = self.documents.remove(uri);
        if removed.is_none() {
            return false;
        }
        let _ = self.diagnostics.remove(uri);
        true
    }

    /// Closes a document. The server is told where it wants to be.
    pub fn close_document(&mut self, support: TextDocumentSyncSupport, uri: &str) -> (message:
        Option<Notification>)
        ensures
            final(self).documents@ == old(self).documents@.remove(uri@),
            final(self).diagnostics@ == if old(self).documents@.contains_key(uri@) {
                old(self).diagnostics@.remove(uri@)
            } else {
                old(self).diagnostics@
            },
            match message {
                Some(n) => support.open_close && old(self).documents@.contains_key(uri@)
                    && n@ == close_notification(uri@, true),
                None => !support.open_close || !old(self).documents@.contains_key(uri@),
            },
    {
        let was_open: bool = self.forget(uri);
        if was_open && support.open_close {
            Some(did_close(uri, true))
        } else {
            None
        }
    }

    /// Notes a text that was written to disk for a document. An open document
    /// gets it under its next version.
    pub fn note_written(&mut self, uri: &str, content: &str, now: u128)
        ensures
            final(self).diagnostics@ == old(self).diagnostics@.remove(uri@),
            final(self).documents@.dom() == old(self).documents@.dom(),
            old(self).documents@.contains_key(uri@) ==> final(self).documents@[uri@]@ == (
            DocumentView {
                language_id: old(self).documents@[uri@].language_id@,
                text: content@,
                version: next_version(old(self).documents@[uri@].version),
                last_accessed_at: now,
            }),
            forall|other: Seq<char>|
                other != uri@ && old(self).documents@.contains_key(other)
                    ==> final(self).documents@[other] == #[trigger] old(self).documents@[other],
    {
        let _ = self.diagnostics.remove(uri);
        match self.documents.remove(uri) {
            Some(document) => {
                let version: i32 = if document.version < i32::MAX {
                    document.version + 1
                } else {
                    document.version
                };
                self.documents.insert(
                    uri,
                    OpenDocumentState {
                        language_id: document.language_id,
                        text: content.to_string(),
                        version,
                        last_accessed_at: now,
                    },
                );
                proof {
                    assert(self.documents@.dom() =~= old(self).documents@.dom());
                }
            },
            None => {
                proof {
                    assert(self.documents@.dom() =~= old(self).documents@.dom());
                }
            },
        }
    }
}

/// Once a document has been brought up to date, it needs no further work until
/// its text or language changes.
pub proof fn synced_documents_are_up_to_date(
    known: Option<DocumentView>,
    support: TextDocumentSyncSupport,
    language_id: Seq<char>,
    content: Seq<char>,
    now: u128,
)
    ensures
        ({
            let plan = sync_plan(known, support, language_id, content);
            let after = synced_document(plan, known, language_id, content, now);
            sync_plan(Some(after), support, language_id, content) == SyncPlan::Unchanged
        }),
{
}

/// A document that stays open never goes back to an earlier version.
pub proof fn versions_never_go_back(
    document: DocumentView,
    support: TextDocumentSyncSupport,
    content: Seq<char>,
    now: u128,
)
    requires
        support.supports_did_change,
    ensures
        ({
            let plan = sync_plan(Some(document), support, document.language_id, content);
            synced_document(plan, Some(document), document.language_id, content, now).version
                >= document.version
        }),
{
}

// ---------------------------------------------------------------------------
// Making room.

proof fn lemma_move(a: Seq<Seq<char>>, b: Seq<Seq<char>>, i: int)
    requires
        0 <= i < b.len(),
        (a + b).no_duplicates(),
    ensures
        (a.push(b[i]) + b.remove(i)).no_duplicates(),
        (a.push(b[i]) + b.remove(i)).to_set() == (a + b).to_set(),
{
    let before = a + b;
    let after = a.push(b[i]) + b.remove(i);
    // Where each place of the new list stood in the old one.
    let from = |k: int|
        if k < a.len() {
            k
        } else if k == a.len() {
            a.len() + i
        } else if k - 1 - a.len() < i {
            k - 1
        } else {
            k
        };
    assert forall|k: int| 0 <= k < after.len() implies 0 <= from(k) < before.len()
        && #[trigger] after[k] == before[from(k)] by {
    }
    assert forall|p: int, q: int| 0 <= p < after.len() && 0 <= q < after.len() && p != q implies after[p]
        != after[q] by {
        assert(after[p] == before[from(p)]);
        assert(after[q] == before[from(q)]);
        assert(from(p) != from(q));
    }
    // Where each place of the old list has gone.
    let to = |k: int|
        if k < a.len() {
            k
        } else if k == a.len() + i {
            a.len() as int
        } else if k < a.len() + i {
            k + 1
        } else {
            k
        };
    assert forall|k: int| 0 <= k < before.len() implies 0 <= to(k) < after.len()
        && #[trigger] before[k] == after[to(k)] by {
    }
    assert forall|x: Seq<char>| after.to_set().contains(x) == before.to_set().contains(x) by {
        if after.contains(x) {
            let k = choose|k: int| 0 <= k < after.len() && after[k] == x;
            assert(before[from(k)] == x);
        }
        if before.contains(x) {
            let k = choose|k: int| 0 <= k < before.len() && before[k] == x;
            assert(after[to(k)] == x);
        }
    }
    assert(after.to_set() =~= before.to_set());
}

/// Whether these are the documents to close so that at most `max` stay open:
/// no more than needed, none that was used later than one that stays, and the
/// longest unused first.
pub open spec fn oldest(
    documents: Map<Seq<char>, OpenDocumentState>,
    chosen: Seq<Seq<char>>,
    max: nat,
) -> bool {
    &&& chosen.no_duplicates()
    &&& chosen.len() == if documents.dom().len() > max {
        documents.dom().len() - max
    } else {
        0
    }
    &&& forall|i: int| 0 <= i < chosen.len() ==> documents.contains_key(#[trigger] chosen[i])
    &&& forall|i: int, other: Seq<char>|
        0 <= i < chosen.len() && documents.contains_key(other) && !chosen.contains(other)
            ==> documents[#[trigger] chosen[i]].last_accessed_at
            <= (#[trigger] documents[other]).last_accessed_at
    &&& forall|i: int, j: int|
        0 <= i < j < chosen.len() ==> documents[#[trigger] chosen[i]].last_accessed_at
            <= documents[#[trigger] chosen[j]].last_accessed_at
}

impl DocumentCache {
    /// The documents to close so that at most `max_open_documents` stay open:
    /// those that have not been used for the longest time, the longest unused
    /// first.
    pub fn documents_to_evict(&self, max_open_documents: usize) -> (out: Vec<String>)
        ensures
            oldest(self.documents@, text::texts(out@), max_open_documents as nat),
    {
        let mut rest = self.documents.keys();
        let mut out: Vec<String> = Vec::new();
        let count: usize = self.documents.len();
        let ghost docs = self.documents@;
        proof {
            text::texts(rest@).unique_seq_to_set();
            assert(text::texts(rest@).len() == rest@.len());
            assert(text::texts(out@) + text::texts(rest@) =~= text::texts(rest@));
        }
        while rest.len() > max_open_documents
            invariant
                docs == self.documents@,
                count == docs.dom().len(),
                out@.len() + rest@.len() == count,
                out@.len() > 0 ==> rest@.len() >= max_open_documents,
                (text::texts(out@) + text::texts(rest@)).no_duplicates(),
                (text::texts(out@) + text::texts(rest@)).to_set() == docs.dom(),
                forall|i: int, j: int|
                    0 <= i < out@.len() && 0 <= j < rest@.len() ==> docs[#[trigger] out@[i]@].last_accessed_at
                        <= docs[#[trigger] rest@[j]@].last_accessed_at,
                forall|i: int, j: int|
                    0 <= i < j < out@.len() ==> docs[#[trigger] out@[i]@].last_accessed_at
                        <= docs[#[trigger] out@[j]@].last_accessed_at,
            decreases rest@.len(),
        {
            let ghost before_out = text::texts(out@);
            let ghost before_rest = text::texts(rest@);
            proof {
                assert forall|j: int| 0 <= j < rest@.len() implies docs.contains_key(
                    #[trigger] rest@[j]@,
                ) by {
                    assert((before_out + before_rest)[before_out.len() + j] == rest@[j]@);
                    assert((before_out + before_rest).to_set().contains(rest@[j]@));
                }
            }
            let mut best: usize = 0;
            let mut k: usize = 1;
            while k < rest.len()
                invariant
                    1 <= k <= rest@.len(),
                    best < k,
                    docs == self.documents@,
                    forall|j: int| 0 <= j < rest@.len() ==> docs.contains_key(#[trigger] rest@[j]@),
                    forall|j: int|
                        0 <= j < k ==> docs[rest@[best as int]@].last_accessed_at
                            <= docs[#[trigger] rest@[j]@].last_accessed_at,
                decreases rest@.len() - k,
            {
                let newer: u128 = match self.documents.get(rest[k].as_str()) {
                    Some(document) => document.last_accessed_at,
                    None => 0,
                };
                let older: u128 = match self.documents.get(rest[best].as_str()) {
                    Some(document) => document.last_accessed_at,
                    None => 0,
                };
                if newer < older {
                    best = k;
                }
                k += 1;
            }
            let ghost index = best as int;
            let ghost old_rest = rest@;
            let ghost old_out = out@;
            let chosen = rest.remove(best);
            let ghost chosen_view = chosen@;
            out.push(chosen);
            proof {
                lemma_move(before_out, before_rest, index);
                assert(text::texts(out@) =~= before_out.push(chosen_view));
                assert(text::texts(rest@) =~= before_rest.remove(index));
                assert forall|i: int, j: int|
                    0 <= i < out@.len() && 0 <= j < rest@.len() implies docs[#[trigger] out@[i]@].last_accessed_at
                    <= docs[#[trigger] rest@[j]@].last_accessed_at by {
                    let q = if j < index {
                        j
                    } else {
                        j + 1
                    };
                    assert(rest@[j] == old_rest[q]);
                    if i < old_out.len() {
                        assert(out@[i] == old_out[i]);
                        assert(docs[old_out[i]@].last_accessed_at <= docs[old_rest[q]@].last_accessed_at);
                    } else {
                        assert(out@[i]@ == old_rest[index]@);
                    }
                }
                assert forall|i: int, j: int|
                    0 <= i < j < out@.len() implies docs[#[trigger] out@[i]@].last_accessed_at
                    <= docs[#[trigger] out@[j]@].last_accessed_at by {
                    assert(out@[i] == old_out[i]);
                    if j < old_out.len() {
                        assert(out@[j] == old_out[j]);
                    } else {
                        assert(out@[j]@ == old_rest[index]@);
                    }
                }
            }
        }
        proof {
            let all = text::texts(out@) + text::texts(rest@);
            let chosen = text::texts(out@);
            assert forall|i: int| 0 <= i < chosen.len() implies docs.contains_key(
                #[trigger] chosen[i],
            ) by {
                assert(all[i] == chosen[i]);
                assert(all.to_set().contains(chosen[i]));
            }
            assert forall|i: int, j: int|
                0 <= i < chosen.len() && 0 <= j < chosen.len() && i != j implies chosen[i]
                != chosen[j] by {
                assert(all[i] == chosen[i]);
                assert(all[j] == chosen[j]);
            }
            assert forall|i: int, other: Seq<char>|
                0 <= i < chosen.len() && docs.contains_key(other) && !chosen.contains(
                    other,
                ) implies docs[#[trigger] chosen[i]].last_accessed_at <= (
                #[trigger] docs[other]).last_accessed_at by {
                assert(all.to_set().contains(other));
                let k = choose|k: int| 0 <= k < all.len() && all[k] == other;
                if k < chosen.len() {
                    assert(chosen[k] == other);
                }
                assert(rest@[k - chosen.len()]@ == other);
                assert(out@[i]@ == chosen[i]);
            }
            assert forall|i: int, j: int|
                0 <= i < j < chosen.len() implies docs[#[trigger] chosen[i]].last_accessed_at
                <= docs[#[trigger] chosen[j]].last_accessed_at by {
                assert(out@[i]@ == chosen[i]);
                assert(out@[j]@ == chosen[j]);
            }
        }
        out
    }
}

// ---------------------------------------------------------------------------
// Files that move or go.

/// Whether a path is the one given, or lies below it where that is a
/// directory.
pub open spec fn matches_target(candidate: Seq<char>, target: Seq<char>, target_is_dir: bool) -> bool {
    if target_is_dir {
        paths::below(candidate, target)
    } else {
        paths::same(candidate, target)
    }
}

/// Whether the file that a URI names is at the target or below it.
pub open spec fn affected(uri: Seq<char>, target: Seq<char>, target_is_dir: bool) -> bool {
    match uri::uri_path(uri) {
        Ok(path) => matches_target(path, target, target_is_dir),
        Err(_) => false,
    }
}

/// Whether a path is the one given, or lies below it where that is a
/// directory.
pub fn path_matches_workspace_target(candidate: &str, target: &str, target_is_dir: bool) -> (r:
    bool)
    ensures
        r == matches_target(candidate@, target@, target_is_dir),
{
    if target_is_dir {
        paths::starts_with(candidate, target)
    } else {
        paths::same_path(candidate, target)
    }
}

fn uri_is_affected(uri: &str, target: &str, target_is_dir: bool) -> (r: bool)
    ensures
        r == affected(uri@, target@, target_is_dir),
{
    match uri::lsp_uri_to_path(uri) {
        Ok(path) => path_matches_workspace_target(path.as_str(), target, target_is_dir),
        Err(_) => false,
    }
}

/// Where a path goes when its prefix moves.
pub open spec fn remapped(
    path: Seq<char>,
    old_prefix: Seq<char>,
    new_prefix: Seq<char>,
    old_is_dir: bool,
) -> Result<Seq<char>, Seq<char>> {
    let failure = "failed to remap workspace path "@ + path + " from "@ + old_prefix;
    if old_is_dir {
        match paths::stripped(path, old_prefix) {
            Some(suffix) => Ok(paths::joined(new_prefix, suffix)),
            None => Err(failure),
        }
    } else if paths::same(path, old_prefix) {
        Ok(new_prefix)
    } else {
        Err(failure)
    }
}

/// Where a path goes when its prefix moves.
pub fn remap_workspace_path(path: &str, old_prefix: &str, new_prefix: &str, old_is_dir: bool) -> (r:
    Result<String, String>)
    ensures
        uri::outcome(r) == remapped(path@, old_prefix@, new_prefix@, old_is_dir),
{
    if old_is_dir {
        if let Some(suffix) = paths::strip_prefix(path, old_prefix) {
            return Ok(paths::join(new_prefix, suffix.as_str()));
        }
    } else if paths::same_path(path, old_prefix) {
        return Ok(new_prefix.to_string());
    }
    let mut message = "failed to remap workspace path ".to_string();
    message.append(path);
    message.append(" from ");
    message.append(old_prefix);
    Err(message)
}

/// A path that moves with its prefix lies at the new one, and moving back gives
/// the same path. Where only the old prefix is empty, the path may start
/// neither at the root nor with a lone dot.
pub proof fn paths_moved_there_and_back_are_the_same(
    path: Seq<char>,
    old_prefix: Seq<char>,
    new_prefix: Seq<char>,
    old_is_dir: bool,
)
    requires
        matches_target(path, old_prefix, old_is_dir),
        old_is_dir && old_prefix.len() == 0 && new_prefix.len() > 0 ==> !paths::absolute(path) && !(
        paths::parts(path).len() > 0 && paths::parts(path)[0] == seq!['.']),
    ensures
        ({
            let there = remapped(path, old_prefix, new_prefix, old_is_dir);
            &&& there is Ok
            &&& matches_target(there->Ok_0, new_prefix, old_is_dir)
            &&& remapped(there->Ok_0, new_prefix, old_prefix, old_is_dir) is Ok
            &&& paths::same(
                remapped(there->Ok_0, new_prefix, old_prefix, old_is_dir)->Ok_0,
                path,
            )
        }),
{
    if old_is_dir {
        paths::rebased_paths_come_back(path, old_prefix, new_prefix);
    }
}

/// The URI of a file once its prefix has moved.
pub open spec fn moved_uri(
    uri: Seq<char>,
    old_path: Seq<char>,
    new_path: Seq<char>,
    old_is_dir: bool,
) -> Result<Seq<char>, Seq<char>> {
    match uri::uri_path(uri) {
        Err(message) => Err(message),
        Ok(path) => match remapped(path, old_path, new_path, old_is_dir) {
            Err(message) => Err(message),
            Ok(target) => uri::url_outcome(target, uri::file_url_name(target)),
        },
    }
}

fn move_uri(uri: &str, old_path: &str, new_path: &str, old_is_dir: bool) -> (r: Result<
    String,
    String,
>)
    ensures
        uri::outcome(r) == moved_uri(uri@, old_path@, new_path@, old_is_dir),
{
    match uri::lsp_uri_to_path(uri) {
        Err(message) => Err(message),
        Ok(path) => match remap_workspace_path(path.as_str(), old_path, new_path, old_is_dir) {
            Err(message) => Err(message),
            Ok(target) => uri::path_to_file_url(target.as_str()),
        },
    }
}

/// The first `n` of a list of URIs that are affected.
pub open spec fn affected_among(
    uris: Seq<Seq<char>>,
    n: int,
    target: Seq<char>,
    target_is_dir: bool,
) -> Set<Seq<char>> {
    Set::new(
        |u: Seq<char>|
            exists|k: int|
                0 <= k < n && k < uris.len() && #[trigger] uris[k] == u && affected(
                    u,
                    target,
                    target_is_dir,
                ),
    )
}

/// The open documents that are affected.
pub open spec fn affected_documents(
    documents: Map<Seq<char>, OpenDocumentState>,
    target: Seq<char>,
    target_is_dir: bool,
) -> Set<Seq<char>> {
    documents.dom().filter(|u: Seq<char>| affected(u, target, target_is_dir))
}

proof fn lemma_all_affected(
    documents: Map<Seq<char>, OpenDocumentState>,
    uris: Seq<Seq<char>>,
    target: Seq<char>,
    target_is_dir: bool,
)
    requires
        uris.to_set() == documents.dom(),
    ensures
        affected_among(uris, uris.len() as int, target, target_is_dir) == affected_documents(
            documents,
            target,
            target_is_dir,
        ),
{
    assert forall|u: Seq<char>|
        affected_among(uris, uris.len() as int, target, target_is_dir).contains(u)
            == affected_documents(documents, target, target_is_dir).contains(u) by {
        if affected_documents(documents, target, target_is_dir).contains(u) {
            assert(uris.to_set().contains(u));
            let k = choose|k: int| 0 <= k < uris.len() && uris[k] == u;
            assert(uris[k] == u);
        }
        if affected_among(uris, uris.len() as int, target, target_is_dir).contains(u) {
            assert(uris.to_set().contains(u));
        }
    }
    assert(affected_among(uris, uris.len() as int, target, target_is_dir)
        =~= affected_documents(documents, target, target_is_dir));
}

proof fn lemma_next_affected(uris: Seq<Seq<char>>, n: int, target: Seq<char>, target_is_dir: bool)
    requires
        0 <= n < uris.len(),
    ensures
        affected_among(uris, n + 1, target, target_is_dir) == if affected(
            uris[n],
            target,
            target_is_dir,
        ) {
            affected_among(uris, n, target, target_is_dir).insert(uris[n])
        } else {
            affected_among(uris, n, target, target_is_dir)
        },
{
    let next = affected_among(uris, n + 1, target, target_is_dir);
    let here = affected_among(uris, n, target, target_is_dir);
    assert forall|u: Seq<char>| next.contains(u) == (here.contains(u) || (u == uris[n]
        && affected(uris[n], target, target_is_dir))) by {
        if u == uris[n] && affected(u, target, target_is_dir) {
            assert(uris[n] == u);
        }
    }
    if affected(uris[n], target, target_is_dir) {
        assert(next =~= here.insert(uris[n]));
    } else {
        assert(next =~= here);
    }
}

impl DocumentCache {
    /// Forgets the open documents at a path, or below it where it is a
    /// directory, and what was known of their problems.
    pub fn drop_cached_workspace_paths(&mut self, path: &str, is_dir: bool)
        ensures
            final(self).documents@ == old(self).documents@.remove_keys(
                affected_documents(old(self).documents@, path@, is_dir),
            ),
            final(self).diagnostics@ == old(self).diagnostics@.remove_keys(
                affected_documents(old(self).documents@, path@, is_dir),
            ),
    {
        let keys = self.documents.keys();
        let ghost uris = text::texts(keys@);
        let mut i: usize = 0;
        proof {
            let none = affected_among(uris, 0, path@, is_dir);
            assert(none =~= Set::<Seq<char>>::empty());
            assert(self.documents@.remove_keys(none) =~= self.documents@);
            assert(self.diagnostics@.remove_keys(none) =~= self.diagnostics@);
        }
        while i < keys.len()
            invariant
                i <= keys@.len(),
                uris == text::texts(keys@),
                self.documents@ == old(self).documents@.remove_keys(
                    affected_among(uris, i as int, path@, is_dir),
                ),
                self.diagnostics@ == old(self).diagnostics@.remove_keys(
                    affected_among(uris, i as int, path@, is_dir),
                ),
            decreases keys@.len() - i,
        {
            proof {
                lemma_next_affected(uris, i as int, path@, is_dir);
            }
            if uri_is_affected(keys[i].as_str(), path, is_dir) {
                let _ = self.documents.remove(keys[i].as_str());
                let _ = self.diagnostics.remove(keys[i].as_str());
            }
            proof {
                let gone = affected_among(uris, i + 1, path@, is_dir);
                assert(self.documents@ =~= old(self).documents@.remove_keys(gone));
                assert(self.diagnostics@ =~= old(self).diagnostics@.remove_keys(gone));
            }
            i += 1;
        }
        proof {
            lemma_all_affected(old(self).documents@, uris, path@, is_dir);
            assert(uris.len() == keys@.len());
        }
    }
}

/// Whether some affected document gets the given URI.
pub open spec fn takes_over(
    documents: Map<Seq<char>, OpenDocumentState>,
    old_path: Seq<char>,
    new_path: Seq<char>,
    old_is_dir: bool,
    from: Seq<char>,
    to: Seq<char>,
) -> bool {
    &&& affected_documents(documents, old_path, old_is_dir).contains(from)
    &&& moved_uri(from, old_path, new_path, old_is_dir) == Ok::<_, Seq<char>>(to)
}

/// The URIs under which affected documents are found after a move.
pub open spec fn taken_over(
    documents: Map<Seq<char>, OpenDocumentState>,
    old_path: Seq<char>,
    new_path: Seq<char>,
    old_is_dir: bool,
) -> Set<Seq<char>> {
    Set::new(
        |to: Seq<char>|
            exists|from: Seq<char>|
                #[trigger] takes_over(documents, old_path, new_path, old_is_dir, from, to),
    )
}

/// Whether a move was broken off at a document that has no new URI: the
/// documents taken up until then, itself among them, are gone, and what was
/// known of the problems of the others is forgotten.
pub open spec fn broken_off(
    before: DocumentCache,
    after: DocumentCache,
    old_path: Seq<char>,
    new_path: Seq<char>,
    old_is_dir: bool,
    lost: Set<Seq<char>>,
    at: Seq<char>,
) -> bool {
    &&& lost.subset_of(affected_documents(before.documents@, old_path, old_is_dir))
    &&& lost.contains(at)
    &&& forall|u: Seq<char>| #[trigger]
        lost.contains(u) ==> (moved_uri(u, old_path, new_path, old_is_dir) is Ok == (u != at))
    &&& after.documents@ == before.documents@.remove_keys(lost)
    &&& after.diagnostics@ == before.diagnostics@.remove_keys(lost.remove(at))
}

impl DocumentCache {
    /// Moves the open documents at a path, or below it where it is a
    /// directory, to where the path has gone. Each keeps its text under its new
    /// URI; what was known of problems at either place is forgotten. The other
    /// documents stay. Where a new place has no URI, the move is broken off.
    pub fn remap_cached_workspace_paths(
        &mut self,
        old_path: &str,
        new_path: &str,
        old_is_dir: bool,
    ) -> (r: Result<(), String>)
        ensures
            r is Ok == (forall|u: Seq<char>| #[trigger]
                affected_documents(old(self).documents@, old_path@, old_is_dir).contains(u)
                    ==> moved_uri(u, old_path@, new_path@, old_is_dir) is Ok),
            match r {
                Ok(_) => {
                    let before = old(self).documents@;
                    let after = final(self).documents@;
                    let gone = affected_documents(before, old_path@, old_is_dir);
                    let new = taken_over(before, old_path@, new_path@, old_is_dir);
                    &&& after.dom() == before.dom().difference(gone).union(new)
                    &&& forall|u: Seq<char>|
                        before.contains_key(u) && !gone.contains(u) && !new.contains(u)
                            ==> #[trigger] after[u] == before[u]
                    &&& forall|to: Seq<char>|
                        new.contains(to) ==> exists|from: Seq<char>| #[trigger]
                            takes_over(before, old_path@, new_path@, old_is_dir, from, to)
                                && #[trigger] after[to] == before[from]
                    &&& final(self).diagnostics@ == old(self).diagnostics@.remove_keys(
                        gone,
                    ).remove_keys(new)
                },
                Err(message) => exists|lost: Set<Seq<char>>, at: Seq<char>| #[trigger]
                    broken_off(
                        *old(self),
                        *final(self),
                        old_path@,
                        new_path@,
                        old_is_dir,
                        lost,
                        at,
                    ) && moved_uri(at, old_path@, new_path@, old_is_dir) == Err::<Seq<char>, _>(
                        message@,
                    ),
            },
    {
        let keys = self.documents.keys();
        let ghost uris = text::texts(keys@);
        let ghost before = self.documents@;
        let ghost gone = affected_documents(before, old_path@, old_is_dir);
        let mut moved: Vec<(String, OpenDocumentState)> = Vec::new();
        let ghost mut sources: Seq<Seq<char>> = seq![];
        let mut i: usize = 0;
        proof {
            let none = affected_among(uris, 0, old_path@, old_is_dir);
            assert(none =~= Set::<Seq<char>>::empty());
            assert(self.documents@.remove_keys(none) =~= self.documents@);
            assert(self.diagnostics@.remove_keys(none) =~= self.diagnostics@);
            lemma_all_affected(before, uris, old_path@, old_is_dir);
            assert(uris.len() == keys@.len());
        }
        while i < keys.len()
            invariant
                i <= keys@.len(),
                uris == text::texts(keys@),
                uris.no_duplicates(),
                uris.to_set() == before.dom(),
                before == old(self).documents@,
                gone == affected_documents(before, old_path@, old_is_dir),
                self.documents@ == before.remove_keys(
                    affected_among(uris, i as int, old_path@, old_is_dir),
                ),
                self.diagnostics@ == old(self).diagnostics@.remove_keys(
                    affected_among(uris, i as int, old_path@, old_is_dir),
                ),
                moved@.len() == sources.len(),
                forall|k: int|
                    0 <= k < moved@.len() ==> #[trigger] takes_over(
                        before,
                        old_path@,
                        new_path@,
                        old_is_dir,
                        sources[k],
                        moved@[k].0@,
                    ) && moved@[k].1 == before[sources[k]],
                forall|u: Seq<char>|
                    affected_among(uris, i as int, old_path@, old_is_dir).contains(u)
                        ==> #[trigger] sources.contains(u),
            decreases keys@.len() - i,
        {
            let ghost here = uris[i as int];
            proof {
                lemma_next_affected(uris, i as int, old_path@, old_is_dir);
                assert(uris.to_set().contains(here));
                assert(here == keys@[i as int]@);
                assert(!affected_among(uris, i as int, old_path@, old_is_dir).contains(here)) by {
                    if affected_among(uris, i as int, old_path@, old_is_dir).contains(here) {
                        let k = choose|k: int|
                            0 <= k < i && k < uris.len() && #[trigger] uris[k] == here && affected(
                                here,
                                old_path@,
                                old_is_dir,
                            );
                        assert(uris[k] == uris[i as int]);
                    }
                }
            }
            if uri_is_affected(keys[i].as_str(), old_path, old_is_dir) {
                proof {
                    assert(gone.contains(here));
                }
                let taken = self.documents.remove(keys[i].as_str());
                match move_uri(keys[i].as_str(), old_path, new_path, old_is_dir) {
                    Ok(new_uri) => {
                        let ghost to = new_uri@;
                        if let Some(document) = taken {
                            let ghost old_moved = moved@;
                            let ghost old_sources = sources;
                            moved.push((new_uri, document));
                            proof {
                                sources = sources.push(here);
                                assert forall|k: int| 0 <= k < moved@.len() implies #[trigger] takes_over(
                                    before,
                                    old_path@,
                                    new_path@,
                                    old_is_dir,
                                    sources[k],
                                    moved@[k].0@,
                                ) && moved@[k].1 == before[sources[k]] by {
                                    if k < old_moved.len() {
                                        assert(sources[k] == old_sources[k]);
                                        assert(moved@[k] == old_moved[k]);
                                        assert(takes_over(
                                            before,
                                            old_path@,
                                            new_path@,
                                            old_is_dir,
                                            old_sources[k],
                                            old_moved[k].0@,
                                        ));
                                    }
                                }
                                assert forall|u: Seq<char>|
                                    affected_among(uris, i + 1, old_path@, old_is_dir).contains(
                                        u,
                                    ) implies #[trigger] sources.contains(u) by {
                                    if u == here {
                                        assert(sources[old_sources.len() as int] == here);
                                    } else {
                                        assert(old_sources.contains(u));
                                        let k = choose|k: int|
                                            0 <= k < old_sources.len() && old_sources[k] == u;
                                        assert(sources[k] == u);
                                    }
                                }
                            }
                        }
                        let _ = self.diagnostics.remove(keys[i].as_str());
                    },
                    Err(message) => {
                        proof {
                            let earlier = affected_among(uris, i as int, old_path@, old_is_dir);
                            let lost = earlier.insert(here);
                            assert forall|u: Seq<char>| earlier.contains(u) implies moved_uri(
                                u,
                                old_path@,
                                new_path@,
                                old_is_dir,
                            ) is Ok && gone.contains(u) by {
                                assert(sources.contains(u));
                                let k = choose|k: int| 0 <= k < sources.len() && sources[k] == u;
                                assert(takes_over(
                                    before,
                                    old_path@,
                                    new_path@,
                                    old_is_dir,
                                    sources[k],
                                    moved@[k].0@,
                                ));
                            }
                            assert(lost.remove(here) =~= earlier);
                            assert(self.documents@ =~= before.remove_keys(lost));
                            assert(!(moved_uri(here, old_path@, new_path@, old_is_dir) is Ok));
                            assert(broken_off(
                                *old(self),
                                *self,
                                old_path@,
                                new_path@,
                                old_is_dir,
                                lost,
                                here,
                            ));
                        }
                        return Err(message);
                    },
                }
            }
            proof {
                let left = affected_among(uris, i + 1, old_path@, old_is_dir);
                assert(self.documents@ =~= before.remove_keys(left));
                assert(self.diagnostics@ =~= old(self).diagnostics@.remove_keys(left));
            }
            i += 1;
        }
        proof {
            assert(uris.len() == keys@.len());
            lemma_all_affected(before, uris, old_path@, old_is_dir);
            assert forall|u: Seq<char>| #[trigger] gone.contains(u) implies moved_uri(
                u,
                old_path@,
                new_path@,
                old_is_dir,
            ) is Ok by {
                assert(sources.contains(u));
                let k = choose|k: int| 0 <= k < sources.len() && sources[k] == u;
                assert(takes_over(
                    before,
                    old_path@,
                    new_path@,
                    old_is_dir,
                    sources[k],
                    moved@[k].0@,
                ));
            }
        }
        let ghost targets = Seq::new(moved@.len(), |k: int| moved@[k].0@);
        let ghost values = Seq::new(moved@.len(), |k: int| moved@[k].1);
        let ghost total = moved@.len() as int;
        let ghost mut done: int = 0;
        let ghost kept = before.remove_keys(gone);
        let ghost bare = old(self).diagnostics@.remove_keys(gone);
        proof {
            assert(moved@.skip(0) =~= moved@);
            assert(kept.dom() =~= kept.dom().union(targets.take(0).to_set()));
            assert(bare.remove_keys(targets.take(0).to_set()) =~= bare);
        }
        while moved.len() > 0
            invariant
                0 <= done <= total,
                total == targets.len(),
                total == values.len(),
                moved@.len() == total - done,
                forall|k: int|
                    0 <= k < moved@.len() ==> (#[trigger] moved@[k]).0@ == targets[done + k]
                        && moved@[k].1 == values[done + k],
                self.documents@.dom() == kept.dom().union(targets.take(done).to_set()),
                forall|u: Seq<char>|
                    kept.contains_key(u) && !targets.take(done).contains(u)
                        ==> #[trigger] self.documents@[u] == kept[u],
                forall|u: Seq<char>|
                    targets.take(done).contains(u) ==> exists|k: int|
                        0 <= k < done && #[trigger] targets[k] == u && #[trigger] self.documents@[u]
                            == values[k],
                self.diagnostics@ == bare.remove_keys(targets.take(done).to_set()),
            decreases moved@.len(),
        {
            let ghost old_docs = self.documents@;
            let ghost old_moved = moved@;
            proof {
                assert(moved@[0].0@ == targets[done + 0]);
            }
            let (new_uri, document) = moved.remove(0);
            let ghost to = new_uri@;
            let _ = self.diagnostics.remove(new_uri.as_str());
            self.documents.insert(new_uri.as_str(), document);
            proof {
                let next = targets.take(done + 1);
                assert(next =~= targets.take(done).push(to));
                assert forall|u: Seq<char>| next.contains(u) == (targets.take(done).contains(u)
                    || u == to) by {
                    if targets.take(done).contains(u) {
                        let k = choose|k: int|
                            0 <= k < targets.take(done).len() && targets.take(done)[k] == u;
                        assert(next[k] == u);
                    }
                    if u == to {
                        assert(next[done] == u);
                    }
                }
                assert(next.to_set() =~= targets.take(done).to_set().insert(to));
                assert(self.documents@.dom() =~= kept.dom().union(next.to_set()));
                assert forall|u: Seq<char>| next.contains(u) implies exists|k: int|
                    0 <= k < done + 1 && #[trigger] targets[k] == u
                        && #[trigger] self.documents@[u] == values[k] by {
                    if u == to {
                        assert(targets[done] == u && self.documents@[u] == values[done]);
                    } else {
                        assert(targets.take(done).contains(u));
                        let k = choose|k: int|
                            0 <= k < done && #[trigger] targets[k] == u && #[trigger] old_docs[u]
                                == values[k];
                        assert(targets[k] == u && self.documents@[u] == values[k]);
                    }
                }
                assert(self.diagnostics@ =~= bare.remove_keys(next.to_set()));
                assert forall|k: int| 0 <= k < moved@.len() implies (#[trigger] moved@[k]).0@
                    == targets[done + 1 + k] && moved@[k].1 == values[done + 1 + k] by {
                    assert(moved@[k] == old_moved[k + 1]);
                }
                done = done + 1;
            }
        }
        proof {
            let new = taken_over(before, old_path@, new_path@, old_is_dir);
            assert(targets.take(done) =~= targets);
            assert forall|to: Seq<char>| targets.to_set().contains(to) == new.contains(to) by {
                if targets.contains(to) {
                    let k = choose|k: int| 0 <= k < targets.len() && targets[k] == to;
                    assert(takes_over(
                        before,
                        old_path@,
                        new_path@,
                        old_is_dir,
                        sources[k],
                        targets[k],
                    ));
                }
                if new.contains(to) {
                    let from = choose|from: Seq<char>|
                        #[trigger] takes_over(before, old_path@, new_path@, old_is_dir, from, to);
                    assert(sources.contains(from));
                    let k = choose|k: int| 0 <= k < sources.len() && sources[k] == from;
                    assert(takes_over(
                        before,
                        old_path@,
                        new_path@,
                        old_is_dir,
                        sources[k],
                        targets[k],
                    ));
                    assert(targets[k] == to);
                }
            }
            assert(targets.to_set() =~= new);
            assert(kept.dom() =~= before.dom().difference(gone));
            let after = self.documents@;
            assert forall|to: Seq<char>| new.contains(to) implies exists|from: Seq<char>|
                #[trigger] takes_over(before, old_path@, new_path@, old_is_dir, from, to)
                    && #[trigger] after[to] == before[from] by {
                assert(targets.to_set().contains(to));
                assert(targets.take(done).contains(to));
                let k = choose|k: int|
                    0 <= k < done && #[trigger] targets[k] == to && #[trigger] after[to]
                        == values[k];
                assert(takes_over(
                    before,
                    old_path@,
                    new_path@,
                    old_is_dir,
                    sources[k],
                    targets[k],
                ));
                assert(after[to] == before[sources[k]]);
            }
            assert forall|u: Seq<char>|
                before.contains_key(u) && !gone.contains(u) && !new.contains(u) implies #[trigger] after[u]
                == before[u] by {
                assert(kept.contains_key(u));
                assert(!targets.to_set().contains(u));
                assert(!targets.take(done).contains(u));
                assert(after[u] == kept[u]);
            }
        }
        Ok(())
    }
}

// ---------------------------------------------------------------------------
// What the server hears of documents.

/// What opens a document: its text in the first version, in its language.
pub open spec fn opening(uri: Seq<char>, language_id: Seq<char>, content: Seq<char>)
    -> NotificationView {
    NotificationView {
        method: "textDocument/didOpen"@,
        params: json::JsonView::Object(
            seq![
                (
                    "textDocument"@,
                    json::JsonView::Object(
                        seq![
                            ("uri"@, json::JsonView::Str(uri)),
                            ("languageId"@, json::JsonView::Str(language_id)),
                            (
                                "version"@,
                                json::JsonView::Number(json::NumberView::Unsigned(1)),
                            ),
                            ("text"@, json::JsonView::Str(content)),
                        ],
                    ),
                ),
            ],
        ),
        must_arrive: true,
    }
}

/// What closes a document.
pub open spec fn closing(uri: Seq<char>, must_arrive: bool) -> NotificationView {
    NotificationView {
        method: "textDocument/didClose"@,
        params: json::JsonView::Object(
            seq![
                (
                    "textDocument"@,
                    json::JsonView::Object(seq![("uri"@, json::JsonView::Str(uri))]),
                ),
            ],
        ),
        must_arrive,
    }
}

/// What gives a document a new text: all of it, under a version.
pub open spec fn changing(uri: Seq<char>, version: json::JsonView, content: Seq<char>)
    -> NotificationView {
    NotificationView {
        method: "textDocument/didChange"@,
        params: json::JsonView::Object(
            seq![
                (
                    "textDocument"@,
                    json::JsonView::Object(
                        seq![("uri"@, json::JsonView::Str(uri)), ("version"@, version)],
                    ),
                ),
                (
                    "contentChanges"@,
                    json::JsonView::Array(
                        seq![
                            json::JsonView::Object(
                                seq![("text"@, json::JsonView::Str(content))],
                            ),
                        ],
                    ),
                ),
            ],
        ),
        must_arrive: true,
    }
}

proof fn lemma_notifications(
    uri: Seq<char>,
    language_id: Seq<char>,
    content: Seq<char>,
    version: i32,
    must_arrive: bool,
)
    ensures
        open_notification(uri, language_id, content) == opening(uri, language_id, content),
        close_notification(uri, must_arrive) == closing(uri, must_arrive),
        change_notification(uri, version, content) == changing(
            uri,
            json::integer_view(version as int),
            content,
        ),
{
    let named = json::JsonView::object().with("uri"@, json::JsonView::Str(uri));
    assert(named->Object_0 =~= seq![("uri"@, json::JsonView::Str(uri))]);
    let told = opening(uri, language_id, content).params->Object_0[0].1;
    let made = open_params(uri, language_id, content)->Object_0[0].1;
    assert(made->Object_0 =~= told->Object_0);
    assert(open_params(uri, language_id, content)->Object_0 =~= opening(
        uri,
        language_id,
        content,
    ).params->Object_0);
    assert(close_params(uri)->Object_0 =~= closing(uri, must_arrive).params->Object_0);
    let number = json::integer_view(version as int);
    let changed = changing(uri, number, content).params->Object_0;
    let other = change_params(uri, version, content)->Object_0;
    assert(other[0].1->Object_0 =~= changed[0].1->Object_0);
    let body = json::JsonView::object().with("text"@, json::JsonView::Str(content));
    assert(body->Object_0 =~= seq![("text"@, json::JsonView::Str(content))]);
    assert(other[1].1->Array_0 =~= changed[1].1->Array_0);
    assert(other =~= changed);
}

/// A document that the server does not have is opened. One that it has stays as
/// it is where nothing changed. A new text is sent where the server takes
/// changes, under the version that follows; where it does not, or where the
/// language is another one, the document is opened anew, after it was closed
/// where the server wants that.
pub proof fn servers_hear_what_changed(
    document: DocumentView,
    support: TextDocumentSyncSupport,
    uri: Seq<char>,
    language_id: Seq<char>,
    content: Seq<char>,
)
    ensures
        ({
            let heard = |known: Option<DocumentView>|
                sync_notifications(
                    sync_plan(known, support, language_id, content),
                    support,
                    uri,
                    language_id,
                    content,
                );
            let same_language = document.language_id == language_id;
            let same_text = document.text == content;
            &&& heard(None) == seq![opening(uri, language_id, content)]
            &&& same_language && same_text ==> heard(Some(document)).len() == 0
            &&& same_language && !same_text && support.supports_did_change && 0 <= document.version
                < i32::MAX ==> heard(Some(document)) == seq![
                changing(
                    uri,
                    json::JsonView::Number(
                        json::NumberView::Unsigned((document.version + 1) as nat),
                    ),
                    content,
                ),
            ]
            &&& (!same_language || (!same_text && !support.supports_did_change))
                && support.open_close ==> heard(Some(document)) == seq![
                closing(uri, false),
                opening(uri, language_id, content),
            ]
            &&& (!same_language || (!same_text && !support.supports_did_change))
                && !support.open_close ==> heard(Some(document)) == seq![
                opening(uri, language_id, content),
            ]
        }),
{
    lemma_notifications(uri, language_id, content, next_version(document.version), false);
}

/// What is kept of a document is what the server has: the text and language just
/// given, under the first version where it was opened and under the one that
/// follows where it was changed.
pub proof fn kept_documents_are_what_was_sent(
    document: DocumentView,
    support: TextDocumentSyncSupport,
    language_id: Seq<char>,
    content: Seq<char>,
    now: u128,
)
    ensures
        ({
            let kept = |known: Option<DocumentView>|
                synced_document(
                    sync_plan(known, support, language_id, content),
                    known,
                    language_id,
                    content,
                    now,
                );
            let same_language = document.language_id == language_id;
            let same_text = document.text == content;
            &&& kept(None) == (DocumentView {
                language_id,
                text: content,
                version: 1,
                last_accessed_at: now,
            })
            &&& kept(Some(document)).text == content
            &&& kept(Some(document)).language_id == language_id
            &&& kept(Some(document)).last_accessed_at == now
            &&& same_language && same_text ==> kept(Some(document)).version == document.version
            &&& same_language && !same_text && support.supports_did_change && document.version
                < i32::MAX ==> kept(Some(document)).version == document.version + 1
            &&& !same_language || (!same_text && !support.supports_did_change) ==> kept(
                Some(document),
            ).version == 1
        }),
{
}

/// How a server says that it takes documents: by a number, where zero means not
/// at all, or by an object that says it for opening and for changes; one that
/// says nothing takes everything.
pub proof fn servers_say_how_they_take_documents(
    initialize_result: json::JsonView,
    sync: json::JsonView,
)
    requires
        initialize_result.get("capabilities"@) is Some,
        initialize_result.get("capabilities"@)->Some_0.get("textDocumentSync"@) == Some(sync),
    ensures
        sync == json::JsonView::Number(json::NumberView::Unsigned(0)) ==> !sync_support(
            initialize_result,
        ).open_close && !sync_support(initialize_result).supports_did_change,
        sync is Number && sync.as_i64() != Some(0int) ==> sync_support(initialize_result).open_close
            && sync_support(initialize_result).supports_did_change,
        sync is Object && sync.get("openClose"@) == Some(json::JsonView::Bool(false))
            ==> !sync_support(initialize_result).open_close,
        sync is Object && sync.get("openClose"@) != Some(json::JsonView::Bool(false))
            ==> sync_support(initialize_result).open_close,
        sync is Object && sync.get("change"@) is None ==> !sync_support(
            initialize_result,
        ).supports_did_change,
        sync is Object && sync.get("change"@) == Some(
            json::JsonView::Number(json::NumberView::Unsigned(0)),
        ) ==> !sync_support(initialize_result).supports_did_change,
        sync is Object && (sync.get("change"@) == Some(
            json::JsonView::Number(json::NumberView::Unsigned(1)),
        ) || sync.get("change"@) == Some(
            json::JsonView::Number(json::NumberView::Unsigned(2)),
        )) ==> sync_support(initialize_result).supports_did_change,
{
}

/// A server that says nothing of documents takes everything.
pub proof fn silent_servers_take_documents(initialize_result: json::JsonView)
    requires
        initialize_result.get("capabilities"@) is None || initialize_result.get(
            "capabilities"@,
        )->Some_0.get("textDocumentSync"@) is None,
    ensures
        sync_support(initialize_result).open_close,
        sync_support(initialize_result).supports_did_change,
{
}

/// A server can tell whether a symbol can be renamed just where it says so.
pub proof fn servers_say_that_they_prepare_renames(
    initialize_result: json::JsonView,
    capabilities: json::JsonView,
    provider: json::JsonView,
)
    requires
        initialize_result.get("capabilities"@) == Some(capabilities),
    ensures
        capabilities.get("renameProvider"@) is None ==> !prepares_rename(initialize_result),
        capabilities.get("renameProvider"@) == Some(provider) ==> (prepares_rename(
            initialize_result,
        ) <==> provider.get("prepareProvider"@) == Some(json::JsonView::Bool(true))),
{
}

/// A target that is a directory stands for what is in it and for itself, and a
/// file for itself alone; what is not a path of the file system is never meant.
pub proof fn targets_stand_for_what_is_in_them(
    uri: Seq<char>,
    path: Seq<char>,
    target: Seq<char>,
)
    ensures
        uri::uri_path(uri) is Err ==> !affected(uri, target, true) && !affected(uri, target, false),
        uri::uri_path(uri) == Ok::<_, Seq<char>>(path) ==> (affected(uri, target, true)
            <==> paths::below(path, target)),
        uri::uri_path(uri) == Ok::<_, Seq<char>>(path) ==> (affected(uri, target, false)
            <==> paths::same(path, target)),
{
}

/// A file moves to the new place, a file of a directory to its place in the new
/// one, and a path that is not meant does not move.
pub proof fn paths_move_with_their_target(
    path: Seq<char>,
    old_prefix: Seq<char>,
    new_prefix: Seq<char>,
    suffix: Seq<char>,
)
    ensures
        paths::same(path, old_prefix) ==> remapped(path, old_prefix, new_prefix, false) == Ok::<
            _,
            Seq<char>,
        >(new_prefix),
        !paths::same(path, old_prefix) ==> remapped(path, old_prefix, new_prefix, false) == Err::<
            Seq<char>,
            _,
        >("failed to remap workspace path "@ + path + " from "@ + old_prefix),
        paths::stripped(path, old_prefix) == Some(suffix) ==> remapped(
            path,
            old_prefix,
            new_prefix,
            true,
        ) == Ok::<_, Seq<char>>(paths::joined(new_prefix, suffix)),
        paths::stripped(path, old_prefix) is None ==> remapped(path, old_prefix, new_prefix, true)
            == Err::<Seq<char>, _>(
            "failed to remap workspace path "@ + path + " from "@ + old_prefix,
        ),
{
}


/// Once the documents that have not been used for the longest time are closed,
/// no more stay open than may: as many as before, or as many as may, and none
/// that was used before one that was closed.
pub proof fn the_longest_unused_documents_are_closed(
    documents: Map<Seq<char>, OpenDocumentState>,
    chosen: Seq<Seq<char>>,
    max: nat,
    closed_uri: Seq<char>,
    kept_uri: Seq<char>,
)
    requires
        documents.dom().finite(),
        oldest(documents, chosen, max),
    ensures
        ({
            let kept = documents.remove_keys(chosen.to_set());
            &&& kept.dom().len() <= max
            &&& documents.dom().len() <= max ==> kept == documents
            &&& documents.dom().len() > max ==> kept.dom().len() == max
            &&& chosen.contains(closed_uri) && kept.contains_key(kept_uri)
                ==> documents[closed_uri].last_accessed_at <= kept[kept_uri].last_accessed_at
        }),
        forall|i: int, j: int|
            0 <= i <= j < chosen.len() ==> documents[#[trigger] chosen[i]].last_accessed_at
                <= documents[#[trigger] chosen[j]].last_accessed_at,
{
    let kept = documents.remove_keys(chosen.to_set());
    assert forall|k: Seq<char>| #[trigger]
        chosen.to_set().contains(k) implies documents.contains_key(k) by {
        let i = choose|i: int| 0 <= i < chosen.len() && chosen[i] == k;
        assert(documents.contains_key(chosen[i]));
    }
    vstd::seq_lib::seq_to_set_is_finite(chosen);
    chosen.unique_seq_to_set();
    documents.lemma_remove_keys_len(chosen.to_set());
    if documents.dom().len() <= max {
        assert(chosen.to_set() =~= Set::empty());
        assert(kept =~= documents);
    }
    if chosen.contains(closed_uri) && kept.contains_key(kept_uri) {
        let i = choose|i: int| 0 <= i < chosen.len() && chosen[i] == closed_uri;
        assert(!chosen.contains(kept_uri));
        assert(documents[chosen[i]].last_accessed_at <= documents[kept_uri].last_accessed_at);
    }
}

/// The open documents that a file or directory stands for are those whose path
/// is the file's, or lies in the directory.
pub proof fn documents_lie_in_their_target(
    documents: Map<Seq<char>, OpenDocumentState>,
    target: Seq<char>,
    uri: Seq<char>,
    path: Seq<char>,
)
    requires
        uri::uri_path(uri) == Ok::<_, Seq<char>>(path),
    ensures
        affected_documents(documents, target, true).contains(uri) == (documents.contains_key(uri)
            && paths::below(path, target)),
        affected_documents(documents, target, false).contains(uri) == (documents.contains_key(uri)
            && paths::same(path, target)),
{
}

/// A document that moves with its file or directory is found at the URI of its
/// new path: the new file, or what lay below the old directory below the new
/// one.
pub proof fn documents_move_with_their_target(
    documents: Map<Seq<char>, OpenDocumentState>,
    old_path: Seq<char>,
    new_path: Seq<char>,
    from: Seq<char>,
    to: Seq<char>,
    path: Seq<char>,
    suffix: Seq<char>,
)
    requires
        documents.contains_key(from),
        uri::uri_path(from) == Ok::<_, Seq<char>>(path),
    ensures
        paths::same(path, old_path) && uri::file_url_name(new_path) == Some(to) ==> taken_over(
            documents,
            old_path,
            new_path,
            false,
        ).contains(to) && takes_over(documents, old_path, new_path, false, from, to),
        paths::below(path, old_path) && paths::stripped(path, old_path) == Some(suffix)
            && uri::file_url_name(paths::joined(new_path, suffix)) == Some(to) ==> taken_over(
            documents,
            old_path,
            new_path,
            true,
        ).contains(to) && takes_over(documents, old_path, new_path, true, from, to),
        !paths::same(path, old_path) ==> !takes_over(
            documents,
            old_path,
            new_path,
            false,
            from,
            to,
        ),
        !paths::below(path, old_path) ==> !takes_over(documents, old_path, new_path, true, from, to),
{
    if paths::same(path, old_path) && uri::file_url_name(new_path) == Some(to) {
        assert(takes_over(documents, old_path, new_path, false, from, to));
    }
    if paths::below(path, old_path) && paths::stripped(path, old_path) == Some(suffix)
        && uri::file_url_name(paths::joined(new_path, suffix)) == Some(to) {
        assert(takes_over(documents, old_path, new_path, true, from, to));
    }
}

} // verus!
