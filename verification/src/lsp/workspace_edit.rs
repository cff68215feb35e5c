//! Edits of a workspace as language servers send them: text edits of several
//! documents, and files to create, rename or delete.

use vstd::prelude::*;

use crate::json;
use crate::json::Json;
use crate::lsp::uri;
use crate::paths;
use crate::text;

verus! {

/// One operation of a workspace edit.
pub enum WorkspaceEditOperation {
    /// Edits of a document, whose path is given as it is shown.
    TextDocument { uri: String, path: String, edits: Vec<Json> },
    CreateResource { uri: String, overwrite: bool, ignore_if_exists: bool },
    RenameResource { old_uri: String, new_uri: String, overwrite: bool, ignore_if_exists: bool },
    DeleteResource { uri: String, recursive: bool, ignore_if_not_exists: bool },
}

/// What a [`WorkspaceEditOperation`] stands for.
#[verifier::ext_equal]
pub ghost enum OperationView {
    TextDocument { uri: Seq<char>, path: Seq<char>, edits: Seq<json::JsonView> },
    CreateResource { uri: Seq<char>, overwrite: bool, ignore_if_exists: bool },
    RenameResource {
        old_uri: Seq<char>,
        new_uri: Seq<char>,
        overwrite: bool,
        ignore_if_exists: bool,
    },
    DeleteResource { uri: Seq<char>, recursive: bool, ignore_if_not_exists: bool },
}

impl View for WorkspaceEditOperation {
    type V = OperationView;

    open spec fn view(&self) -> OperationView {
        match self {
            WorkspaceEditOperation::TextDocument { uri, path, edits } =>
                OperationView::TextDocument {
                uri: uri@,
                path: path@,
                edits: json::views(edits@),
            },
            WorkspaceEditOperation::CreateResource { uri, overwrite, ignore_if_exists } =>
                OperationView::CreateResource {
                uri: uri@,
                overwrite: *overwrite,
                ignore_if_exists: *ignore_if_exists,
            },
            WorkspaceEditOperation::RenameResource {
                old_uri,
                new_uri,
                overwrite,
                ignore_if_exists,
            } => OperationView::RenameResource {
                old_uri: old_uri@,
                new_uri: new_uri@,
                overwrite: *overwrite,
                ignore_if_exists: *ignore_if_exists,
            },
            WorkspaceEditOperation::DeleteResource { uri, recursive, ignore_if_not_exists } =>
                OperationView::DeleteResource {
                uri: uri@,
                recursive: *recursive,
                ignore_if_not_exists: *ignore_if_not_exists,
            },
        }
    }
}

/// The views of a list of operations.
pub open spec fn operation_views(operations: Seq<WorkspaceEditOperation>) -> Seq<OperationView> {
    Seq::new(operations.len(), |i: int| operations[i]@)
}

// ---------------------------------------------------------------------------
// Reading an edit.

/// An option of an operation, off where it is not given.
pub open spec fn option_set(options: Option<json::JsonView>, key: Seq<char>) -> bool {
    json::opt_as_bool(json::opt_get(options, key)) == Some(true)
}

/// The text edits of one document.
pub open spec fn change_operation(uri: Seq<char>, edits: json::JsonView) -> Result<
    OperationView,
    Seq<char>,
> {
    match uri::shown_uri_path(uri) {
        Err(message) => Err(message),
        Ok(path) => match edits {
            json::JsonView::Array(items) => Ok(
                OperationView::TextDocument { uri, path, edits: items },
            ),
            _ => Err("workspace edit changes for "@ + uri + " must be an array"@),
        },
    }
}

/// The operations of the plain form of an edit, which lists text edits by
/// document.
pub open spec fn change_operations(entries: Seq<(Seq<char>, json::JsonView)>) -> Result<
    Seq<OperationView>,
    Seq<char>,
>
    decreases entries.len(),
{
    if entries.len() == 0 {
        Ok(seq![])
    } else {
        match change_operations(entries.drop_last()) {
            Err(message) => Err(message),
            Ok(earlier) => match change_operation(entries.last().0, entries.last().1) {
                Err(message) => Err(message),
                Ok(operation) => Ok(earlier.push(operation)),
            },
        }
    }
}

/// The operation of one document change.
pub open spec fn document_operation(change: json::JsonView) -> Result<OperationView, Seq<char>> {
    let options = change.get("options"@);
    match json::opt_as_str(change.get("kind"@)) {
        Some(kind) => if kind == "create"@ {
            match json::opt_as_str(change.get("uri"@)) {
                None => Err("workspace create operation missing uri"@),
                Some(uri) => Ok(
                    OperationView::CreateResource {
                        uri,
                        overwrite: option_set(options, "overwrite"@),
                        ignore_if_exists: option_set(options, "ignoreIfExists"@),
                    },
                ),
            }
        } else if kind == "rename"@ {
            match json::opt_as_str(change.get("oldUri"@)) {
                None => Err("workspace rename operation missing oldUri"@),
                Some(old_uri) => match json::opt_as_str(change.get("newUri"@)) {
                    None => Err("workspace rename operation missing newUri"@),
                    Some(new_uri) => Ok(
                        OperationView::RenameResource {
                            old_uri,
                            new_uri,
                            overwrite: option_set(options, "overwrite"@),
                            ignore_if_exists: option_set(options, "ignoreIfExists"@),
                        },
                    ),
                },
            }
        } else if kind == "delete"@ {
            match json::opt_as_str(change.get("uri"@)) {
                None => Err("workspace delete operation missing uri"@),
                Some(uri) => Ok(
                    OperationView::DeleteResource {
                        uri,
                        recursive: option_set(options, "recursive"@),
                        ignore_if_not_exists: option_set(options, "ignoreIfNotExists"@),
                    },
                ),
            }
        } else {
            Err("workspace/applyEdit resource operations are not supported yet: "@ + kind)
        },
        None => match change.get("textDocument"@) {
            None => Err("workspace edit documentChanges entry missing textDocument"@),
            Some(document) => match json::opt_as_str(document.get("uri"@)) {
                None => Err("workspace edit textDocument missing uri"@),
                Some(uri) => match json::opt_as_array(change.get("edits"@)) {
                    None => Err("workspace edit textDocument edits must be an array"@),
                    Some(edits) => match uri::shown_uri_path(uri) {
                        Err(message) => Err(message),
                        Ok(path) => Ok(OperationView::TextDocument { uri, path, edits }),
                    },
                },
            },
        },
    }
}

/// The operations of a list of document changes.
pub open spec fn document_operations(changes: Seq<json::JsonView>) -> Result<
    Seq<OperationView>,
    Seq<char>,
>
    decreases changes.len(),
{
    if changes.len() == 0 {
        Ok(seq![])
    } else {
        match document_operations(changes.drop_last()) {
            Err(message) => Err(message),
            Ok(earlier) => match document_operation(changes.last()) {
                Err(message) => Err(message),
                Ok(operation) => Ok(earlier.push(operation)),
            },
        }
    }
}

/// The entries of an object, none where there is no object.
pub open spec fn object_entries(value: Option<json::JsonView>) -> Seq<(Seq<char>, json::JsonView)> {
    match value {
        Some(json::JsonView::Object(entries)) => entries,
        _ => seq![],
    }
}

/// The items of an array, none where there is no array.
pub open spec fn array_items(value: Option<json::JsonView>) -> Seq<json::JsonView> {
    match value {
        Some(json::JsonView::Array(items)) => items,
        _ => seq![],
    }
}

/// The operations of a workspace edit, in order; the first part that is not
/// understood decides.
pub open spec fn operations_of(edit: json::JsonView) -> Result<Seq<OperationView>, Seq<char>> {
    match change_operations(object_entries(edit.get("changes"@))) {
        Err(message) => Err(message),
        Ok(plain) => match document_operations(array_items(edit.get("documentChanges"@))) {
            Err(message) => Err(message),
            Ok(ordered) => Ok(plain + ordered),
        },
    }
}

/// The outcome of reading an operation.
pub open spec fn operation_outcome(r: Result<WorkspaceEditOperation, String>) -> Result<
    OperationView,
    Seq<char>,
> {
    match r {
        Ok(operation) => Ok(operation@),
        Err(message) => Err(message@),
    }
}

/// The outcome of reading an edit.
pub open spec fn operations_outcome(r: Result<Vec<WorkspaceEditOperation>, String>) -> Result<
    Seq<OperationView>,
    Seq<char>,
> {
    match r {
        Ok(operations) => Ok(operation_views(operations@)),
        Err(message) => Err(message@),
    }
}

/// An option of an operation.
pub fn workspace_operation_option(options: Option<&Json>, key: &str) -> (r: bool)
    ensures
        r == option_set(json::opt_ref_view(options), key@),
{
    match options {
        Some(options) => match options.get(key) {
            Some(value) => match value.as_bool() {
                Some(b) => b,
                None => false,
            },
            None => false,
        },
        None => false,
    }
}

fn text_at(value: &Json, key: &str) -> (r: Option<String>)
    ensures
        text::opt_text(r) == json::opt_as_str(value@.get(key@)),
{
    match value.get(key) {
        Some(inner) => match inner.as_str() {
            Some(s) => Some(s.to_string()),
            None => None,
        },
        None => None,
    }
}

fn parse_change(uri: &str, edits: &Json) -> (r: Result<WorkspaceEditOperation, String>)
    ensures
        operation_outcome(r) == change_operation(uri@, edits@),
{
    match uri::lsp_uri_to_shown_path(uri) {
        Err(message) => Err(message),
        Ok(path) => match edits {
            Json::Array(items) => {
                proof {
                    json::lemma_array_view(*items);
                }
                Ok(
                    WorkspaceEditOperation::TextDocument {
                        uri: uri.to_string(),
                        path,
                        edits: json::duplicate_all(items),
                    },
                )
            },
            _ => {
                let mut message = "workspace edit changes for ".to_string();
                message.append(uri);
                message.append(" must be an array");
                Err(message)
            },
        },
    }
}

fn parse_document_change(change: &Json) -> (r: Result<WorkspaceEditOperation, String>)
    ensures
        operation_outcome(r) == document_operation(change@),
{
    let options = change.get("options");
    if let Some(kind) = text_at(change, "kind") {
        if text::same_text(kind.as_str(), "create") {
            return match text_at(change, "uri") {
                None => Err("workspace create operation missing uri".to_string()),
                Some(uri) => Ok(
                    WorkspaceEditOperation::CreateResource {
                        uri,
                        overwrite: workspace_operation_option(options, "overwrite"),
                        ignore_if_exists: workspace_operation_option(options, "ignoreIfExists"),
                    },
                ),
            };
        }
        if text::same_text(kind.as_str(), "rename") {
            return match text_at(change, "oldUri") {
                None => Err("workspace rename operation missing oldUri".to_string()),
                Some(old_uri) => match text_at(change, "newUri") {
                    None => Err("workspace rename operation missing newUri".to_string()),
                    Some(new_uri) => Ok(
                        WorkspaceEditOperation::RenameResource {
                            old_uri,
                            new_uri,
                            overwrite: workspace_operation_option(options, "overwrite"),
                            ignore_if_exists: workspace_operation_option(
                                options,
                                "ignoreIfExists",
                            ),
                        },
                    ),
                },
            };
        }
        if text::same_text(kind.as_str(), "delete") {
            return match text_at(change, "uri") {
                None => Err("workspace delete operation missing uri".to_string()),
                Some(uri) => Ok(
                    WorkspaceEditOperation::DeleteResource {
                        uri,
                        recursive: workspace_operation_option(options, "recursive"),
                        ignore_if_not_exists: workspace_operation_option(
                            options,
                            "ignoreIfNotExists",
                        ),
                    },
                ),
            };
        }
        let mut message =
            "workspace/applyEdit resource operations are not supported yet: ".to_string();
        message.append(kind.as_str());
        return Err(message);
    }
    let document = match change.get("textDocument") {
        Some(document) => document,
        None => {
            return Err("workspace edit documentChanges entry missing textDocument".to_string());
        },
    };
    let uri = match text_at(document, "uri") {
        Some(uri) => uri,
        None => {
            return Err("workspace edit textDocument missing uri".to_string());
        },
    };
    let found = match change.get("edits") {
        Some(value) => value.as_array(),
        None => None,
    };
    let edits = match found {
        Some(items) => json::duplicate_all(items),
        None => {
            return Err("workspace edit textDocument edits must be an array".to_string());
        },
    };
    match uri::lsp_uri_to_shown_path(uri.as_str()) {
        Err(message) => Err(message),
        Ok(path) => Ok(WorkspaceEditOperation::TextDocument { uri, path, edits }),
    }
}

proof fn lemma_changes_stop(entries: Seq<(Seq<char>, json::JsonView)>, k: int)
    requires
        0 <= k <= entries.len(),
        change_operations(entries.take(k)) is Err,
    ensures
        change_operations(entries) == change_operations(entries.take(k)),
    decreases entries.len() - k,
{
    if k == entries.len() {
        assert(entries.take(k) =~= entries);
    } else {
        assert(entries.take(k + 1).drop_last() =~= entries.take(k));
        lemma_changes_stop(entries, k + 1);
    }
}

proof fn lemma_document_changes_stop(changes: Seq<json::JsonView>, k: int)
    requires
        0 <= k <= changes.len(),
        document_operations(changes.take(k)) is Err,
    ensures
        document_operations(changes) == document_operations(changes.take(k)),
    decreases changes.len() - k,
{
    if k == changes.len() {
        assert(changes.take(k) =~= changes);
    } else {
        assert(changes.take(k + 1).drop_last() =~= changes.take(k));
        lemma_document_changes_stop(changes, k + 1);
    }
}

/// Reads a workspace edit.
pub fn parse_workspace_edit_operations(edit: &Json) -> (r: Result<
    Vec<WorkspaceEditOperation>,
    String,
>)
    ensures
        operations_outcome(r) == operations_of(edit@),
{
    let mut operations: Vec<WorkspaceEditOperation> = Vec::new();
    let ghost entries_view = object_entries(edit@.get("changes"@));
    proof {
        assert(operation_views(operations@) =~= seq![]);
    }
    if let Some(Json::Object(entries)) = edit.get("changes") {
        proof {
            json::lemma_object_view(*entries);
            assert(entries_view.take(0) =~= seq![]);
        }
        let mut i: usize = 0;
        while i < entries.len()
            invariant
                i <= entries@.len(),
                entries_view == object_entries(edit@.get("changes"@)),
                entries_view == json::entry_views(entries@),
                change_operations(entries_view.take(i as int)) == Ok::<_, Seq<char>>(
                    operation_views(operations@),
                ),
            decreases entries@.len() - i,
        {
            let ghost before = operation_views(operations@);
            proof {
                assert(entries_view.take(i + 1).drop_last() =~= entries_view.take(i as int));
                assert(entries_view.take(i + 1).last() == (
                    entries@[i as int].0@,
                    entries@[i as int].1@,
                ));
            }
            match parse_change(entries[i].0.as_str(), &entries[i].1) {
                Ok(operation) => {
                    let ghost added = operation@;
                    operations.push(operation);
                    proof {
                        assert(operation_views(operations@) =~= before.push(added));
                    }
                },
                Err(message) => {
                    proof {
                        lemma_changes_stop(entries_view, i + 1);
                    }
                    return Err(message);
                },
            }
            i += 1;
        }
        proof {
            assert(entries_view.take(entries@.len() as int) =~= entries_view);
        }
    }
    let ghost plain = operation_views(operations@);
    proof {
        assert(change_operations(entries_view) == Ok::<_, Seq<char>>(plain));
    }
    let ghost changes_view = array_items(edit@.get("documentChanges"@));
    if let Some(Json::Array(changes)) = edit.get("documentChanges") {
        proof {
            json::lemma_array_view(*changes);
            assert(changes_view.take(0) =~= seq![]);
            assert(plain + Seq::<OperationView>::empty() =~= plain);
        }
        let mut i: usize = 0;
        let ghost mut ordered: Seq<OperationView> = seq![];
        while i < changes.len()
            invariant
                i <= changes@.len(),
                changes_view == array_items(edit@.get("documentChanges"@)),
                changes_view == json::views(changes@),
                change_operations(object_entries(edit@.get("changes"@))) == Ok::<_, Seq<char>>(
                    plain,
                ),
                document_operations(changes_view.take(i as int)) == Ok::<_, Seq<char>>(ordered),
                operation_views(operations@) == plain + ordered,
            decreases changes@.len() - i,
        {
            let ghost before = operation_views(operations@);
            proof {
                assert(changes_view.take(i + 1).drop_last() =~= changes_view.take(i as int));
                assert(changes_view.take(i + 1).last() == changes@[i as int]@);
            }
            match parse_document_change(&changes[i]) {
                Ok(operation) => {
                    let ghost added = operation@;
                    operations.push(operation);
                    proof {
                        assert(operation_views(operations@) =~= before.push(added));
                        assert(before.push(added) =~= plain + ordered.push(added));
                        ordered = ordered.push(added);
                    }
                },
                Err(message) => {
                    proof {
                        lemma_document_changes_stop(changes_view, i + 1);
                    }
                    return Err(message);
                },
            }
            i += 1;
        }
        proof {
            assert(changes_view.take(changes@.len() as int) =~= changes_view);
        }
    } else {
        proof {
            assert(plain + Seq::<OperationView>::empty() =~= plain);
        }
    }
    Ok(operations)
}

// ---------------------------------------------------------------------------
// A preview.

/// A flag that is stated only where it is set.
pub open spec fn flagged(value: json::JsonView, key: Seq<char>, set: bool) -> json::JsonView {
    if set {
        value.with(key, json::JsonView::Bool(true))
    } else {
        value
    }
}

/// What the preview says of one operation.
pub open spec fn operation_summary(operation: OperationView) -> Result<
    json::JsonView,
    Seq<char>,
> {
    let of_kind = |kind: Seq<char>| json::JsonView::object().with("kind"@, json::JsonView::Str(kind));
    match operation {
        OperationView::TextDocument { uri, path, edits } => Ok(
            of_kind("text_document"@).with("path"@, json::JsonView::Str(path)).with(
                "edit_count"@,
                json::integer_view(edits.len() as int),
            ),
        ),
        OperationView::CreateResource { uri, overwrite, ignore_if_exists } => match uri::shown_uri_path(
            uri,
        ) {
            Err(message) => Err(message),
            Ok(path) => Ok(
                flagged(
                    flagged(
                        of_kind("create"@).with("path"@, json::JsonView::Str(path)),
                        "overwrite"@,
                        overwrite,
                    ),
                    "ignore_if_exists"@,
                    ignore_if_exists,
                ),
            ),
        },
        OperationView::RenameResource { old_uri, new_uri, overwrite, ignore_if_exists } =>
            match uri::shown_uri_path(old_uri) {
            Err(message) => Err(message),
            Ok(old_path) => match uri::shown_uri_path(new_uri) {
                Err(message) => Err(message),
                Ok(new_path) => Ok(
                    flagged(
                        flagged(
                            of_kind("rename"@).with(
                                "old_path"@,
                                json::JsonView::Str(old_path),
                            ).with("new_path"@, json::JsonView::Str(new_path)),
                            "overwrite"@,
                            overwrite,
                        ),
                        "ignore_if_exists"@,
                        ignore_if_exists,
                    ),
                ),
            },
        },
        OperationView::DeleteResource { uri, recursive, ignore_if_not_exists } =>
            match uri::shown_uri_path(uri) {
            Err(message) => Err(message),
            Ok(path) => Ok(
                flagged(
                    flagged(
                        of_kind("delete"@).with("path"@, json::JsonView::Str(path)),
                        "recursive"@,
                        recursive,
                    ),
                    "ignore_if_not_exists"@,
                    ignore_if_not_exists,
                ),
            ),
        },
    }
}

/// The paths that an operation touches.
pub open spec fn touched_by(operation: OperationView) -> Seq<Seq<char>> {
    let path_of = |u: Seq<char>|
        match uri::shown_uri_path(u) {
            Ok(path) => path,
            Err(_) => Seq::empty(),
        };
    match operation {
        OperationView::TextDocument { uri, path, edits } => seq![path],
        OperationView::CreateResource { uri, overwrite, ignore_if_exists } => seq![path_of(uri)],
        OperationView::RenameResource { old_uri, new_uri, overwrite, ignore_if_exists } => seq![
            path_of(old_uri),
            path_of(new_uri),
        ],
        OperationView::DeleteResource { uri, recursive, ignore_if_not_exists } => seq![
            path_of(uri),
        ],
    }
}

/// The paths that a list of operations touches.
pub open spec fn touched(operations: Seq<OperationView>) -> Seq<Seq<char>>
    decreases operations.len(),
{
    if operations.len() == 0 {
        seq![]
    } else {
        touched(operations.drop_last()) + touched_by(operations.last())
    }
}

/// What the preview says of each operation; the first whose paths are not
/// known decides.
pub open spec fn summaries(operations: Seq<OperationView>) -> Result<
    Seq<json::JsonView>,
    Seq<char>,
>
    decreases operations.len(),
{
    if operations.len() == 0 {
        Ok(seq![])
    } else {
        match summaries(operations.drop_last()) {
            Err(message) => Err(message),
            Ok(earlier) => match operation_summary(operations.last()) {
                Err(message) => Err(message),
                Ok(summary) => Ok(earlier.push(summary)),
            },
        }
    }
}

/// The number of text edits of an operation.
pub open spec fn edit_count(operation: OperationView) -> nat {
    match operation {
        OperationView::TextDocument { uri, path, edits } => edits.len(),
        _ => 0,
    }
}

/// The number of text edits of a list of operations, as far as it can be
/// counted.
pub open spec fn text_edit_total(operations: Seq<OperationView>) -> nat
    decreases operations.len(),
{
    if operations.len() == 0 {
        0
    } else {
        let sum = text_edit_total(operations.drop_last()) + edit_count(operations.last());
        if sum <= usize::MAX {
            sum
        } else {
            usize::MAX as nat
        }
    }
}

/// The number of operations that work on files as a whole.
pub open spec fn resource_total(operations: Seq<OperationView>) -> nat
    decreases operations.len(),
{
    if operations.len() == 0 {
        0
    } else {
        resource_total(operations.drop_last()) + if operations.last() is TextDocument {
            0nat
        } else {
            1nat
        }
    }
}

/// The preview of a list of operations.
pub open spec fn preview_of(operations: Seq<OperationView>, limit: int) -> Result<
    json::JsonView,
    Seq<char>,
> {
    match summaries(operations) {
        Err(message) => Err(message),
        Ok(all) => Ok(
            json::JsonView::object().with(
                "kind"@,
                json::JsonView::Str("workspace_edit_preview"@),
            ).with("operation_count"@, json::integer_view(operations.len() as int)).with(
                "touched_path_count"@,
                json::integer_view(touched(operations).to_set().len() as int),
            ).with(
                "text_edit_count"@,
                json::integer_view(text_edit_total(operations) as int),
            ).with(
                "resource_operation_count"@,
                json::integer_view(resource_total(operations) as int),
            ).with("truncated"@, json::JsonView::Bool(operations.len() > limit)).with(
                "operations"@,
                json::JsonView::Array(
                    if limit > 0 && all.len() > limit {
                        all.take(limit)
                    } else {
                        all
                    },
                ),
            ),
        ),
    }
}

/// The preview of a workspace edit.
pub open spec fn preview(edit: json::JsonView, limit: int) -> Result<json::JsonView, Seq<char>> {
    match operations_of(edit) {
        Err(message) => Err(message),
        Ok(operations) => preview_of(operations, limit),
    }
}

/// A set of paths that counts each one once.
struct TouchedPaths {
    paths: Vec<String>,
}

impl TouchedPaths {
    spec fn wf(&self) -> bool {
        text::texts(self.paths@).no_duplicates()
    }

    fn note(&mut self, path: &str)
        requires
            old(self).wf(),
        ensures
            final(self).wf(),
            text::texts(final(self).paths@).to_set() == text::texts(
                old(self).paths@,
            ).to_set().insert(path@),
    {
        let ghost before = text::texts(self.paths@);
        let mut i: usize = 0;
        while i < self.paths.len()
            invariant
                i <= self.paths@.len(),
                *self == *old(self),
                before == text::texts(self.paths@),
                before.no_duplicates(),
                forall|k: int| 0 <= k < i ==> #[trigger] before[k] != path@,
            decreases self.paths@.len() - i,
        {
            if text::same_text(self.paths[i].as_str(), path) {
                proof {
                    assert(before[i as int] == path@);
                    assert(before.to_set().contains(path@));
                    assert(before.to_set().insert(path@) =~= before.to_set());
                }
                return;
            }
            i += 1;
        }
        self.paths.push(path.to_string());
        proof {
            let after = text::texts(self.paths@);
            assert(after =~= before.push(path@));
            assert forall|q: Seq<char>| after.to_set().contains(q) == before.to_set().insert(
                path@,
            ).contains(q) by {
                if after.to_set().contains(q) {
                    let k = choose|k: int| 0 <= k < after.len() && after[k] == q;
                    if k < before.len() {
                        assert(before[k] == q);
                    }
                }
                if before.contains(q) {
                    let k = choose|k: int| 0 <= k < before.len() && before[k] == q;
                    assert(after[k] == q);
                }
                assert(after[before.len() as int] == path@);
            }
            assert(after.to_set() =~= before.to_set().insert(path@));
        }
    }
}

proof fn lemma_to_set_add(a: Seq<Seq<char>>, b: Seq<Seq<char>>)
    ensures
        (a + b).to_set() == a.to_set().union(b.to_set()),
{
    assert forall|q: Seq<char>| (a + b).to_set().contains(q) == a.to_set().union(
        b.to_set(),
    ).contains(q) by {
        if (a + b).contains(q) {
            let k = choose|k: int| 0 <= k < (a + b).len() && (a + b)[k] == q;
            if k < a.len() {
                assert(a[k] == q);
            } else {
                assert(b[k - a.len()] == q);
            }
        }
        if a.contains(q) {
            let k = choose|k: int| 0 <= k < a.len() && a[k] == q;
            assert((a + b)[k] == q);
        }
        if b.contains(q) {
            let k = choose|k: int| 0 <= k < b.len() && b[k] == q;
            assert((a + b)[a.len() + k] == q);
        }
    }
    assert((a + b).to_set() =~= a.to_set().union(b.to_set()));
}

fn of_kind(kind: &str) -> (value: Json)
    ensures
        value@ == json::JsonView::object().with("kind"@, json::JsonView::Str(kind@)),
{
    json::object().with("kind", json::string(kind))
}

fn flag(value: Json, key: &str, set: bool) -> (out: Json)
    ensures
        out@ == flagged(value@, key@, set),
{
    if set {
        value.with(key, Json::Bool(true))
    } else {
        value
    }
}

fn summarize_operation(operation: &WorkspaceEditOperation, paths: &mut TouchedPaths) -> (r: Result<
    Json,
    String,
>)
    requires
        old(paths).wf(),
    ensures
        final(paths).wf(),
        match r {
            Ok(summary) => operation_summary(operation@) == Ok::<_, Seq<char>>(summary@)
                && text::texts(final(paths).paths@).to_set() == text::texts(
                old(paths).paths@,
            ).to_set().union(touched_by(operation@).to_set()),
            Err(message) => operation_summary(operation@) == Err::<json::JsonView, _>(message@),
        },
{
    let ghost before = text::texts(paths.paths@).to_set();
    match operation {
        WorkspaceEditOperation::TextDocument { uri, path, edits } => {
            paths.note(path.as_str());
            proof {
                assert(json::views(edits@).len() == edits@.len());
                lemma_single(before, path@);
            }
            Ok(
                of_kind("text_document").with("path", json::string(path.as_str())).with(
                    "edit_count",
                    json::unsigned(edits.len() as u64),
                ),
            )
        },
        WorkspaceEditOperation::CreateResource { uri, overwrite, ignore_if_exists } => {
            let path = match uri::lsp_uri_to_shown_path(uri.as_str()) {
                Ok(path) => path,
                Err(message) => {
                    return Err(message);
                },
            };
            paths.note(path.as_str());
            proof {
                lemma_single(before, path@);
            }
            Ok(
                flag(
                    flag(
                        of_kind("create").with("path", json::string(path.as_str())),
                        "overwrite",
                        *overwrite,
                    ),
                    "ignore_if_exists",
                    *ignore_if_exists,
                ),
            )
        },
        WorkspaceEditOperation::RenameResource { old_uri, new_uri, overwrite, ignore_if_exists } =>
        {
            let old_path = match uri::lsp_uri_to_shown_path(old_uri.as_str()) {
                Ok(path) => path,
                Err(message) => {
                    return Err(message);
                },
            };
            let new_path = match uri::lsp_uri_to_shown_path(new_uri.as_str()) {
                Ok(path) => path,
                Err(message) => {
                    return Err(message);
                },
            };
            paths.note(old_path.as_str());
            paths.note(new_path.as_str());
            proof {
                lemma_single(before, old_path@);
                lemma_single(before.insert(old_path@), new_path@);
                assert(seq![old_path@, new_path@] =~= seq![old_path@] + seq![new_path@]);
                lemma_to_set_add(seq![old_path@], seq![new_path@]);
                assert(before.insert(old_path@).insert(new_path@) =~= before.union(
                    seq![old_path@, new_path@].to_set(),
                ));
            }
            Ok(
                flag(
                    flag(
                        of_kind("rename").with("old_path", json::string(old_path.as_str())).with(
                            "new_path",
                            json::string(new_path.as_str()),
                        ),
                        "overwrite",
                        *overwrite,
                    ),
                    "ignore_if_exists",
                    *ignore_if_exists,
                ),
            )
        },
        WorkspaceEditOperation::DeleteResource { uri, recursive, ignore_if_not_exists } => {
            let path = match uri::lsp_uri_to_shown_path(uri.as_str()) {
                Ok(path) => path,
                Err(message) => {
                    return Err(message);
                },
            };
            paths.note(path.as_str());
            proof {
                lemma_single(before, path@);
            }
            Ok(
                flag(
                    flag(
                        of_kind("delete").with("path", json::string(path.as_str())),
                        "recursive",
                        *recursive,
                    ),
                    "ignore_if_not_exists",
                    *ignore_if_not_exists,
                ),
            )
        },
    }
}

proof fn lemma_single(before: Set<Seq<char>>, path: Seq<char>)
    ensures
        before.insert(path) == before.union(seq![path].to_set()),
        seq![path].to_set() == set![path],
{
    assert(seq![path].to_set() =~= set![path]) by {
        assert(seq![path][0] == path);
    }
    assert(before.insert(path) =~= before.union(seq![path].to_set()));
}

proof fn lemma_summaries_stop(operations: Seq<OperationView>, k: int)
    requires
        0 <= k <= operations.len(),
        summaries(operations.take(k)) is Err,
    ensures
        summaries(operations) == summaries(operations.take(k)),
    decreases operations.len() - k,
{
    if k == operations.len() {
        assert(operations.take(k) =~= operations);
    } else {
        assert(operations.take(k + 1).drop_last() =~= operations.take(k));
        lemma_summaries_stop(operations, k + 1);
    }
}

/// The preview of a workspace edit: how much it does, and its first
/// operations.
pub fn summarize_workspace_edit(edit: &Json, limit: usize) -> (r: Result<Json, String>)
    ensures
        (match r {
            Ok(value) => Ok(value@),
            Err(message) => Err(message@),
        }) == preview(edit@, limit as int),
{
    let operations = match parse_workspace_edit_operations(edit) {
        Ok(operations) => operations,
        Err(message) => {
            return Err(message);
        },
    };
    summarize_operations(&operations, limit)
}

/// The preview of a list of operations.
pub fn summarize_operations(operations: &[WorkspaceEditOperation], limit: usize) -> (r: Result<
    Json,
    String,
>)
    ensures
        (match r {
            Ok(value) => Ok(value@),
            Err(message) => Err(message@),
        }) == preview_of(operation_views(operations@), limit as int),
{
    let ghost all = operation_views(operations@);
    let mut paths = TouchedPaths { paths: Vec::new() };
    let mut lines: Vec<Json> = Vec::new();
    let mut text_edits: usize = 0;
    let mut resources: usize = 0;
    let mut i: usize = 0;
    proof {
        assert(all.take(0) =~= seq![]);
        assert(text::texts(paths.paths@) =~= seq![]);
        assert(touched(all.take(0)) =~= seq![]);
        assert(json::views(lines@) =~= seq![]);
    }
    while i < operations.len()
        invariant
            i <= operations@.len(),
            all == operation_views(operations@),
            paths.wf(),
            text::texts(paths.paths@).to_set() == touched(all.take(i as int)).to_set(),
            summaries(all.take(i as int)) == Ok::<_, Seq<char>>(json::views(lines@)),
            lines@.len() == i,
            text_edits == text_edit_total(all.take(i as int)),
            resources == resource_total(all.take(i as int)),
            resources <= i,
        decreases operations@.len() - i,
    {
        let operation = &operations[i];
        let ghost before = json::views(lines@);
        proof {
            assert(all.take(i + 1).drop_last() =~= all.take(i as int));
            assert(all.take(i + 1).last() == operation@);
            lemma_to_set_add(touched(all.take(i as int)), touched_by(operation@));
        }
        match summarize_operation(operation, &mut paths) {
            Ok(summary) => {
                let ghost added = summary@;
                lines.push(summary);
                proof {
                    assert(json::views(lines@) =~= before.push(added));
                }
            },
            Err(message) => {
                proof {
                    lemma_summaries_stop(all, i + 1);
                }
                return Err(message);
            },
        }
        match operation {
            WorkspaceEditOperation::TextDocument { uri, path, edits } => {
                proof {
                    assert(json::views(edits@).len() == edits@.len());
                }
                text_edits = text_edits.saturating_add(edits.len());
            },
            _ => {
                resources += 1;
            },
        }
        i += 1;
    }
    proof {
        assert(all.take(operations@.len() as int) =~= all);
        assert(json::views(lines@).len() == lines@.len());
        text::texts(paths.paths@).unique_seq_to_set();
        assert(text::texts(paths.paths@).len() == paths.paths@.len());
    }
    let count: usize = lines.len();
    let ghost full = json::views(lines@);
    if limit > 0 && lines.len() > limit {
        lines.truncate(limit);
        proof {
            assert(json::views(lines@) =~= full.take(limit as int));
        }
    }
    Ok(
        json::object().with("kind", json::string("workspace_edit_preview")).with(
            "operation_count",
            json::unsigned(count as u64),
        ).with("touched_path_count", json::unsigned(paths.paths.len() as u64)).with(
            "text_edit_count",
            json::unsigned(text_edits as u64),
        ).with("resource_operation_count", json::unsigned(resources as u64)).with(
            "truncated",
            Json::Bool(count > limit),
        ).with("operations", json::array(lines)),
    )
}

/// The number of operations that a preview states.
pub open spec fn stated_operation_count(preview: json::JsonView) -> nat {
    match json::opt_as_u64(preview.get("operation_count"@)) {
        Some(n) => if n <= usize::MAX {
            n
        } else {
            0
        },
        None => 0,
    }
}

/// The number of operations that a preview states.
pub fn rename_preview_operation_count(preview: &Json) -> (count: usize)
    ensures
        count == stated_operation_count(preview@),
{
    match preview.get("operation_count") {
        Some(value) => match value.as_u64() {
            Some(n) => if n <= usize::MAX as u64 {
                n as usize
            } else {
                0
            },
            None => 0,
        },
        None => 0,
    }
}

// ---------------------------------------------------------------------------
// What edits of a workspace say.

/// An option is set just where it is true.
pub proof fn options_are_set_by_true(options: json::JsonView, key: Seq<char>)
    ensures
        !option_set(None, key),
        option_set(Some(options), key) <==> options.get(key) == Some(json::JsonView::Bool(true)),
{
}

/// What each kind of change asks for, with the options that it sets; a change
/// without a kind is one of a document.
pub proof fn changes_say_what_to_do(
    change: json::JsonView,
    kind: Seq<char>,
    uri: Seq<char>,
    new_uri: Seq<char>,
    document: json::JsonView,
    edits: Seq<json::JsonView>,
    path: Seq<char>,
)
    ensures
        ({
            let set = |key: Seq<char>|
                change.get("options"@) is Some && change.get("options"@)->Some_0.get(key) == Some(
                    json::JsonView::Bool(true),
                );
            let states = |word: &str| change.get("kind"@) == Some(json::JsonView::Str(word@));
            let holds = |key: Seq<char>, value: Seq<char>|
                change.get(key) == Some(json::JsonView::Str(value));
            &&& states("create") && holds("uri"@, uri) ==> document_operation(change) == Ok::<
                _,
                Seq<char>,
            >(
                OperationView::CreateResource {
                    uri,
                    overwrite: set("overwrite"@),
                    ignore_if_exists: set("ignoreIfExists"@),
                },
            )
            &&& states("create") && change.get("uri"@) is None ==> document_operation(change) == Err::<
                OperationView,
                _,
            >("workspace create operation missing uri"@)
            &&& states("rename") && holds("oldUri"@, uri) && holds("newUri"@, new_uri)
                ==> document_operation(change) == Ok::<_, Seq<char>>(
                OperationView::RenameResource {
                    old_uri: uri,
                    new_uri,
                    overwrite: set("overwrite"@),
                    ignore_if_exists: set("ignoreIfExists"@),
                },
            )
            &&& states("rename") && change.get("oldUri"@) is None ==> document_operation(change)
                == Err::<OperationView, _>("workspace rename operation missing oldUri"@)
            &&& states("rename") && holds("oldUri"@, uri) && change.get("newUri"@) is None
                ==> document_operation(change) == Err::<OperationView, _>(
                "workspace rename operation missing newUri"@,
            )
            &&& states("delete") && holds("uri"@, uri) ==> document_operation(change) == Ok::<
                _,
                Seq<char>,
            >(
                OperationView::DeleteResource {
                    uri,
                    recursive: set("recursive"@),
                    ignore_if_not_exists: set("ignoreIfNotExists"@),
                },
            )
            &&& states("delete") && change.get("uri"@) is None ==> document_operation(change) == Err::<
                OperationView,
                _,
            >("workspace delete operation missing uri"@)
            &&& change.get("kind"@) == Some(json::JsonView::Str(kind)) && kind != "create"@ && kind
                != "rename"@ && kind != "delete"@ ==> document_operation(change) == Err::<
                OperationView,
                _,
            >("workspace/applyEdit resource operations are not supported yet: "@ + kind)
            &&& change.get("kind"@) is None && change.get("textDocument"@) == Some(document)
                && document.get("uri"@) == Some(json::JsonView::Str(uri)) && change.get("edits"@)
                == Some(json::JsonView::Array(edits)) && uri::shown_uri_path(uri) == Ok::<
                _,
                Seq<char>,
            >(path) ==> document_operation(change) == Ok::<_, Seq<char>>(
                OperationView::TextDocument { uri, path, edits },
            )
            &&& change.get("kind"@) is None && change.get("textDocument"@) is None
                ==> document_operation(change) == Err::<OperationView, _>(
                "workspace edit documentChanges entry missing textDocument"@,
            )
            &&& change.get("kind"@) is None && change.get("textDocument"@) == Some(document)
                && document.get("uri"@) is None ==> document_operation(change) == Err::<
                OperationView,
                _,
            >("workspace edit textDocument missing uri"@)
            &&& change.get("kind"@) is None && change.get("textDocument"@) == Some(document)
                && document.get("uri"@) == Some(json::JsonView::Str(uri)) && change.get("edits"@)
                is None ==> document_operation(change) == Err::<OperationView, _>(
                "workspace edit textDocument edits must be an array"@,
            )
        }),
{
    lemma_kinds_differ();
}

proof fn lemma_kinds_differ()
    ensures
        "create"@ != "rename"@,
        "create"@ != "delete"@,
        "rename"@ != "delete"@,
{
    reveal_strlit("create");
    reveal_strlit("rename");
    reveal_strlit("delete");
    assert("create"@[0] == 'c' && "rename"@[0] == 'r' && "delete"@[0] == 'd');
}

/// The changes by document come before the ordered ones, each in its order; the
/// first that is not understood decides.
pub proof fn changes_come_in_order(
    edit: json::JsonView,
    entries: Seq<(Seq<char>, json::JsonView)>,
    entry: (Seq<char>, json::JsonView),
    changes: Seq<json::JsonView>,
    change: json::JsonView,
)
    ensures
        change_operations(Seq::empty()) == Ok::<_, Seq<char>>(Seq::<OperationView>::empty()),
        document_operations(Seq::empty()) == Ok::<_, Seq<char>>(Seq::<OperationView>::empty()),
        match (change_operations(entries), change_operation(entry.0, entry.1)) {
            (Ok(earlier), Ok(one)) => change_operations(entries.push(entry)) == Ok::<_, Seq<char>>(
                earlier.push(one),
            ),
            (Ok(_), Err(message)) => change_operations(entries.push(entry)) == Err::<
                Seq<OperationView>,
                _,
            >(message),
            (Err(message), _) => change_operations(entries.push(entry)) == Err::<
                Seq<OperationView>,
                _,
            >(message),
        },
        match (document_operations(changes), document_operation(change)) {
            (Ok(earlier), Ok(one)) => document_operations(changes.push(change)) == Ok::<
                _,
                Seq<char>,
            >(earlier.push(one)),
            (Ok(_), Err(message)) => document_operations(changes.push(change)) == Err::<
                Seq<OperationView>,
                _,
            >(message),
            (Err(message), _) => document_operations(changes.push(change)) == Err::<
                Seq<OperationView>,
                _,
            >(message),
        },
        edit.get("changes"@) == Some(json::JsonView::Object(entries)) && edit.get(
            "documentChanges"@,
        ) == Some(json::JsonView::Array(changes)) && change_operations(entries) is Ok
            && document_operations(changes) is Ok ==> operations_of(edit) == Ok::<_, Seq<char>>(
            change_operations(entries)->Ok_0 + document_operations(changes)->Ok_0,
        ),
        edit.get("changes"@) is None && edit.get("documentChanges"@) == Some(
            json::JsonView::Array(changes),
        ) ==> operations_of(edit) == document_operations(changes),
        edit.get("changes"@) == Some(json::JsonView::Object(entries)) && edit.get(
            "documentChanges"@,
        ) is None ==> operations_of(edit) == change_operations(entries),
{
    assert(entries.push(entry).drop_last() =~= entries);
    assert(changes.push(change).drop_last() =~= changes);
    let none = Seq::<OperationView>::empty();
    if document_operations(changes) is Ok {
        assert(none + document_operations(changes)->Ok_0 =~= document_operations(changes)->Ok_0);
    }
    if change_operations(entries) is Ok {
        assert(change_operations(entries)->Ok_0 + none =~= change_operations(entries)->Ok_0);
    }
}

/// The edits of a document are a list, and the document is one of the file
/// system.
pub proof fn changes_name_documents(
    uri: Seq<char>,
    path: Seq<char>,
    edits: json::JsonView,
    message: Seq<char>,
)
    ensures
        uri::shown_uri_path(uri) == Ok::<_, Seq<char>>(path) && edits is Array ==> change_operation(
            uri,
            edits,
        ) == Ok::<_, Seq<char>>(OperationView::TextDocument { uri, path, edits: edits->Array_0 }),
        uri::shown_uri_path(uri) is Ok && !(edits is Array) ==> change_operation(uri, edits)
            == Err::<OperationView, _>(
            "workspace edit changes for "@ + uri + " must be an array"@,
        ),
        uri::shown_uri_path(uri) == Err::<Seq<char>, _>(message) ==> change_operation(uri, edits)
            == Err::<OperationView, _>(message),
{
}

/// An entry that says true, where it is to be said.
pub open spec fn said(key: Seq<char>, set: bool) -> Seq<(Seq<char>, json::JsonView)> {
    if set {
        seq![(key, json::JsonView::Bool(true))]
    } else {
        seq![]
    }
}

/// What a preview shows of each operation.
pub proof fn previews_show_each_operation(
    uri: Seq<char>,
    new_uri: Seq<char>,
    path: Seq<char>,
    new_path: Seq<char>,
    edits: Seq<json::JsonView>,
    a: bool,
    b: bool,
)
    requires
        uri::shown_uri_path(uri) == Ok::<_, Seq<char>>(path),
        uri::shown_uri_path(new_uri) == Ok::<_, Seq<char>>(new_path),
    ensures
        ({
            let kind = |word: Seq<char>| ("kind"@, json::JsonView::Str(word));
            let at = |key: Seq<char>, p: Seq<char>| (key, json::JsonView::Str(p));
            &&& operation_summary(OperationView::TextDocument { uri, path, edits }) == Ok::<
                _,
                Seq<char>,
            >(
                json::JsonView::Object(
                    seq![
                        kind("text_document"@),
                        at("path"@, path),
                        (
                            "edit_count"@,
                            json::JsonView::Number(json::NumberView::Unsigned(edits.len())),
                        ),
                    ],
                ),
            )
            &&& operation_summary(
                OperationView::CreateResource { uri, overwrite: a, ignore_if_exists: b },
            ) == Ok::<_, Seq<char>>(
                json::JsonView::Object(
                    seq![kind("create"@), at("path"@, path)] + said("overwrite"@, a) + said(
                        "ignore_if_exists"@,
                        b,
                    ),
                ),
            )
            &&& operation_summary(
                OperationView::RenameResource {
                    old_uri: uri,
                    new_uri,
                    overwrite: a,
                    ignore_if_exists: b,
                },
            ) == Ok::<_, Seq<char>>(
                json::JsonView::Object(
                    seq![kind("rename"@), at("old_path"@, path), at("new_path"@, new_path)] + said(
                        "overwrite"@,
                        a,
                    ) + said("ignore_if_exists"@, b),
                ),
            )
            &&& operation_summary(
                OperationView::DeleteResource { uri, recursive: a, ignore_if_not_exists: b },
            ) == Ok::<_, Seq<char>>(
                json::JsonView::Object(
                    seq![kind("delete"@), at("path"@, path)] + said("recursive"@, a) + said(
                        "ignore_if_not_exists"@,
                        b,
                    ),
                ),
            )
        }),
{
    let create = operation_summary(
        OperationView::CreateResource { uri, overwrite: a, ignore_if_exists: b },
    )->Ok_0->Object_0;
    let rename = operation_summary(
        OperationView::RenameResource { old_uri: uri, new_uri, overwrite: a, ignore_if_exists: b },
    )->Ok_0->Object_0;
    let delete = operation_summary(
        OperationView::DeleteResource { uri, recursive: a, ignore_if_not_exists: b },
    )->Ok_0->Object_0;
    let edit = operation_summary(OperationView::TextDocument { uri, path, edits })->Ok_0->Object_0;
    assert(edit =~= seq![
        ("kind"@, json::JsonView::Str("text_document"@)),
        ("path"@, json::JsonView::Str(path)),
        ("edit_count"@, json::JsonView::Number(json::NumberView::Unsigned(edits.len()))),
    ]);
    assert(create =~= seq![
        ("kind"@, json::JsonView::Str("create"@)),
        ("path"@, json::JsonView::Str(path)),
    ] + said("overwrite"@, a) + said("ignore_if_exists"@, b));
    assert(rename =~= seq![
        ("kind"@, json::JsonView::Str("rename"@)),
        ("old_path"@, json::JsonView::Str(path)),
        ("new_path"@, json::JsonView::Str(new_path)),
    ] + said("overwrite"@, a) + said("ignore_if_exists"@, b));
    assert(delete =~= seq![
        ("kind"@, json::JsonView::Str("delete"@)),
        ("path"@, json::JsonView::Str(path)),
    ] + said("recursive"@, a) + said("ignore_if_not_exists"@, b));
}

/// A preview counts the operations, the paths that they touch, each once, the
/// text edits and the operations on files, and tells whether it leaves some out;
/// it shows the first ones, up to the limit.
pub proof fn previews_count_and_show(
    operations: Seq<OperationView>,
    all: Seq<json::JsonView>,
    limit: nat,
)
    requires
        summaries(operations) == Ok::<_, Seq<char>>(all),
        limit > 0,
    ensures
        ({
            let number = |n: nat| json::JsonView::Number(json::NumberView::Unsigned(n));
            preview_of(operations, limit as int) == Ok::<_, Seq<char>>(
                json::JsonView::Object(
                    seq![
                        ("kind"@, json::JsonView::Str("workspace_edit_preview"@)),
                        ("operation_count"@, number(operations.len())),
                        ("touched_path_count"@, number(touched(operations).to_set().len())),
                        ("text_edit_count"@, number(text_edit_total(operations))),
                        ("resource_operation_count"@, number(resource_total(operations))),
                        ("truncated"@, json::JsonView::Bool(operations.len() > limit)),
                        (
                            "operations"@,
                            json::JsonView::Array(
                                if all.len() > limit {
                                    all.take(limit as int)
                                } else {
                                    all
                                },
                            ),
                        ),
                    ],
                ),
            )
        }),
{
    let number = |n: nat| json::JsonView::Number(json::NumberView::Unsigned(n));
    let shown = if all.len() > limit {
        all.take(limit as int)
    } else {
        all
    };
    assert(preview_of(operations, limit as int)->Ok_0->Object_0 =~= seq![
        ("kind"@, json::JsonView::Str("workspace_edit_preview"@)),
        ("operation_count"@, number(operations.len())),
        ("touched_path_count"@, number(touched(operations).to_set().len())),
        ("text_edit_count"@, number(text_edit_total(operations))),
        ("resource_operation_count"@, number(resource_total(operations))),
        ("truncated"@, json::JsonView::Bool(operations.len() > limit)),
        ("operations"@, json::JsonView::Array(shown)),
    ]);
}

/// Each operation is counted: an edit of a document with its edits and its path,
/// a move with both its paths, any other with its path; and it is shown.
pub proof fn operations_are_counted(
    operations: Seq<OperationView>,
    uri: Seq<char>,
    new_uri: Seq<char>,
    path: Seq<char>,
    new_path: Seq<char>,
    edits: Seq<json::JsonView>,
    a: bool,
    b: bool,
)
    requires
        uri::shown_uri_path(uri) == Ok::<_, Seq<char>>(path),
        uri::shown_uri_path(new_uri) == Ok::<_, Seq<char>>(new_path),
    ensures
        ({
            let edit = operations.push(OperationView::TextDocument { uri, path, edits });
            let create = operations.push(
                OperationView::CreateResource { uri, overwrite: a, ignore_if_exists: b },
            );
            let rename = operations.push(
                OperationView::RenameResource {
                    old_uri: uri,
                    new_uri,
                    overwrite: a,
                    ignore_if_exists: b,
                },
            );
            let delete = operations.push(
                OperationView::DeleteResource { uri, recursive: a, ignore_if_not_exists: b },
            );
            &&& touched(edit) == touched(operations).push(path)
            &&& touched(create) == touched(operations).push(path)
            &&& touched(rename) == touched(operations).push(path).push(new_path)
            &&& touched(delete) == touched(operations).push(path)
            &&& resource_total(edit) == resource_total(operations)
            &&& resource_total(create) == resource_total(operations) + 1
            &&& resource_total(rename) == resource_total(operations) + 1
            &&& resource_total(delete) == resource_total(operations) + 1
            &&& text_edit_total(operations) + edits.len() <= usize::MAX ==> text_edit_total(edit)
                == text_edit_total(operations) + edits.len()
            &&& text_edit_total(operations) <= usize::MAX ==> text_edit_total(create)
                == text_edit_total(operations) && text_edit_total(rename) == text_edit_total(
                operations,
            ) && text_edit_total(delete) == text_edit_total(operations)
            &&& touched(Seq::empty()).len() == 0
            &&& text_edit_total(Seq::empty()) == 0
            &&& resource_total(Seq::empty()) == 0
        }),
{
    let edit = OperationView::TextDocument { uri, path, edits };
    let create = OperationView::CreateResource { uri, overwrite: a, ignore_if_exists: b };
    let rename = OperationView::RenameResource {
        old_uri: uri,
        new_uri,
        overwrite: a,
        ignore_if_exists: b,
    };
    let delete = OperationView::DeleteResource { uri, recursive: a, ignore_if_not_exists: b };
    assert(operations.push(edit).drop_last() =~= operations);
    assert(operations.push(create).drop_last() =~= operations);
    assert(operations.push(rename).drop_last() =~= operations);
    assert(operations.push(delete).drop_last() =~= operations);
    assert(touched(operations) + seq![path] =~= touched(operations).push(path));
    assert(touched(operations) + seq![path, new_path] =~= touched(operations).push(path).push(
        new_path,
    ));
}

/// The count that a preview states is the number of its operations.
pub proof fn previews_state_their_count(
    operations: Seq<OperationView>,
    limit: nat,
    preview: json::JsonView,
)
    requires
        limit > 0,
        operations.len() <= usize::MAX,
        preview_of(operations, limit as int) == Ok::<_, Seq<char>>(preview),
    ensures
        stated_operation_count(preview) == operations.len(),
{
    previews_count_and_show(operations, summaries(operations)->Ok_0, limit);
    reveal_strlit("kind");
    reveal_strlit("operation_count");
    assert("kind"@.len() == 4 && "operation_count"@.len() == 15);
    let entries = preview->Object_0;
    assert(entries[0].0 == "kind"@);
    assert(entries[1].0 == "operation_count"@);
    reveal_with_fuel(json::lookup, 3);
}

} // verus!
