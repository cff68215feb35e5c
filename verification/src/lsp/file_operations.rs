//! What to do on disk for an operation of a workspace edit.

use vstd::prelude::*;

use crate::json;
use crate::json::Json;
use crate::lsp::uri;
use crate::lsp::workspace_edit;
use crate::lsp::workspace_edit::WorkspaceEditOperation;
use crate::paths;
use crate::text;

verus! {

/// What stands at a path.
#[derive(Clone, Copy, Debug, PartialEq, Eq, Structural)]
pub enum PathState {
    Missing,
    File,
    Directory,
}

/// What to do on disk.
pub enum OperationPlan {
    /// Nothing.
    Skip,
    /// Read the file, apply the text edits and write it back.
    EditText { uri: String, path: String },
    /// Write an empty file.
    CreateFile { uri: String, path: String },
    /// Move a file or directory, after removing what is in its way.
    Move { old_path: String, new_path: String, replaces: PathState, is_dir: bool },
    /// Remove a file or directory.
    Delete { path: String, is_dir: bool, recursive: bool },
}

/// What an [`OperationPlan`] stands for.
#[verifier::ext_equal]
pub ghost enum PlanView {
    Skip,
    EditText { uri: Seq<char>, path: Seq<char> },
    CreateFile { uri: Seq<char>, path: Seq<char> },
    Move { old_path: Seq<char>, new_path: Seq<char>, replaces: PathState, is_dir: bool },
    Delete { path: Seq<char>, is_dir: bool, recursive: bool },
}

impl View for OperationPlan {
    type V = PlanView;

    open spec fn view(&self) -> PlanView {
        match self {
            OperationPlan::Skip => PlanView::Skip,
            OperationPlan::EditText { uri, path } => PlanView::EditText { uri: uri@, path: path@ },
            OperationPlan::CreateFile { uri, path } => PlanView::CreateFile {
                uri: uri@,
                path: path@,
            },
            OperationPlan::Move { old_path, new_path, replaces, is_dir } => PlanView::Move {
                old_path: old_path@,
                new_path: new_path@,
                replaces: *replaces,
                is_dir: *is_dir,
            },
            OperationPlan::Delete { path, is_dir, recursive } => PlanView::Delete {
                path: path@,
                is_dir: *is_dir,
                recursive: *recursive,
            },
        }
    }
}

/// What to do for an operation, given what stands at the file that it is about
/// and, for a move, at the place where that file is to go.
pub open spec fn planned(
    operation: workspace_edit::OperationView,
    here: PathState,
    there: PathState,
) -> Result<PlanView, Seq<char>> {
    match operation {
        workspace_edit::OperationView::TextDocument { uri, path: _, edits: _ } =>
            match uri::uri_path(uri) {
            Err(message) => Err(message),
            Ok(path) => Ok(PlanView::EditText { uri, path }),
        },
        workspace_edit::OperationView::CreateResource { uri, overwrite, ignore_if_exists } =>
            match uri::uri_path(uri) {
            Err(message) => Err(message),
            Ok(path) => if here is Missing {
                Ok(PlanView::CreateFile { uri, path })
            } else if ignore_if_exists {
                Ok(PlanView::Skip)
            } else if !overwrite {
                Err("workspace create target already exists: "@ + path)
            } else if here is Directory {
                Err("workspace create target is an existing directory: "@ + path)
            } else {
                Ok(PlanView::CreateFile { uri, path })
            },
        },
        workspace_edit::OperationView::RenameResource {
            old_uri,
            new_uri,
            overwrite,
            ignore_if_exists,
        } => match uri::uri_path(old_uri) {
            Err(message) => Err(message),
            Ok(old_path) => match uri::uri_path(new_uri) {
                Err(message) => Err(message),
                Ok(new_path) => if paths::same(old_path, new_path) {
                    Ok(PlanView::Skip)
                } else if here is Missing {
                    Err("workspace rename source does not exist: "@ + old_path)
                } else if there is Missing {
                    Ok(
                        PlanView::Move {
                            old_path,
                            new_path,
                            replaces: there,
                            is_dir: here is Directory,
                        },
                    )
                } else if ignore_if_exists {
                    Ok(PlanView::Skip)
                } else if !overwrite {
                    Err("workspace rename target already exists: "@ + new_path)
                } else {
                    Ok(
                        PlanView::Move {
                            old_path,
                            new_path,
                            replaces: there,
                            is_dir: here is Directory,
                        },
                    )
                },
            },
        },
        workspace_edit::OperationView::DeleteResource { uri, recursive, ignore_if_not_exists } =>
            match uri::uri_path(uri) {
            Err(message) => Err(message),
            Ok(path) => if here is Missing {
                if ignore_if_not_exists {
                    Ok(PlanView::Skip)
                } else {
                    Err("workspace delete target does not exist: "@ + path)
                }
            } else {
                Ok(PlanView::Delete { path, is_dir: here is Directory, recursive })
            },
        },
    }
}

/// The outcome of planning an operation.
pub open spec fn plan_outcome(r: Result<OperationPlan, String>) -> Result<PlanView, Seq<char>> {
    match r {
        Ok(plan) => Ok(plan@),
        Err(message) => Err(message@),
    }
}

fn about_path(message: &str, path: &str) -> (out: String)
    ensures
        out@ == message@ + path@,
{
    let mut out = message.to_string();
    out.append(path);
    out
}

/// Plans what to do on disk for an operation.
pub fn apply_workspace_edit_operation(
    operation: &WorkspaceEditOperation,
    here: PathState,
    there: PathState,
) -> (r: Result<OperationPlan, String>)
    ensures
        plan_outcome(r) == planned(operation@, here, there),
{
    match operation {
        WorkspaceEditOperation::TextDocument { uri, path: _, edits: _ } => {
            match uri::lsp_uri_to_path(uri.as_str()) {
                Ok(path) => Ok(OperationPlan::EditText { uri: uri.clone(), path }),
                Err(message) => Err(message),
            }
        },
        WorkspaceEditOperation::CreateResource { uri, overwrite, ignore_if_exists } => {
            let path = match uri::lsp_uri_to_path(uri.as_str()) {
                Ok(path) => path,
                Err(message) => {
                    return Err(message);
                },
            };
            if here != PathState::Missing {
                if *ignore_if_exists {
                    return Ok(OperationPlan::Skip);
                }
                if !*overwrite {
                    return Err(
                        about_path("workspace create target already exists: ", path.as_str()),
                    );
                }
                if here == PathState::Directory {
                    return Err(
                        about_path(
                            "workspace create target is an existing directory: ",
                            path.as_str(),
                        ),
                    );
                }
            }
            Ok(OperationPlan::CreateFile { uri: uri.clone(), path })
        },
        WorkspaceEditOperation::RenameResource { old_uri, new_uri, overwrite, ignore_if_exists } =>
        {
            let old_path = match uri::lsp_uri_to_path(old_uri.as_str()) {
                Ok(path) => path,
                Err(message) => {
                    return Err(message);
                },
            };
            let new_path = match uri::lsp_uri_to_path(new_uri.as_str()) {
                Ok(path) => path,
                Err(message) => {
                    return Err(message);
                },
            };
            if paths::same_path(old_path.as_str(), new_path.as_str()) {
                return Ok(OperationPlan::Skip);
            }
            if here == PathState::Missing {
                return Err(
                    about_path("workspace rename source does not exist: ", old_path.as_str()),
                );
            }
            if there != PathState::Missing {
                if *ignore_if_exists {
                    return Ok(OperationPlan::Skip);
                }
                if !*overwrite {
                    return Err(
                        about_path("workspace rename target already exists: ", new_path.as_str()),
                    );
                }
            }
            Ok(
                OperationPlan::Move {
                    old_path,
                    new_path,
                    replaces: there,
                    is_dir: here == PathState::Directory,
                },
            )
        },
        WorkspaceEditOperation::DeleteResource { uri, recursive, ignore_if_not_exists } => {
            let path = match uri::lsp_uri_to_path(uri.as_str()) {
                Ok(path) => path,
                Err(message) => {
                    return Err(message);
                },
            };
            if here == PathState::Missing {
                if *ignore_if_not_exists {
                    return Ok(OperationPlan::Skip);
                }
                return Err(
                    about_path("workspace delete target does not exist: ", path.as_str()),
                );
            }
            Ok(
                OperationPlan::Delete {
                    path,
                    is_dir: here == PathState::Directory,
                    recursive: *recursive,
                },
            )
        },
    }
}

/// Nothing that exists is overwritten unless the operation says so.
pub proof fn nothing_is_overwritten_unasked(
    operation: workspace_edit::OperationView,
    here: PathState,
    there: PathState,
)
    requires
        match operation {
            workspace_edit::OperationView::CreateResource { uri, overwrite, ignore_if_exists } =>
                !overwrite && !(here is Missing),
            workspace_edit::OperationView::RenameResource {
                old_uri,
                new_uri,
                overwrite,
                ignore_if_exists,
            } => !overwrite && !(there is Missing),
            _ => false,
        },
    ensures
        match planned(operation, here, there) {
            Ok(plan) => plan == PlanView::Skip,
            Err(_) => true,
        },
{
}

/// The answer to a server that asks for an edit: whether it was made, and why
/// not.
pub open spec fn apply_edit_answer(edit_given: bool, failure: Option<Seq<char>>) -> json::JsonView {
    if !edit_given {
        json::JsonView::object().with("applied"@, json::JsonView::Bool(false)).with(
            "failureReason"@,
            json::JsonView::Str("workspace/applyEdit request missing edit payload"@),
        )
    } else {
        match failure {
            None => json::JsonView::object().with("applied"@, json::JsonView::Bool(true)),
            Some(message) => json::JsonView::object().with(
                "applied"@,
                json::JsonView::Bool(false),
            ).with("failureReason"@, json::JsonView::Str(message)),
        }
    }
}

/// Builds the answer to a server that asks for an edit.
pub fn workspace_apply_edit_response(edit_given: bool, failure: Option<&str>) -> (out: Json)
    ensures
        out@ == apply_edit_answer(edit_given, text::opt_str(failure)),
{
    if !edit_given {
        return json::object().with("applied", Json::Bool(false)).with(
            "failureReason",
            json::string("workspace/applyEdit request missing edit payload"),
        );
    }
    match failure {
        None => json::object().with("applied", Json::Bool(true)),
        Some(message) => json::object().with("applied", Json::Bool(false)).with(
            "failureReason",
            json::string(message),
        ),
    }
}

// ---------------------------------------------------------------------------
// What operations do to files.

/// A file is created where there is nothing. What is there is kept where that is
/// asked for; otherwise it is in the way unless it may be overwritten, and a
/// directory is always in the way.
pub proof fn files_are_created_where_they_may_be(
    uri: Seq<char>,
    path: Seq<char>,
    overwrite: bool,
    ignore_if_exists: bool,
    there: PathState,
)
    requires
        uri::uri_path(uri) == Ok::<_, Seq<char>>(path),
    ensures
        ({
            let operation = workspace_edit::OperationView::CreateResource {
                uri,
                overwrite,
                ignore_if_exists,
            };
            let made = Ok::<_, Seq<char>>(PlanView::CreateFile { uri, path });
            let kept = Ok::<_, Seq<char>>(PlanView::Skip);
            &&& planned(operation, PathState::Missing, there) == made
            &&& ignore_if_exists ==> planned(operation, PathState::File, there) == kept && planned(
                operation,
                PathState::Directory,
                there,
            ) == kept
            &&& !ignore_if_exists && overwrite ==> planned(operation, PathState::File, there)
                == made && planned(operation, PathState::Directory, there) == Err::<PlanView, _>(
                "workspace create target is an existing directory: "@ + path,
            )
            &&& !ignore_if_exists && !overwrite ==> planned(operation, PathState::File, there)
                == Err::<PlanView, _>("workspace create target already exists: "@ + path)
                && planned(operation, PathState::Directory, there) == Err::<PlanView, _>(
                "workspace create target already exists: "@ + path,
            )
        }),
{
}

/// What is there moves to where nothing is, or in the place of what may be
/// overwritten; what is kept there keeps everything as it is. To move something
/// to where it is is nothing.
pub proof fn files_move_where_they_may(
    old_uri: Seq<char>,
    new_uri: Seq<char>,
    old_path: Seq<char>,
    new_path: Seq<char>,
    overwrite: bool,
    ignore_if_exists: bool,
    here: PathState,
    there: PathState,
)
    requires
        uri::uri_path(old_uri) == Ok::<_, Seq<char>>(old_path),
        uri::uri_path(new_uri) == Ok::<_, Seq<char>>(new_path),
    ensures
        ({
            let operation = workspace_edit::OperationView::RenameResource {
                old_uri,
                new_uri,
                overwrite,
                ignore_if_exists,
            };
            let plan = planned(operation, here, there);
            let apart = !paths::same(old_path, new_path);
            let moved = Ok::<_, Seq<char>>(
                PlanView::Move {
                    old_path,
                    new_path,
                    replaces: there,
                    is_dir: here == PathState::Directory,
                },
            );
            &&& !apart ==> plan == Ok::<_, Seq<char>>(PlanView::Skip)
            &&& apart && here == PathState::Missing ==> plan == Err::<PlanView, _>(
                "workspace rename source does not exist: "@ + old_path,
            )
            &&& apart && here != PathState::Missing && there == PathState::Missing ==> plan == moved
            &&& apart && here != PathState::Missing && there != PathState::Missing
                && ignore_if_exists ==> plan == Ok::<_, Seq<char>>(PlanView::Skip)
            &&& apart && here != PathState::Missing && there != PathState::Missing
                && !ignore_if_exists && overwrite ==> plan == moved
            &&& apart && here != PathState::Missing && there != PathState::Missing
                && !ignore_if_exists && !overwrite ==> plan == Err::<PlanView, _>(
                "workspace rename target already exists: "@ + new_path,
            )
        }),
{
}

/// What is there is deleted, as a file or a directory; that nothing is there is
/// a fault unless it may be ignored. A document is edited wherever it is.
pub proof fn files_are_deleted_and_edited(
    uri: Seq<char>,
    path: Seq<char>,
    shown: Seq<char>,
    edits: Seq<json::JsonView>,
    recursive: bool,
    ignore_if_not_exists: bool,
    here: PathState,
    there: PathState,
)
    requires
        uri::uri_path(uri) == Ok::<_, Seq<char>>(path),
    ensures
        ({
            let operation = workspace_edit::OperationView::DeleteResource {
                uri,
                recursive,
                ignore_if_not_exists,
            };
            &&& ignore_if_not_exists ==> planned(operation, PathState::Missing, there) == Ok::<
                _,
                Seq<char>,
            >(PlanView::Skip)
            &&& !ignore_if_not_exists ==> planned(operation, PathState::Missing, there) == Err::<
                PlanView,
                _,
            >("workspace delete target does not exist: "@ + path)
            &&& planned(operation, PathState::File, there) == Ok::<_, Seq<char>>(
                PlanView::Delete { path, is_dir: false, recursive },
            )
            &&& planned(operation, PathState::Directory, there) == Ok::<_, Seq<char>>(
                PlanView::Delete { path, is_dir: true, recursive },
            )
            &&& planned(
                workspace_edit::OperationView::TextDocument { uri, path: shown, edits },
                here,
                there,
            ) == Ok::<_, Seq<char>>(PlanView::EditText { uri, path })
        }),
{
}

/// A server that asks for an edit hears that it was made, or why it was not.
pub proof fn servers_hear_whether_edits_were_made(failure: Option<Seq<char>>, message: Seq<char>)
    ensures
        apply_edit_answer(true, None) == json::JsonView::Object(
            seq![("applied"@, json::JsonView::Bool(true))],
        ),
        apply_edit_answer(true, Some(message)) == json::JsonView::Object(
            seq![
                ("applied"@, json::JsonView::Bool(false)),
                ("failureReason"@, json::JsonView::Str(message)),
            ],
        ),
        apply_edit_answer(false, failure) == json::JsonView::Object(
            seq![
                ("applied"@, json::JsonView::Bool(false)),
                (
                    "failureReason"@,
                    json::JsonView::Str("workspace/applyEdit request missing edit payload"@),
                ),
            ],
        ),
{
    assert(apply_edit_answer(true, None)->Object_0 =~= seq![
        ("applied"@, json::JsonView::Bool(true)),
    ]);
    assert(apply_edit_answer(true, Some(message))->Object_0 =~= seq![
        ("applied"@, json::JsonView::Bool(false)),
        ("failureReason"@, json::JsonView::Str(message)),
    ]);
    assert(apply_edit_answer(false, failure)->Object_0 =~= seq![
        ("applied"@, json::JsonView::Bool(false)),
        (
            "failureReason"@,
            json::JsonView::Str("workspace/applyEdit request missing edit payload"@),
        ),
    ]);
}

} // verus!
