//! Changing files: the patch that rewrites a file, what a patch touches, and
//! the tools that write and edit files.

use vstd::prelude::*;

use crate::edit;
use crate::edit::EditOperation;
use crate::errors;
use crate::errors::FunctionCallError;
use crate::file_watcher::throttle;
use crate::lsp::transport::LspWatchedFileChange;
use crate::lsp::transport::LspWatchedFileChangeKind;
use crate::paths;
use crate::text;

verus! {

// ---------------------------------------------------------------------------
// What a patch touches.

/// Where a patch moves a file.
#[derive(Clone, Debug)]
pub enum MoveTarget {
    /// Nowhere.
    Stays,
    /// To a path that could not be resolved.
    Unresolved,
    /// To this path.
    To(String),
}

/// What a patch does to a file.
#[derive(Clone, Debug)]
pub enum PatchChangeKind {
    Add,
    Delete,
    Update { target: MoveTarget },
}

/// What a patch does to a file, with its path where that could be resolved.
#[derive(Clone, Debug)]
pub struct PatchChange {
    pub path: Option<String>,
    pub kind: PatchChangeKind,
}

/// Where a change moves its file.
pub open spec fn destination(change: PatchChange) -> Option<Seq<char>> {
    match change.kind {
        PatchChangeKind::Update { target: MoveTarget::To(path) } => Some(path@),
        _ => None,
    }
}

/// A path in a list, where there is one.
pub open spec fn one_path(path: Option<Seq<char>>) -> Seq<Seq<char>> {
    match path {
        Some(p) => seq![p],
        None => seq![],
    }
}

/// The paths that a patch touches: those of its files, and those that it moves
/// them to.
pub open spec fn touched(changes: Seq<PatchChange>) -> Seq<Seq<char>>
    decreases changes.len(),
{
    if changes.len() == 0 {
        seq![]
    } else {
        touched(changes.drop_last()) + one_path(text::opt_text(changes.last().path)) + one_path(
            destination(changes.last()),
        )
    }
}

fn push_path(out: &mut Vec<String>, path: &str)
    ensures
        text::texts(final(out)@) == text::texts(old(out)@) + seq![path@],
{
    let ghost before = text::texts(out@);
    out.push(path.to_string());
    proof {
        assert(text::texts(out@) =~= before + seq![path@]);
    }
}

/// Lists the paths that a patch touches.
pub fn file_paths_for_action(changes: &[PatchChange]) -> (out: Vec<String>)
    ensures
        text::texts(out@) == touched(changes@),
{
    let mut out: Vec<String> = Vec::new();
    let mut i: usize = 0;
    proof {
        assert(text::texts(out@) =~= touched(changes@.take(0)));
    }
    while i < changes.len()
        invariant
            i <= changes@.len(),
            text::texts(out@) == touched(changes@.take(i as int)),
        decreases changes@.len() - i,
    {
        let change = &changes[i];
        let ghost before = text::texts(out@);
        if let Some(path) = &change.path {
            push_path(&mut out, path.as_str());
        }
        proof {
            assert(text::texts(out@) =~= before + one_path(text::opt_text(change.path)));
        }
        let ghost with_path = text::texts(out@);
        if let PatchChangeKind::Update { target: MoveTarget::To(path) } = &change.kind {
            push_path(&mut out, path.as_str());
        }
        proof {
            assert(text::texts(out@) =~= with_path + one_path(destination(*change)));
            assert(changes@.take(i + 1).drop_last() =~= changes@.take(i as int));
        }
        i += 1;
    }
    proof {
        assert(changes@.take(i as int) =~= changes@);
    }
    out
}

/// What is told about a change: a file that is moved is deleted in one place
/// and created in another.
pub open spec fn told(change: PatchChange) -> Seq<(Seq<char>, LspWatchedFileChangeKind)> {
    match change.path {
        None => seq![],
        Some(path) => match change.kind {
            PatchChangeKind::Add => seq![(path@, LspWatchedFileChangeKind::Created)],
            PatchChangeKind::Delete => seq![(path@, LspWatchedFileChangeKind::Deleted)],
            PatchChangeKind::Update { target } => match target {
                MoveTarget::To(to) => seq![
                    (path@, LspWatchedFileChangeKind::Deleted),
                    (to@, LspWatchedFileChangeKind::Created),
                ],
                _ => seq![(path@, LspWatchedFileChangeKind::Changed)],
            },
        },
    }
}

/// What is told about a patch.
pub open spec fn all_told(changes: Seq<PatchChange>) -> Seq<(Seq<char>, LspWatchedFileChangeKind)>
    decreases changes.len(),
{
    if changes.len() == 0 {
        seq![]
    } else {
        all_told(changes.drop_last()) + told(changes.last())
    }
}

fn push_change(out: &mut Vec<LspWatchedFileChange>, path: &str, kind: LspWatchedFileChangeKind)
    ensures
        throttle::change_views(final(out)@) == throttle::change_views(old(out)@) + seq![
            (path@, kind),
        ],
{
    let ghost before = throttle::change_views(out@);
    out.push(LspWatchedFileChange { path: path.to_string(), kind });
    proof {
        assert(throttle::change_views(out@) =~= before + seq![(path@, kind)]);
    }
}

/// Lists what is told about a patch.
pub fn watched_file_changes_for_action(changes: &[PatchChange]) -> (out: Vec<LspWatchedFileChange>)
    ensures
        throttle::change_views(out@) == all_told(changes@),
{
    let mut out: Vec<LspWatchedFileChange> = Vec::new();
    let mut i: usize = 0;
    proof {
        assert(throttle::change_views(out@) =~= all_told(changes@.take(0)));
    }
    while i < changes.len()
        invariant
            i <= changes@.len(),
            throttle::change_views(out@) == all_told(changes@.take(i as int)),
        decreases changes@.len() - i,
    {
        let change = &changes[i];
        let ghost before = throttle::change_views(out@);
        if let Some(path) = &change.path {
            match &change.kind {
                PatchChangeKind::Add => {
                    push_change(&mut out, path.as_str(), LspWatchedFileChangeKind::Created);
                },
                PatchChangeKind::Delete => {
                    push_change(&mut out, path.as_str(), LspWatchedFileChangeKind::Deleted);
                },
                PatchChangeKind::Update { target } => match target {
                    MoveTarget::To(to) => {
                        push_change(&mut out, path.as_str(), LspWatchedFileChangeKind::Deleted);
                        push_change(&mut out, to.as_str(), LspWatchedFileChangeKind::Created);
                    },
                    _ => {
                        push_change(&mut out, path.as_str(), LspWatchedFileChangeKind::Changed);
                    },
                },
            }
        }
        proof {
            assert(throttle::change_views(out@) =~= before + told(*change));
            assert(changes@.take(i + 1).drop_last() =~= changes@.take(i as int));
        }
        i += 1;
    }
    proof {
        assert(changes@.take(i as int) =~= changes@);
    }
    out
}

/// The directory of a file, or the file where it has none.
pub open spec fn directory(path: Seq<char>) -> Seq<char> {
    match paths::parent_of(path) {
        Some(up) => up,
        None => path,
    }
}

/// The directories of files.
pub open spec fn directories(files: Seq<Seq<char>>) -> Seq<Seq<char>> {
    Seq::new(files.len(), |i: int| directory(files[i]))
}

/// The directories that have to be written to for files, in order, each once;
/// none where there are no files.
pub fn write_permissions_for_paths(files: &[String]) -> (r: Option<Vec<String>>)
    ensures
        match r {
            Some(out) => text::texts(out@) == paths::sorted_set(
                directories(text::texts(files@)),
            ) && out@.len() > 0,
            None => files@.len() == 0,
        },
{
    let mut list: Vec<String> = Vec::new();
    let ghost all = directories(text::texts(files@));
    let mut i: usize = 0;
    proof {
        assert(text::texts(list@) =~= all.take(0));
    }
    while i < files.len()
        invariant
            i <= files@.len(),
            all == directories(text::texts(files@)),
            text::texts(list@) == all.take(i as int),
        decreases files@.len() - i,
    {
        let ghost before = text::texts(list@);
        let dir = match paths::parent(files[i].as_str()) {
            Some(up) => up,
            None => files[i].clone(),
        };
        let ghost shown = dir@;
        list.push(dir);
        proof {
            assert(text::texts(files@)[i as int] == files@[i as int]@);
            assert(text::texts(list@) =~= before.push(shown));
            assert(text::texts(list@) =~= all.take(i + 1));
        }
        i += 1;
    }
    proof {
        assert(all.take(i as int) =~= all);
        lemma_sorted_empty(all);
    }
    let out = paths::sort_paths(&list);
    proof {
        assert(text::texts(out@).len() == out@.len());
    }
    if out.len() == 0 {
        None
    } else {
        Some(out)
    }
}

proof fn lemma_sorted_empty(list: Seq<Seq<char>>)
    ensures
        paths::sorted_set(list).len() == 0 <==> list.len() == 0,
{
    if list.len() > 0 {
        let held = paths::sorted_set(list.drop_last());
        assert(paths::inserted(held, list.last()).len() > 0);
    }
}

// ---------------------------------------------------------------------------
// The patch that rewrites a file.

/// Lines, each behind a mark.
pub open spec fn marked(lines: Seq<Seq<char>>, mark: Seq<char>) -> Seq<char>
    decreases lines.len(),
{
    if lines.len() == 0 {
        Seq::empty()
    } else {
        marked(lines.drop_last(), mark) + mark + lines.last() + "\n"@
    }
}

/// The patch that rewrites a file: every old line goes, every new line comes.
pub open spec fn rewrite_patch(
    path: Seq<char>,
    old_content: Option<Seq<char>>,
    new_content: Seq<char>,
) -> Seq<char> {
    let added = marked(text::plain_lines(new_content), "+"@);
    "*** Begin Patch\n"@ + (match old_content {
        Some(old) => "*** Update File: "@ + path + "\n@@\n"@ + marked(
            text::plain_lines(old),
            "-"@,
        ) + added,
        None => "*** Add File: "@ + path + "\n"@ + added,
    }) + "*** End Patch"@
}

/// The lines of a file in a patch.
pub fn patch_lines(content: &str) -> (out: Vec<Vec<char>>)
    ensures
        text::rows(out@) == text::plain_lines(content@),
{
    text::split_plain_lines(&text::chars_of(content))
}

fn append_marked(out: &mut String, content: &str, mark: &str)
    ensures
        final(out)@ == old(out)@ + marked(text::plain_lines(content@), mark@),
{
    let lines = patch_lines(content);
    let ghost all = text::plain_lines(content@);
    let ghost start = out@;
    let mut i: usize = 0;
    proof {
        assert(out@ =~= start + marked(all.take(0), mark@));
    }
    while i < lines.len()
        invariant
            i <= lines@.len(),
            text::rows(lines@) == all,
            out@ == start + marked(all.take(i as int), mark@),
        decreases lines@.len() - i,
    {
        let line = text::text_of(&lines[i]);
        out.append(mark);
        out.append(line.as_str());
        out.append("\n");
        proof {
            assert(all[i as int] == lines@[i as int]@);
            assert(all.take(i + 1).drop_last() =~= all.take(i as int));
            assert(out@ =~= start + marked(all.take(i + 1), mark@));
        }
        i += 1;
    }
    proof {
        assert(all.len() == lines@.len());
        assert(all.take(i as int) =~= all);
    }
}

/// Writes the patch that rewrites a file.
pub fn render_rewrite_patch(file_path: &str, old_content: Option<&str>, new_content: &str) -> (out:
    String)
    ensures
        out@ == rewrite_patch(file_path@, text::opt_str(old_content), new_content@),
{
    let mut body = String::new();
    match old_content {
        Some(old) => {
            body.append("*** Update File: ");
            body.append(file_path);
            body.append("\n@@\n");
            append_marked(&mut body, old, "-");
        },
        None => {
            body.append("*** Add File: ");
            body.append(file_path);
            body.append("\n");
        },
    }
    append_marked(&mut body, new_content, "+");
    let ghost added = marked(text::plain_lines(new_content@), "+"@);
    let ghost whole = match text::opt_str(old_content) {
        Some(old) => "*** Update File: "@ + file_path@ + "\n@@\n"@ + marked(
            text::plain_lines(old),
            "-"@,
        ) + added,
        None => "*** Add File: "@ + file_path@ + "\n"@ + added,
    };
    proof {
        assert(body@ =~= whole);
    }
    let mut out = "*** Begin Patch\n".to_string();
    out.append(body.as_str());
    out.append("*** End Patch");
    out
}

/// What reading a patch back gave.
#[derive(Debug)]
pub enum PatchVerdict {
    /// It is a patch that can be applied.
    Body,
    /// It is a patch that cannot be applied, for this reason.
    CorrectnessError(String),
    /// It could not be read, for this reason.
    ShellParseError(String),
    /// It is no patch.
    NotApplyPatch,
}

/// What is told where a patch cannot be used.
pub open spec fn verdict_fault(verdict: PatchVerdict) -> Option<errors::CallFault> {
    match verdict {
        PatchVerdict::Body => None,
        PatchVerdict::CorrectnessError(reason) => Some(
            errors::CallFault::RespondToModel(reason@),
        ),
        PatchVerdict::ShellParseError(reason) => Some(
            errors::CallFault::RespondToModel(
                "failed to parse generated apply_patch payload: "@ + reason@,
            ),
        ),
        PatchVerdict::NotApplyPatch => Some(
            errors::CallFault::RespondToModel("generated payload did not parse as apply_patch"@),
        ),
    }
}

/// Decides whether a patch can be used.
pub fn check_patch(verdict: &PatchVerdict) -> (r: Result<(), FunctionCallError>)
    ensures
        (match r {
            Ok(_) => None,
            Err(fault) => Some(fault@),
        }) == verdict_fault(*verdict),
{
    match verdict {
        PatchVerdict::Body => Ok(()),
        PatchVerdict::CorrectnessError(reason) => Err(errors::respond(reason.as_str())),
        PatchVerdict::ShellParseError(reason) => {
            let mut message = "failed to parse generated apply_patch payload: ".to_string();
            message.append(reason.as_str());
            Err(FunctionCallError::RespondToModel(message))
        },
        PatchVerdict::NotApplyPatch => Err(
            errors::respond("generated payload did not parse as apply_patch"),
        ),
    }
}

// ---------------------------------------------------------------------------
// The tools.

/// What is known of a file.
#[derive(Debug)]
pub enum FileState {
    /// It is not there.
    Missing,
    /// It is a directory.
    Directory,
    /// It cannot be looked at, for this reason.
    Hidden(String),
    /// It cannot be read, for this reason.
    Unreadable(String),
    /// It holds this.
    Text(String),
}

/// The fault with a message for the model.
pub open spec fn refuse(message: Seq<char>) -> Result<Seq<char>, errors::CallFault> {
    Err(errors::CallFault::RespondToModel(message))
}

/// The outcome of a call of the tool that writes a file: the patch to apply.
pub open spec fn write_outcome(path: Seq<char>, state: FileState, content: Seq<char>) -> Result<
    Seq<char>,
    errors::CallFault,
> {
    if !paths::absolute(path) {
        refuse("file_path must be an absolute path"@)
    } else {
        match state {
            FileState::Missing => Ok(rewrite_patch(path, None, content)),
            FileState::Directory => refuse("file_path must point to a file"@),
            FileState::Hidden(reason) => refuse("failed to inspect file: "@ + reason@),
            FileState::Unreadable(reason) => refuse("failed to read file: "@ + reason@),
            FileState::Text(old) => if old@ == content {
                refuse("write_file would not change the file"@)
            } else {
                Ok(rewrite_patch(path, Some(old@), content))
            },
        }
    }
}

/// The outcome of a call of the tool that edits a file: the patch to apply.
pub open spec fn edit_file_outcome(
    path: Seq<char>,
    edits: Seq<EditOperation>,
    state: FileState,
    choices: Seq<Option<usize>>,
) -> Result<Seq<char>, errors::CallFault> {
    if edits.len() == 0 {
        refuse("edits must contain at least one replacement"@)
    } else if !paths::absolute(path) {
        refuse("file_path must be an absolute path"@)
    } else {
        match state {
            FileState::Missing => refuse("file_path does not exist"@),
            FileState::Directory => refuse("file_path must point to a file"@),
            FileState::Hidden(reason) => refuse("failed to inspect file: "@ + reason@),
            FileState::Unreadable(reason) => refuse("failed to read file: "@ + reason@),
            FileState::Text(old) => match edit::edits_outcome(
                old@,
                edits,
                choices,
                edits.len() as int,
            ) {
                Err(fault) => Err(fault),
                Ok(new) => if new == old@ {
                    refuse("edit_file would not change the file"@)
                } else {
                    Ok(rewrite_patch(path, Some(old@), new))
                },
            },
        }
    }
}

fn with_reason(message: &str, reason: &str) -> (fault: FunctionCallError)
    ensures
        fault@ == errors::CallFault::RespondToModel(message@ + reason@),
{
    let mut out = message.to_string();
    out.append(reason);
    FunctionCallError::RespondToModel(out)
}

/// The tool that writes a file.
pub struct WriteFileHandler;

impl WriteFileHandler {
    /// Checks whether the tool was called as a function.
    pub fn check_payload(is_function: bool) -> (r: Result<(), FunctionCallError>)
        ensures
            match r {
                Ok(_) => is_function,
                Err(fault) => !is_function && fault@ == errors::CallFault::RespondToModel(
                    "write_file handler received unsupported payload"@,
                ),
            },
    {
        if is_function {
            Ok(())
        } else {
            Err(errors::respond("write_file handler received unsupported payload"))
        }
    }

    /// Decides how a file is written.
    pub fn plan(file_path: &str, state: &FileState, content: &str) -> (r: Result<
        String,
        FunctionCallError,
    >)
        ensures
            errors::text_outcome(r) == write_outcome(file_path@, *state, content@),
    {
        if !paths::is_absolute(file_path) {
            return Err(errors::respond("file_path must be an absolute path"));
        }
        match state {
            FileState::Missing => Ok(render_rewrite_patch(file_path, None, content)),
            FileState::Directory => Err(errors::respond("file_path must point to a file")),
            FileState::Hidden(reason) => Err(
                with_reason("failed to inspect file: ", reason.as_str()),
            ),
            FileState::Unreadable(reason) => Err(
                with_reason("failed to read file: ", reason.as_str()),
            ),
            FileState::Text(old) => if text::same_text(old.as_str(), content) {
                Err(errors::respond("write_file would not change the file"))
            } else {
                Ok(render_rewrite_patch(file_path, Some(old.as_str()), content))
            },
        }
    }
}

/// The tool that edits a file.
pub struct EditFileHandler;

impl EditFileHandler {
    /// Checks whether the tool was called as a function.
    pub fn check_payload(is_function: bool) -> (r: Result<(), FunctionCallError>)
        ensures
            match r {
                Ok(_) => is_function,
                Err(fault) => !is_function && fault@ == errors::CallFault::RespondToModel(
                    "edit_file handler received unsupported payload"@,
                ),
            },
    {
        if is_function {
            Ok(())
        } else {
            Err(errors::respond("edit_file handler received unsupported payload"))
        }
    }

    /// Decides how a file is edited. `choices` gives, for each edit, the window
    /// that is taken where nothing closer was found.
    pub fn plan(
        file_path: &str,
        edits: &[EditOperation],
        state: &FileState,
        choices: &[Option<usize>],
    ) -> (r: Result<String, FunctionCallError>)
        ensures
            errors::text_outcome(r) == edit_file_outcome(file_path@, edits@, *state, choices@),
    {
        if edits.len() == 0 {
            return Err(errors::respond("edits must contain at least one replacement"));
        }
        if !paths::is_absolute(file_path) {
            return Err(errors::respond("file_path must be an absolute path"));
        }
        match state {
            FileState::Missing => Err(errors::respond("file_path does not exist")),
            FileState::Directory => Err(errors::respond("file_path must point to a file")),
            FileState::Hidden(reason) => Err(
                with_reason("failed to inspect file: ", reason.as_str()),
            ),
            FileState::Unreadable(reason) => Err(
                with_reason("failed to read file: ", reason.as_str()),
            ),
            FileState::Text(old) => match edit::apply_edits(old.clone(), edits, choices) {
                Err(fault) => Err(fault),
                Ok(new) => if text::same_text(new.as_str(), old.as_str()) {
                    Err(errors::respond("edit_file would not change the file"))
                } else {
                    Ok(render_rewrite_patch(file_path, Some(old.as_str()), new.as_str()))
                },
            },
        }
    }
}

/// A file is written or edited only where that changes it.
pub proof fn patches_change_something(
    path: Seq<char>,
    old: String,
    content: Seq<char>,
    edits: Seq<EditOperation>,
    choices: Seq<Option<usize>>,
)
    ensures
        write_outcome(path, FileState::Text(old), content) is Ok ==> old@ != content,
        edit_file_outcome(path, edits, FileState::Text(old), choices) is Ok ==> (
        edit::edits_outcome(old@, edits, choices, edits.len() as int) matches Ok(new) && new
            != old@),
{
}

/// Every file that is told as changed is one that the patch touches.
pub proof fn told_files_are_touched(changes: Seq<PatchChange>, i: int)
    requires
        0 <= i < all_told(changes).len(),
    ensures
        touched(changes).contains(all_told(changes)[i].0),
    decreases changes.len(),
{
    let front = changes.drop_last();
    let last = changes.last();
    let earlier = all_told(front);
    let path = all_told(changes)[i].0;
    let own = one_path(text::opt_text(last.path));
    let moved = one_path(destination(last));
    if i < earlier.len() {
        told_files_are_touched(front, i);
        let k = choose|k: int| 0 <= k < touched(front).len() && touched(front)[k] == path;
        assert(touched(changes)[k] == path);
    } else {
        let n = touched(front).len() as int;
        let j = i - earlier.len();
        assert(told(last)[j].0 == path);
        if j == 0 {
            assert(own[0] == path);
            assert(touched(changes)[n] == path);
        } else {
            assert(moved[0] == path);
            assert(touched(changes)[n + 1] == path);
        }
    }
}

// ---------------------------------------------------------------------------
// What patches say.

/// The lines of a file as a patch shows them.
pub open spec fn shown(content: Seq<char>, mark: char) -> Seq<Seq<char>> {
    let lines = text::plain_lines(content);
    Seq::new(lines.len(), |i: int| seq![mark] + lines[i])
}

/// Lines with a newline behind each.
spec fn closed(lines: Seq<Seq<char>>) -> Seq<char>
    decreases lines.len(),
{
    if lines.len() == 0 {
        Seq::empty()
    } else {
        closed(lines.drop_last()) + lines.last() + "\n"@
    }
}

proof fn lemma_closed_add(a: Seq<Seq<char>>, b: Seq<Seq<char>>)
    ensures
        closed(a + b) == closed(a) + closed(b),
    decreases b.len(),
{
    if b.len() == 0 {
        assert(a + b =~= a);
        assert(closed(a) + closed(b) =~= closed(a));
    } else {
        assert((a + b).drop_last() =~= a + b.drop_last());
        lemma_closed_add(a, b.drop_last());
        assert(closed(a + b) =~= closed(a) + closed(b));
    }
}

proof fn lemma_closed_joined(lines: Seq<Seq<char>>, last: Seq<char>)
    ensures
        text::joined(lines.push(last), "\n"@) == closed(lines) + last,
    decreases lines.len(),
{
    let all = lines.push(last);
    assert(all.drop_last() =~= lines);
    if lines.len() == 0 {
        assert(closed(lines) + last =~= last);
        assert(all[0] == last);
    } else {
        lemma_closed_joined(lines.drop_last(), lines.last());
        assert(lines.drop_last().push(lines.last()) =~= lines);
        assert(text::joined(all, "\n"@) == text::joined(lines, "\n"@) + "\n"@ + last);
    }
}

proof fn lemma_marked(lines: Seq<Seq<char>>, mark: char, word: Seq<char>)
    requires
        word == seq![mark],
    ensures
        marked(lines, word) == closed(Seq::new(lines.len(), |i: int| seq![mark] + lines[i])),
    decreases lines.len(),
{
    let all = Seq::new(lines.len(), |i: int| seq![mark] + lines[i]);
    if lines.len() > 0 {
        let fewer = lines.drop_last();
        lemma_marked(fewer, mark, word);
        assert(all.drop_last() =~= Seq::new(fewer.len(), |i: int| seq![mark] + fewer[i]));
        assert(all.last() == seq![mark] + lines.last());
        assert(marked(fewer, word) + word + lines.last() =~= marked(fewer, word) + (word
            + lines.last()));
    }
}

/// The patch that rewrites a file, line by line: a file that is there is
/// updated, and all its lines are taken out before the new ones are put in; one
/// that is not is added with the new lines. No other line stands in it.
pub proof fn rewrites_show_every_line(path: Seq<char>, old: Seq<char>, new: Seq<char>)
    ensures
        rewrite_patch(path, Some(old), new) == text::joined(
            seq!["*** Begin Patch"@, "*** Update File: "@ + path, "@@"@] + shown(old, '-') + shown(
                new,
                '+',
            ) + seq!["*** End Patch"@],
            "\n"@,
        ),
        rewrite_patch(path, None, new) == text::joined(
            seq!["*** Begin Patch"@, "*** Add File: "@ + path] + shown(new, '+') + seq![
                "*** End Patch"@,
            ],
            "\n"@,
        ),
{
    reveal_strlit("+");
    reveal_strlit("-");
    reveal_strlit("\n");
    reveal_strlit("*** Begin Patch\n");
    reveal_strlit("*** Begin Patch");
    reveal_strlit("\n@@\n");
    reveal_strlit("@@");
    let begin = "*** Begin Patch"@;
    let end = "*** End Patch"@;
    let update = "*** Update File: "@ + path;
    let added = "*** Add File: "@ + path;
    assert("+"@ =~= seq!['+']);
    assert("-"@ =~= seq!['-']);
    lemma_marked(text::plain_lines(old), '-', "-"@);
    lemma_marked(text::plain_lines(new), '+', "+"@);
    let minus = shown(old, '-');
    let plus = shown(new, '+');
    let none = Seq::<Seq<char>>::empty();
    let first = seq![begin, update, "@@"@];
    assert(first.drop_last() =~= seq![begin, update]);
    assert(seq![begin, update].drop_last() =~= seq![begin]);
    assert(seq![begin].drop_last() =~= none);
    assert(closed(none) =~= Seq::<char>::empty());
    assert(closed(seq![begin]) =~= "*** Begin Patch\n"@);
    assert(closed(seq![begin, update]) =~= "*** Begin Patch\n"@ + update + "\n"@);
    assert(closed(first) =~= "*** Begin Patch\n"@ + update + "\n@@\n"@);
    let top = seq![begin, added];
    assert(top.drop_last() =~= seq![begin]);
    assert(closed(top) =~= "*** Begin Patch\n"@ + added + "\n"@);
    lemma_closed_add(first, minus);
    lemma_closed_add(first + minus, plus);
    lemma_closed_add(top, plus);
    lemma_closed_joined(first + minus + plus, end);
    lemma_closed_joined(top + plus, end);
    assert((first + minus + plus).push(end) =~= first + minus + plus + seq![end]);
    assert((top + plus).push(end) =~= top + plus + seq![end]);
    assert(rewrite_patch(path, Some(old), new) =~= closed(first) + closed(minus) + closed(plus)
        + end);
    assert(rewrite_patch(path, None, new) =~= closed(top) + closed(plus) + end);
}

/// What is told of each kind of change, behind what is told of those before it:
/// a new file is created, one that goes is deleted, one that stays where it is
/// is changed, and one that moves is deleted where it was and created where it
/// goes. Of a file whose path is not known nothing is told.
pub proof fn each_change_is_told(
    changes: Seq<PatchChange>,
    change: PatchChange,
    path: String,
    to: String,
)
    ensures
        change.path is None ==> all_told(changes.push(change)) == all_told(changes),
        change.path == Some(path) && change.kind is Add ==> all_told(changes.push(change))
            == all_told(changes).push((path@, LspWatchedFileChangeKind::Created)),
        change.path == Some(path) && change.kind is Delete ==> all_told(changes.push(change))
            == all_told(changes).push((path@, LspWatchedFileChangeKind::Deleted)),
        change.path == Some(path) && (change.kind == PatchChangeKind::Update {
            target: MoveTarget::Stays,
        } || change.kind == PatchChangeKind::Update { target: MoveTarget::Unresolved })
            ==> all_told(changes.push(change)) == all_told(changes).push(
            (path@, LspWatchedFileChangeKind::Changed),
        ),
        change.path == Some(path) && change.kind == (PatchChangeKind::Update {
            target: MoveTarget::To(to),
        }) ==> all_told(changes.push(change)) == all_told(changes).push(
            (path@, LspWatchedFileChangeKind::Deleted),
        ).push((to@, LspWatchedFileChangeKind::Created)),
        all_told(Seq::empty()).len() == 0,
{
    let more = changes.push(change);
    assert(more.drop_last() =~= changes);
    assert(all_told(more) =~= all_told(changes) + told(change));
    assert(all_told(changes).push((path@, LspWatchedFileChangeKind::Created)) =~= all_told(changes)
        + seq![(path@, LspWatchedFileChangeKind::Created)]);
    assert(all_told(changes).push((path@, LspWatchedFileChangeKind::Deleted)) =~= all_told(changes)
        + seq![(path@, LspWatchedFileChangeKind::Deleted)]);
    assert(all_told(changes).push((path@, LspWatchedFileChangeKind::Changed)) =~= all_told(changes)
        + seq![(path@, LspWatchedFileChangeKind::Changed)]);
    assert(all_told(changes).push((path@, LspWatchedFileChangeKind::Deleted)).push(
        (to@, LspWatchedFileChangeKind::Created),
    ) =~= all_told(changes) + seq![
        (path@, LspWatchedFileChangeKind::Deleted),
        (to@, LspWatchedFileChangeKind::Created),
    ]);
    if change.path is None {
        assert(all_told(changes) + told(change) =~= all_told(changes));
    }
}

/// A patch touches the path of each change and the path that it moves the file
/// to, as far as they are known, and no other.
pub proof fn each_change_touches_its_paths(
    changes: Seq<PatchChange>,
    change: PatchChange,
    to: String,
)
    ensures
        ({
            let before = touched(changes);
            let own = if change.path is Some {
                before.push(change.path->Some_0@)
            } else {
                before
            };
            let moves = change.kind == PatchChangeKind::Update { target: MoveTarget::To(to) };
            &&& moves ==> touched(changes.push(change)) == own.push(to@)
            &&& change.kind is Add || change.kind is Delete || change.kind
                == (PatchChangeKind::Update { target: MoveTarget::Stays }) || change.kind
                == (PatchChangeKind::Update { target: MoveTarget::Unresolved }) ==> touched(
                changes.push(change),
            ) == own
            &&& touched(Seq::empty()).len() == 0
        }),
{
    let more = changes.push(change);
    assert(more.drop_last() =~= changes);
    let own = if change.path is Some {
        touched(changes).push(change.path->Some_0@)
    } else {
        touched(changes)
    };
    assert(touched(changes) + one_path(text::opt_text(change.path)) =~= own);
    assert(own.push(to@) =~= own + seq![to@]);
    assert(own + Seq::<Seq<char>>::empty() =~= own);
}

/// Writing a file that is not there adds it, writing one that is there rewrites
/// it, and everything else is refused with its reason.
pub proof fn files_are_written_where_they_can_be(
    path: Seq<char>,
    content: Seq<char>,
    given: String,
)
    ensures
        ({
            let told = |message: Seq<char>|
                Err::<Seq<char>, _>(errors::CallFault::RespondToModel(message));
            let text = FileState::Text(given);
            &&& !paths::absolute(path) ==> write_outcome(path, text, content) == told(
                "file_path must be an absolute path"@,
            ) && write_outcome(path, FileState::Missing, content) == told(
                "file_path must be an absolute path"@,
            )
            &&& paths::absolute(path) ==> {
                &&& write_outcome(path, FileState::Missing, content) == Ok::<_, errors::CallFault>(
                    rewrite_patch(path, None, content),
                )
                &&& write_outcome(path, FileState::Directory, content) == told(
                    "file_path must point to a file"@,
                )
                &&& write_outcome(path, FileState::Hidden(given), content) == told(
                    "failed to inspect file: "@ + given@,
                )
                &&& write_outcome(path, FileState::Unreadable(given), content) == told(
                    "failed to read file: "@ + given@,
                )
                &&& given@ == content ==> write_outcome(path, text, content) == told(
                    "write_file would not change the file"@,
                )
                &&& given@ != content ==> write_outcome(path, text, content) == Ok::<
                    _,
                    errors::CallFault,
                >(rewrite_patch(path, Some(given@), content))
            }
        }),
{
}

/// Editing needs edits and a file that can be read; what the edits make of it is
/// what the patch writes, and what speaks against one of them is told.
pub proof fn files_are_edited_where_they_can_be(
    path: Seq<char>,
    edits: Seq<EditOperation>,
    choices: Seq<Option<usize>>,
    given: String,
)
    ensures
        ({
            let told = |message: Seq<char>|
                Err::<Seq<char>, _>(errors::CallFault::RespondToModel(message));
            let made = edit::edits_outcome(given@, edits, choices, edits.len() as int);
            let asked = |state: FileState| edit_file_outcome(path, edits, state, choices);
            &&& edits.len() == 0 ==> asked(FileState::Text(given)) == told(
                "edits must contain at least one replacement"@,
            )
            &&& edits.len() > 0 && !paths::absolute(path) ==> asked(FileState::Text(given)) == told(
                "file_path must be an absolute path"@,
            )
            &&& edits.len() > 0 && paths::absolute(path) ==> {
                &&& asked(FileState::Missing) == told("file_path does not exist"@)
                &&& asked(FileState::Directory) == told("file_path must point to a file"@)
                &&& asked(FileState::Hidden(given)) == told("failed to inspect file: "@ + given@)
                &&& asked(FileState::Unreadable(given)) == told("failed to read file: "@ + given@)
                &&& made is Err ==> asked(FileState::Text(given)) == Err::<Seq<char>, _>(
                    made->Err_0,
                )
                &&& made == Ok::<_, errors::CallFault>(given@) ==> asked(FileState::Text(given))
                    == told("edit_file would not change the file"@)
                &&& made is Ok && made->Ok_0 != given@ ==> asked(FileState::Text(given)) == Ok::<
                    _,
                    errors::CallFault,
                >(rewrite_patch(path, Some(given@), made->Ok_0))
            }
        }),
{
}

/// A patch that reads back as one is used, and any other is refused in its own
/// words.
pub proof fn only_patches_are_used(reason: String)
    ensures
        verdict_fault(PatchVerdict::Body) is None,
        verdict_fault(PatchVerdict::CorrectnessError(reason)) == Some(
            errors::CallFault::RespondToModel(reason@),
        ),
        verdict_fault(PatchVerdict::ShellParseError(reason)) == Some(
            errors::CallFault::RespondToModel(
                "failed to parse generated apply_patch payload: "@ + reason@,
            ),
        ),
        verdict_fault(PatchVerdict::NotApplyPatch) == Some(
            errors::CallFault::RespondToModel("generated payload did not parse as apply_patch"@),
        ),
{
}

/// A file asks for its directory to be written to, and a path that has no
/// directory for itself.
pub proof fn files_ask_for_their_directories(files: Seq<Seq<char>>, i: int)
    requires
        0 <= i < files.len(),
    ensures
        directories(files).len() == files.len(),
        paths::parent_of(files[i]) is Some ==> directories(files)[i] == paths::parent_of(
            files[i],
        )->Some_0,
        paths::parent_of(files[i]) is None ==> directories(files)[i] == files[i],
{
}

} // verus!
