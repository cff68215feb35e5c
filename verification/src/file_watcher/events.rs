//! Which changes of files matter to whom, and what is told about them.

use vstd::prelude::*;

use crate::file_watcher::roots::RootCounts;
use crate::file_watcher::roots::WatchState;
use crate::file_watcher::throttle;
use crate::file_watcher::throttle::ThrottledPaths;
use crate::file_watcher::throttle::ThrottledWorkspaceChanges;
use crate::lsp::transport::LspWatchedFileChange;
use crate::lsp::transport::LspWatchedFileChangeKind;
use crate::moments;
use crate::paths;
use crate::text;
use crate::text_order;

verus! {

/// What is told about changes of files.
#[derive(Clone, Debug, PartialEq, Eq)]
pub enum FileWatcherEvent {
    SkillsChanged { paths: Vec<String> },
    WorkspaceChanged { changes: Vec<LspWatchedFileChange> },
}

/// What a [`FileWatcherEvent`] stands for.
#[verifier::ext_equal]
pub ghost enum EventView {
    Skills(Seq<Seq<char>>),
    Workspace(Seq<(Seq<char>, LspWatchedFileChangeKind)>),
}

impl View for FileWatcherEvent {
    type V = EventView;

    open spec fn view(&self) -> EventView {
        match self {
            FileWatcherEvent::SkillsChanged { paths } => EventView::Skills(text::texts(paths@)),
            FileWatcherEvent::WorkspaceChanged { changes } => EventView::Workspace(
                throttle::change_views(changes@),
            ),
        }
    }
}

/// What happened to files.
#[derive(Clone, Copy, Debug, PartialEq, Eq, Structural)]
pub enum WatchEventKind {
    Create,
    Modify,
    Rename,
    Remove,
    /// They were read or opened.
    Access,
    /// Something that the system does not tell.
    Any,
    /// Something else.
    Other,
}

/// Something that happened to files.
#[derive(Clone, Debug)]
pub struct WatchEvent {
    pub kind: WatchEventKind,
    pub paths: Vec<String>,
}

/// What matters of an event.
#[derive(Debug)]
pub struct ClassifiedEvent {
    pub skills_paths: Vec<String>,
    pub workspace_changes: Vec<LspWatchedFileChange>,
}

/// The change that an event is, where it is one.
pub open spec fn change_kind(kind: WatchEventKind) -> Option<LspWatchedFileChangeKind> {
    match kind {
        WatchEventKind::Create => Some(LspWatchedFileChangeKind::Created),
        WatchEventKind::Modify => Some(LspWatchedFileChangeKind::Changed),
        WatchEventKind::Rename => Some(LspWatchedFileChangeKind::Changed),
        WatchEventKind::Remove => Some(LspWatchedFileChangeKind::Deleted),
        WatchEventKind::Access | WatchEventKind::Any | WatchEventKind::Other => None,
    }
}

/// The change that an event is, where it is one.
pub fn event_kind_to_workspace_change_kind(kind: WatchEventKind) -> (r: Option<
    LspWatchedFileChangeKind,
>)
    ensures
        r == change_kind(kind),
{
    match kind {
        WatchEventKind::Create => Some(LspWatchedFileChangeKind::Created),
        WatchEventKind::Modify => Some(LspWatchedFileChangeKind::Changed),
        WatchEventKind::Rename => Some(LspWatchedFileChangeKind::Changed),
        WatchEventKind::Remove => Some(LspWatchedFileChangeKind::Deleted),
        WatchEventKind::Access | WatchEventKind::Any | WatchEventKind::Other => None,
    }
}

/// The changes of an event. A new name is a deletion and a creation.
pub open spec fn changes_of(
    kind: WatchEventKind,
    list: Seq<Seq<char>>,
    default: LspWatchedFileChangeKind,
) -> Seq<(Seq<char>, LspWatchedFileChangeKind)> {
    if kind is Rename && list.len() >= 2 {
        seq![
            (list[0], LspWatchedFileChangeKind::Deleted),
            (list[1], LspWatchedFileChangeKind::Created),
        ]
    } else {
        Seq::new(list.len(), |i: int| (list[i], default))
    }
}

/// Lists the changes of an event.
pub fn workspace_changes_for_event(event: &WatchEvent, default_kind: LspWatchedFileChangeKind) -> (
out: Vec<LspWatchedFileChange>)
    ensures
        throttle::change_views(out@) == changes_of(
            event.kind,
            text::texts(event.paths@),
            default_kind,
        ),
{
    let ghost list = text::texts(event.paths@);
    let ghost told = changes_of(event.kind, list, default_kind);
    let mut out: Vec<LspWatchedFileChange> = Vec::new();
    if event.kind == WatchEventKind::Rename && event.paths.len() >= 2 {
        out.push(
            LspWatchedFileChange {
                path: event.paths[0].clone(),
                kind: LspWatchedFileChangeKind::Deleted,
            },
        );
        out.push(
            LspWatchedFileChange {
                path: event.paths[1].clone(),
                kind: LspWatchedFileChangeKind::Created,
            },
        );
        proof {
            assert(throttle::change_views(out@) =~= told);
        }
        return out;
    }
    let mut i: usize = 0;
    while i < event.paths.len()
        invariant
            i <= event.paths@.len(),
            out@.len() == i,
            forall|k: int|
                0 <= k < i ==> (#[trigger] out@[k]).path@ == event.paths@[k]@ && out@[k].kind
                    == default_kind,
        decreases event.paths@.len() - i,
    {
        out.push(LspWatchedFileChange { path: event.paths[i].clone(), kind: default_kind });
        i += 1;
    }
    proof {
        assert(throttle::change_views(out@) =~= told);
    }
    out
}

/// Whether a path is below one of the directories.
pub open spec fn under(path: Seq<char>, counts: Seq<(Seq<char>, nat)>) -> bool {
    exists|i: int| 0 <= i < counts.len() && paths::below(path, (#[trigger] counts[i]).0)
}

/// Whether a path is below one of the directories.
pub fn is_path_under_roots(path: &str, list: &RootCounts) -> (r: bool)
    ensures
        r == under(path@, list@),
{
    let mut i: usize = 0;
    while i < list.entries.len()
        invariant
            i <= list.entries@.len(),
            forall|k: int| 0 <= k < i ==> !paths::below(path@, (#[trigger] list@[k]).0),
        decreases list.entries@.len() - i,
    {
        proof {
            assert(list@[i as int].0 == list.entries@[i as int].0@);
        }
        if paths::starts_with(path, list.entries[i].0.as_str()) {
            return true;
        }
        i += 1;
    }
    false
}

/// The paths of the changes that are below the directories.
pub open spec fn paths_under(
    changes: Seq<(Seq<char>, LspWatchedFileChangeKind)>,
    counts: Seq<(Seq<char>, nat)>,
) -> Seq<Seq<char>>
    decreases changes.len(),
{
    if changes.len() == 0 {
        seq![]
    } else {
        let earlier = paths_under(changes.drop_last(), counts);
        if under(changes.last().0, counts) {
            earlier.push(changes.last().0)
        } else {
            earlier
        }
    }
}

/// The changes that are below the directories.
pub open spec fn changes_under(
    changes: Seq<(Seq<char>, LspWatchedFileChangeKind)>,
    counts: Seq<(Seq<char>, nat)>,
) -> Seq<(Seq<char>, LspWatchedFileChangeKind)>
    decreases changes.len(),
{
    if changes.len() == 0 {
        seq![]
    } else {
        let earlier = changes_under(changes.drop_last(), counts);
        if under(changes.last().0, counts) {
            earlier.push(changes.last())
        } else {
            earlier
        }
    }
}

/// All changes that an event is.
pub open spec fn event_changes(kind: WatchEventKind, list: Seq<Seq<char>>) -> Seq<
    (Seq<char>, LspWatchedFileChangeKind),
> {
    match change_kind(kind) {
        Some(default) => changes_of(kind, list, default),
        None => seq![],
    }
}

/// Finds out what matters of an event.
pub fn classify_event(event: &WatchEvent, state: &WatchState) -> (c: ClassifiedEvent)
    ensures
        text::texts(c.skills_paths@) == paths_under(
            event_changes(event.kind, text::texts(event.paths@)),
            state.skills_root_ref_counts@,
        ),
        throttle::change_views(c.workspace_changes@) == changes_under(
            event_changes(event.kind, text::texts(event.paths@)),
            state.workspace_root_ref_counts@,
        ),
{
    let mut skills_paths: Vec<String> = Vec::new();
    let mut workspace_changes: Vec<LspWatchedFileChange> = Vec::new();
    let changes = match event_kind_to_workspace_change_kind(event.kind) {
        Some(kind) => workspace_changes_for_event(event, kind),
        None => {
            let none: Vec<LspWatchedFileChange> = Vec::new();
            proof {
                assert(throttle::change_views(none@) =~= seq![]);
            }
            none
        },
    };
    let ghost all = event_changes(event.kind, text::texts(event.paths@));
    let ghost skills = state.skills_root_ref_counts@;
    let ghost workspaces = state.workspace_root_ref_counts@;
    let mut i: usize = 0;
    proof {
        assert(text::texts(skills_paths@) =~= paths_under(all.take(0), skills));
        assert(throttle::change_views(workspace_changes@) =~= changes_under(
            all.take(0),
            workspaces,
        ));
    }
    while i < changes.len()
        invariant
            i <= changes@.len(),
            throttle::change_views(changes@) == all,
            skills == state.skills_root_ref_counts@,
            workspaces == state.workspace_root_ref_counts@,
            text::texts(skills_paths@) == paths_under(all.take(i as int), skills),
            throttle::change_views(workspace_changes@) == changes_under(
                all.take(i as int),
                workspaces,
            ),
        decreases changes@.len() - i,
    {
        let change = &changes[i];
        let ghost told_paths = text::texts(skills_paths@);
        let ghost told_changes = throttle::change_views(workspace_changes@);
        proof {
            assert(all.take(i + 1).drop_last() =~= all.take(i as int));
            assert(all.take(i + 1).last() == (change.path@, change.kind));
        }
        if is_path_under_roots(change.path.as_str(), &state.skills_root_ref_counts) {
            skills_paths.push(change.path.clone());
            proof {
                assert(text::texts(skills_paths@) =~= told_paths.push(change.path@));
            }
        }
        if is_path_under_roots(change.path.as_str(), &state.workspace_root_ref_counts) {
            workspace_changes.push(
                LspWatchedFileChange { path: change.path.clone(), kind: change.kind },
            );
            proof {
                assert(throttle::change_views(workspace_changes@) =~= told_changes.push(
                    (change.path@, change.kind),
                ));
            }
        }
        i += 1;
    }
    proof {
        assert(all.len() == changes@.len());
        assert(all.take(i as int) =~= all);
    }
    ClassifiedEvent { skills_paths, workspace_changes }
}

// ---------------------------------------------------------------------------
// The loop.

/// What the loop that watches files holds back.
pub struct WatchLoop {
    pub skills: ThrottledPaths,
    pub workspace: ThrottledWorkspaceChanges,
}

/// What a [`WatchLoop`] stands for: what it holds back of each kind, and from
/// when on it can be told.
#[verifier::ext_equal]
pub ghost struct LoopView {
    pub paths: Seq<Seq<char>>,
    pub paths_from: u128,
    pub changes: Seq<(Seq<char>, LspWatchedFileChangeKind)>,
    pub changes_from: u128,
}

impl View for WatchLoop {
    type V = LoopView;

    open spec fn view(&self) -> LoopView {
        LoopView {
            paths: self.skills.held(),
            paths_from: self.skills.next_allowed_at,
            changes: self.workspace.held(),
            changes_from: self.workspace.next_allowed_at,
        }
    }
}

impl LoopView {
    /// The loop once something happened.
    pub open spec fn noted(
        self,
        paths: Seq<Seq<char>>,
        changes: Seq<(Seq<char>, LspWatchedFileChangeKind)>,
    ) -> LoopView {
        LoopView {
            paths: throttle::extended(self.paths, paths),
            changes: throttle::with_changes(self.changes, changes),
            ..self
        }
    }

    /// What the loop tells.
    pub open spec fn told(self, now: u128) -> Seq<EventView> {
        skills_event(self.paths, now >= self.paths_from) + workspace_event(
            self.changes,
            now >= self.changes_from,
        )
    }

    /// The loop once it has told what it can tell. What was told starts a new
    /// interval.
    pub open spec fn after_telling(self, now: u128) -> LoopView {
        let tells_paths = self.paths.len() > 0 && now >= self.paths_from;
        let tells_changes = self.changes.len() > 0 && now >= self.changes_from;
        let next = moments::after(now, throttle::WATCHER_THROTTLE_INTERVAL);
        LoopView {
            paths: if tells_paths {
                Seq::empty()
            } else {
                self.paths
            },
            paths_from: if tells_paths {
                next
            } else {
                self.paths_from
            },
            changes: if tells_changes {
                Seq::empty()
            } else {
                self.changes
            },
            changes_from: if tells_changes {
                next
            } else {
                self.changes_from
            },
        }
    }

    /// What the loop tells at last, without waiting any more.
    pub open spec fn told_at_last(self) -> Seq<EventView> {
        skills_event(self.paths, true) + workspace_event(self.changes, true)
    }

    /// The loop once it has told all.
    pub open spec fn after_telling_all(self, now: u128) -> LoopView {
        let next = moments::after(now, throttle::WATCHER_THROTTLE_INTERVAL);
        LoopView {
            paths: Seq::empty(),
            paths_from: if self.paths.len() > 0 {
                next
            } else {
                self.paths_from
            },
            changes: Seq::empty(),
            changes_from: if self.changes.len() > 0 {
                next
            } else {
                self.changes_from
            },
        }
    }
}

/// The views of events.
pub open spec fn event_views(events: Seq<FileWatcherEvent>) -> Seq<EventView> {
    Seq::new(events.len(), |i: int| events[i]@)
}

/// What is told about paths.
pub open spec fn skills_event(held: Seq<Seq<char>>, ready: bool) -> Seq<EventView> {
    if held.len() > 0 && ready {
        seq![EventView::Skills(text_order::sorted_set(held))]
    } else {
        seq![]
    }
}

/// What is told about changes.
pub open spec fn workspace_event(
    held: Seq<(Seq<char>, LspWatchedFileChangeKind)>,
    ready: bool,
) -> Seq<EventView> {
    if held.len() > 0 && ready {
        seq![EventView::Workspace(throttle::sorted_changes(held))]
    } else {
        seq![]
    }
}

/// The event that tells paths, where there are any.
pub open spec fn told_paths(paths: Option<Vec<String>>) -> Seq<EventView> {
    match paths {
        Some(list) => seq![EventView::Skills(text::texts(list@))],
        None => seq![],
    }
}

/// The event that tells changes, where there are any.
pub open spec fn told_changes(changes: Option<Vec<LspWatchedFileChange>>) -> Seq<EventView> {
    match changes {
        Some(list) => seq![EventView::Workspace(throttle::change_views(list@))],
        None => seq![],
    }
}

impl WatchLoop {
    /// Nothing is held back.
    pub fn new(now: u128) -> (l: Self)
        ensures
            l@ == (LoopView {
                paths: Seq::empty(),
                paths_from: now,
                changes: Seq::empty(),
                changes_from: now,
            }),
    {
        WatchLoop {
            skills: ThrottledPaths::new(now),
            workspace: ThrottledWorkspaceChanges::new(now),
        }
    }

    /// When the loop has to look at the time again.
    pub fn timer_deadline(&self, now: u128) -> (at: u128)
        ensures
            ({
                let skills_wait = self.skills.held().len() > 0 && now
                    < self.skills.next_allowed_at;
                let workspace_wait = self.workspace.held().len() > 0 && now
                    < self.workspace.next_allowed_at;
                at == if skills_wait && workspace_wait {
                    if self.skills.next_allowed_at <= self.workspace.next_allowed_at {
                        self.skills.next_allowed_at
                    } else {
                        self.workspace.next_allowed_at
                    }
                } else if skills_wait {
                    self.skills.next_allowed_at
                } else if workspace_wait {
                    self.workspace.next_allowed_at
                } else {
                    moments::after(now, throttle::IDLE_WAIT)
                }
            }),
    {
        match (self.skills.next_deadline(now), self.workspace.next_deadline(now)) {
            (Some(a), Some(b)) => if a <= b {
                a
            } else {
                b
            },
            (Some(a), None) => a,
            (None, Some(b)) => b,
            (None, None) => moments::later(now, throttle::IDLE_WAIT),
        }
    }

    fn tell(paths: Option<Vec<String>>, changes: Option<Vec<LspWatchedFileChange>>) -> (out: Vec<
        FileWatcherEvent,
    >)
        ensures
            event_views(out@) == told_paths(paths) + told_changes(changes),
    {
        let mut out: Vec<FileWatcherEvent> = Vec::new();
        let ghost first = told_paths(paths);
        let ghost second = told_changes(changes);
        if let Some(list) = paths {
            out.push(FileWatcherEvent::SkillsChanged { paths: list });
        }
        proof {
            assert(event_views(out@) =~= first);
        }
        if let Some(list) = changes {
            out.push(FileWatcherEvent::WorkspaceChanged { changes: list });
        }
        proof {
            assert(event_views(out@) =~= first + second);
        }
        out
    }

    /// The time has come: tells what can be told.
    pub fn on_timer(&mut self, now: u128) -> (out: Vec<FileWatcherEvent>)
        ensures
            event_views(out@) == old(self)@.told(now),
            final(self)@ == old(self)@.after_telling(now),
    {
        let paths = self.skills.take_ready(now);
        let changes = self.workspace.take_ready(now);
        Self::tell(paths, changes)
    }

    /// Something happened: notes what matters of it, and tells what can be
    /// told.
    pub fn on_event(&mut self, classified: &ClassifiedEvent, now: u128) -> (out: Vec<
        FileWatcherEvent,
    >)
        ensures
            ({
                let noted = old(self)@.noted(
                    text::texts(classified.skills_paths@),
                    throttle::change_views(classified.workspace_changes@),
                );
                &&& event_views(out@) == noted.told(now)
                &&& final(self)@ == noted.after_telling(now)
            }),
    {
        self.skills.add_paths(&classified.skills_paths);
        self.workspace.add_changes(&classified.workspace_changes);
        self.on_timer(now)
    }

    /// The source has closed: tells all that is held back.
    pub fn on_close(&mut self, now: u128) -> (out: Vec<FileWatcherEvent>)
        ensures
            event_views(out@) == old(self)@.told_at_last(),
            final(self)@ == old(self)@.after_telling_all(now),
    {
        let paths = self.skills.take_pending(now);
        let changes = self.workspace.take_pending(now);
        Self::tell(paths, changes)
    }
}

/// Only changes below a watched directory are told, and all of those are.
pub proof fn changes_are_told_just_below_roots(
    changes: Seq<(Seq<char>, LspWatchedFileChangeKind)>,
    counts: Seq<(Seq<char>, nat)>,
    change: (Seq<char>, LspWatchedFileChangeKind),
)
    ensures
        changes_under(changes, counts).contains(change) <==> changes.contains(change) && under(
            change.0,
            counts,
        ),
    decreases changes.len(),
{
    if changes.len() > 0 {
        let front = changes.drop_last();
        let earlier = changes_under(front, counts);
        let all = changes_under(changes, counts);
        changes_are_told_just_below_roots(front, counts, change);
        if changes.contains(change) {
            let k = choose|k: int| 0 <= k < changes.len() && changes[k] == change;
            if k < front.len() {
                assert(front[k] == change);
            }
        }
        if front.contains(change) {
            let k = choose|k: int| 0 <= k < front.len() && front[k] == change;
            assert(changes[k] == change);
        }
        assert(changes[changes.len() - 1] == changes.last());
        if earlier.contains(change) {
            let k = choose|k: int| 0 <= k < earlier.len() && earlier[k] == change;
            assert(all[k] == change);
        }
        if under(changes.last().0, counts) {
            assert(all[earlier.len() as int] == changes.last());
        }
        if all.contains(change) {
            let k = choose|k: int| 0 <= k < all.len() && all[k] == change;
            if k < earlier.len() {
                assert(earlier[k] == change);
            }
        }
    }
}

/// Whether events tell of paths.
pub open spec fn tells_paths(events: Seq<EventView>) -> bool {
    exists|i: int| 0 <= i < events.len() && (#[trigger] events[i]) is Skills
}

/// Whether events tell of changes.
pub open spec fn tells_changes(events: Seq<EventView>) -> bool {
    exists|i: int| 0 <= i < events.len() && (#[trigger] events[i]) is Workspace
}

/// What is told starts an interval for its kind.
pub proof fn telling_starts_an_interval(watching: LoopView, now: u128)
    ensures
        ({
            let next = moments::after(now, throttle::WATCHER_THROTTLE_INTERVAL);
            &&& tells_paths(watching.told(now)) ==> watching.after_telling(now).paths_from == next
            &&& tells_changes(watching.told(now)) ==> watching.after_telling(now).changes_from
                == next
        }),
{
}

/// Once something was told, nothing more of its kind is told before the
/// interval is over: neither when the time is looked at nor when something
/// happens, and neither ends the interval.
pub proof fn nothing_is_told_within_the_interval(
    watching: LoopView,
    paths: Seq<Seq<char>>,
    changes: Seq<(Seq<char>, LspWatchedFileChangeKind)>,
    told_at: u128,
    now: u128,
)
    requires
        now < moments::after(told_at, throttle::WATCHER_THROTTLE_INTERVAL),
    ensures
        ({
            let next = moments::after(told_at, throttle::WATCHER_THROTTLE_INTERVAL);
            let noted = watching.noted(paths, changes);
            &&& watching.paths_from == next ==> {
                &&& !tells_paths(watching.told(now))
                &&& !tells_paths(noted.told(now))
                &&& watching.after_telling(now).paths_from == next
                &&& noted.after_telling(now).paths_from == next
            }
            &&& watching.changes_from == next ==> {
                &&& !tells_changes(watching.told(now))
                &&& !tells_changes(noted.told(now))
                &&& watching.after_telling(now).changes_from == next
                &&& noted.after_telling(now).changes_from == next
            }
        }),
{
}

// ---------------------------------------------------------------------------
// What events mean.

/// What each kind of event says of a file: it was created, changed or deleted;
/// other events say nothing. A file that got another name was deleted under the
/// old one and created under the new one, and is changed where the new one is
/// not known.
pub proof fn events_say_what_happened(
    list: Seq<Seq<char>>,
    from: Seq<char>,
    to: Seq<char>,
    path: Seq<char>,
    i: int,
)
    ensures
        event_changes(WatchEventKind::Create, seq![path]) == seq![
            (path, LspWatchedFileChangeKind::Created),
        ],
        event_changes(WatchEventKind::Modify, seq![path]) == seq![
            (path, LspWatchedFileChangeKind::Changed),
        ],
        event_changes(WatchEventKind::Remove, seq![path]) == seq![
            (path, LspWatchedFileChangeKind::Deleted),
        ],
        event_changes(WatchEventKind::Rename, seq![path]) == seq![
            (path, LspWatchedFileChangeKind::Changed),
        ],
        event_changes(WatchEventKind::Rename, seq![from, to]) == seq![
            (from, LspWatchedFileChangeKind::Deleted),
            (to, LspWatchedFileChangeKind::Created),
        ],
        event_changes(WatchEventKind::Access, list).len() == 0,
        event_changes(WatchEventKind::Any, list).len() == 0,
        event_changes(WatchEventKind::Other, list).len() == 0,
        event_changes(WatchEventKind::Create, list).len() == list.len(),
        event_changes(WatchEventKind::Modify, list).len() == list.len(),
        event_changes(WatchEventKind::Remove, list).len() == list.len(),
        0 <= i < list.len() ==> event_changes(WatchEventKind::Create, list)[i] == (
            list[i],
            LspWatchedFileChangeKind::Created,
        ) && event_changes(WatchEventKind::Modify, list)[i] == (
            list[i],
            LspWatchedFileChangeKind::Changed,
        ) && event_changes(WatchEventKind::Remove, list)[i] == (
            list[i],
            LspWatchedFileChangeKind::Deleted,
        ),
{
    assert(event_changes(WatchEventKind::Create, seq![path]) =~= seq![
        (path, LspWatchedFileChangeKind::Created),
    ]);
    assert(event_changes(WatchEventKind::Modify, seq![path]) =~= seq![
        (path, LspWatchedFileChangeKind::Changed),
    ]);
    assert(event_changes(WatchEventKind::Remove, seq![path]) =~= seq![
        (path, LspWatchedFileChangeKind::Deleted),
    ]);
    assert(event_changes(WatchEventKind::Rename, seq![path]) =~= seq![
        (path, LspWatchedFileChangeKind::Changed),
    ]);
    assert(event_changes(WatchEventKind::Rename, seq![from, to]) =~= seq![
        (from, LspWatchedFileChangeKind::Deleted),
        (to, LspWatchedFileChangeKind::Created),
    ]);
}

/// The paths of an event that are told are those below a root, in their order.
pub proof fn paths_are_told_below_roots(
    changes: Seq<(Seq<char>, LspWatchedFileChangeKind)>,
    change: (Seq<char>, LspWatchedFileChangeKind),
    counts: Seq<(Seq<char>, nat)>,
    k: int,
)
    ensures
        paths_under(Seq::empty(), counts).len() == 0,
        changes_under(Seq::empty(), counts).len() == 0,
        0 <= k < counts.len() && paths::below(change.0, counts[k].0) ==> paths_under(
            changes.push(change),
            counts,
        ) == paths_under(changes, counts).push(change.0) && changes_under(
            changes.push(change),
            counts,
        ) == changes_under(changes, counts).push(change),
        (forall|j: int|
            0 <= j < counts.len() ==> !paths::below(change.0, (#[trigger] counts[j]).0))
            ==> paths_under(changes.push(change), counts) == paths_under(changes, counts)
            && changes_under(changes.push(change), counts) == changes_under(changes, counts),
{
    assert(changes.push(change).drop_last() =~= changes);
    if 0 <= k < counts.len() && paths::below(change.0, counts[k].0) {
        assert(under(change.0, counts));
    }
}

/// What is held is told once its time has come, all of it at once, and is then
/// held no longer; until then it is kept. Nothing is told of nothing. The next
/// time is ten seconds away.
pub proof fn what_is_held_is_told_in_time(watching: LoopView, now: u128)
    requires
        now + 10_000_000_000 <= u128::MAX,
    ensures
        ({
            let after = watching.after_telling(now);
            let paths_due = watching.paths.len() > 0 && now >= watching.paths_from;
            let changes_due = watching.changes.len() > 0 && now >= watching.changes_from;
            let paths_told = EventView::Skills(text_order::sorted_set(watching.paths));
            let changes_told = EventView::Workspace(throttle::sorted_changes(watching.changes));
            &&& !paths_due && !changes_due ==> watching.told(now).len() == 0 && after == watching
            &&& paths_due && !changes_due ==> watching.told(now) == seq![paths_told]
            &&& !paths_due && changes_due ==> watching.told(now) == seq![changes_told]
            &&& paths_due && changes_due ==> watching.told(now) == seq![paths_told, changes_told]
            &&& paths_due ==> after.paths.len() == 0 && after.paths_from == now + 10_000_000_000
            &&& !paths_due ==> after.paths == watching.paths && after.paths_from
                == watching.paths_from
            &&& changes_due ==> after.changes.len() == 0 && after.changes_from == now
                + 10_000_000_000
            &&& !changes_due ==> after.changes == watching.changes && after.changes_from
                == watching.changes_from
        }),
{
    let paths_told = EventView::Skills(text_order::sorted_set(watching.paths));
    let changes_told = EventView::Workspace(throttle::sorted_changes(watching.changes));
    let none = Seq::<EventView>::empty();
    assert(seq![paths_told] + none =~= seq![paths_told]);
    assert(none + seq![changes_told] =~= seq![changes_told]);
    assert(seq![paths_told] + seq![changes_told] =~= seq![paths_told, changes_told]);
    assert(none + none =~= none);
}

/// At the end everything that is held is told, whether or not its time has come.
pub proof fn everything_is_told_at_the_end(watching: LoopView, now: u128)
    ensures
        ({
            let paths_told = EventView::Skills(text_order::sorted_set(watching.paths));
            let changes_told = EventView::Workspace(throttle::sorted_changes(watching.changes));
            let told = watching.told_at_last();
            &&& watching.paths.len() > 0 && watching.changes.len() > 0 ==> told == seq![
                paths_told,
                changes_told,
            ]
            &&& watching.paths.len() > 0 && watching.changes.len() == 0 ==> told == seq![paths_told]
            &&& watching.paths.len() == 0 && watching.changes.len() > 0 ==> told == seq![
                changes_told,
            ]
            &&& watching.paths.len() == 0 && watching.changes.len() == 0 ==> told.len() == 0
            &&& watching.after_telling_all(now).paths.len() == 0
            &&& watching.after_telling_all(now).changes.len() == 0
        }),
{
    let paths_told = EventView::Skills(text_order::sorted_set(watching.paths));
    let changes_told = EventView::Workspace(throttle::sorted_changes(watching.changes));
    let none = Seq::<EventView>::empty();
    assert(seq![paths_told] + none =~= seq![paths_told]);
    assert(none + seq![changes_told] =~= seq![changes_told]);
    assert(seq![paths_told] + seq![changes_told] =~= seq![paths_told, changes_told]);
}

/// What happens is added to what is held, and nothing that is held is lost to
/// it.
pub proof fn what_happens_is_held(
    watching: LoopView,
    paths: Seq<Seq<char>>,
    changes: Seq<(Seq<char>, LspWatchedFileChangeKind)>,
)
    ensures
        watching.noted(paths, changes).paths == throttle::extended(watching.paths, paths),
        watching.noted(paths, changes).changes == throttle::with_changes(watching.changes, changes),
        watching.noted(paths, changes).paths_from == watching.paths_from,
        watching.noted(paths, changes).changes_from == watching.changes_from,
{
}

} // verus!
