//! The directories that are watched, and how often each was asked for.

use vstd::prelude::*;

use crate::paths;
use crate::text;
use crate::text_order;

verus! {

/// What a directory is watched for.
#[derive(Clone, Copy, Debug, PartialEq, Eq, Structural)]
pub enum WatchedRootKind {
    Skills,
    Workspace,
}

/// Directories, and how often each was asked for.
pub struct RootCounts {
    pub entries: Vec<(String, usize)>,
}

impl View for RootCounts {
    type V = Seq<(Seq<char>, nat)>;

    open spec fn view(&self) -> Seq<(Seq<char>, nat)> {
        Seq::new(self.entries@.len(), |i: int| (self.entries@[i].0@, self.entries@[i].1 as nat))
    }
}

/// The place of the first entry for a directory, from the `i`-th on.
pub open spec fn place(counts: Seq<(Seq<char>, nat)>, root: Seq<char>, i: int) -> Option<int>
    decreases counts.len() - i,
{
    if i < 0 || i >= counts.len() {
        None
    } else if paths::same(counts[i].0, root) {
        Some(i)
    } else {
        place(counts, root, i + 1)
    }
}

/// How often a directory was asked for.
pub open spec fn count(counts: Seq<(Seq<char>, nat)>, root: Seq<char>) -> nat {
    match place(counts, root, 0) {
        Some(i) => counts[i].1,
        None => 0,
    }
}

/// Whether no directory has two entries, and every one was asked for.
pub open spec fn tidy(counts: Seq<(Seq<char>, nat)>) -> bool {
    &&& forall|i: int, j: int|
        0 <= i < counts.len() && 0 <= j < counts.len() && i != j ==> !paths::same(
            (#[trigger] counts[i]).0,
            (#[trigger] counts[j]).0,
        )
    &&& forall|i: int| 0 <= i < counts.len() ==> (#[trigger] counts[i]).1 > 0
}

/// The counts after a directory was asked for once more.
pub open spec fn registered(counts: Seq<(Seq<char>, nat)>, root: Seq<char>) -> Seq<
    (Seq<char>, nat),
> {
    match place(counts, root, 0) {
        Some(i) => if counts[i].1 < usize::MAX {
            counts.update(i, (counts[i].0, counts[i].1 + 1))
        } else {
            counts
        },
        None => counts.push((root, 1nat)),
    }
}

/// The counts after a directory was given up once.
pub open spec fn unregistered(counts: Seq<(Seq<char>, nat)>, root: Seq<char>) -> Seq<
    (Seq<char>, nat),
> {
    match place(counts, root, 0) {
        Some(i) => if counts[i].1 > 1 {
            counts.update(i, (counts[i].0, (counts[i].1 - 1) as nat))
        } else {
            counts.remove(i)
        },
        None => counts,
    }
}

proof fn lemma_place(counts: Seq<(Seq<char>, nat)>, root: Seq<char>, i: int)
    requires
        0 <= i,
    ensures
        match place(counts, root, i) {
            Some(k) => i <= k < counts.len() && paths::same(counts[k].0, root),
            None => forall|k: int|
                i <= k < counts.len() ==> !paths::same((#[trigger] counts[k]).0, root),
        },
    decreases counts.len() - i,
{
    if i < counts.len() && !paths::same(counts[i].0, root) {
        lemma_place(counts, root, i + 1);
    }
}

proof fn lemma_place_first(counts: Seq<(Seq<char>, nat)>, root: Seq<char>, i: int, k: int)
    requires
        0 <= i <= k < counts.len(),
        paths::same(counts[k].0, root),
        forall|j: int| i <= j < k ==> !paths::same((#[trigger] counts[j]).0, root),
    ensures
        place(counts, root, i) == Some(k),
    decreases k - i,
{
    if i < k {
        assert(!paths::same(counts[i].0, root));
        lemma_place_first(counts, root, i + 1, k);
    }
}

proof fn lemma_registered_tidy(counts: Seq<(Seq<char>, nat)>, root: Seq<char>)
    requires
        tidy(counts),
    ensures
        tidy(registered(counts, root)),
{
    lemma_place(counts, root, 0);
    let out = registered(counts, root);
    assert forall|i: int, j: int| 0 <= i < out.len() && 0 <= j < out.len() && i
        != j implies !paths::same((#[trigger] out[i]).0, (#[trigger] out[j]).0) by {
        if i < counts.len() && j < counts.len() {
            assert(!paths::same(counts[i].0, counts[j].0));
        } else if i < counts.len() {
            assert(!paths::same(counts[i].0, root));
        } else {
            assert(!paths::same(counts[j].0, root));
        }
    }
    assert forall|i: int| 0 <= i < out.len() implies (#[trigger] out[i]).1 > 0 by {
        if i < counts.len() {
            assert(counts[i].1 > 0);
        }
    }
}

proof fn lemma_unregistered_tidy(counts: Seq<(Seq<char>, nat)>, root: Seq<char>)
    requires
        tidy(counts),
    ensures
        tidy(unregistered(counts, root)),
{
    lemma_place(counts, root, 0);
    let out = unregistered(counts, root);
    if let Some(at) = place(counts, root, 0) {
        if counts[at].1 > 1 {
            assert forall|i: int, j: int| 0 <= i < out.len() && 0 <= j < out.len() && i
                != j implies !paths::same((#[trigger] out[i]).0, (#[trigger] out[j]).0) by {
                assert(!paths::same(counts[i].0, counts[j].0));
            }
            assert forall|i: int| 0 <= i < out.len() implies (#[trigger] out[i]).1 > 0 by {
                assert(counts[i].1 > 0);
            }
        } else {
            assert forall|i: int, j: int| 0 <= i < out.len() && 0 <= j < out.len() && i
                != j implies !paths::same((#[trigger] out[i]).0, (#[trigger] out[j]).0) by {
                let a = if i < at {
                    i
                } else {
                    i + 1
                };
                let b = if j < at {
                    j
                } else {
                    j + 1
                };
                assert(out[i] == counts[a] && out[j] == counts[b]);
            }
            assert forall|i: int| 0 <= i < out.len() implies (#[trigger] out[i]).1 > 0 by {
                let a = if i < at {
                    i
                } else {
                    i + 1
                };
                assert(out[i] == counts[a]);
            }
        }
    }
}

impl RootCounts {
    /// No directories.
    pub fn new() -> (c: Self)
        ensures
            c@ == Seq::<(Seq<char>, nat)>::empty(),
            tidy(c@),
    {
        let c = RootCounts { entries: Vec::new() };
        proof {
            assert(c@ =~= Seq::<(Seq<char>, nat)>::empty());
        }
        c
    }

    fn find(&self, root: &str) -> (r: Option<usize>)
        ensures
            match r {
                Some(i) => place(self@, root@, 0) == Some(i as int) && i < self.entries@.len(),
                None => place(self@, root@, 0) is None,
            },
    {
        let mut i: usize = 0;
        while i < self.entries.len()
            invariant
                i <= self.entries@.len(),
                place(self@, root@, 0) == place(self@, root@, i as int),
            decreases self.entries@.len() - i,
        {
            proof {
                assert(self@[i as int].0 == self.entries@[i as int].0@);
            }
            if paths::same_path(self.entries[i].0.as_str(), root) {
                return Some(i);
            }
            i += 1;
        }
        None
    }

    /// How often a directory was asked for.
    pub fn get(&self, root: &str) -> (n: usize)
        ensures
            n == count(self@, root@),
    {
        match self.find(root) {
            Some(i) => {
                proof {
                    assert(self@[i as int].1 == self.entries@[i as int].1);
                }
                self.entries[i].1
            },
            None => 0,
        }
    }

    /// Asks for a directory, and tells whether it has to be watched from now
    /// on.
    pub fn register(&mut self, root: &str) -> (watch: bool)
        ensures
            final(self)@ == registered(old(self)@, root@),
            watch == (count(final(self)@, root@) == 1),
            tidy(old(self)@) ==> tidy(final(self)@),
    {
        let ghost before = self@;
        proof {
            if tidy(before) {
                lemma_registered_tidy(before, root@);
            }
        }
        match self.find(root) {
            Some(i) => {
                let n: usize = self.entries[i].1;
                proof {
                    lemma_place(before, root@, 0);
                    assert(before[i as int] == (self.entries@[i as int].0@, n as nat));
                }
                if n == usize::MAX {
                    proof {
                        assert(usize::MAX > 1);
                    }
                    return false;
                }
                let path = self.entries[i].0.clone();
                self.entries.set(i, (path, n + 1));
                proof {
                    assert(self@ =~= registered(before, root@));
                    lemma_first_stays(before, self@, root@, i as int);
                }
                n + 1 == 1
            },
            None => {
                self.entries.push((root.to_string(), 1));
                proof {
                    assert(self@ =~= registered(before, root@));
                    lemma_place(before, root@, 0);
                    assert(self@[before.len() as int].0 == root@);
                    lemma_place_first(self@, root@, 0, before.len() as int);
                }
                true
            },
        }
    }

    /// Gives a directory up, and tells whether it need not be watched any
    /// more.
    pub fn unregister(&mut self, root: &str) -> (unwatch: bool)
        ensures
            final(self)@ == unregistered(old(self)@, root@),
            unwatch == asked_once(old(self)@, root@),
            tidy(old(self)@) ==> tidy(final(self)@),
    {
        let ghost before = self@;
        proof {
            if tidy(before) {
                lemma_unregistered_tidy(before, root@);
            }
        }
        match self.find(root) {
            Some(i) => {
                let n: usize = self.entries[i].1;
                proof {
                    assert(before[i as int] == (self.entries@[i as int].0@, n as nat));
                }
                if n > 1 {
                    let path = self.entries[i].0.clone();
                    self.entries.set(i, (path, n - 1));
                    proof {
                        assert(self@ =~= unregistered(before, root@));
                    }
                    false
                } else {
                    let _removed = self.entries.remove(i);
                    proof {
                        assert(self@ =~= unregistered(before, root@));
                    }
                    true
                }
            },
            None => false,
        }
    }
}

proof fn lemma_first_stays(
    before: Seq<(Seq<char>, nat)>,
    after: Seq<(Seq<char>, nat)>,
    root: Seq<char>,
    at: int,
)
    requires
        place(before, root, 0) == Some(at),
        after.len() == before.len(),
        forall|i: int| 0 <= i < before.len() ==> (#[trigger] after[i]).0 == before[i].0,
    ensures
        place(after, root, 0) == Some(at),
{
    lemma_same_place(before, after, root, 0);
}

proof fn lemma_same_place(
    before: Seq<(Seq<char>, nat)>,
    after: Seq<(Seq<char>, nat)>,
    root: Seq<char>,
    i: int,
)
    requires
        0 <= i,
        after.len() == before.len(),
        forall|i: int| 0 <= i < before.len() ==> (#[trigger] after[i]).0 == before[i].0,
    ensures
        place(after, root, i) == place(before, root, i),
    decreases before.len() - i,
{
    if i < before.len() {
        assert(after[i].0 == before[i].0);
        lemma_same_place(before, after, root, i + 1);
    }
}

/// Giving a directory up undoes asking for it: the count goes back by one, and
/// the entry is gone if it was not there before. An entry is there only for a
/// directory that was asked for, and its count may not be at its limit.
pub proof fn unregistering_undoes_registering(counts: Seq<(Seq<char>, nat)>, root: Seq<char>)
    requires
        place(counts, root, 0) is Some ==> 0 < count(counts, root) < usize::MAX,
    ensures
        unregistered(registered(counts, root), root) == counts,
{
    let after = registered(counts, root);
    lemma_place(counts, root, 0);
    match place(counts, root, 0) {
        Some(i) => {
            lemma_first_stays(counts, after, root, i);
            assert(unregistered(after, root) =~= counts);
        },
        None => {
            let n = counts.len() as int;
            assert(after[n].0 == root);
            assert forall|j: int| 0 <= j < n implies !paths::same((#[trigger] after[j]).0, root) by {
                assert(after[j] == counts[j]);
            }
            lemma_place_first(after, root, 0, n);
            assert(unregistered(after, root) =~= counts);
        },
    }
}

// ---------------------------------------------------------------------------
// Both kinds.

/// The directories that are watched, by what they are watched for.
pub struct WatchState {
    pub skills_root_ref_counts: RootCounts,
    pub workspace_root_ref_counts: RootCounts,
}

/// An entry of a registration.
#[derive(Clone, Debug)]
pub struct WatchRegistrationEntry {
    pub root: String,
    pub kind: WatchedRootKind,
}

/// The counts of both kinds after the entries of a registration were given up,
/// one after the other.
pub open spec fn given_up(
    skills: Seq<(Seq<char>, nat)>,
    workspace: Seq<(Seq<char>, nat)>,
    entries: Seq<WatchRegistrationEntry>,
) -> (Seq<(Seq<char>, nat)>, Seq<(Seq<char>, nat)>)
    decreases entries.len(),
{
    if entries.len() == 0 {
        (skills, workspace)
    } else {
        let before = given_up(skills, workspace, entries.drop_last());
        let entry = entries.last();
        match entry.kind {
            WatchedRootKind::Skills => (unregistered(before.0, entry.root@), before.1),
            WatchedRootKind::Workspace => (before.0, unregistered(before.1, entry.root@)),
        }
    }
}

/// Whether the counts show that a directory was asked for just once.
pub open spec fn asked_once(counts: Seq<(Seq<char>, nat)>, root: Seq<char>) -> bool {
    place(counts, root, 0) is Some && count(counts, root) <= 1
}

/// The directories of a registration that need not be watched any more once it
/// was given up.
pub open spec fn freed(
    skills: Seq<(Seq<char>, nat)>,
    workspace: Seq<(Seq<char>, nat)>,
    entries: Seq<WatchRegistrationEntry>,
) -> Seq<Seq<char>>
    decreases entries.len(),
{
    if entries.len() == 0 {
        Seq::empty()
    } else {
        let before = given_up(skills, workspace, entries.drop_last());
        let entry = entries.last();
        let counts = match entry.kind {
            WatchedRootKind::Skills => before.0,
            WatchedRootKind::Workspace => before.1,
        };
        let others = freed(skills, workspace, entries.drop_last());
        if asked_once(counts, entry.root@) {
            others.push(entry.root@)
        } else {
            others
        }
    }
}

impl WatchState {
    /// No directories.
    pub fn new() -> (s: Self)
        ensures
            s.skills_root_ref_counts@ == Seq::<(Seq<char>, nat)>::empty(),
            s.workspace_root_ref_counts@ == Seq::<(Seq<char>, nat)>::empty(),
            s.wf(),
    {
        WatchState {
            skills_root_ref_counts: RootCounts::new(),
            workspace_root_ref_counts: RootCounts::new(),
        }
    }

    /// The counts for a kind.
    pub open spec fn counts(&self, kind: WatchedRootKind) -> Seq<(Seq<char>, nat)> {
        match kind {
            WatchedRootKind::Skills => self.skills_root_ref_counts@,
            WatchedRootKind::Workspace => self.workspace_root_ref_counts@,
        }
    }

    /// Whether the counts of both kinds are tidy.
    pub open spec fn wf(&self) -> bool {
        tidy(self.skills_root_ref_counts@) && tidy(self.workspace_root_ref_counts@)
    }

    /// Asks for a directory, and tells whether it has to be watched from now
    /// on.
    pub fn register_root(&mut self, root: &str, kind: WatchedRootKind) -> (watch: bool)
        ensures
            final(self).counts(kind) == registered(old(self).counts(kind), root@),
            watch == (count(final(self).counts(kind), root@) == 1),
            forall|other: WatchedRootKind|
                other != kind ==> #[trigger] final(self).counts(other) == old(self).counts(other),
            tidy(old(self).counts(kind)) ==> tidy(final(self).counts(kind)),
            old(self).wf() ==> final(self).wf(),
    {
        match kind {
            WatchedRootKind::Skills => self.skills_root_ref_counts.register(root),
            WatchedRootKind::Workspace => self.workspace_root_ref_counts.register(root),
        }
    }

    /// Gives a directory up, and tells whether it need not be watched any
    /// more.
    pub fn unregister_root(&mut self, entry: &WatchRegistrationEntry) -> (unwatch: bool)
        ensures
            final(self).counts(entry.kind) == unregistered(
                old(self).counts(entry.kind),
                entry.root@,
            ),
            unwatch == asked_once(old(self).counts(entry.kind), entry.root@),
            forall|other: WatchedRootKind|
                other != entry.kind ==> #[trigger] final(self).counts(other) == old(self).counts(
                    other,
                ),
            tidy(old(self).counts(entry.kind)) ==> tidy(final(self).counts(entry.kind)),
            old(self).wf() ==> final(self).wf(),
    {
        match entry.kind {
            WatchedRootKind::Skills => self.skills_root_ref_counts.unregister(
                entry.root.as_str(),
            ),
            WatchedRootKind::Workspace => self.workspace_root_ref_counts.unregister(
                entry.root.as_str(),
            ),
        }
    }

    /// Gives the entries of a registration up, and names the directories that
    /// need not be watched any more.
    pub fn unregister_roots(&mut self, roots: &[WatchRegistrationEntry]) -> (out: Vec<String>)
        ensures
            (final(self).skills_root_ref_counts@, final(self).workspace_root_ref_counts@)
                == given_up(
                old(self).skills_root_ref_counts@,
                old(self).workspace_root_ref_counts@,
                roots@,
            ),
            text::texts(out@) == freed(
                old(self).skills_root_ref_counts@,
                old(self).workspace_root_ref_counts@,
                roots@,
            ),
            tidy(old(self).skills_root_ref_counts@) ==> tidy(final(self).skills_root_ref_counts@),
            tidy(old(self).workspace_root_ref_counts@) ==> tidy(
                final(self).workspace_root_ref_counts@,
            ),
    {
        let ghost skills = self.skills_root_ref_counts@;
        let ghost workspace = self.workspace_root_ref_counts@;
        let mut out: Vec<String> = Vec::new();
        let mut i: usize = 0;
        proof {
            assert(roots@.take(0) =~= Seq::<WatchRegistrationEntry>::empty());
            assert(text::texts(out@) =~= Seq::<Seq<char>>::empty());
        }
        while i < roots.len()
            invariant
                i <= roots@.len(),
                (self.skills_root_ref_counts@, self.workspace_root_ref_counts@) == given_up(
                    skills,
                    workspace,
                    roots@.take(i as int),
                ),
                text::texts(out@) == freed(skills, workspace, roots@.take(i as int)),
                tidy(skills) ==> tidy(self.skills_root_ref_counts@),
                tidy(workspace) ==> tidy(self.workspace_root_ref_counts@),
            decreases roots@.len() - i,
        {
            let ghost held = out@;
            proof {
                assert(roots@.take(i as int + 1).drop_last() =~= roots@.take(i as int));
                assert(roots@.take(i as int + 1).last() == roots@[i as int]);
                assert(self.counts(WatchedRootKind::Skills) == self.skills_root_ref_counts@);
                assert(self.counts(WatchedRootKind::Workspace)
                    == self.workspace_root_ref_counts@);
            }
            if self.unregister_root(&roots[i]) {
                out.push(roots[i].root.clone());
                proof {
                    assert(text::texts(out@) =~= text::texts(held).push(roots@[i as int].root@));
                }
            }
            proof {
                assert(self.counts(WatchedRootKind::Skills) == self.skills_root_ref_counts@);
                assert(self.counts(WatchedRootKind::Workspace)
                    == self.workspace_root_ref_counts@);
            }
            i += 1;
        }
        proof {
            assert(roots@.take(i as int) =~= roots@);
        }
        out
    }
}

/// Giving a registration of one directory up undoes it: the counts of both
/// kinds are what they were before.
pub proof fn giving_a_registration_up_undoes_it(
    before: WatchState,
    after: WatchState,
    entry: WatchRegistrationEntry,
)
    requires
        place(before.counts(entry.kind), entry.root@, 0) is Some ==> 0 < count(
            before.counts(entry.kind),
            entry.root@,
        ) < usize::MAX,
        after.counts(entry.kind) == registered(before.counts(entry.kind), entry.root@),
        forall|other: WatchedRootKind|
            other != entry.kind ==> #[trigger] after.counts(other) == before.counts(other),
    ensures
        given_up(
            after.skills_root_ref_counts@,
            after.workspace_root_ref_counts@,
            seq![entry],
        ) == (before.skills_root_ref_counts@, before.workspace_root_ref_counts@),
{
    unregistering_undoes_registering(before.counts(entry.kind), entry.root@);
    let others = seq![entry].drop_last();
    assert(others =~= Seq::<WatchRegistrationEntry>::empty());
    assert(seq![entry].last() == entry);
    assert(after.counts(WatchedRootKind::Skills) == after.skills_root_ref_counts@);
    assert(after.counts(WatchedRootKind::Workspace) == after.workspace_root_ref_counts@);
    reveal_with_fuel(given_up, 2);
}

/// The directories to register of a list: each once, in order.
pub fn roots_to_register(roots: &[String]) -> (out: Vec<String>)
    ensures
        text::texts(out@) == text_order::sorted_set(paths::deduped(text::texts(roots@))),
{
    text_order::sort_set(&paths::dedupe_paths(roots))
}

// ---------------------------------------------------------------------------
// What the watcher itself watches.

/// What is to be done so that a path is watched with all that is below it.
#[derive(Clone, Copy, Debug, PartialEq, Eq, Structural)]
pub enum WatchPlan {
    /// Nothing.
    Leave,
    /// Watch it.
    Watch,
    /// Stop watching it alone, and watch it with all that is below it.
    Widen,
}

/// Decides what is to be done so that a path is watched, given whether it is
/// there and whether it is watched already: with what is below it or alone.
pub fn watch_plan(is_there: bool, watched_recursively: Option<bool>, recursive: bool) -> (plan:
    WatchPlan)
    ensures
        plan == if !is_there {
            WatchPlan::Leave
        } else {
            match watched_recursively {
                None => WatchPlan::Watch,
                Some(held) => if held || held == recursive {
                    WatchPlan::Leave
                } else {
                    WatchPlan::Widen
                },
            }
        },
{
    if !is_there {
        return WatchPlan::Leave;
    }
    match watched_recursively {
        None => WatchPlan::Watch,
        Some(held) => if held || held == recursive {
            WatchPlan::Leave
        } else {
            WatchPlan::Widen
        },
    }
}

// ---------------------------------------------------------------------------
// How often roots are asked for.

proof fn lemma_place_found(counts: Seq<(Seq<char>, nat)>, root: Seq<char>, from: int)
    requires
        0 <= from <= counts.len(),
    ensures
        match place(counts, root, from) {
            Some(i) => from <= i < counts.len() && paths::same(counts[i].0, root) && forall|j: int|
                from <= j < i ==> !paths::same((#[trigger] counts[j]).0, root),
            None => forall|j: int|
                from <= j < counts.len() ==> !paths::same((#[trigger] counts[j]).0, root),
        },
    decreases counts.len() - from,
{
    if from < counts.len() && !paths::same(counts[from].0, root) {
        lemma_place_found(counts, root, from + 1);
    }
}

proof fn lemma_place_is(counts: Seq<(Seq<char>, nat)>, root: Seq<char>, k: int, from: int)
    requires
        0 <= from <= k < counts.len(),
        paths::same(counts[k].0, root),
        forall|j: int| from <= j < k ==> !paths::same((#[trigger] counts[j]).0, root),
    ensures
        place(counts, root, from) == Some(k),
    decreases k - from,
{
    if from < k {
        lemma_place_is(counts, root, k, from + 1);
    }
}

proof fn lemma_place_none(counts: Seq<(Seq<char>, nat)>, root: Seq<char>, from: int)
    requires
        0 <= from <= counts.len(),
        forall|j: int| from <= j < counts.len() ==> !paths::same((#[trigger] counts[j]).0, root),
    ensures
        place(counts, root, from) is None,
    decreases counts.len() - from,
{
    if from < counts.len() {
        lemma_place_none(counts, root, from + 1);
    }
}

/// Registering counts a root once more, and leaves the counts of all others as
/// they are.
pub proof fn registering_counts_up(
    counts: Seq<(Seq<char>, nat)>,
    root: Seq<char>,
    other: Seq<char>,
)
    requires
        count(counts, root) < usize::MAX,
        !paths::same(root, other),
    ensures
        count(registered(counts, root), root) == count(counts, root) + 1,
        count(registered(counts, root), other) == count(counts, other),
{
    let more = registered(counts, root);
    lemma_place_found(counts, root, 0);
    lemma_place_found(counts, other, 0);
    match place(counts, root, 0) {
        Some(i) => {
            assert forall|j: int| 0 <= j < counts.len() implies (#[trigger] more[j]).0
                == counts[j].0 by {}
            lemma_place_is(more, root, i, 0);
        },
        None => {
            let n = counts.len() as int;
            assert(more[n] == (root, 1nat));
            assert forall|j: int| 0 <= j < n implies #[trigger] more[j] == counts[j] by {}
            lemma_place_is(more, root, n, 0);
        },
    }
    match place(counts, other, 0) {
        Some(k) => {
            lemma_place_is(more, other, k, 0);
        },
        None => {
            lemma_place_none(more, other, 0);
        },
    }
}

/// Unregistering counts a root once less, down to none, and leaves the counts of
/// all others as they are; it is no longer watched just where it was asked for
/// once.
pub proof fn unregistering_counts_down(
    counts: Seq<(Seq<char>, nat)>,
    root: Seq<char>,
    other: Seq<char>,
)
    requires
        tidy(counts),
        !paths::same(root, other),
    ensures
        count(counts, root) > 0 ==> count(unregistered(counts, root), root) == count(counts, root)
            - 1,
        count(counts, root) == 0 ==> unregistered(counts, root) == counts,
        count(unregistered(counts, root), other) == count(counts, other),
        asked_once(counts, root) <==> count(counts, root) == 1,
{
    let less = unregistered(counts, root);
    lemma_place_found(counts, root, 0);
    lemma_place_found(counts, other, 0);
    match place(counts, root, 0) {
        Some(i) => {
            assert(counts[i].1 > 0);
            if counts[i].1 > 1 {
                assert forall|j: int| 0 <= j < counts.len() implies (#[trigger] less[j]).0
                    == counts[j].0 by {}
                lemma_place_is(less, root, i, 0);
                match place(counts, other, 0) {
                    Some(k) => {
                        lemma_place_is(less, other, k, 0);
                    },
                    None => {
                        lemma_place_none(less, other, 0);
                    },
                }
            } else {
                assert forall|j: int| 0 <= j < less.len() implies !paths::same(
                    (#[trigger] less[j]).0,
                    root,
                ) by {
                    let k = if j < i {
                        j
                    } else {
                        j + 1
                    };
                    assert(less[j] == counts[k]);
                    if paths::same(counts[k].0, root) {
                        assert(paths::same(counts[k].0, counts[i].0));
                    }
                }
                lemma_place_none(less, root, 0);
                match place(counts, other, 0) {
                    Some(k) => {
                        assert(k != i);
                        let m = if k < i {
                            k
                        } else {
                            k - 1
                        };
                        assert(less[m] == counts[k]);
                        assert forall|j: int| 0 <= j < m implies !paths::same(
                            (#[trigger] less[j]).0,
                            other,
                        ) by {
                            let q = if j < i {
                                j
                            } else {
                                j + 1
                            };
                            assert(less[j] == counts[q]);
                        }
                        lemma_place_is(less, other, m, 0);
                    },
                    None => {
                        assert forall|j: int| 0 <= j < less.len() implies !paths::same(
                            (#[trigger] less[j]).0,
                            other,
                        ) by {
                            let q = if j < i {
                                j
                            } else {
                                j + 1
                            };
                            assert(less[j] == counts[q]);
                        }
                        lemma_place_none(less, other, 0);
                    },
                }
            }
        },
        None => {},
    }
}

/// Registrations that are given up together are given up one by one, each among
/// the roots of its kind; those that nobody else asked for are freed.
pub proof fn registrations_are_given_up_one_by_one(
    skills: Seq<(Seq<char>, nat)>,
    workspace: Seq<(Seq<char>, nat)>,
    entries: Seq<WatchRegistrationEntry>,
    entry: WatchRegistrationEntry,
)
    ensures
        given_up(skills, workspace, Seq::empty()) == (skills, workspace),
        freed(skills, workspace, Seq::empty()).len() == 0,
        ({
            let before = given_up(skills, workspace, entries);
            let after = given_up(skills, workspace, entries.push(entry));
            let others = freed(skills, workspace, entries);
            let all = freed(skills, workspace, entries.push(entry));
            let counts = if entry.kind is Skills {
                before.0
            } else {
                before.1
            };
            &&& entry.kind is Skills ==> after == (unregistered(before.0, entry.root@), before.1)
            &&& entry.kind is Workspace ==> after == (before.0, unregistered(before.1, entry.root@))
            &&& asked_once(counts, entry.root@) ==> all == others.push(entry.root@)
            &&& !asked_once(counts, entry.root@) ==> all == others
        }),
{
    assert(entries.push(entry).drop_last() =~= entries);
}

} // verus!
