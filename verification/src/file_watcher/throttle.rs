//! Holding back bursts of changes, so that they are told at most once in a
//! while.

use vstd::prelude::*;

use crate::lsp::transport::LspWatchedFileChange;
use crate::lsp::transport::LspWatchedFileChangeKind;
use crate::moments;
use crate::paths;
use crate::text;
use crate::text_order;

verus! {

/// How long changes are held back.
pub const WATCHER_THROTTLE_INTERVAL: u128 = 10_000_000_000;

/// How long the timer waits where nothing is held back.
pub const IDLE_WAIT: u128 = 31_536_000_000_000_000;

// ---------------------------------------------------------------------------
// Paths.

/// Paths that are held back.
pub struct ThrottledPaths {
    pub pending: Vec<String>,
    pub next_allowed_at: u128,
}

/// The paths of a list with more of them, each once.
pub open spec fn extended(held: Seq<Seq<char>>, more: Seq<Seq<char>>) -> Seq<Seq<char>>
    decreases more.len(),
{
    if more.len() == 0 {
        held
    } else {
        let earlier = extended(held, more.drop_last());
        if paths::listed(earlier, more.last()) {
            earlier
        } else {
            earlier.push(more.last())
        }
    }
}

impl ThrottledPaths {
    /// What is held back.
    pub open spec fn held(&self) -> Seq<Seq<char>> {
        text::texts(self.pending@)
    }

    /// Nothing is held back.
    pub fn new(now: u128) -> (t: Self)
        ensures
            t.held() == Seq::<Seq<char>>::empty(),
            t.next_allowed_at == now,
    {
        let t = ThrottledPaths { pending: Vec::new(), next_allowed_at: now };
        proof {
            assert(t.held() =~= Seq::<Seq<char>>::empty());
        }
        t
    }

    /// Adds paths.
    pub fn add_paths(&mut self, more: &[String])
        ensures
            final(self).held() == extended(old(self).held(), text::texts(more@)),
            final(self).next_allowed_at == old(self).next_allowed_at,
    {
        let ghost start = self.held();
        let ghost all = text::texts(more@);
        let mut i: usize = 0;
        proof {
            assert(all.take(0) =~= seq![]);
        }
        while i < more.len()
            invariant
                i <= more@.len(),
                all == text::texts(more@),
                start == old(self).held(),
                self.held() == extended(start, all.take(i as int)),
                self.next_allowed_at == old(self).next_allowed_at,
            decreases more@.len() - i,
        {
            let ghost before = self.held();
            proof {
                assert(all.take(i + 1).drop_last() =~= all.take(i as int));
                assert(all.take(i + 1).last() == more@[i as int]@);
            }
            if !paths::is_listed(&self.pending, more[i].as_str()) {
                self.pending.push(more[i].clone());
                proof {
                    assert(self.held() =~= before.push(more@[i as int]@));
                }
            }
            i += 1;
        }
        proof {
            assert(all.take(i as int) =~= all);
        }
    }

    /// When what is held back can be told.
    pub fn next_deadline(&self, now: u128) -> (r: Option<u128>)
        ensures
            r == if self.held().len() > 0 && now < self.next_allowed_at {
                Some(self.next_allowed_at)
            } else {
                None
            },
    {
        if self.pending.len() > 0 && now < self.next_allowed_at {
            Some(self.next_allowed_at)
        } else {
            None
        }
    }

    fn take_with_next_allowed(&mut self, now: u128) -> (out: Vec<String>)
        ensures
            text::texts(out@) == text_order::sorted_set(old(self).held()),
            final(self).held() == Seq::<Seq<char>>::empty(),
            final(self).next_allowed_at == moments::after(now, WATCHER_THROTTLE_INTERVAL),
    {
        let out = text_order::sort_set(&self.pending);
        self.pending = Vec::new();
        self.next_allowed_at = moments::later(now, WATCHER_THROTTLE_INTERVAL);
        proof {
            assert(self.held() =~= Seq::<Seq<char>>::empty());
        }
        out
    }

    /// Takes what is held back, in order, where it can be told.
    pub fn take_ready(&mut self, now: u128) -> (r: Option<Vec<String>>)
        ensures
            match r {
                Some(out) => {
                    &&& old(self).held().len() > 0 && now >= old(self).next_allowed_at
                    &&& text::texts(out@) == text_order::sorted_set(old(self).held())
                    &&& final(self).held() == Seq::<Seq<char>>::empty()
                    &&& final(self).next_allowed_at == moments::after(now, WATCHER_THROTTLE_INTERVAL)
                },
                None => {
                    &&& old(self).held().len() == 0 || now < old(self).next_allowed_at
                    &&& *final(self) == *old(self)
                },
            },
    {
        if self.pending.len() == 0 || now < self.next_allowed_at {
            return None;
        }
        Some(self.take_with_next_allowed(now))
    }

    /// Takes what is held back, in order, whether or not it can be told yet.
    pub fn take_pending(&mut self, now: u128) -> (r: Option<Vec<String>>)
        ensures
            match r {
                Some(out) => {
                    &&& old(self).held().len() > 0
                    &&& text::texts(out@) == text_order::sorted_set(old(self).held())
                    &&& final(self).held() == Seq::<Seq<char>>::empty()
                    &&& final(self).next_allowed_at == moments::after(now, WATCHER_THROTTLE_INTERVAL)
                },
                None => {
                    &&& old(self).held().len() == 0
                    &&& *final(self) == *old(self)
                },
            },
    {
        if self.pending.len() == 0 {
            return None;
        }
        Some(self.take_with_next_allowed(now))
    }
}

// ---------------------------------------------------------------------------
// Changes in a workspace.

/// The views of changes.
pub open spec fn change_views(changes: Seq<LspWatchedFileChange>) -> Seq<
    (Seq<char>, LspWatchedFileChangeKind),
> {
    Seq::new(changes.len(), |i: int| (changes[i].path@, changes[i].kind))
}

/// The place of the first change of a path, from the `i`-th on.
pub open spec fn change_place(
    held: Seq<(Seq<char>, LspWatchedFileChangeKind)>,
    path: Seq<char>,
    i: int,
) -> Option<int>
    decreases held.len() - i,
{
    if i < 0 || i >= held.len() {
        None
    } else if paths::same(held[i].0, path) {
        Some(i)
    } else {
        change_place(held, path, i + 1)
    }
}

/// The changes with one more: the latest one of a path counts.
pub open spec fn with_change(
    held: Seq<(Seq<char>, LspWatchedFileChangeKind)>,
    change: (Seq<char>, LspWatchedFileChangeKind),
) -> Seq<(Seq<char>, LspWatchedFileChangeKind)> {
    match change_place(held, change.0, 0) {
        Some(i) => held.update(i, (held[i].0, change.1)),
        None => held.push(change),
    }
}

/// The changes with more of them.
pub open spec fn with_changes(
    held: Seq<(Seq<char>, LspWatchedFileChangeKind)>,
    more: Seq<(Seq<char>, LspWatchedFileChangeKind)>,
) -> Seq<(Seq<char>, LspWatchedFileChangeKind)>
    decreases more.len(),
{
    if more.len() == 0 {
        held
    } else {
        with_change(with_changes(held, more.drop_last()), more.last())
    }
}

/// The paths of changes.
pub open spec fn changed_paths(held: Seq<(Seq<char>, LspWatchedFileChangeKind)>) -> Seq<Seq<char>> {
    Seq::new(held.len(), |i: int| held[i].0)
}

/// What happened to a path, given as it is written in the changes.
pub open spec fn kind_at(
    held: Seq<(Seq<char>, LspWatchedFileChangeKind)>,
    path: Seq<char>,
    i: int,
) -> LspWatchedFileChangeKind
    decreases held.len() - i,
{
    if i < 0 || i >= held.len() {
        LspWatchedFileChangeKind::Changed
    } else if held[i].0 == path {
        held[i].1
    } else {
        kind_at(held, path, i + 1)
    }
}

/// The changes in the order of their paths.
pub open spec fn sorted_changes(held: Seq<(Seq<char>, LspWatchedFileChangeKind)>) -> Seq<
    (Seq<char>, LspWatchedFileChangeKind),
> {
    let order = text_order::sorted_set(changed_paths(held));
    Seq::new(order.len(), |i: int| (order[i], kind_at(held, order[i], 0)))
}

/// Changes that are held back.
pub struct ThrottledWorkspaceChanges {
    pub pending: Vec<LspWatchedFileChange>,
    pub next_allowed_at: u128,
}

impl ThrottledWorkspaceChanges {
    /// What is held back.
    pub open spec fn held(&self) -> Seq<(Seq<char>, LspWatchedFileChangeKind)> {
        change_views(self.pending@)
    }

    /// Nothing is held back.
    pub fn new(now: u128) -> (t: Self)
        ensures
            t.held() == Seq::<(Seq<char>, LspWatchedFileChangeKind)>::empty(),
            t.next_allowed_at == now,
    {
        let t = ThrottledWorkspaceChanges { pending: Vec::new(), next_allowed_at: now };
        proof {
            assert(t.held() =~= Seq::<(Seq<char>, LspWatchedFileChangeKind)>::empty());
        }
        t
    }

    fn find(&self, path: &str) -> (r: Option<usize>)
        ensures
            match r {
                Some(i) => change_place(self.held(), path@, 0) == Some(i as int) && i
                    < self.pending@.len(),
                None => change_place(self.held(), path@, 0) is None,
            },
    {
        let mut i: usize = 0;
        while i < self.pending.len()
            invariant
                i <= self.pending@.len(),
                change_place(self.held(), path@, 0) == change_place(self.held(), path@, i as int),
            decreases self.pending@.len() - i,
        {
            proof {
                assert(self.held()[i as int].0 == self.pending@[i as int].path@);
            }
            if paths::same_path(self.pending[i].path.as_str(), path) {
                return Some(i);
            }
            i += 1;
        }
        None
    }

    fn add_change(&mut self, change: &LspWatchedFileChange)
        ensures
            final(self).held() == with_change(old(self).held(), (change.path@, change.kind)),
            final(self).next_allowed_at == old(self).next_allowed_at,
    {
        let ghost before = self.held();
        match self.find(change.path.as_str()) {
            Some(i) => {
                let path = self.pending[i].path.clone();
                self.pending.set(i, LspWatchedFileChange { path, kind: change.kind });
                proof {
                    assert(self.held() =~= before.update(
                        i as int,
                        (before[i as int].0, change.kind),
                    ));
                }
            },
            None => {
                self.pending.push(
                    LspWatchedFileChange { path: change.path.clone(), kind: change.kind },
                );
                proof {
                    assert(self.held() =~= before.push((change.path@, change.kind)));
                }
            },
        }
    }

    /// Adds changes.
    pub fn add_changes(&mut self, more: &[LspWatchedFileChange])
        ensures
            final(self).held() == with_changes(old(self).held(), change_views(more@)),
            final(self).next_allowed_at == old(self).next_allowed_at,
    {
        let ghost start = self.held();
        let ghost all = change_views(more@);
        let mut i: usize = 0;
        proof {
            assert(all.take(0) =~= seq![]);
        }
        while i < more.len()
            invariant
                i <= more@.len(),
                all == change_views(more@),
                start == old(self).held(),
                self.held() == with_changes(start, all.take(i as int)),
                self.next_allowed_at == old(self).next_allowed_at,
            decreases more@.len() - i,
        {
            self.add_change(&more[i]);
            proof {
                assert(all.take(i + 1).drop_last() =~= all.take(i as int));
                assert(all.take(i + 1).last() == (more@[i as int].path@, more@[i as int].kind));
            }
            i += 1;
        }
        proof {
            assert(all.take(i as int) =~= all);
        }
    }

    /// When what is held back can be told.
    pub fn next_deadline(&self, now: u128) -> (r: Option<u128>)
        ensures
            r == if self.held().len() > 0 && now < self.next_allowed_at {
                Some(self.next_allowed_at)
            } else {
                None
            },
    {
        if self.pending.len() > 0 && now < self.next_allowed_at {
            Some(self.next_allowed_at)
        } else {
            None
        }
    }

    fn kind_of(&self, path: &str) -> (kind: LspWatchedFileChangeKind)
        ensures
            kind == kind_at(self.held(), path@, 0),
    {
        let mut i: usize = 0;
        while i < self.pending.len()
            invariant
                i <= self.pending@.len(),
                kind_at(self.held(), path@, 0) == kind_at(self.held(), path@, i as int),
            decreases self.pending@.len() - i,
        {
            proof {
                assert(self.held()[i as int] == (
                    self.pending@[i as int].path@,
                    self.pending@[i as int].kind,
                ));
            }
            if text::same_text(self.pending[i].path.as_str(), path) {
                return self.pending[i].kind;
            }
            i += 1;
        }
        LspWatchedFileChangeKind::Changed
    }

    fn sorted(&self) -> (out: Vec<LspWatchedFileChange>)
        ensures
            change_views(out@) == sorted_changes(self.held()),
    {
        let mut names: Vec<String> = Vec::new();
        let ghost all = changed_paths(self.held());
        let mut i: usize = 0;
        proof {
            assert(text::texts(names@) =~= all.take(0));
        }
        while i < self.pending.len()
            invariant
                i <= self.pending@.len(),
                all == changed_paths(self.held()),
                text::texts(names@) == all.take(i as int),
            decreases self.pending@.len() - i,
        {
            let ghost before = text::texts(names@);
            names.push(self.pending[i].path.clone());
            proof {
                assert(text::texts(names@) =~= before.push(all[i as int]));
                assert(text::texts(names@) =~= all.take(i + 1));
            }
            i += 1;
        }
        proof {
            assert(all.take(i as int) =~= all);
        }
        let order = text_order::sort_set(&names);
        let ghost told = sorted_changes(self.held());
        let mut out: Vec<LspWatchedFileChange> = Vec::new();
        let mut k: usize = 0;
        proof {
            assert(change_views(out@) =~= told.take(0));
        }
        while k < order.len()
            invariant
                k <= order@.len(),
                text::texts(order@) == text_order::sorted_set(changed_paths(self.held())),
                told == sorted_changes(self.held()),
                change_views(out@) == told.take(k as int),
            decreases order@.len() - k,
        {
            let ghost before = change_views(out@);
            proof {
                assert(text::texts(order@)[k as int] == order@[k as int]@);
            }
            let kind = self.kind_of(order[k].as_str());
            out.push(LspWatchedFileChange { path: order[k].clone(), kind });
            proof {
                assert(change_views(out@) =~= before.push(told[k as int]));
                assert(change_views(out@) =~= told.take(k + 1));
            }
            k += 1;
        }
        proof {
            assert(text::texts(order@).len() == order@.len());
            assert(told.take(k as int) =~= told);
        }
        out
    }

    fn take_with_next_allowed(&mut self, now: u128) -> (out: Vec<LspWatchedFileChange>)
        ensures
            change_views(out@) == sorted_changes(old(self).held()),
            final(self).held() == Seq::<(Seq<char>, LspWatchedFileChangeKind)>::empty(),
            final(self).next_allowed_at == moments::after(now, WATCHER_THROTTLE_INTERVAL),
    {
        let out = self.sorted();
        self.pending = Vec::new();
        self.next_allowed_at = moments::later(now, WATCHER_THROTTLE_INTERVAL);
        proof {
            assert(self.held() =~= Seq::<(Seq<char>, LspWatchedFileChangeKind)>::empty());
        }
        out
    }

    /// Takes what is held back, in order, where it can be told.
    pub fn take_ready(&mut self, now: u128) -> (r: Option<Vec<LspWatchedFileChange>>)
        ensures
            match r {
                Some(out) => {
                    &&& old(self).held().len() > 0 && now >= old(self).next_allowed_at
                    &&& change_views(out@) == sorted_changes(old(self).held())
                    &&& final(self).held() == Seq::<(Seq<char>, LspWatchedFileChangeKind)>::empty()
                    &&& final(self).next_allowed_at == moments::after(now, WATCHER_THROTTLE_INTERVAL)
                },
                None => {
                    &&& old(self).held().len() == 0 || now < old(self).next_allowed_at
                    &&& *final(self) == *old(self)
                },
            },
    {
        if self.pending.len() == 0 || now < self.next_allowed_at {
            return None;
        }
        Some(self.take_with_next_allowed(now))
    }

    /// Takes what is held back, in order, whether or not it can be told yet.
    pub fn take_pending(&mut self, now: u128) -> (r: Option<Vec<LspWatchedFileChange>>)
        ensures
            match r {
                Some(out) => {
                    &&& old(self).held().len() > 0
                    &&& change_views(out@) == sorted_changes(old(self).held())
                    &&& final(self).held() == Seq::<(Seq<char>, LspWatchedFileChangeKind)>::empty()
                    &&& final(self).next_allowed_at == moments::after(now, WATCHER_THROTTLE_INTERVAL)
                },
                None => {
                    &&& old(self).held().len() == 0
                    &&& *final(self) == *old(self)
                },
            },
    {
        if self.pending.len() == 0 {
            return None;
        }
        Some(self.take_with_next_allowed(now))
    }
}

// ---------------------------------------------------------------------------
// What holds of what is held back.

/// No path that is added is lost: it is held back, under its own name or under
/// another of the same path.
pub proof fn added_paths_are_held(held: Seq<Seq<char>>, more: Seq<Seq<char>>, p: Seq<char>)
    requires
        held.contains(p) || more.contains(p),
    ensures
        paths::listed(extended(held, more), p),
    decreases more.len(),
{
    let out = extended(held, more);
    if more.len() == 0 {
        let k = choose|k: int| 0 <= k < held.len() && held[k] == p;
        assert(paths::same(out[k], p));
    } else {
        let earlier = extended(held, more.drop_last());
        if more.last() == p {
            if !paths::listed(earlier, p) {
                assert(paths::same(out[earlier.len() as int], p));
            }
        } else {
            if more.contains(p) {
                let k = choose|k: int| 0 <= k < more.len() && more[k] == p;
                assert(more.drop_last()[k] == p);
            }
            added_paths_are_held(held, more.drop_last(), p);
            let k = choose|k: int| 0 <= k < earlier.len() && paths::same(#[trigger] earlier[k], p);
            assert(out[k] == earlier[k]);
        }
    }
}

/// What is told is just what was held back, in order, each path once.
pub proof fn told_paths_are_those_held(held: Seq<Seq<char>>)
    ensures
        text_order::strictly_in_order(text_order::sorted_set(held)),
        forall|p: Seq<char>| #[trigger]
            text_order::sorted_set(held).contains(p) <==> held.contains(p),
{
    text_order::sorted_sets_hold_their_texts(held);
}

// ---------------------------------------------------------------------------
// What is held.

proof fn lemma_change_place(
    held: Seq<(Seq<char>, LspWatchedFileChangeKind)>,
    path: Seq<char>,
    from: int,
)
    requires
        0 <= from <= held.len(),
    ensures
        match change_place(held, path, from) {
            Some(i) => from <= i < held.len() && paths::same(held[i].0, path) && forall|j: int|
                from <= j < i ==> !paths::same((#[trigger] held[j]).0, path),
            None => forall|j: int|
                from <= j < held.len() ==> !paths::same((#[trigger] held[j]).0, path),
        },
    decreases held.len() - from,
{
    if from < held.len() && !paths::same(held[from].0, path) {
        lemma_change_place(held, path, from + 1);
    }
}

/// Of two changes of a file the later one counts; the changes of other files are
/// kept, and a file that is not yet held comes last.
pub proof fn later_changes_count(
    held: Seq<(Seq<char>, LspWatchedFileChangeKind)>,
    more: Seq<(Seq<char>, LspWatchedFileChangeKind)>,
    path: Seq<char>,
    kind: LspWatchedFileChangeKind,
    i: int,
)
    requires
        0 <= i < held.len(),
    ensures
        with_changes(held, Seq::empty()) == held,
        with_changes(held, more.push((path, kind))) == with_change(
            with_changes(held, more),
            (path, kind),
        ),
        paths::same(held[i].0, path) && (forall|j: int|
            0 <= j < i ==> !paths::same((#[trigger] held[j]).0, path)) ==> with_change(
            held,
            (path, kind),
        )[i] == (held[i].0, kind),
        !paths::same(held[i].0, path) ==> with_change(held, (path, kind))[i] == held[i],
        (forall|j: int| 0 <= j < held.len() ==> !paths::same((#[trigger] held[j]).0, path))
            ==> with_change(held, (path, kind)) == held.push((path, kind)),
        with_change(held, (path, kind)).len() <= held.len() + 1,
{
    assert(more.push((path, kind)).drop_last() =~= more);
    lemma_change_place(held, path, 0);
}

/// A path is held once, however often it comes.
pub proof fn paths_are_held_once(held: Seq<Seq<char>>, more: Seq<Seq<char>>, path: Seq<char>)
    ensures
        extended(held, Seq::empty()) == held,
        paths::listed(extended(held, more), path) ==> extended(held, more.push(path)) == extended(
            held,
            more,
        ),
        !paths::listed(extended(held, more), path) ==> extended(held, more.push(path)) == extended(
            held,
            more,
        ).push(path),
{
    assert(more.push(path).drop_last() =~= more);
}

proof fn lemma_kind_at(held: Seq<(Seq<char>, LspWatchedFileChangeKind)>, k: int, from: int)
    requires
        0 <= from <= k < held.len(),
        forall|i: int, j: int|
            0 <= i < j < held.len() ==> (#[trigger] held[i]).0 != (#[trigger] held[j]).0,
    ensures
        kind_at(held, held[k].0, from) == held[k].1,
    decreases k - from,
{
    if from < k {
        assert(held[from].0 != held[k].0);
        lemma_kind_at(held, k, from + 1);
    }
}

/// The changes that are told are those that are held, each with its kind, in the
/// order of their paths.
pub proof fn told_changes_are_those_held(
    held: Seq<(Seq<char>, LspWatchedFileChangeKind)>,
    change: (Seq<char>, LspWatchedFileChangeKind),
)
    requires
        forall|i: int, j: int|
            0 <= i < j < held.len() ==> (#[trigger] held[i]).0 != (#[trigger] held[j]).0,
    ensures
        sorted_changes(held).contains(change) <==> held.contains(change),
        text_order::strictly_in_order(changed_paths(sorted_changes(held))),
{
    let list = changed_paths(held);
    let order = text_order::sorted_set(list);
    let told = sorted_changes(held);
    text_order::sorted_sets_hold_their_texts(list);
    told_paths_are_those_held(list);
    assert(changed_paths(told) =~= order);
    if held.contains(change) {
        let k = choose|k: int| 0 <= k < held.len() && held[k] == change;
        assert(list[k] == change.0);
        assert(list.contains(change.0));
        assert(order.contains(change.0));
        let m = choose|m: int| 0 <= m < order.len() && order[m] == change.0;
        lemma_kind_at(held, k, 0);
        assert(told[m] == change);
    }
    if told.contains(change) {
        let m = choose|m: int| 0 <= m < told.len() && told[m] == change;
        assert(order.contains(order[m]));
        assert(list.contains(order[m]));
        let k = choose|k: int| 0 <= k < list.len() && list[k] == order[m];
        lemma_kind_at(held, k, 0);
        assert(held[k] == change);
    }
}

/// What is held is told every ten seconds at most.
pub proof fn throttling_interval()
    ensures
        WATCHER_THROTTLE_INTERVAL == 10_000_000_000,
        IDLE_WAIT == 31_536_000_000_000_000,
{
}

} // verus!
