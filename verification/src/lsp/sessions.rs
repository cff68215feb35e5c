//! The sessions with language servers that are kept between requests. A
//! session is known by a number.

use vstd::prelude::*;

use crate::moments;
use crate::lsp::transport;
use crate::paths;
use crate::text;

verus! {

/// How long a session may be idle where nothing else is said.
pub const DEFAULT_SESSION_IDLE_TIMEOUT_MS: u64 = 60_000;

/// How many sessions are kept where nothing else is said.
pub const DEFAULT_MAX_PERSISTENT_SESSIONS: usize = 2;

/// How many documents stay open where nothing else is said.
pub const DEFAULT_MAX_OPEN_DOCUMENTS: usize = 8;

/// How often idle sessions are looked for.
pub const SESSION_REAPER_INTERVAL_MS: u64 = 15_000;

// ---------------------------------------------------------------------------
// Configuration.

/// How sessions are kept.
#[derive(Clone, Copy, Debug, PartialEq, Eq, Structural)]
pub struct LspSessionManagerConfig {
    pub persistent_enabled: bool,
    pub idle_timeout: u128,
    pub max_sessions: usize,
    pub max_open_documents: usize,
}

/// Whether the value of a variable means yes.
pub open spec fn truthy(value: Option<Seq<char>>) -> bool {
    match value {
        Some(v) => {
            let said = text::lowered(text::trimmed(v));
            said == "1"@ || said == "true"@ || said == "yes"@ || said == "on"@
        },
        None => false,
    }
}

/// The number that a variable gives, where it is positive and not too large.
pub open spec fn positive(value: Option<Seq<char>>, max: nat, default: nat) -> nat {
    match value {
        Some(v) => match text::numeral_value(v) {
            Some(n) => if 0 < n <= max {
                n
            } else {
                default
            },
            None => default,
        },
        None => default,
    }
}

/// Whether the value of a variable means yes.
pub fn env_var_truthy(value: Option<&str>) -> (r: bool)
    ensures
        r == truthy(text::opt_str(value)),
{
    match value {
        Some(v) => {
            let chars = text::chars_of(v);
            let said = text::text_of(&text::lower(text::trim(&chars)));
            text::same_text(said.as_str(), "1") || text::same_text(said.as_str(), "true")
                || text::same_text(said.as_str(), "yes") || text::same_text(said.as_str(), "on")
        },
        None => false,
    }
}

/// The positive number that a variable gives, or the default.
pub fn positive_u64(value: Option<&str>, default: u64) -> (n: u64)
    ensures
        n == positive(text::opt_str(value), u64::MAX as nat, default as nat),
{
    match value {
        Some(v) => match text::parse_u64(&text::chars_of(v)) {
            Some(n) => if n > 0 {
                n
            } else {
                default
            },
            None => default,
        },
        None => default,
    }
}

/// The positive number that a variable gives, or the default.
pub fn positive_usize(value: Option<&str>, default: usize) -> (n: usize)
    ensures
        n == positive(text::opt_str(value), usize::MAX as nat, default as nat),
{
    match value {
        Some(v) => match text::parse_u64(&text::chars_of(v)) {
            Some(n) => if n > 0 && n <= usize::MAX as u64 {
                n as usize
            } else {
                default
            },
            None => default,
        },
        None => default,
    }
}

impl LspSessionManagerConfig {
    /// How sessions are kept, given what the environment says.
    pub fn from_env(
        disable_persistent: Option<&str>,
        idle_timeout: Option<&str>,
        max_sessions: Option<&str>,
        max_open_documents: Option<&str>,
    ) -> (c: Self)
        ensures
            c.persistent_enabled == !truthy(text::opt_str(disable_persistent)),
            c.idle_timeout == positive(
                text::opt_str(idle_timeout),
                u64::MAX as nat,
                DEFAULT_SESSION_IDLE_TIMEOUT_MS as nat,
            ) * 1_000_000,
            c.max_sessions == positive(
                text::opt_str(max_sessions),
                usize::MAX as nat,
                DEFAULT_MAX_PERSISTENT_SESSIONS as nat,
            ),
            c.max_open_documents == positive(
                text::opt_str(max_open_documents),
                usize::MAX as nat,
                DEFAULT_MAX_OPEN_DOCUMENTS as nat,
            ),
    {
        LspSessionManagerConfig {
            persistent_enabled: !env_var_truthy(disable_persistent),
            idle_timeout: moments::millis(
                positive_u64(idle_timeout, DEFAULT_SESSION_IDLE_TIMEOUT_MS),
            ),
            max_sessions: positive_usize(max_sessions, DEFAULT_MAX_PERSISTENT_SESSIONS),
            max_open_documents: positive_usize(max_open_documents, DEFAULT_MAX_OPEN_DOCUMENTS),
        }
    }
}

// ---------------------------------------------------------------------------
// The table.

/// A session that is kept.
#[derive(Debug)]
pub struct SessionEntry {
    pub provider_id: String,
    pub workspace_root: String,
    pub session: u64,
    pub last_used_at: u128,
    pub active_requests: usize,
}

/// What a [`SessionEntry`] stands for.
#[verifier::ext_equal]
pub ghost struct EntryView {
    pub provider_id: Seq<char>,
    pub workspace_root: Seq<char>,
    pub session: u64,
    pub last_used_at: u128,
    pub active_requests: usize,
}

impl View for SessionEntry {
    type V = EntryView;

    open spec fn view(&self) -> EntryView {
        EntryView {
            provider_id: self.provider_id@,
            workspace_root: self.workspace_root@,
            session: self.session,
            last_used_at: self.last_used_at,
            active_requests: self.active_requests,
        }
    }
}

impl EntryView {
    /// Whether the session serves a provider in a workspace.
    pub open spec fn is_for(self, provider_id: Seq<char>, root: Seq<char>) -> bool {
        self.provider_id == provider_id && paths::same(self.workspace_root, root)
    }

    /// Whether the session has not been used for too long.
    pub open spec fn stale(self, now: u128, idle_timeout: u128) -> bool {
        self.active_requests == 0 && moments::since(self.last_used_at, now) >= idle_timeout
    }
}

/// The views of a list of entries.
pub open spec fn entry_views(entries: Seq<SessionEntry>) -> Seq<EntryView> {
    Seq::new(entries.len(), |i: int| entries[i]@)
}

/// The first entry, from the `i`-th on, for a provider in a workspace.
pub open spec fn entry_for(
    entries: Seq<EntryView>,
    provider_id: Seq<char>,
    root: Seq<char>,
    i: int,
) -> Option<int>
    decreases entries.len() - i,
{
    if i < 0 || i >= entries.len() {
        None
    } else if entries[i].is_for(provider_id, root) {
        Some(i)
    } else {
        entry_for(entries, provider_id, root, i + 1)
    }
}

/// Whether no two entries serve the same provider in the same workspace.
pub open spec fn one_per_key(entries: Seq<EntryView>) -> bool {
    forall|i: int, j: int|
        0 <= i < entries.len() && 0 <= j < entries.len() && i != j ==> !(#[trigger] entries[i]).is_for(
            (#[trigger] entries[j]).provider_id,
            entries[j].workspace_root,
        )
}

/// The entries that are not stale.
pub open spec fn fresh(entries: Seq<EntryView>, now: u128, idle_timeout: u128) -> Seq<EntryView>
    decreases entries.len(),
{
    if entries.len() == 0 {
        seq![]
    } else {
        let earlier = fresh(entries.drop_last(), now, idle_timeout);
        if entries.last().stale(now, idle_timeout) {
            earlier
        } else {
            earlier.push(entries.last())
        }
    }
}

/// The sessions of the stale entries.
pub open spec fn stale_sessions(entries: Seq<EntryView>, now: u128, idle_timeout: u128) -> Seq<u64>
    decreases entries.len(),
{
    if entries.len() == 0 {
        seq![]
    } else {
        let earlier = stale_sessions(entries.drop_last(), now, idle_timeout);
        if entries.last().stale(now, idle_timeout) {
            earlier.push(entries.last().session)
        } else {
            earlier
        }
    }
}

/// Whether an entry is the one to give up for a new session: not in use, and
/// not used for the longest time.
pub open spec fn evictable(entries: Seq<EntryView>, i: int) -> bool {
    &&& 0 <= i < entries.len()
    &&& entries[i].active_requests == 0
    &&& forall|k: int|
        0 <= k < entries.len() && (#[trigger] entries[k]).active_requests == 0
            ==> entries[i].last_used_at <= entries[k].last_used_at
}

/// Whether no entry can be given up.
pub open spec fn all_in_use(entries: Seq<EntryView>) -> bool {
    forall|k: int| 0 <= k < entries.len() ==> (#[trigger] entries[k]).active_requests > 0
}

/// What is left after making room for one session, and the session given up.
pub open spec fn made_room(
    before: Seq<EntryView>,
    after: Seq<EntryView>,
    evicted: Option<u64>,
    max_sessions: nat,
) -> bool {
    if before.len() < max_sessions || all_in_use(before) {
        after == before && evicted is None
    } else {
        exists|i: int| #[trigger]
            evictable(before, i) && after == before.remove(i) && evicted == Some(before[i].session)
    }
}

/// The entries without the one at a place.
pub open spec fn without(entries: Seq<EntryView>, place: Option<int>) -> Seq<EntryView> {
    match place {
        Some(i) => entries.remove(i),
        None => entries,
    }
}

/// The session at a place.
pub open spec fn session_at(entries: Seq<EntryView>, place: Option<int>) -> Seq<u64> {
    match place {
        Some(i) => seq![entries[i].session],
        None => seq![],
    }
}

/// A session, or none.
pub open spec fn listed(session: Option<u64>) -> Seq<u64> {
    match session {
        Some(one) => seq![one],
        None => seq![],
    }
}

/// What is left, and which sessions are given up, where the session at a place
/// is of no use any more and room is made for another.
pub open spec fn gave_up(
    before: Seq<EntryView>,
    place: Option<int>,
    after: Seq<EntryView>,
    retired: Seq<u64>,
    max_sessions: nat,
) -> bool {
    exists|evicted: Option<u64>| #[trigger]
        made_room(without(before, place), after, evicted, max_sessions) && retired == session_at(
            before,
            place,
        ) + listed(evicted)
}

/// The entries once the session at a place serves one more request.
pub open spec fn taken_up(entries: Seq<EntryView>, i: int, now: u128) -> Seq<EntryView> {
    entries.update(
        i,
        EntryView {
            last_used_at: now,
            active_requests: next_count(entries[i].active_requests),
            ..entries[i]
        },
    )
}

/// The entries once a request has come to its end.
pub open spec fn finished_use(
    entries: Seq<EntryView>,
    provider_id: Seq<char>,
    root: Seq<char>,
    now: u128,
) -> Seq<EntryView> {
    match entry_for(entries, provider_id, root, 0) {
        Some(i) => entries.update(
            i,
            EntryView {
                last_used_at: now,
                active_requests: previous_count(entries[i].active_requests),
                ..entries[i]
            },
        ),
        None => entries,
    }
}

/// The entries with a session that was started for a request.
pub open spec fn with_session(
    entries: Seq<EntryView>,
    provider_id: Seq<char>,
    root: Seq<char>,
    session: u64,
    now: u128,
) -> Seq<EntryView> {
    entries.push(
        EntryView {
            provider_id,
            workspace_root: root,
            session,
            last_used_at: now,
            active_requests: 1,
        },
    )
}

/// What to do for a request.
#[derive(Clone, Copy, Debug, PartialEq, Eq, Structural)]
pub enum Checkout {
    /// Use this session.
    Reuse { session: u64 },
    /// Start a session and keep it.
    Start,
    /// Do without a session that is kept.
    Full,
}

/// The sessions that are kept.
pub struct SessionTable {
    pub entries: Vec<SessionEntry>,
}

impl SessionTable {
    /// What the table holds.
    pub open spec fn views(&self) -> Seq<EntryView> {
        entry_views(self.entries@)
    }

    /// No sessions.
    pub fn new() -> (t: Self)
        ensures
            t.views() == Seq::<EntryView>::empty(),
            one_per_key(t.views()),
    {
        let t = SessionTable { entries: Vec::new() };
        proof {
            assert(t.views() =~= Seq::<EntryView>::empty());
        }
        t
    }

    /// The place of the session for a provider in a workspace.
    pub fn find(&self, provider_id: &str, workspace_root: &str) -> (r: Option<usize>)
        ensures
            match r {
                Some(i) => entry_for(self.views(), provider_id@, workspace_root@, 0) == Some(
                    i as int,
                ) && i < self.entries@.len() && self.views()[i as int].is_for(
                    provider_id@,
                    workspace_root@,
                ),
                None => entry_for(self.views(), provider_id@, workspace_root@, 0) is None,
            },
    {
        let ghost all = self.views();
        let mut i: usize = 0;
        while i < self.entries.len()
            invariant
                i <= self.entries@.len(),
                all == self.views(),
                entry_for(all, provider_id@, workspace_root@, 0) == entry_for(
                    all,
                    provider_id@,
                    workspace_root@,
                    i as int,
                ),
            decreases self.entries@.len() - i,
        {
            let entry = &self.entries[i];
            proof {
                assert(all[i as int] == entry@);
            }
            if text::same_text(entry.provider_id.as_str(), provider_id) && paths::same_path(
                entry.workspace_root.as_str(),
                workspace_root,
            ) {
                return Some(i);
            }
            i += 1;
        }
        None
    }

    /// Drops the sessions that have not been used for too long, and names them.
    pub fn reap_idle_sessions(&mut self, now: u128, idle_timeout: u128) -> (retired: Vec<u64>)
        ensures
            final(self).views() == fresh(old(self).views(), now, idle_timeout),
            retired@ == stale_sessions(old(self).views(), now, idle_timeout),
            one_per_key(old(self).views()) ==> one_per_key(final(self).views()),
    {
        let ghost all = self.views();
        let mut retired: Vec<u64> = Vec::new();
        let mut kept: Vec<SessionEntry> = Vec::new();
        let mut left: Vec<SessionEntry> = Vec::new();
        std::mem::swap(&mut left, &mut self.entries);
        let ghost mut done: int = 0;
        proof {
            assert(entry_views(kept@) =~= fresh(all.take(0), now, idle_timeout));
            assert(retired@ =~= stale_sessions(all.take(0), now, idle_timeout));
            assert(all.skip(0) =~= all);
        }
        while left.len() > 0
            invariant
                0 <= done <= all.len(),
                entry_views(left@) == all.skip(done),
                entry_views(kept@) == fresh(all.take(done), now, idle_timeout),
                retired@ == stale_sessions(all.take(done), now, idle_timeout),
            decreases left@.len(),
        {
            let ghost rest = entry_views(left@);
            let ghost before = entry_views(kept@);
            proof {
                assert(rest.len() == left@.len());
                assert(rest[0] == all[done]);
                assert(rest[0] == left@[0]@);
                assert(all.take(done + 1).drop_last() =~= all.take(done));
                assert(all.take(done + 1).last() == all[done]);
            }
            let ghost ahead = left@;
            let entry = left.remove(0);
            let ghost view = entry@;
            if entry.active_requests == 0 && moments::elapsed(entry.last_used_at, now)
                >= idle_timeout {
                retired.push(entry.session);
            } else {
                kept.push(entry);
                proof {
                    assert(entry_views(kept@) =~= before.push(view));
                }
            }
            proof {
                assert forall|k: int| 0 <= k < left@.len() implies entry_views(left@)[k]
                    == #[trigger] all.skip(done + 1)[k] by {
                    assert(left@[k] == ahead[k + 1]);
                    assert(rest[k + 1] == all.skip(done)[k + 1]);
                }
                assert(entry_views(left@) =~= all.skip(done + 1));
                done = done + 1;
            }
        }
        self.entries = kept;
        proof {
            assert(all.skip(done).len() == 0);
            assert(all.take(done) =~= all);
            if one_per_key(all) {
                lemma_fresh_keys(all, now, idle_timeout);
            }
        }
        retired
    }

    /// Gives up one session where there are too many: one that is not in use,
    /// and has not been used for the longest time.
    pub fn evict_for_capacity(&mut self, max_sessions: usize) -> (evicted: Option<u64>)
        ensures
            made_room(old(self).views(), final(self).views(), evicted, max_sessions as nat),
            one_per_key(old(self).views()) ==> one_per_key(final(self).views()),
    {
        let ghost all = self.views();
        if self.entries.len() < max_sessions {
            return None;
        }
        let mut best: Option<usize> = None;
        let mut i: usize = 0;
        while i < self.entries.len()
            invariant
                i <= self.entries@.len(),
                all == self.views(),
                *self == *old(self),
                match best {
                    Some(b) => b < i && all[b as int].active_requests == 0 && forall|k: int|
                        0 <= k < i && (#[trigger] all[k]).active_requests == 0
                            ==> all[b as int].last_used_at <= all[k].last_used_at,
                    None => forall|k: int|
                        0 <= k < i ==> (#[trigger] all[k]).active_requests > 0,
                },
            decreases self.entries@.len() - i,
        {
            proof {
                assert(all[i as int] == self.entries@[i as int]@);
            }
            if self.entries[i].active_requests == 0 {
                let better: bool = match best {
                    Some(b) => {
                        proof {
                            assert(all[b as int] == self.entries@[b as int]@);
                        }
                        self.entries[i].last_used_at < self.entries[b].last_used_at
                    },
                    None => true,
                };
                if better {
                    best = Some(i);
                }
            }
            i += 1;
        }
        match best {
            Some(b) => {
                let entry = self.entries.remove(b);
                proof {
                    assert(evictable(all, b as int));
                    assert(self.views() =~= all.remove(b as int));
                    assert(!all_in_use(all));
                    if one_per_key(all) {
                        lemma_remove_keys(all, b as int);
                    }
                }
                Some(entry.session)
            },
            None => {
                proof {
                    assert(all_in_use(all));
                }
                None
            },
        }
    }

    /// Decides which session a request gets, and names those that are given up.
    /// `reusable` tells whether the session that is kept for the provider and
    /// the workspace still runs as it should.
    pub fn checkout_session(
        &mut self,
        provider_id: &str,
        workspace_root: &str,
        reusable: bool,
        now: u128,
        max_sessions: usize,
    ) -> (r: (Checkout, Vec<u64>))
        requires
            one_per_key(old(self).views()),
        ensures
            one_per_key(final(self).views()),
            match (entry_for(old(self).views(), provider_id@, workspace_root@, 0), reusable) {
                (Some(i), true) => {
                    let before = old(self).views()[i];
                    &&& r.0 == (Checkout::Reuse { session: before.session })
                    &&& r.1@.len() == 0
                    &&& final(self).views() == taken_up(old(self).views(), i, now)
                    &&& final(self).views() == old(self).views().update(
                        i,
                        (EntryView {
                            last_used_at: now,
                            active_requests: next_count(before.active_requests),
                            ..before
                        }),
                    )
                },
                (found, _) => {
                    &&& entry_for(final(self).views(), provider_id@, workspace_root@, 0) is None
                    &&& gave_up(
                        old(self).views(),
                        found,
                        final(self).views(),
                        r.1@,
                        max_sessions as nat,
                    )
                    &&& r.0 == if final(self).views().len() >= max_sessions {
                        Checkout::Full
                    } else {
                        Checkout::Start
                    }
                },
            },
    {
        let ghost all = self.views();
        let found = self.find(provider_id, workspace_root);
        let mut retired: Vec<u64> = Vec::new();
        let ghost place = entry_for(all, provider_id@, workspace_root@, 0);
        let ghost own = session_at(all, place);
        if let Some(i) = found {
            if reusable {
                let entry = self.entries.remove(i);
                let session: u64 = entry.session;
                let ghost before = entry@;
                let active: usize = if entry.active_requests < usize::MAX {
                    entry.active_requests + 1
                } else {
                    entry.active_requests
                };
                self.entries.insert(
                    i,
                    SessionEntry {
                        provider_id: entry.provider_id,
                        workspace_root: entry.workspace_root,
                        session,
                        last_used_at: now,
                        active_requests: active,
                    },
                );
                proof {
                    assert(all[i as int] == before);
                    assert(self.views() =~= all.update(
                        i as int,
                        EntryView {
                            last_used_at: now,
                            active_requests: next_count(before.active_requests),
                            ..before
                        },
                    ));
                    lemma_update_keys(all, i as int, self.views()[i as int]);
                }
                return (Checkout::Reuse { session }, retired);
            }
            let entry = self.entries.remove(i);
            retired.push(entry.session);
            proof {
                assert(self.views() =~= all.remove(i as int));
                lemma_remove_keys(all, i as int);
                lemma_no_entry_after_remove(all, provider_id@, workspace_root@, i as int);
            }
        }
        let ghost rest = self.views();
        proof {
            assert(retired@ =~= own);
        }
        let evicted = self.evict_for_capacity(max_sessions);
        proof {
            lemma_no_entry_after_room(
                rest,
                self.views(),
                evicted,
                max_sessions as nat,
                provider_id@,
                workspace_root@,
            );
        }
        if let Some(session) = evicted {
            retired.push(session);
        }
        proof {
            assert(retired@ =~= own + listed(evicted));
            assert(self.views().len() == self.entries@.len());
            assert(made_room(without(all, place), self.views(), evicted, max_sessions as nat));
            assert(gave_up(all, place, self.views(), retired@, max_sessions as nat));
        }
        if self.entries.len() >= max_sessions {
            (Checkout::Full, retired)
        } else {
            (Checkout::Start, retired)
        }
    }

    /// Keeps a session that was started for a request.
    pub fn register(&mut self, provider_id: &str, workspace_root: &str, session: u64, now: u128)
        requires
            one_per_key(old(self).views()),
            entry_for(old(self).views(), provider_id@, workspace_root@, 0) is None,
        ensures
            one_per_key(final(self).views()),
            final(self).views() == with_session(
                old(self).views(),
                provider_id@,
                workspace_root@,
                session,
                now,
            ),
            final(self).views() == old(self).views().push(
                (EntryView {
                    provider_id: provider_id@,
                    workspace_root: workspace_root@,
                    session,
                    last_used_at: now,
                    active_requests: 1,
                }),
            ),
    {
        let ghost all = self.views();
        self.entries.push(
            SessionEntry {
                provider_id: provider_id.to_string(),
                workspace_root: workspace_root.to_string(),
                session,
                last_used_at: now,
                active_requests: 1,
            },
        );
        proof {
            let added = EntryView {
                provider_id: provider_id@,
                workspace_root: workspace_root@,
                session,
                last_used_at: now,
                active_requests: 1,
            };
            assert(self.views() =~= all.push(added));
            lemma_push_keys(all, added);
        }
    }

    /// Notes that a request is done with the session for a provider in a
    /// workspace.
    pub fn finish_session_use(&mut self, provider_id: &str, workspace_root: &str, now: u128)
        ensures
            final(self).views() == finished_use(
                old(self).views(),
                provider_id@,
                workspace_root@,
                now,
            ),
            match entry_for(old(self).views(), provider_id@, workspace_root@, 0) {
                Some(i) => final(self).views() == old(self).views().update(
                    i,
                    (EntryView {
                        last_used_at: now,
                        active_requests: previous_count(old(self).views()[i].active_requests),
                        ..old(self).views()[i]
                    }),
                ),
                None => final(self).views() == old(self).views(),
            },
            one_per_key(old(self).views()) ==> one_per_key(final(self).views()),
    {
        let ghost all = self.views();
        if let Some(i) = self.find(provider_id, workspace_root) {
            let entry = self.entries.remove(i);
            let ghost before = entry@;
            let active: usize = if entry.active_requests > 0 {
                entry.active_requests - 1
            } else {
                0
            };
            self.entries.insert(
                i,
                SessionEntry {
                    provider_id: entry.provider_id,
                    workspace_root: entry.workspace_root,
                    session: entry.session,
                    last_used_at: now,
                    active_requests: active,
                },
            );
            proof {
                assert(all[i as int] == before);
                assert(self.views() =~= all.update(
                    i as int,
                    EntryView {
                        last_used_at: now,
                        active_requests: previous_count(before.active_requests),
                        ..before
                    },
                ));
                if one_per_key(all) {
                    lemma_update_keys(all, i as int, self.views()[i as int]);
                }
            }
        }
    }

    /// Drops the session for a provider in a workspace, and names it.
    pub fn discard_session(&mut self, provider_id: &str, workspace_root: &str) -> (session: Option<
        u64,
    >)
        ensures
            match entry_for(old(self).views(), provider_id@, workspace_root@, 0) {
                Some(i) => session == Some(old(self).views()[i].session) && final(self).views()
                    == old(self).views().remove(i),
                None => session is None && final(self).views() == old(self).views(),
            },
            one_per_key(old(self).views()) ==> one_per_key(final(self).views()),
    {
        let ghost all = self.views();
        match self.find(provider_id, workspace_root) {
            Some(i) => {
                let entry = self.entries.remove(i);
                proof {
                    assert(self.views() =~= all.remove(i as int));
                    if one_per_key(all) {
                        lemma_remove_keys(all, i as int);
                    }
                }
                Some(entry.session)
            },
            None => None,
        }
    }
}

impl SessionTable {
    /// Notes that every session was used just now, and names them.
    pub fn touch_all(&mut self, now: u128) -> (all: Vec<u64>)
        ensures
            final(self).views() == touched(old(self).views(), now),
            all@ == Seq::new(old(self).views().len(), |i: int| old(self).views()[i].session),
            one_per_key(old(self).views()) ==> one_per_key(final(self).views()),
    {
        let ghost before = self.views();
        let mut left: Vec<SessionEntry> = Vec::new();
        std::mem::swap(&mut left, &mut self.entries);
        let mut all: Vec<u64> = Vec::new();
        let mut out: Vec<SessionEntry> = Vec::new();
        let ghost entries = left@;
        while left.len() > 0
            invariant
                out@.len() + left@.len() == entries.len(),
                all@.len() == out@.len(),
                left@ == entries.skip(out@.len() as int),
                before == entry_views(entries),
                entry_views(out@) == touched(before, now).take(out@.len() as int),
                forall|i: int| 0 <= i < all@.len() ==> all@[i] == before[i].session,
            decreases left@.len(),
        {
            let ghost ahead = left@;
            let entry = left.remove(0);
            proof {
                assert(entry == entries[out@.len() as int]);
                assert(left@ =~= ahead.skip(1));
                assert(ahead.skip(1) =~= entries.skip(out@.len() as int + 1));
            }
            all.push(entry.session);
            out.push(
                SessionEntry {
                    provider_id: entry.provider_id,
                    workspace_root: entry.workspace_root,
                    session: entry.session,
                    last_used_at: now,
                    active_requests: entry.active_requests,
                },
            );
            proof {
                assert(entry_views(out@) =~= touched(before, now).take(out@.len() as int));
            }
        }
        self.entries = out;
        proof {
            assert(touched(before, now).take(out@.len() as int) =~= touched(before, now));
            assert(all@ =~= Seq::new(before.len(), |i: int| before[i].session));
            if one_per_key(before) {
                assert forall|i: int, j: int|
                    0 <= i < before.len() && 0 <= j < before.len() && i != j implies !(
                #[trigger] self.views()[i]).is_for(
                    (#[trigger] self.views()[j]).provider_id,
                    self.views()[j].workspace_root,
                ) by {
                    assert(!before[i].is_for(before[j].provider_id, before[j].workspace_root));
                }
            }
        }
        all
    }
}

/// The entries, all used just now.
pub open spec fn touched(entries: Seq<EntryView>, now: u128) -> Seq<EntryView> {
    Seq::new(entries.len(), |i: int| EntryView { last_used_at: now, ..entries[i] })
}

/// Decides whether a session is given up after a request: where it turned out
/// to be another one, where its settings could not be brought up to date, or
/// where the request failed and the server is gone or out of step.
pub fn discards_session(matches: bool, refreshed: bool, exited: bool, failure: Option<&str>) -> (r:
    bool)
    ensures
        r == (!matches || !refreshed || match text::opt_str(failure) {
            Some(message) => exited || transport::is_fatal(message),
            None => false,
        }),
{
    if !matches || !refreshed {
        return true;
    }
    match failure {
        Some(message) => exited || transport::should_discard_cached_session_after_error(message),
        None => false,
    }
}

/// One more request.
pub open spec fn next_count(n: usize) -> usize {
    if n < usize::MAX {
        (n + 1) as usize
    } else {
        n
    }
}

/// One request less.
pub open spec fn previous_count(n: usize) -> usize {
    if n > 0 {
        (n - 1) as usize
    } else {
        0
    }
}

proof fn lemma_fresh_members(entries: Seq<EntryView>, now: u128, idle: u128)
    ensures
        forall|i: int|
            0 <= i < fresh(entries, now, idle).len() ==> exists|k: int|
                0 <= k < entries.len() && #[trigger] entries[k] == #[trigger] fresh(
                    entries,
                    now,
                    idle,
                )[i],
    decreases entries.len(),
{
    if entries.len() > 0 {
        lemma_fresh_members(entries.drop_last(), now, idle);
        let kept = fresh(entries, now, idle);
        let earlier = fresh(entries.drop_last(), now, idle);
        assert forall|i: int| 0 <= i < kept.len() implies exists|k: int|
            0 <= k < entries.len() && #[trigger] entries[k] == #[trigger] kept[i] by {
            if i < earlier.len() {
                assert(kept[i] == earlier[i]);
                let k = choose|k: int|
                    0 <= k < entries.drop_last().len() && #[trigger] entries.drop_last()[k]
                        == #[trigger] earlier[i];
                assert(entries[k] == kept[i]);
            } else {
                assert(entries[entries.len() - 1] == kept[i]);
            }
        }
    }
}

proof fn lemma_fresh_keys(entries: Seq<EntryView>, now: u128, idle: u128)
    requires
        one_per_key(entries),
    ensures
        one_per_key(fresh(entries, now, idle)),
    decreases entries.len(),
{
    if entries.len() > 0 {
        let front = entries.drop_last();
        assert(one_per_key(front)) by {
            assert forall|i: int, j: int| 0 <= i < front.len() && 0 <= j < front.len() && i
                != j implies !(#[trigger] front[i]).is_for(
                (#[trigger] front[j]).provider_id,
                front[j].workspace_root,
            ) by {
                assert(front[i] == entries[i]);
                assert(front[j] == entries[j]);
            }
        }
        lemma_fresh_keys(front, now, idle);
        lemma_fresh_members(front, now, idle);
        let kept = fresh(entries, now, idle);
        let earlier = fresh(front, now, idle);
        let last = entries.len() - 1;
        assert forall|i: int, j: int| 0 <= i < kept.len() && 0 <= j < kept.len() && i
            != j implies !(#[trigger] kept[i]).is_for(
            (#[trigger] kept[j]).provider_id,
            kept[j].workspace_root,
        ) by {
            if i < earlier.len() && j < earlier.len() {
                assert(kept[i] == earlier[i]);
                assert(kept[j] == earlier[j]);
            } else if i < earlier.len() {
                assert(kept[i] == earlier[i]);
                let k = choose|k: int|
                    0 <= k < front.len() && #[trigger] front[k] == #[trigger] earlier[i];
                assert(entries[k] == kept[i]);
                assert(entries[last] == kept[j]);
            } else {
                assert(kept[j] == earlier[j]);
                let k = choose|k: int|
                    0 <= k < front.len() && #[trigger] front[k] == #[trigger] earlier[j];
                assert(entries[k] == kept[j]);
                assert(entries[last] == kept[i]);
            }
        }
    }
}

proof fn lemma_remove_keys(entries: Seq<EntryView>, at: int)
    requires
        one_per_key(entries),
        0 <= at < entries.len(),
    ensures
        one_per_key(entries.remove(at)),
{
    let rest = entries.remove(at);
    assert forall|i: int, j: int| 0 <= i < rest.len() && 0 <= j < rest.len() && i != j implies !(
    #[trigger] rest[i]).is_for((#[trigger] rest[j]).provider_id, rest[j].workspace_root) by {
        let a = if i < at {
            i
        } else {
            i + 1
        };
        let b = if j < at {
            j
        } else {
            j + 1
        };
        assert(rest[i] == entries[a]);
        assert(rest[j] == entries[b]);
    }
}

proof fn lemma_update_keys(entries: Seq<EntryView>, at: int, changed: EntryView)
    requires
        one_per_key(entries),
        0 <= at < entries.len(),
        changed.provider_id == entries[at].provider_id,
        changed.workspace_root == entries[at].workspace_root,
    ensures
        one_per_key(entries.update(at, changed)),
{
    let after = entries.update(at, changed);
    assert forall|i: int, j: int| 0 <= i < after.len() && 0 <= j < after.len() && i != j implies !(
    #[trigger] after[i]).is_for((#[trigger] after[j]).provider_id, after[j].workspace_root) by {
        assert(!entries[i].is_for(entries[j].provider_id, entries[j].workspace_root));
    }
}

proof fn lemma_entry_for(entries: Seq<EntryView>, provider_id: Seq<char>, root: Seq<char>, i: int)
    requires
        0 <= i,
    ensures
        match entry_for(entries, provider_id, root, i) {
            Some(k) => i <= k < entries.len() && entries[k].is_for(provider_id, root),
            None => forall|k: int|
                i <= k < entries.len() ==> !(#[trigger] entries[k]).is_for(provider_id, root),
        },
    decreases entries.len() - i,
{
    if i < entries.len() && !entries[i].is_for(provider_id, root) {
        lemma_entry_for(entries, provider_id, root, i + 1);
    }
}

proof fn lemma_none_for(entries: Seq<EntryView>, provider_id: Seq<char>, root: Seq<char>, i: int)
    requires
        0 <= i,
        forall|k: int|
            i <= k < entries.len() ==> !(#[trigger] entries[k]).is_for(provider_id, root),
    ensures
        entry_for(entries, provider_id, root, i) is None,
    decreases entries.len() - i,
{
    if i < entries.len() {
        lemma_none_for(entries, provider_id, root, i + 1);
    }
}

proof fn lemma_no_entry_after_remove(
    entries: Seq<EntryView>,
    provider_id: Seq<char>,
    root: Seq<char>,
    at: int,
)
    requires
        one_per_key(entries),
        0 <= at < entries.len(),
        entries[at].is_for(provider_id, root),
    ensures
        entry_for(entries.remove(at), provider_id, root, 0) is None,
{
    let rest = entries.remove(at);
    assert forall|k: int| 0 <= k < rest.len() implies !(#[trigger] rest[k]).is_for(
        provider_id,
        root,
    ) by {
        let a = if k < at {
            k
        } else {
            k + 1
        };
        assert(rest[k] == entries[a]);
        assert(!entries[a].is_for(entries[at].provider_id, entries[at].workspace_root));
    }
    lemma_none_for(rest, provider_id, root, 0);
}

proof fn lemma_no_entry_after_room(
    before: Seq<EntryView>,
    after: Seq<EntryView>,
    evicted: Option<u64>,
    max_sessions: nat,
    provider_id: Seq<char>,
    root: Seq<char>,
)
    requires
        made_room(before, after, evicted, max_sessions),
        entry_for(before, provider_id, root, 0) is None,
    ensures
        entry_for(after, provider_id, root, 0) is None,
{
    lemma_entry_for(before, provider_id, root, 0);
    if !(before.len() < max_sessions || all_in_use(before)) {
        let i = choose|i: int| #[trigger]
            evictable(before, i) && after == before.remove(i) && evicted == Some(before[i].session);
        assert forall|k: int| 0 <= k < after.len() implies !(#[trigger] after[k]).is_for(
            provider_id,
            root,
        ) by {
            let a = if k < i {
                k
            } else {
                k + 1
            };
            assert(after[k] == before[a]);
        }
        lemma_none_for(after, provider_id, root, 0);
    }
}

proof fn lemma_push_keys(entries: Seq<EntryView>, added: EntryView)
    requires
        one_per_key(entries),
        entry_for(entries, added.provider_id, added.workspace_root, 0) is None,
    ensures
        one_per_key(entries.push(added)),
{
    lemma_entry_for(entries, added.provider_id, added.workspace_root, 0);
    let after = entries.push(added);
    assert forall|i: int, j: int| 0 <= i < after.len() && 0 <= j < after.len() && i != j implies !(
    #[trigger] after[i]).is_for((#[trigger] after[j]).provider_id, after[j].workspace_root) by {
        if i < entries.len() && j < entries.len() {
            assert(!entries[i].is_for(entries[j].provider_id, entries[j].workspace_root));
        } else if i < entries.len() {
            assert(!entries[i].is_for(added.provider_id, added.workspace_root));
        } else {
            assert(!entries[j].is_for(added.provider_id, added.workspace_root));
        }
    }
}

/// Dropping idle sessions and making room never takes away a session that a
/// request is using.
pub proof fn sessions_in_use_are_kept(
    entries: Seq<EntryView>,
    now: u128,
    idle_timeout: u128,
    max_sessions: nat,
    after: Seq<EntryView>,
    evicted: Option<u64>,
    i: int,
)
    requires
        0 <= i < entries.len(),
        entries[i].active_requests > 0,
        made_room(entries, after, evicted, max_sessions),
    ensures
        fresh(entries, now, idle_timeout).contains(entries[i]),
        after.contains(entries[i]),
{
    lemma_fresh_keeps(entries, now, idle_timeout, i);
    if entries.len() < max_sessions || all_in_use(entries) {
        assert(after[i] == entries[i]);
    } else {
        let k = choose|k: int| #[trigger]
            evictable(entries, k) && after == entries.remove(k) && evicted == Some(
                entries[k].session,
            );
        if i < k {
            assert(after[i] == entries[i]);
        } else {
            assert(after[i - 1] == entries[i]);
        }
    }
}

proof fn lemma_fresh_keeps(entries: Seq<EntryView>, now: u128, idle: u128, i: int)
    requires
        0 <= i < entries.len(),
        entries[i].active_requests > 0,
    ensures
        fresh(entries, now, idle).contains(entries[i]),
    decreases entries.len(),
{
    let kept = fresh(entries, now, idle);
    let earlier = fresh(entries.drop_last(), now, idle);
    if i == entries.len() - 1 {
        assert(kept[kept.len() - 1] == entries[i]);
    } else {
        lemma_fresh_keeps(entries.drop_last(), now, idle, i);
        assert(entries.drop_last()[i] == entries[i]);
        let k = choose|k: int| 0 <= k < earlier.len() && earlier[k] == entries[i];
        assert(kept[k] == entries[i]);
    }
}

/// A session is started only where there is room for it, so that there are
/// never more than allowed.
pub proof fn sessions_stay_within_capacity(
    before: Seq<EntryView>,
    after: Seq<EntryView>,
    evicted: Option<u64>,
    max_sessions: nat,
    added: EntryView,
)
    requires
        made_room(before, after, evicted, max_sessions),
        after.len() < max_sessions,
    ensures
        after.push(added).len() <= max_sessions,
        after.len() <= before.len(),
{
}

// ---------------------------------------------------------------------------
// What happens to sessions.

/// Whether a session is not in use and was not used for as long as sessions may
/// stay idle.
pub open spec fn idle_too_long(entry: EntryView, now: u128, idle_timeout: u128) -> bool {
    entry.active_requests == 0 && if now > entry.last_used_at {
        now - entry.last_used_at >= idle_timeout
    } else {
        idle_timeout == 0
    }
}

/// Just the sessions that were idle for too long are retired, and just the
/// others are kept, in their order.
pub proof fn idle_sessions_are_retired(entries: Seq<EntryView>, now: u128, idle_timeout: u128)
    ensures
        fresh(entries, now, idle_timeout) == entries.filter(
            |entry: EntryView| !idle_too_long(entry, now, idle_timeout),
        ),
        stale_sessions(entries, now, idle_timeout) == entries.filter(
            |entry: EntryView| idle_too_long(entry, now, idle_timeout),
        ).map_values(|entry: EntryView| entry.session),
    decreases entries.len(),
{
    reveal(Seq::filter);
    let kept = |entry: EntryView| !idle_too_long(entry, now, idle_timeout);
    let gone = |entry: EntryView| idle_too_long(entry, now, idle_timeout);
    let session = |entry: EntryView| entry.session;
    if entries.len() > 0 {
        let fewer = entries.drop_last();
        idle_sessions_are_retired(fewer, now, idle_timeout);
        assert(fresh(fewer, now, idle_timeout) == fewer.filter(kept));
        let earlier = fewer.filter(gone);
        assert(stale_sessions(fewer, now, idle_timeout) == earlier.map_values(session));
        assert(entries.last().stale(now, idle_timeout) == idle_too_long(
            entries.last(),
            now,
            idle_timeout,
        ));
        assert(earlier.push(entries.last()).map_values(session) =~= earlier.map_values(
            session,
        ).push(entries.last().session));
    } else {
        assert(fresh(entries, now, idle_timeout) =~= entries.filter(kept));
        assert(stale_sessions(entries, now, idle_timeout) =~= entries.filter(gone).map_values(
            session,
        ));
    }
}

/// The session for a provider and a workspace is the first that was started for
/// both, and there is none only where none was.
pub proof fn sessions_are_found_by_provider_and_workspace(
    entries: Seq<EntryView>,
    provider_id: Seq<char>,
    root: Seq<char>,
    from: int,
)
    requires
        0 <= from <= entries.len(),
    ensures
        match entry_for(entries, provider_id, root, from) {
            Some(k) => from <= k < entries.len() && entries[k].provider_id == provider_id
                && paths::same(entries[k].workspace_root, root) && forall|j: int|
                from <= j < k ==> (#[trigger] entries[j]).provider_id != provider_id
                    || !paths::same(entries[j].workspace_root, root),
            None => forall|j: int|
                from <= j < entries.len() ==> (#[trigger] entries[j]).provider_id != provider_id
                    || !paths::same(entries[j].workspace_root, root),
        },
    decreases entries.len() - from,
{
    if from < entries.len() && !entries[from].is_for(provider_id, root) {
        sessions_are_found_by_provider_and_workspace(entries, provider_id, root, from + 1);
    }
}

/// Room is made only where there is none. Then one session goes, one that is not
/// in use, and of those the one that was used longest ago; the others stay, in
/// their order. Where all are in use none goes.
pub proof fn the_longest_unused_session_goes(
    before: Seq<EntryView>,
    after: Seq<EntryView>,
    evicted: Option<u64>,
    max_sessions: nat,
)
    requires
        made_room(before, after, evicted, max_sessions),
    ensures
        before.len() < max_sessions ==> after == before && evicted is None,
        (forall|k: int| 0 <= k < before.len() ==> (#[trigger] before[k]).active_requests > 0)
            ==> after == before && evicted is None,
        before.len() >= max_sessions && (exists|k: int|
            0 <= k < before.len() && (#[trigger] before[k]).active_requests == 0) ==> exists|i: int|
            0 <= i < before.len() && (#[trigger] before[i]).active_requests == 0 && evicted == Some(
                before[i].session,
            ) && after == before.take(i) + before.skip(i + 1) && forall|k: int|
                0 <= k < before.len() && (#[trigger] before[k]).active_requests == 0
                    ==> before[i].last_used_at <= before[k].last_used_at,
{
    if before.len() >= max_sessions && (exists|k: int|
        0 <= k < before.len() && (#[trigger] before[k]).active_requests == 0) {
        assert(!all_in_use(before));
        let i = choose|i: int| #[trigger]
            evictable(before, i) && after == before.remove(i) && evicted == Some(
                before[i].session,
            );
        assert(before.remove(i) =~= before.take(i) + before.skip(i + 1));
        assert(before[i].active_requests == 0);
    }
}

/// Touching sessions notes the moment for each and changes nothing else.
pub proof fn touching_notes_the_moment(entries: Seq<EntryView>, now: u128, i: int)
    requires
        0 <= i < entries.len(),
    ensures
        touched(entries, now).len() == entries.len(),
        touched(entries, now)[i].last_used_at == now,
        touched(entries, now)[i].provider_id == entries[i].provider_id,
        touched(entries, now)[i].workspace_root == entries[i].workspace_root,
        touched(entries, now)[i].session == entries[i].session,
        touched(entries, now)[i].active_requests == entries[i].active_requests,
{
}

/// What counts as a yes, and which numbers are taken: a numeral of a positive
/// number that is not too large, and otherwise the default.
pub proof fn settings_are_read(value: Seq<char>, n: nat, max: nat, default: nat)
    ensures
        !truthy(None),
        truthy(Some(value)) <==> {
            let said = text::lowered(text::trimmed(value));
            said == "1"@ || said == "true"@ || said == "yes"@ || said == "on"@
        },
        positive(None, max, default) == default,
        0 < n <= max ==> positive(Some(text::decimal(n)), max, default) == n,
        n == 0 || n > max ==> positive(Some(text::decimal(n)), max, default) == default,
        positive(Some(Seq::empty()), max, default) == default,
{
    text::numerals_denote_their_number(n);
    let digits = text::decimal(n);
    assert(text::is_digit(digits[0]));
    assert(text::numeral_digits(digits) == digits);
}

/// Unless something else is said, a session stays idle for a minute, two sessions
/// are kept with eight documents each, and idle ones are looked for every quarter
/// of a minute.
pub proof fn session_limits()
    ensures
        DEFAULT_SESSION_IDLE_TIMEOUT_MS == 60_000,
        DEFAULT_MAX_PERSISTENT_SESSIONS == 2,
        DEFAULT_MAX_OPEN_DOCUMENTS == 8,
        SESSION_REAPER_INTERVAL_MS == 15_000,
{
}

/// Requests are counted up and down by one, within what can be counted.
pub proof fn requests_are_counted(n: usize)
    ensures
        n < usize::MAX ==> next_count(n) == n + 1 && previous_count(next_count(n)) == n,
        n == usize::MAX ==> next_count(n) == n,
        n > 0 ==> previous_count(n) == n - 1,
        previous_count(0) == 0,
{
}


/// Where the session at a place is of no use any more, it is given up, with at
/// most one other, which nobody uses; every session that is not given up is
/// kept as it was.
pub proof fn useless_sessions_are_given_up(
    before: Seq<EntryView>,
    place: Option<int>,
    after: Seq<EntryView>,
    retired: Seq<u64>,
    max_sessions: nat,
    i: int,
)
    requires
        place matches Some(at) ==> 0 <= at < before.len(),
        gave_up(before, place, after, retired, max_sessions),
        0 <= i < before.len(),
    ensures
        place == Some(i) ==> retired.len() > 0 && retired[0] == before[i].session,
        retired.len() <= if place is Some {
            2nat
        } else {
            1nat
        },
        after.len() + retired.len() == before.len(),
        place != Some(i) && before[i].active_requests > 0 ==> after.contains(before[i]),
        after.contains(before[i]) || retired.contains(before[i].session),
        forall|k: int| 0 <= k < after.len() ==> before.contains(#[trigger] after[k]),
        place is None && before.len() < max_sessions ==> after == before && retired.len() == 0,
{
    let evicted = choose|evicted: Option<u64>| #[trigger]
        made_room(without(before, place), after, evicted, max_sessions) && retired == session_at(
            before,
            place,
        ) + listed(evicted);
    let rest = without(before, place);
    let own = session_at(before, place);
    if place == Some(i) {
        assert(retired[0] == own[0]);
        assert(retired.contains(retired[0]));
    } else {
        let j = if place is Some && place->Some_0 < i {
            i - 1
        } else {
            i
        };
        assert(rest[j] == before[i]);
        if !(rest.len() < max_sessions || all_in_use(rest)) {
            let e = choose|e: int| #[trigger]
                evictable(rest, e) && after == rest.remove(e) && evicted == Some(rest[e].session);
            if j == e {
                assert(retired.last() == before[i].session);
                assert(retired.contains(retired.last()));
            } else {
                assert(after[if j < e {
                    j
                } else {
                    j - 1
                }] == before[i]);
            }
        } else {
            assert(after[j] == before[i]);
        }
    }
    assert forall|k: int| 0 <= k < after.len() implies before.contains(#[trigger] after[k]) by {
        let there = if rest.len() < max_sessions || all_in_use(rest) {
            k
        } else {
            let e = choose|e: int| #[trigger]
                evictable(rest, e) && after == rest.remove(e) && evicted == Some(rest[e].session);
            if k < e {
                k
            } else {
                k + 1
            }
        };
        assert(after[k] == rest[there]);
        let first = if place is Some && place->Some_0 <= there {
            there + 1
        } else {
            there
        };
        assert(before[first] == after[k]);
    }
    if place is None && before.len() < max_sessions {
        assert(retired =~= Seq::<u64>::empty());
    }
}


/// A session that was started is found for its provider and workspace and
/// serves one request until that comes to its end; then it is in nobody's use
/// and may be found again. The other sessions stay as they were.
pub proof fn started_sessions_are_found(
    entries: Seq<EntryView>,
    provider_id: Seq<char>,
    root: Seq<char>,
    session: u64,
    started_at: u128,
    ended_at: u128,
    i: int,
)
    requires
        entry_for(entries, provider_id, root, 0) is None,
        0 <= i < entries.len(),
    ensures
        ({
            let during = with_session(entries, provider_id, root, session, started_at);
            let after = finished_use(during, provider_id, root, ended_at);
            let n = entries.len() as int;
            &&& during.len() == n + 1
            &&& after.len() == n + 1
            &&& entry_for(during, provider_id, root, 0) == Some(n)
            &&& entry_for(after, provider_id, root, 0) == Some(n)
            &&& during[n].session == session
            &&& during[n].active_requests == 1
            &&& during[n].last_used_at == started_at
            &&& after[n].session == session
            &&& after[n].active_requests == 0
            &&& after[n].last_used_at == ended_at
            &&& during[i] == entries[i]
            &&& after[i] == entries[i]
        }),
{
    let during = with_session(entries, provider_id, root, session, started_at);
    let n = entries.len() as int;
    sessions_are_found_by_provider_and_workspace(entries, provider_id, root, 0);
    sessions_are_found_by_provider_and_workspace(during, provider_id, root, 0);
    assert(during[n].is_for(provider_id, root));
    assert forall|j: int| 0 <= j < n implies during[j] == entries[j] by {}
    assert(entry_for(during, provider_id, root, 0) == Some(n));
    let after = finished_use(during, provider_id, root, ended_at);
    sessions_are_found_by_provider_and_workspace(after, provider_id, root, 0);
    assert(after[n].is_for(provider_id, root));
    assert forall|j: int| 0 <= j < n implies after[j] == entries[j] by {}
}

/// A session that is taken up for a request serves one more until the request
/// comes to its end, and as many as before then; it stays the same session at
/// the same place, and the others stay as they were.
pub proof fn sessions_are_taken_up_and_left(
    entries: Seq<EntryView>,
    provider_id: Seq<char>,
    root: Seq<char>,
    i: int,
    started_at: u128,
    ended_at: u128,
    j: int,
)
    requires
        entry_for(entries, provider_id, root, 0) == Some(i),
        entries[i].active_requests < usize::MAX,
        0 <= j < entries.len(),
        j != i,
    ensures
        ({
            let during = taken_up(entries, i, started_at);
            let after = finished_use(during, provider_id, root, ended_at);
            &&& during.len() == entries.len()
            &&& after.len() == entries.len()
            &&& entry_for(during, provider_id, root, 0) == Some(i)
            &&& entry_for(after, provider_id, root, 0) == Some(i)
            &&& during[i].session == entries[i].session
            &&& during[i].active_requests == entries[i].active_requests + 1
            &&& during[i].last_used_at == started_at
            &&& after[i].session == entries[i].session
            &&& after[i].active_requests == entries[i].active_requests
            &&& after[i].last_used_at == ended_at
            &&& during[j] == entries[j]
            &&& after[j] == entries[j]
        }),
{
    sessions_are_found_by_provider_and_workspace(entries, provider_id, root, 0);
    let during = taken_up(entries, i, started_at);
    sessions_are_found_by_provider_and_workspace(during, provider_id, root, 0);
    assert(during[i].is_for(provider_id, root));
    assert forall|k: int| 0 <= k < i implies (#[trigger] during[k]) == entries[k] by {}
    assert(entry_for(during, provider_id, root, 0) == Some(i)) by {
        match entry_for(during, provider_id, root, 0) {
            Some(k) => {
                if k < i {
                    assert(during[k] == entries[k]);
                }
            },
            None => {},
        }
    }
    let after = finished_use(during, provider_id, root, ended_at);
    sessions_are_found_by_provider_and_workspace(after, provider_id, root, 0);
    assert(after[i].is_for(provider_id, root));
    assert(entry_for(after, provider_id, root, 0) == Some(i)) by {
        match entry_for(after, provider_id, root, 0) {
            Some(k) => {
                if k < i {
                    assert(after[k] == entries[k]);
                }
            },
            None => {},
        }
    }
}

} // verus!
