//! Which profile is held in memory, and who may use it. One profile is held at
//! a time: requests for it share one load, and requests for others wait.
use crate::shared::share;
use crate::units;
use std::sync::Arc;
use vstd::prelude::*;

verus! {

/// What tells versions of a file apart.
#[derive(Debug, Clone, Copy, PartialEq, Eq, Structural)]
pub struct FileFingerprint {
    /// Nanoseconds from the Unix epoch to the last change.
    pub modified_ns: i128,
    pub len: u64,
}

/// What tells versions of a profile and its symbols apart.
#[derive(Debug, Clone, Copy)]
pub struct ProfileFingerprint {
    pub profile: FileFingerprint,
    pub symbols: Option<FileFingerprint>,
}

impl ProfileFingerprint {
    /// Whether both tell of the same version.
    pub fn same(&self, other: &ProfileFingerprint) -> (r: bool)
        ensures
            r == (*self == *other),
    {
        let symbols: bool = match (self.symbols, other.symbols) {
            (Some(a), Some(b)) => a == b,
            (None, None) => true,
            _ => false,
        };
        self.profile == other.profile && symbols
    }
}

/// Whether two paths are the same.
fn same_path(a: &Vec<u8>, b: &Vec<u8>) -> (r: bool)
    ensures
        r == (a@ == b@),
{
    if a.len() != b.len() {
        return false;
    }
    let mut i: usize = 0;
    while i < a.len()
        invariant
            i <= a@.len() == b@.len(),
            forall|k: int| 0 <= k < i ==> a@[k] == b@[k],
        decreases a@.len() - i,
    {
        if a[i] != b[i] {
            return false;
        }
        i += 1;
    }
    assert(a@ =~= b@);
    true
}

/// A copy of a path.
fn copy_path(a: &Vec<u8>) -> (r: Vec<u8>)
    ensures
        r@ == a@,
{
    let mut r: Vec<u8> = Vec::new();
    let mut i: usize = 0;
    while i < a.len()
        invariant
            i <= a@.len(),
            r@ == a@.take(i as int),
        decreases a@.len() - i,
    {
        r.push(a[i]);
        i += 1;
    }
    assert(a@.take(a@.len() as int) =~= a@);
    r
}

/// Requests that wait for a path.
#[derive(Debug)]
pub struct PathWaiters {
    path: Vec<u8>,
    count: usize,
}

/// The profile in memory.
#[derive(Debug)]
pub struct ProfileCacheEntry<P> {
    path: Vec<u8>,
    fingerprint: ProfileFingerprint,
    profile: Arc<P>,
}

/// The profile in memory and the requests for profiles.
#[derive(Debug)]
pub struct ProfileCacheState<P> {
    entry: Option<ProfileCacheEntry<P>>,
    active_path: Option<Vec<u8>>,
    active_requests: usize,
    loading_path: Option<Vec<u8>>,
    waiters: Vec<PathWaiters>,
    loads_started: usize,
}

/// The profile in memory, as mathematics.
pub struct EntryFacts<P> {
    pub path: Seq<u8>,
    pub fingerprint: ProfileFingerprint,
    pub profile: P,
}

/// A state, as mathematics.
#[verifier::ext_equal]
pub struct CacheFacts<P> {
    /// The profile in memory.
    pub entry: Option<EntryFacts<P>>,
    /// The path that requests use at the moment.
    pub active_path: Option<Seq<u8>>,
    /// How many requests use it.
    pub active_requests: int,
    /// The path that is being loaded.
    pub loading_path: Option<Seq<u8>>,
    /// How many requests wait for a path.
    pub waiting: spec_fn(Seq<u8>) -> int,
    /// How many loads were started, as far as they can be counted.
    pub loads_started: usize,
}

/// What a request for a profile has to do next.
#[derive(Debug)]
pub enum CacheAction<P> {
    /// Wait until the state changes.
    Wait,
    /// Read the fingerprint of the file.
    ReadFingerprint,
    /// Use the profile, and give it back when done.
    Serve(Arc<P>),
    /// Load the profile, and tell how that went.
    Load,
}

/// What a request for a profile has to do next, as mathematics.
pub enum Decision<P> {
    Wait,
    ReadFingerprint,
    Serve(P),
    Load,
}

impl<P> CacheAction<P> {
    /// The decision behind the action.
    pub open spec fn decision(self) -> Decision<P> {
        match self {
            CacheAction::Wait => Decision::Wait,
            CacheAction::ReadFingerprint => Decision::ReadFingerprint,
            CacheAction::Serve(profile) => Decision::Serve(*profile),
            CacheAction::Load => Decision::Load,
        }
    }
}

impl<P> CacheFacts<P> {
    /// What always holds: a profile in use is the one in memory, and nothing is
    /// in memory or in use while another is loaded.
    pub open spec fn consistent(self) -> bool {
        &&& self.active_requests >= 0
        &&& self.active_requests > 0 <==> self.active_path is Some
        &&& self.active_path matches Some(path) ==> (self.entry matches Some(e) && e.path == path)
        &&& self.loading_path is Some ==> self.entry is None && self.active_requests == 0
        &&& forall|path: Seq<u8>| #[trigger] (self.waiting)(path) >= 0
    }

    /// What a request for a path has to do next, by the fingerprint of its file
    /// if that was just read.
    pub open spec fn decision(self, path: Seq<u8>, read: Option<ProfileFingerprint>) -> Decision<
        P,
    > {
        let resident = self.entry matches Some(e) && e.path == path;
        if self.loading_path is Some {
            Decision::Wait
        } else if resident && read is None {
            Decision::ReadFingerprint
        } else if resident && read == Some(self.entry->0.fingerprint) {
            Decision::Serve(self.entry->0.profile)
        } else if self.active_requests > 0 {
            Decision::Wait
        } else if !resident && (self.entry matches Some(e) && (self.waiting)(e.path) > 0) {
            Decision::Wait
        } else {
            Decision::Load
        }
    }

    /// The state with one more request that waits for a path.
    pub open spec fn with_waiter(self, path: Seq<u8>) -> Self {
        CacheFacts {
            waiting: |p: Seq<u8>|
                if p == path {
                    (self.waiting)(p) + 1
                } else {
                    (self.waiting)(p)
                },
            ..self
        }
    }

    /// The state with one request less that waits for a path.
    pub open spec fn without_waiter(self, path: Seq<u8>) -> Self {
        CacheFacts {
            waiting: |p: Seq<u8>|
                if p == path && (self.waiting)(p) > 0 {
                    (self.waiting)(p) - 1
                } else {
                    (self.waiting)(p)
                },
            ..self
        }
    }

    /// The state with one more request that uses the profile of a path.
    pub open spec fn with_user(self, path: Seq<u8>) -> Self {
        CacheFacts {
            active_path: Some(path),
            active_requests: self.active_requests + 1,
            ..self
        }
    }

    /// The state with one request less that uses a profile.
    pub open spec fn without_user(self) -> Self {
        CacheFacts {
            active_path: if self.active_requests == 1 {
                None
            } else {
                self.active_path
            },
            active_requests: self.active_requests - 1,
            ..self
        }
    }

    /// The state after a decision for a path.
    pub open spec fn after(self, path: Seq<u8>, decision: Decision<P>) -> Self {
        match decision {
            Decision::Wait => self,
            Decision::ReadFingerprint => self,
            Decision::Serve(_) => self.without_waiter(path).with_user(path),
            Decision::Load => CacheFacts {
                entry: None,
                loading_path: Some(path),
                loads_started: units::capped_count(self.loads_started + 1),
                ..self.without_waiter(path)
            },
        }
    }

    /// The state after a profile was loaded.
    pub open spec fn loaded(
        self,
        path: Seq<u8>,
        fingerprint: ProfileFingerprint,
        profile: P,
    ) -> Self {
        CacheFacts {
            entry: Some(EntryFacts { path, fingerprint, profile }),
            loading_path: None,
            ..self.with_user(path)
        }
    }

    /// The state after a profile could not be loaded.
    pub open spec fn load_failed(self) -> Self {
        CacheFacts { loading_path: None, ..self }
    }
}

/// How many of the first `n` entries wait for a path.
pub closed spec fn waiting_in(s: Seq<PathWaiters>, path: Seq<u8>, n: int) -> int
    decreases n,
{
    if n <= 0 {
        0
    } else {
        waiting_in(s, path, n - 1) + if s[n - 1].path@ == path {
            s[n - 1].count as int
        } else {
            0
        }
    }
}

/// Entries before a position count alike in sequences that agree on them.
proof fn lemma_waiting_prefix(a: Seq<PathWaiters>, b: Seq<PathWaiters>, path: Seq<u8>, n: int)
    requires
        0 <= n <= a.len(),
        n <= b.len(),
        forall|i: int| 0 <= i < n ==> a[i] == b[i],
    ensures
        waiting_in(a, path, n) == waiting_in(b, path, n),
        waiting_in(a, path, n) >= 0,
    decreases n,
{
    if n > 0 {
        lemma_waiting_prefix(a, b, path, n - 1);
    }
}

/// A count is no smaller than that of each of its entries.
proof fn lemma_waiting_covers(s: Seq<PathWaiters>, path: Seq<u8>, i: int, n: int)
    requires
        0 <= i < n <= s.len(),
        s[i].path@ == path,
    ensures
        waiting_in(s, path, n) >= s[i].count,
    decreases n,
{
    lemma_waiting_prefix(s, s, path, n - 1);
    if i < n - 1 {
        lemma_waiting_covers(s, path, i, n - 1);
    }
}

/// Takes one entry of a path out, and says how many it counted.
fn take_out(waiters: Vec<PathWaiters>, path: &Vec<u8>) -> (r: (Vec<PathWaiters>, usize))
    ensures
        forall|p: Seq<u8>| #[trigger]
            waiting_in(r.0@, p, r.0@.len() as int) == waiting_in(
                waiters@,
                p,
                waiters@.len() as int,
            ) - if p == path@ {
                r.1 as int
            } else {
                0
            },
        r.1 == 0 ==> waiting_in(waiters@, path@, waiters@.len() as int) == 0,
{
    let ghost all = waiters@;
    let mut rest: Vec<PathWaiters> = waiters;
    let mut kept: Vec<PathWaiters> = Vec::new();
    let mut count: usize = 0;
    while rest.len() > 0
        invariant
            forall|p: Seq<u8>| #[trigger]
                waiting_in(kept@, p, kept@.len() as int) == waiting_in(
                    all,
                    p,
                    all.len() as int,
                ) - waiting_in(rest@, p, rest@.len() as int) - if p == path@ {
                    count as int
                } else {
                    0
                },
            count == 0 ==> waiting_in(kept@, path@, kept@.len() as int) == 0,
        decreases rest@.len(),
    {
        let ghost before = rest@;
        let ghost kept_before = kept@;
        let ghost count_before = count;
        let last: PathWaiters = rest.pop().unwrap();
        let ghost item = last;
        if last.count > 0 {
            let wanted: bool = same_path(&last.path, path);
            if count == 0 && wanted {
                count = last.count;
            } else {
                kept.push(last);
            }
        }
        proof {
            assert forall|p: Seq<u8>| #[trigger]
                waiting_in(kept@, p, kept@.len() as int) == waiting_in(
                    all,
                    p,
                    all.len() as int,
                ) - waiting_in(rest@, p, rest@.len() as int) - (if p == path@ {
                    count as int
                } else {
                    0
                }) by {
                lemma_waiting_prefix(rest@, before, p, rest@.len() as int);
                lemma_waiting_prefix(kept@, kept_before, p, kept_before.len() as int);
                assert(waiting_in(kept_before, p, kept_before.len() as int) == waiting_in(
                    all,
                    p,
                    all.len() as int,
                ) - waiting_in(before, p, before.len() as int) - (if p == path@ {
                    count_before as int
                } else {
                    0
                }));
            }
            lemma_waiting_prefix(kept@, kept_before, path@, kept_before.len() as int);
        }
    }
    assert(waiting_in(rest@, path@, 0) == 0);
    assert(waiting_in(kept@, path@, kept@.len() as int) == waiting_in(
        all,
        path@,
        all.len() as int,
    ) - count);
    (kept, count)
}

/// Adds an entry.
fn put_in(waiters: &mut Vec<PathWaiters>, path: &Vec<u8>, count: usize)
    ensures
        forall|p: Seq<u8>| #[trigger]
            waiting_in(final(waiters)@, p, final(waiters)@.len() as int) == waiting_in(
                old(waiters)@,
                p,
                old(waiters)@.len() as int,
            ) + if p == path@ {
                count as int
            } else {
                0
            },
{
    let ghost before = waiters@;
    waiters.push(PathWaiters { path: copy_path(path), count });
    proof {
        assert forall|p: Seq<u8>| #[trigger]
            waiting_in(waiters@, p, waiters@.len() as int) == waiting_in(
                before,
                p,
                before.len() as int,
            ) + (if p == path@ {
                count as int
            } else {
                0
            }) by {
            lemma_waiting_prefix(waiters@, before, p, before.len() as int);
        }
    }
}

impl<P> ProfileCacheEntry<P> {
    /// What the entry says.
    pub closed spec fn facts(self) -> EntryFacts<P> {
        EntryFacts { path: self.path@, fingerprint: self.fingerprint, profile: *self.profile }
    }
}

/// A path as mathematics, where there is one.
pub open spec fn path_of(path: Option<Vec<u8>>) -> Option<Seq<u8>> {
    match path {
        Some(path) => Some(path@),
        None => None,
    }
}

impl<P> ProfileCacheState<P> {
    /// What the state says.
    pub closed spec fn facts(self) -> CacheFacts<P> {
        CacheFacts {
            entry: match self.entry {
                Some(e) => Some(e.facts()),
                None => None,
            },
            active_path: path_of(self.active_path),
            active_requests: self.active_requests as int,
            loading_path: path_of(self.loading_path),
            waiting: |p: Seq<u8>| waiting_in(self.waiters@, p, self.waiters@.len() as int),
            loads_started: self.loads_started,
        }
    }

    /// No profile and no requests.
    pub fn new() -> (r: Self)
        ensures
            r.facts() == (CacheFacts::<P> {
                entry: None,
                active_path: None,
                active_requests: 0,
                loading_path: None,
                waiting: |p: Seq<u8>| 0,
                loads_started: 0,
            }),
            r.facts().consistent(),
    {
        let r = ProfileCacheState {
            entry: None,
            active_path: None,
            active_requests: 0,
            loading_path: None,
            waiters: Vec::new(),
            loads_started: 0,
        };
        assert(r.facts().waiting =~= |p: Seq<u8>| 0int);
        r
    }

    /// How many requests use the profile in memory.
    pub fn users(&self) -> (r: usize)
        ensures
            r == self.facts().active_requests,
    {
        self.active_requests
    }

    /// How many loads were started, as far as they can be counted.
    pub fn loads(&self) -> (r: usize)
        ensures
            r == self.facts().loads_started,
    {
        self.loads_started
    }

    /// Whether a request waits for a path.
    pub fn is_awaited(&self, path: &Vec<u8>) -> (r: bool)
        ensures
            r == ((self.facts().waiting)(path@) > 0),
    {
        let mut i: usize = 0;
        while i < self.waiters.len()
            invariant
                i <= self.waiters@.len(),
                waiting_in(self.waiters@, path@, i as int) == 0,
            decreases self.waiters@.len() - i,
        {
            if self.waiters[i].count > 0 && same_path(&self.waiters[i].path, path) {
                proof {
                    lemma_waiting_covers(
                        self.waiters@,
                        path@,
                        i as int,
                        self.waiters@.len() as int,
                    );
                }
                return true;
            }
            i += 1;
        }
        false
    }

    /// Notes that a request waits for a path, if so many can be counted.
    pub fn arrive(&mut self, path: &Vec<u8>) -> (r: bool)
        ensures
            r ==> final(self).facts() == old(self).facts().with_waiter(path@),
            !r ==> final(self).facts() == old(self).facts(),
            (old(self).facts().waiting)(path@) < usize::MAX ==> r,
            old(self).facts().consistent() ==> final(self).facts().consistent(),
    {
        let ghost before = self.facts();
        let mut waiters: Vec<PathWaiters> = Vec::new();
        std::mem::swap(&mut waiters, &mut self.waiters);
        let ghost first = waiters@;
        let (mut rest, count) = take_out(waiters, path);
        proof {
            assert((before.waiting)(path@) == waiting_in(first, path@, first.len() as int));
            lemma_waiting_prefix(rest@, rest@, path@, rest@.len() as int);
            assert(waiting_in(rest@, path@, rest@.len() as int) >= 0);
        }
        if count == usize::MAX {
            put_in(&mut rest, path, count);
            self.waiters = rest;
            assert(self.facts().waiting =~= before.waiting);
            return false;
        }
        put_in(&mut rest, path, count + 1);
        self.waiters = rest;
        assert(self.facts().waiting =~= before.with_waiter(path@).waiting);
        true
    }

    /// Notes that a request no longer waits for a path.
    pub fn remove_profile_waiter(&mut self, path: &Vec<u8>)
        ensures
            final(self).facts() == old(self).facts().without_waiter(path@),
            old(self).facts().consistent() ==> final(self).facts().consistent(),
    {
        let ghost before = self.facts();
        let mut waiters: Vec<PathWaiters> = Vec::new();
        std::mem::swap(&mut waiters, &mut self.waiters);
        let ghost first = waiters@;
        let (mut rest, count) = take_out(waiters, path);
        let ghost middle = rest@;
        if count > 1 {
            put_in(&mut rest, path, count - 1);
        }
        self.waiters = rest;
        proof {
            assert forall|p: Seq<u8>| #[trigger]
                (self.facts().waiting)(p) == (before.without_waiter(path@).waiting)(p) by {
                lemma_waiting_prefix(middle, middle, p, middle.len() as int);
                assert(waiting_in(middle, p, middle.len() as int) >= 0);
            }
            assert(self.facts().waiting =~= before.without_waiter(path@).waiting);
        }
    }

    /// Decides what a request for a path has to do next, by the fingerprint of
    /// its file if that was just read, and notes it.
    pub fn step(&mut self, path: &Vec<u8>, read: Option<ProfileFingerprint>) -> (r: CacheAction<P>)
        requires
            old(self).facts().consistent(),
            old(self).facts().active_requests < usize::MAX,
        ensures
            r.decision() == old(self).facts().decision(path@, read),
            final(self).facts() == old(self).facts().after(path@, r.decision()),
            final(self).facts().consistent(),
    {
        let ghost before = self.facts();
        if self.loading_path.is_some() {
            return CacheAction::Wait;
        }
        let resident: bool = match &self.entry {
            Some(entry) => same_path(&entry.path, path),
            None => false,
        };
        if resident {
            match read {
                None => {
                    return CacheAction::ReadFingerprint;
                },
                Some(fingerprint) => {
                    let served: Option<Arc<P>> = match &self.entry {
                        Some(entry) => if entry.fingerprint.same(&fingerprint) {
                            Some(share(&entry.profile))
                        } else {
                            None
                        },
                        None => None,
                    };
                    if let Some(profile) = served {
                        self.remove_profile_waiter(path);
                        self.active_path = Some(copy_path(path));
                        self.active_requests = self.active_requests + 1;
                        assert(self.facts() =~= before.without_waiter(path@).with_user(path@));
                        return CacheAction::Serve(profile);
                    }
                },
            }
        }
        if self.active_requests > 0 {
            return CacheAction::Wait;
        }
        if !resident {
            let awaited: bool = match &self.entry {
                Some(entry) => self.is_awaited(&entry.path),
                None => false,
            };
            if awaited {
                return CacheAction::Wait;
            }
        }
        self.remove_profile_waiter(path);
        self.entry = None;
        self.loading_path = Some(copy_path(path));
        self.loads_started = units::capped_count_add(self.loads_started, 1);
        assert(self.facts() =~= before.after(path@, Decision::Load));
        CacheAction::Load
    }

    /// Notes that a profile was loaded, and that the request that loaded it
    /// uses it.
    pub fn finish_load(
        &mut self,
        path: &Vec<u8>,
        fingerprint: ProfileFingerprint,
        profile: Arc<P>,
    ) -> (r: Arc<P>)
        requires
            old(self).facts().consistent(),
            old(self).facts().loading_path == Some(path@),
        ensures
            final(self).facts() == old(self).facts().loaded(path@, fingerprint, *profile),
            final(self).facts().consistent(),
            *r == *profile,
    {
        let ghost before = self.facts();
        let served: Arc<P> = share(&profile);
        self.loading_path = None;
        self.entry = Some(ProfileCacheEntry { path: copy_path(path), fingerprint, profile });
        self.active_path = Some(copy_path(path));
        self.active_requests = self.active_requests + 1;
        assert(self.facts() =~= before.loaded(path@, fingerprint, *profile));
        served
    }

    /// Notes that a profile could not be loaded.
    pub fn fail_load(&mut self)
        requires
            old(self).facts().consistent(),
        ensures
            final(self).facts() == old(self).facts().load_failed(),
            final(self).facts().consistent(),
    {
        let ghost before = self.facts();
        self.loading_path = None;
        assert(self.facts() =~= before.load_failed());
    }

    /// Notes that a request gave the profile back, and says whether it was the
    /// last one that used it.
    pub fn release(&mut self) -> (r: bool)
        requires
            old(self).facts().consistent(),
            old(self).facts().active_requests > 0,
        ensures
            final(self).facts() == old(self).facts().without_user(),
            final(self).facts().consistent(),
            r == (final(self).facts().active_requests == 0),
    {
        let ghost before = self.facts();
        self.active_requests = self.active_requests - 1;
        if self.active_requests == 0 {
            self.active_path = None;
        }
        assert(self.facts() =~= before.without_user());
        self.active_requests == 0
    }
}

/// While a profile is in use, requests for other paths wait.
pub proof fn law_other_paths_wait<P>(
    c: CacheFacts<P>,
    path: Seq<u8>,
    read: Option<ProfileFingerprint>,
)
    requires
        c.consistent(),
        c.active_path is Some,
        c.active_path != Some(path),
    ensures
        c.decision(path, read) is Wait,
{
}

/// While a profile is loaded, every request waits, and no profile is in memory.
pub proof fn law_one_load_at_a_time<P>(
    c: CacheFacts<P>,
    path: Seq<u8>,
    read: Option<ProfileFingerprint>,
)
    requires
        c.consistent(),
        c.loading_path is Some,
    ensures
        c.decision(path, read) is Wait,
        c.entry is None,
{
}

/// Requests for a path share one load: once it is loaded, and as long as the
/// file does not change, a further request for it is served the same profile
/// and starts no load.
pub proof fn law_requests_share_a_load<P>(
    c: CacheFacts<P>,
    path: Seq<u8>,
    fingerprint: ProfileFingerprint,
    profile: P,
)
    requires
        c.consistent(),
        c.loading_path == Some(path),
    ensures
        ({
            let held = c.loaded(path, fingerprint, profile);
            &&& held.decision(path, None) is ReadFingerprint
            &&& held.decision(path, Some(fingerprint)) == Decision::Serve(profile)
            &&& held.after(path, Decision::Serve(profile)).loads_started == c.loads_started
        }),
{
}

/// A profile that is in memory and idle is served again as long as its file does
/// not change, without another load; once the file changes it is loaded again.
pub proof fn law_idle_profiles_are_served_again<P>(
    c: CacheFacts<P>,
    path: Seq<u8>,
    now: ProfileFingerprint,
)
    requires
        c.consistent(),
        c.loading_path is None,
        c.active_requests == 0,
        c.entry matches Some(e) && e.path == path,
    ensures
        c.decision(path, None) is ReadFingerprint,
        ({
            let d = c.decision(path, Some(now));
            let after = c.after(path, d);
            if now == c.entry->0.fingerprint {
                &&& d == Decision::Serve(c.entry->0.profile)
                &&& after.entry == c.entry
                &&& after.loads_started == c.loads_started
            } else {
                &&& d is Load
                &&& after.loading_path == Some(path)
                &&& after.loads_started == units::capped_count(c.loads_started + 1)
            }
        }),
{
}

/// A whole request for a path that no other request disturbs: the state after
/// it, and the profile that it is given. `now` is the fingerprint of the file at
/// the time, and `contents` what loading it would give. None where the request
/// has to wait.
pub open spec fn undisturbed<P>(
    c: CacheFacts<P>,
    path: Seq<u8>,
    now: ProfileFingerprint,
    contents: P,
) -> Option<(CacheFacts<P>, P)> {
    let arrived = c.with_waiter(path);
    let first = arrived.decision(path, None);
    let d = if first is ReadFingerprint {
        arrived.decision(path, Some(now))
    } else {
        first
    };
    match d {
        Decision::Serve(profile) => Some((arrived.after(path, d), profile)),
        Decision::Load => Some((arrived.after(path, d).loaded(path, now, contents), contents)),
        _ => None,
    }
}

/// After a request was given a profile and gave it back, the next request for
/// the path is given the same profile without a load if the file did not
/// change, and what the file then holds if it did.
pub proof fn law_requests_follow_the_file<P>(
    c: CacheFacts<P>,
    path: Seq<u8>,
    first: ProfileFingerprint,
    first_contents: P,
    now: ProfileFingerprint,
    contents: P,
)
    requires
        c.consistent(),
        c.active_requests == 0,
        undisturbed(c, path, first, first_contents) is Some,
    ensures
        ({
            let (held, profile) = undisturbed(c, path, first, first_contents)->0;
            match undisturbed(held.without_user(), path, now, contents) {
                Some((after, given)) => if now == first {
                    given == profile && after.loads_started == held.loads_started
                } else {
                    given == contents && after.loads_started == units::capped_count(
                        held.loads_started + 1,
                    )
                },
                None => false,
            }
        }),
{
}

/// A request for a file that changed is never served the old profile.
pub proof fn law_changed_files_are_not_served<P>(
    c: CacheFacts<P>,
    path: Seq<u8>,
    fingerprint: ProfileFingerprint,
)
    requires
        c.entry matches Some(e) ==> e.path != path || e.fingerprint != fingerprint,
    ensures
        !(c.decision(path, Some(fingerprint)) is Serve),
{
}

/// A profile that requests still wait for is not replaced by another one.
pub proof fn law_awaited_profiles_stay<P>(
    c: CacheFacts<P>,
    path: Seq<u8>,
    read: Option<ProfileFingerprint>,
)
    requires
        c.entry matches Some(e) && e.path != path && (c.waiting)(e.path) > 0,
    ensures
        c.after(path, c.decision(path, read)).entry == c.entry,
{
}

/// Once nobody uses a profile or waits for it, a request for another path loads.
pub proof fn law_idle_profiles_give_way<P>(
    c: CacheFacts<P>,
    path: Seq<u8>,
    read: Option<ProfileFingerprint>,
)
    requires
        c.consistent(),
        c.loading_path is None,
        c.active_requests == 0,
        c.entry matches Some(e) ==> e.path != path && (c.waiting)(e.path) == 0,
    ensures
        c.decision(path, read) is Load,
{
}

/// A file in memory with the version that was read.
#[derive(Debug)]
pub struct FileCache<P> {
    entry: Option<FileCacheEntry<P>>,
}

/// A file in memory.
#[derive(Debug)]
pub struct FileCacheEntry<P> {
    path: Vec<u8>,
    fingerprint: FileFingerprint,
    profile: Arc<P>,
}

impl<P> FileCache<P> {
    /// What is held for a path and a version.
    pub closed spec fn held(self) -> Option<(Seq<u8>, FileFingerprint, P)> {
        match self.entry {
            Some(e) => Some((e.path@, e.fingerprint, *e.profile)),
            None => None,
        }
    }

    /// Nothing in memory.
    pub fn new() -> (r: Self)
        ensures
            r.held() is None,
    {
        FileCache { entry: None }
    }

    /// What is held for a path and a version.
    pub fn get(&self, path: &Vec<u8>, fingerprint: &FileFingerprint) -> (r: Option<Arc<P>>)
        ensures
            match (r, self.held()) {
                (Some(found), Some(held)) => held == (path@, *fingerprint, *found),
                (Some(_), None) => false,
                (None, Some(held)) => held.0 != path@ || held.1 != *fingerprint,
                (None, None) => true,
            },
    {
        match &self.entry {
            Some(e) => if same_path(&e.path, path) && e.fingerprint == *fingerprint {
                Some(share(&e.profile))
            } else {
                None
            },
            None => None,
        }
    }

    /// Holds a file in place of what was held.
    pub fn put(&mut self, path: &Vec<u8>, fingerprint: FileFingerprint, profile: Arc<P>)
        ensures
            final(self).held() == Some((path@, fingerprint, *profile)),
    {
        self.entry = Some(FileCacheEntry { path: copy_path(path), fingerprint, profile });
    }
}

}
