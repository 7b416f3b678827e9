//! Sidecar bookkeeping: the handles a plugin holds on sidecar processes,
//! channels and named locks, and the registry that shares package-scoped
//! processes and named locks among the instances of a plugin.
use std::collections::BTreeMap;
use vstd::prelude::*;
use crate::events::PluginEventBus;
use crate::order::{lemma_seqs_lt_single, lemma_sorted_keys_unique, lemma_sorted_rows_in_key_order, OrderedRow, rows_sorted, sort_rows, str_lt};
use crate::sidecar::{
    strings_view, SidecarLaunchScope, SidecarLaunchSpec, SidecarTransportKind, SidecarTransportOption,
};
use crate::keyed::{
    keyed_distinct, keyed_map, lemma_keyed_absent, lemma_keyed_at, lemma_keyed_in_list,
    lemma_keyed_push, lemma_keyed_remove,
};
use crate::text::{dec_digits, join_with, push_decimal, push_str, string_of, trim_s, trim_string};

verus! {

/// The handle after `next`: one more, saturating, and never 0.
pub open spec fn next_rep(next: u32) -> u32 {
    if next == u32::MAX {
        u32::MAX
    } else if next + 1 == 0 {
        1
    } else {
        (next + 1) as u32
    }
}

fn alloc_rep(next: &mut u32) -> (rep: u32)
    ensures
        rep == *old(next),
        *final(next) == next_rep(*old(next)),
{
    let rep = *next;
    *next = (*next).saturating_add(1);
    if *next == 0 {
        *next = 1;
    }
    rep
}

/// The process a handle stands for: a package process shared through the
/// registry under its key, or one launched for this instance alone (the
/// launched process itself is kept by the caller under the same handle).
#[derive(Debug)]
pub enum SidecarProcessRef {
    Shared(SidecarProcessKey),
    Instance,
}

/// The key of a shared process: the plugin and the launch signature.
#[derive(Debug)]
pub struct SidecarProcessKey {
    pub plugin_id: String,
    pub signature: String,
}

/// The key of a named lock: the plugin and the trimmed lock name.
#[derive(Debug)]
pub struct SidecarLockKey {
    pub plugin_id: String,
    pub lock_name: String,
}

/// The text a missing handle is reported with.
pub open spec fn handle_missing_text(what: Seq<char>, rep: u32) -> Seq<char> {
    "sidecar "@ + what + " `"@ + dec_digits(rep as nat) + "` not found"@
}

/// Renders the report of a missing handle (`what` is say `process handle`).
pub fn handle_missing(what: &str, rep: u32) -> (s: String)
    ensures
        s@ == handle_missing_text(what@, rep),
{
    let mut v: Vec<char> = Vec::new();
    push_str(&mut v, "sidecar ");
    push_str(&mut v, what);
    push_str(&mut v, " `");
    push_decimal(&mut v, rep as u64);
    push_str(&mut v, "` not found");
    assert(v@ =~= handle_missing_text(what@, rep));
    string_of(&v)
}

/// The handles one plugin instance holds: numbered processes, channels and
/// lock guards, each numbered from 1 on.
#[derive(Debug)]
pub struct SidecarState {
    plugin_id: String,
    next_process_rep: u32,
    next_channel_rep: u32,
    next_lock_rep: u32,
    processes: BTreeMap<u32, SidecarProcessRef>,
    channels: BTreeMap<u32, ()>,
    locks: BTreeMap<u32, SidecarLockKey>,
}

impl SidecarState {
    pub closed spec fn plugin_spec(&self) -> Seq<char> {
        self.plugin_id@
    }

    pub closed spec fn processes_spec(&self) -> Map<u32, SidecarProcessRef> {
        self.processes@
    }

    pub closed spec fn channels_spec(&self) -> Set<u32> {
        self.channels@.dom()
    }

    pub closed spec fn locks_spec(&self) -> Map<u32, SidecarLockKey> {
        self.locks@
    }

    pub closed spec fn next_process_spec(&self) -> u32 {
        self.next_process_rep
    }

    pub closed spec fn next_channel_spec(&self) -> u32 {
        self.next_channel_rep
    }

    pub closed spec fn next_lock_spec(&self) -> u32 {
        self.next_lock_rep
    }

    /// The handles of a plugin instance that holds nothing yet.
    pub fn new(plugin_id: String) -> (s: SidecarState)
        ensures
            s.plugin_spec() == plugin_id@,
            s.processes_spec() == Map::<u32, SidecarProcessRef>::empty(),
            s.channels_spec() == Set::<u32>::empty(),
            s.locks_spec() == Map::<u32, SidecarLockKey>::empty(),
            s.next_process_spec() == 1,
            s.next_channel_spec() == 1,
            s.next_lock_spec() == 1,
    {
        let s = SidecarState {
            plugin_id,
            next_process_rep: 1,
            next_channel_rep: 1,
            next_lock_rep: 1,
            processes: BTreeMap::new(),
            channels: BTreeMap::new(),
            locks: BTreeMap::new(),
        };
        assert(s.channels@.dom() =~= Set::<u32>::empty());
        s
    }

    pub fn plugin_id(&self) -> (r: &str)
        ensures
            r@ == self.plugin_spec(),
    {
        self.plugin_id.as_str()
    }

    /// Numbers a process the instance now holds.
    pub fn add_process(&mut self, process: SidecarProcessRef) -> (rep: u32)
        ensures
            rep == old(self).next_process_spec(),
            final(self).next_process_spec() == next_rep(old(self).next_process_spec()),
            final(self).processes_spec() == old(self).processes_spec().insert(rep, process),
            final(self).channels_spec() == old(self).channels_spec(),
            final(self).locks_spec() == old(self).locks_spec(),
            final(self).next_channel_spec() == old(self).next_channel_spec(),
            final(self).next_lock_spec() == old(self).next_lock_spec(),
            final(self).plugin_spec() == old(self).plugin_spec(),
    {
        let rep = alloc_rep(&mut self.next_process_rep);
        self.processes.insert(rep, process);
        rep
    }

    /// The process behind a handle.
    pub fn process(&self, rep: u32) -> (r: Result<&SidecarProcessRef, String>)
        ensures
            match r {
                Ok(p) => self.processes_spec().contains_key(rep) && *p == self.processes_spec()[rep],
                Err(e) => !self.processes_spec().contains_key(rep) && e@ == handle_missing_text(
                    "process handle"@,
                    rep,
                ),
            },
    {
        match self.processes.get(&rep) {
            Some(p) => Ok(p),
            None => Err(handle_missing("process handle", rep)),
        }
    }

    /// Gives up a process handle (to terminate or drop the process).
    pub fn take_process(&mut self, rep: u32) -> (r: Result<SidecarProcessRef, String>)
        ensures
            match r {
                Ok(p) => old(self).processes_spec().contains_key(rep) && p == old(self).processes_spec()[rep]
                    && final(self).processes_spec() == old(self).processes_spec().remove(rep),
                Err(e) => !old(self).processes_spec().contains_key(rep) && final(self).processes_spec()
                    == old(self).processes_spec() && e@ == handle_missing_text("process handle"@, rep),
            },
            final(self).channels_spec() == old(self).channels_spec(),
            final(self).locks_spec() == old(self).locks_spec(),
            final(self).next_process_spec() == old(self).next_process_spec(),
            final(self).next_channel_spec() == old(self).next_channel_spec(),
            final(self).next_lock_spec() == old(self).next_lock_spec(),
            final(self).plugin_spec() == old(self).plugin_spec(),
    {
        match self.processes.remove(&rep) {
            Some(p) => Ok(p),
            None => Err(handle_missing("process handle", rep)),
        }
    }

    /// Numbers a channel the instance now holds.
    pub fn add_channel(&mut self) -> (rep: u32)
        ensures
            rep == old(self).next_channel_spec(),
            final(self).next_channel_spec() == next_rep(old(self).next_channel_spec()),
            final(self).channels_spec() == old(self).channels_spec().insert(rep),
            final(self).processes_spec() == old(self).processes_spec(),
            final(self).locks_spec() == old(self).locks_spec(),
            final(self).next_process_spec() == old(self).next_process_spec(),
            final(self).next_lock_spec() == old(self).next_lock_spec(),
            final(self).plugin_spec() == old(self).plugin_spec(),
    {
        let rep = alloc_rep(&mut self.next_channel_rep);
        let ghost before = self.channels@;
        self.channels.insert(rep, ());
        assert(self.channels@.dom() =~= before.dom().insert(rep));
        rep
    }

    /// Whether the instance holds the channel `rep`.
    pub fn check_channel(&self, rep: u32) -> (r: Result<(), String>)
        ensures
            match r {
                Ok(()) => self.channels_spec().contains(rep),
                Err(e) => !self.channels_spec().contains(rep) && e@ == handle_missing_text(
                    "channel handle"@,
                    rep,
                ),
            },
    {
        if self.channels.contains_key(&rep) {
            Ok(())
        } else {
            Err(handle_missing("channel handle", rep))
        }
    }

    /// Gives up a channel handle; says whether it was held.
    pub fn remove_channel(&mut self, rep: u32) -> (was: bool)
        ensures
            was == old(self).channels_spec().contains(rep),
            final(self).channels_spec() == old(self).channels_spec().remove(rep),
            final(self).processes_spec() == old(self).processes_spec(),
            final(self).locks_spec() == old(self).locks_spec(),
            final(self).next_process_spec() == old(self).next_process_spec(),
            final(self).next_channel_spec() == old(self).next_channel_spec(),
            final(self).next_lock_spec() == old(self).next_lock_spec(),
            final(self).plugin_spec() == old(self).plugin_spec(),
    {
        let ghost before = self.channels@;
        let r = self.channels.remove(&rep);
        assert(self.channels@.dom() =~= before.dom().remove(rep));
        r.is_some()
    }

    /// Numbers a lock guard the instance now holds.
    pub fn add_lock(&mut self, key: SidecarLockKey) -> (rep: u32)
        ensures
            rep == old(self).next_lock_spec(),
            final(self).next_lock_spec() == next_rep(old(self).next_lock_spec()),
            final(self).locks_spec() == old(self).locks_spec().insert(rep, key),
            final(self).processes_spec() == old(self).processes_spec(),
            final(self).channels_spec() == old(self).channels_spec(),
            final(self).next_process_spec() == old(self).next_process_spec(),
            final(self).next_channel_spec() == old(self).next_channel_spec(),
            final(self).plugin_spec() == old(self).plugin_spec(),
    {
        let rep = alloc_rep(&mut self.next_lock_rep);
        self.locks.insert(rep, key);
        rep
    }

    /// Gives up a lock guard, handing back the lock it held.
    pub fn take_lock(&mut self, rep: u32) -> (r: Result<SidecarLockKey, String>)
        ensures
            match r {
                Ok(k) => old(self).locks_spec().contains_key(rep) && k == old(self).locks_spec()[rep]
                    && final(self).locks_spec() == old(self).locks_spec().remove(rep),
                Err(e) => !old(self).locks_spec().contains_key(rep) && final(self).locks_spec()
                    == old(self).locks_spec() && e@ == handle_missing_text("lock guard"@, rep),
            },
            final(self).processes_spec() == old(self).processes_spec(),
            final(self).channels_spec() == old(self).channels_spec(),
            final(self).next_process_spec() == old(self).next_process_spec(),
            final(self).next_channel_spec() == old(self).next_channel_spec(),
            final(self).next_lock_spec() == old(self).next_lock_spec(),
            final(self).plugin_spec() == old(self).plugin_spec(),
    {
        match self.locks.remove(&rep) {
            Some(k) => Ok(k),
            None => Err(handle_missing("lock guard", rep)),
        }
    }
}

/// Handles are numbered 1, 2, 3, ... : below the top of `u32` each new handle
/// is one more than the last, so handles given out in a row differ.
pub proof fn law_handles_count_up(first: u32)
    requires
        1 <= first < u32::MAX,
    ensures
        next_rep(first) == first + 1,
        next_rep(first) != first,
        next_rep(first) != 0,
{
}

/// A process key as texts: (plugin id, launch signature).
pub open spec fn process_key_view() -> spec_fn(SidecarProcessKey) -> (Seq<char>, Seq<char>) {
    |k: SidecarProcessKey| (k.plugin_id@, k.signature@)
}

/// A lock key as texts: (plugin id, lock name).
pub open spec fn lock_key_view() -> spec_fn(SidecarLockKey) -> (Seq<char>, Seq<char>) {
    |k: SidecarLockKey| (k.plugin_id@, k.lock_name@)
}

pub open spec fn sat_inc(c: usize) -> usize {
    if c == usize::MAX {
        c
    } else {
        (c + 1) as usize
    }
}

/// What asking for a shared process found.
#[derive(Debug, Clone, Copy, PartialEq, Eq, Structural)]
pub enum ProcessAcquire {
    /// The process runs already; one more lease is held on it.
    Reused,
    /// No such process runs: the caller launches it and registers it.
    Launch,
}

/// What registering a launched process found.
#[derive(Debug, Clone, Copy, PartialEq, Eq, Structural)]
pub enum ProcessRegistered {
    /// The process is now shared under its key with one lease.
    Inserted,
    /// Another launch got there first: one more lease is held on that process,
    /// and the caller terminates the one it launched.
    AlreadyShared,
}

/// What releasing a lease on a shared process does.
#[derive(Debug, Clone, Copy, PartialEq, Eq, Structural)]
pub enum ProcessRelease {
    /// No process runs under the key.
    Missing,
    /// Other leases remain.
    LeaseReleased,
    /// The last lease went, but the plugin is active: the process stays.
    KeptAlive,
    /// The last lease went: the caller terminates the process.
    Terminate,
}

pub open spec fn acquire_step(m: Map<(Seq<char>, Seq<char>), usize>, k: (Seq<char>, Seq<char>)) -> (Map<(Seq<char>, Seq<char>), usize>, ProcessAcquire) {
    if m.contains_key(k) {
        (m.insert(k, sat_inc(m[k])), ProcessAcquire::Reused)
    } else {
        (m, ProcessAcquire::Launch)
    }
}

pub open spec fn register_step(m: Map<(Seq<char>, Seq<char>), usize>, k: (Seq<char>, Seq<char>)) -> (Map<(Seq<char>, Seq<char>), usize>, ProcessRegistered) {
    if m.contains_key(k) {
        (m.insert(k, sat_inc(m[k])), ProcessRegistered::AlreadyShared)
    } else {
        (m.insert(k, 1), ProcessRegistered::Inserted)
    }
}

pub open spec fn release_step(m: Map<(Seq<char>, Seq<char>), usize>, k: (Seq<char>, Seq<char>), plugin_active: bool) -> (Map<(Seq<char>, Seq<char>), usize>, ProcessRelease) {
    if !m.contains_key(k) {
        (m, ProcessRelease::Missing)
    } else if m[k] > 1 {
        (m.insert(k, (m[k] - 1) as usize), ProcessRelease::LeaseReleased)
    } else if plugin_active {
        (m.insert(k, 0), ProcessRelease::KeptAlive)
    } else {
        (m.remove(k), ProcessRelease::Terminate)
    }
}

/// Taking a named lock: it is taken where it is not held.
pub open spec fn lock_take_step(m: Map<(Seq<char>, Seq<char>), bool>, k: (Seq<char>, Seq<char>)) -> (Map<(Seq<char>, Seq<char>), bool>, bool) {
    if m.contains_key(k) && m[k] {
        (m, false)
    } else {
        (m.insert(k, true), true)
    }
}

/// Releasing a named lock: a held lock becomes free and a waiter is woken.
pub open spec fn lock_release_step(m: Map<(Seq<char>, Seq<char>), bool>, k: (Seq<char>, Seq<char>)) -> (Map<(Seq<char>, Seq<char>), bool>, bool) {
    if m.contains_key(k) && m[k] {
        (m.insert(k, false), true)
    } else {
        (m, false)
    }
}

/// The result of asking for a named lock.
#[derive(Debug)]
pub enum LockAttempt {
    /// The lock is now held under this key.
    Acquired(SidecarLockKey),
    /// Someone holds it: the caller waits and tries again under this key.
    Busy(SidecarLockKey),
}

/// `removed` lists a key with the texts `k`.
pub open spec fn lists_key(removed: Seq<SidecarProcessKey>, k: (Seq<char>, Seq<char>)) -> bool {
    exists|j: int| 0 <= j < removed.len() && (process_key_view())(#[trigger] removed[j]) == k
}

/// The processes that the instances of each plugin share, the active
/// plugins, and the named locks of each plugin.
#[derive(Debug)]
pub struct PackageSidecarRegistry {
    plugin_refs: PluginEventBus,
    processes: Vec<(SidecarProcessKey, usize)>,
    locks: Vec<(SidecarLockKey, bool)>,
}

impl PackageSidecarRegistry {
    pub closed spec fn wf(&self) -> bool {
        &&& self.plugin_refs.wf()
        &&& keyed_distinct(self.processes@, process_key_view())
        &&& keyed_distinct(self.locks@, lock_key_view())
    }

    /// How many activations each plugin has.
    pub closed spec fn refs_spec(&self) -> Map<Seq<char>, usize> {
        self.plugin_refs@
    }

    /// The leases held on each shared process.
    pub closed spec fn leases_spec(&self) -> Map<(Seq<char>, Seq<char>), usize> {
        keyed_map(self.processes@, process_key_view())
    }

    /// Whether each named lock is held.
    pub closed spec fn locks_spec(&self) -> Map<(Seq<char>, Seq<char>), bool> {
        keyed_map(self.locks@, lock_key_view())
    }

    /// A registry with no plugin, process or lock.
    pub fn new() -> (r: PackageSidecarRegistry)
        ensures
            r.wf(),
            r.refs_spec() == Map::<Seq<char>, usize>::empty(),
            r.leases_spec() == Map::<(Seq<char>, Seq<char>), usize>::empty(),
            r.locks_spec() == Map::<(Seq<char>, Seq<char>), bool>::empty(),
    {
        PackageSidecarRegistry { plugin_refs: PluginEventBus::new(), processes: Vec::new(), locks: Vec::new() }
    }

    /// A plugin (trimmed id; blank ids are ignored) was activated once more.
    pub fn plugin_activated(&mut self, plugin_id: &str)
        requires
            old(self).wf(),
        ensures
            final(self).wf(),
            trim_s(plugin_id@).len() == 0 ==> final(self).refs_spec() == old(self).refs_spec(),
            trim_s(plugin_id@).len() > 0 ==> final(self).refs_spec() == old(self).refs_spec().insert(
                trim_s(plugin_id@),
                if old(self).refs_spec().contains_key(trim_s(plugin_id@)) {
                    sat_inc(old(self).refs_spec()[trim_s(plugin_id@)])
                } else {
                    1usize
                },
            ),
            final(self).leases_spec() == old(self).leases_spec(),
            final(self).locks_spec() == old(self).locks_spec(),
    {
        let id = trim_string(plugin_id);
        if id.as_str().is_empty() {
            return;
        }
        self.plugin_refs.acquire_plugin(id.as_str());
    }

    /// Whether the plugin `plugin_id` (as given) is active.
    pub fn is_plugin_active(&self, plugin_id: &String) -> (r: bool)
        requires
            self.wf(),
        ensures
            r == (self.refs_spec().contains_key(plugin_id@) && self.refs_spec()[plugin_id@] > 0),
    {
        match self.plugin_refs.count_of(plugin_id) {
            Some(c) => c > 0,
            None => false,
        }
    }

    fn process_index(&self, key: &SidecarProcessKey) -> (r: Option<usize>)
        ensures
            match r {
                Some(i) => i < self.processes@.len() && (process_key_view())(self.processes@[i as int].0)
                    == (process_key_view())(*key),
                None => forall|i: int|
                    0 <= i < self.processes@.len() ==> (process_key_view())(#[trigger] self.processes@[i].0)
                        != (process_key_view())(*key),
            },
    {
        let mut i: usize = 0;
        while i < self.processes.len()
            invariant
                i <= self.processes@.len(),
                forall|j: int|
                    0 <= j < i ==> (process_key_view())(#[trigger] self.processes@[j].0) != (process_key_view())(*key),
            decreases self.processes@.len() - i,
        {
            if self.processes[i].0.plugin_id == key.plugin_id && self.processes[i].0.signature == key.signature {
                return Some(i);
            }
            i = i + 1;
        }
        None
    }

    /// Puts the lease count of the process at `i` to `c`.
    fn set_lease(&mut self, i: usize, c: usize)
        requires
            old(self).wf(),
            i < old(self).processes@.len(),
        ensures
            final(self).wf(),
            final(self).leases_spec() == old(self).leases_spec().insert((process_key_view())(old(self).processes@[i as int].0), c),
            final(self).refs_spec() == old(self).refs_spec(),
            final(self).locks_spec() == old(self).locks_spec(),
    {
        let ghost s = self.processes@;
        proof {
            lemma_keyed_remove(s, process_key_view(), i as int);
        }
        let (k, _) = self.processes.remove(i);
        proof {
            lemma_keyed_push(self.processes@, process_key_view(), (k, c));
        }
        self.processes.push((k, c));
        assert(keyed_map(self.processes@, process_key_view()) =~= keyed_map(s, process_key_view()).insert((process_key_view())(s[i as int].0), c));
    }

    /// Asks for the shared process under `key`: a running one gets one more
    /// lease; otherwise the caller is to launch it.
    pub fn acquire_process(&mut self, key: &SidecarProcessKey) -> (r: ProcessAcquire)
        requires
            old(self).wf(),
        ensures
            final(self).wf(),
            (final(self).leases_spec(), r) == acquire_step(old(self).leases_spec(), (process_key_view())(*key)),
            final(self).refs_spec() == old(self).refs_spec(),
            final(self).locks_spec() == old(self).locks_spec(),
    {
        match self.process_index(key) {
            Some(i) => {
                let c = self.processes[i].1;
                proof {
                    lemma_keyed_at(self.processes@, process_key_view(), i as int);
                }
                self.set_lease(i, c.saturating_add(1));
                ProcessAcquire::Reused
            },
            None => {
                proof {
                    lemma_keyed_absent(self.processes@, process_key_view(), (process_key_view())(*key));
                }
                ProcessAcquire::Launch
            },
        }
    }

    /// Registers a process launched for `key`.
    pub fn register_launched(&mut self, key: SidecarProcessKey) -> (r: ProcessRegistered)
        requires
            old(self).wf(),
        ensures
            final(self).wf(),
            (final(self).leases_spec(), r) == register_step(old(self).leases_spec(), (process_key_view())(key)),
            final(self).refs_spec() == old(self).refs_spec(),
            final(self).locks_spec() == old(self).locks_spec(),
    {
        match self.process_index(&key) {
            Some(i) => {
                let c = self.processes[i].1;
                proof {
                    lemma_keyed_at(self.processes@, process_key_view(), i as int);
                }
                self.set_lease(i, c.saturating_add(1));
                ProcessRegistered::AlreadyShared
            },
            None => {
                proof {
                    lemma_keyed_absent(self.processes@, process_key_view(), (process_key_view())(key));
                    lemma_keyed_push(self.processes@, process_key_view(), (key, 1usize));
                }
                self.processes.push((key, 1));
                ProcessRegistered::Inserted
            },
        }
    }

    /// Releases one lease on the shared process under `key`; the process is
    /// kept while its plugin is active.
    pub fn release_process(&mut self, key: &SidecarProcessKey) -> (r: ProcessRelease)
        requires
            old(self).wf(),
        ensures
            final(self).wf(),
            (final(self).leases_spec(), r) == release_step(
                old(self).leases_spec(),
                (process_key_view())(*key),
                old(self).refs_spec().contains_key(key.plugin_id@) && old(self).refs_spec()[key.plugin_id@] > 0,
            ),
            final(self).refs_spec() == old(self).refs_spec(),
            final(self).locks_spec() == old(self).locks_spec(),
    {
        let keep_alive = self.is_plugin_active(&key.plugin_id);
        match self.process_index(key) {
            None => {
                proof {
                    lemma_keyed_absent(self.processes@, process_key_view(), (process_key_view())(*key));
                }
                ProcessRelease::Missing
            },
            Some(i) => {
                let c = self.processes[i].1;
                proof {
                    lemma_keyed_at(self.processes@, process_key_view(), i as int);
                }
                if c > 1 {
                    self.set_lease(i, c - 1);
                    ProcessRelease::LeaseReleased
                } else if keep_alive {
                    self.set_lease(i, 0);
                    ProcessRelease::KeptAlive
                } else {
                    proof {
                        lemma_keyed_remove(self.processes@, process_key_view(), i as int);
                    }
                    let _ = self.processes.remove(i);
                    ProcessRelease::Terminate
                }
            },
        }
    }

    /// Whether a shared process runs under `key`.
    pub fn check_process(&self, key: &SidecarProcessKey) -> (r: Result<(), String>)
        requires
            self.wf(),
        ensures
            match r {
                Ok(()) => self.leases_spec().contains_key((process_key_view())(*key)),
                Err(e) => !self.leases_spec().contains_key((process_key_view())(*key)) && e@
                    == "shared sidecar process not found for plugin `"@ + key.plugin_id@ + "`"@,
            },
    {
        match self.process_index(key) {
            Some(i) => {
                proof {
                    lemma_keyed_at(self.processes@, process_key_view(), i as int);
                }
                Ok(())
            },
            None => {
                proof {
                    lemma_keyed_absent(self.processes@, process_key_view(), (process_key_view())(*key));
                }
                let mut v: Vec<char> = Vec::new();
                push_str(&mut v, "shared sidecar process not found for plugin `");
                push_str(&mut v, key.plugin_id.as_str());
                push_str(&mut v, "`");
                Err(string_of(&v))
            },
        }
    }

    /// A plugin (trimmed id; blank ids are ignored) was deactivated once. When
    /// its last activation goes, its shared processes leave the registry and
    /// are handed back for the caller to terminate.
    pub fn plugin_deactivated(&mut self, plugin_id: &str) -> (removed: Vec<SidecarProcessKey>)
        requires
            old(self).wf(),
        ensures
            final(self).wf(),
            final(self).locks_spec() == old(self).locks_spec(),
            ({
                let t = trim_s(plugin_id@);
                if t.len() == 0 || !old(self).refs_spec().contains_key(t) {
                    &&& final(self).refs_spec() == old(self).refs_spec()
                    &&& final(self).leases_spec() == old(self).leases_spec()
                    &&& removed@.len() == 0
                } else if old(self).refs_spec()[t] > 1 {
                    &&& final(self).refs_spec() == old(self).refs_spec().insert(t, (old(self).refs_spec()[t] - 1) as usize)
                    &&& final(self).leases_spec() == old(self).leases_spec()
                    &&& removed@.len() == 0
                } else {
                    &&& final(self).refs_spec() == old(self).refs_spec().remove(t)
                    &&& final(self).leases_spec() == old(self).leases_spec().remove_keys(
                        Set::new(|k: (Seq<char>, Seq<char>)| k.0 == t),
                    )
                    &&& forall|k: (Seq<char>, Seq<char>)| #[trigger] lists_key(removed@, k) <==> (old(self).leases_spec().contains_key(k) && k.0 == t)
                }
            }),
    {
        let ghost t = trim_s(plugin_id@);
        let id = trim_string(plugin_id);
        let mut removed: Vec<SidecarProcessKey> = Vec::new();
        if id.as_str().is_empty() {
            return removed;
        }
        let count = match self.plugin_refs.count_of(&id) {
            None => {
                return removed;
            },
            Some(c) => c,
        };
        self.plugin_refs.release_plugin(id.as_str());
        if count > 1 {
            return removed;
        }
        let ghost m0 = keyed_map(self.processes@, process_key_view());
        let ghost gone = Set::new(|k: (Seq<char>, Seq<char>)| k.0 == t);
        let ghost refs1 = self.plugin_refs@;
        let mut i: usize = 0;
        while i < self.processes.len()
            invariant
                i <= self.processes@.len(),
                id@ == t,
                self.locks@ == old(self).locks@,
                keyed_distinct(self.locks@, lock_key_view()),
                self.plugin_refs@ == refs1,
                self.plugin_refs.wf(),
                keyed_distinct(self.processes@, process_key_view()),
                keyed_map(self.processes@, process_key_view()).remove_keys(gone) == m0.remove_keys(gone),
                forall|j: int| 0 <= j < i ==> (#[trigger] self.processes@[j]).0.plugin_id@ != t,
                forall|k: (Seq<char>, Seq<char>)| #[trigger] keyed_map(self.processes@, process_key_view()).contains_key(k) ==> m0.contains_key(k),
                forall|k: (Seq<char>, Seq<char>)| #[trigger] lists_key(removed@, k) <==> (m0.contains_key(k) && k.0 == t
                    && !keyed_map(self.processes@, process_key_view()).contains_key(k)),
                gone == Set::new(|k: (Seq<char>, Seq<char>)| k.0 == t),
            decreases self.processes@.len() - i,
        {
            if self.processes[i].0.plugin_id == id {
                let ghost s = self.processes@;
                let ghost kv = (process_key_view())(s[i as int].0);
                proof {
                    lemma_keyed_at(s, process_key_view(), i as int);
                    lemma_keyed_remove(s, process_key_view(), i as int);
                }
                let (k, _) = self.processes.remove(i);
                let ghost before = removed@;
                removed.push(k);
                proof {
                    let m1 = keyed_map(s, process_key_view());
                    let m2 = keyed_map(self.processes@, process_key_view());
                    assert(m2 == m1.remove(kv));
                    assert(kv.0 == t);
                    assert(m2.remove_keys(gone) =~= m1.remove_keys(gone));
                    assert forall|j: int| 0 <= j < i implies (#[trigger] self.processes@[j]).0.plugin_id@ != t by {
                        assert(self.processes@[j] == s[j]);
                    }
                    assert forall|k2: (Seq<char>, Seq<char>)| #[trigger] lists_key(removed@, k2) <==> (m0.contains_key(k2) && k2.0 == t
                        && !m2.contains_key(k2)) by {
                        if lists_key(removed@, k2) {
                            let j = choose|j: int| 0 <= j < removed@.len() && (process_key_view())(#[trigger] removed@[j]) == k2;
                            if j < before.len() {
                                assert(lists_key(before, k2));
                            } else {
                                assert(removed@[j] == k);
                            }
                        }
                        if m0.contains_key(k2) && k2.0 == t && !m2.contains_key(k2) {
                            if k2 == kv {
                                assert((process_key_view())(removed@[before.len() as int]) == k2);
                            } else {
                                assert(!m1.contains_key(k2));
                                assert(lists_key(before, k2));
                                let j = choose|j: int| 0 <= j < before.len() && (process_key_view())(#[trigger] before[j]) == k2;
                                assert(removed@[j] == before[j]);
                            }
                        }
                    }
                }
            } else {
                i = i + 1;
            }
        }
        proof {
            let m = keyed_map(self.processes@, process_key_view());
            assert forall|k: (Seq<char>, Seq<char>)| m.contains_key(k) implies k.0 != t by {
                lemma_keyed_in_list(self.processes@, process_key_view(), k);
                let j = choose|j: int| 0 <= j < self.processes@.len() && (process_key_view())(self.processes@[j].0) == k;
                assert(self.processes@[j].0.plugin_id@ != t);
            }
            assert(m.remove_keys(gone) =~= m);
        }
        removed
    }

    fn lock_index(&self, key: &SidecarLockKey) -> (r: Option<usize>)
        ensures
            match r {
                Some(i) => i < self.locks@.len() && (lock_key_view())(self.locks@[i as int].0)
                    == (lock_key_view())(*key),
                None => forall|i: int|
                    0 <= i < self.locks@.len() ==> (lock_key_view())(#[trigger] self.locks@[i].0)
                        != (lock_key_view())(*key),
            },
    {
        let mut i: usize = 0;
        while i < self.locks.len()
            invariant
                i <= self.locks@.len(),
                forall|j: int|
                    0 <= j < i ==> (lock_key_view())(#[trigger] self.locks@[j].0) != (lock_key_view())(*key),
            decreases self.locks@.len() - i,
        {
            if self.locks[i].0.plugin_id == key.plugin_id && self.locks[i].0.lock_name == key.lock_name {
                return Some(i);
            }
            i = i + 1;
        }
        None
    }

    fn set_lock(&mut self, key: SidecarLockKey, held: bool)
        requires
            old(self).wf(),
        ensures
            final(self).wf(),
            final(self).locks_spec() == old(self).locks_spec().insert((lock_key_view())(key), held),
            final(self).refs_spec() == old(self).refs_spec(),
            final(self).leases_spec() == old(self).leases_spec(),
    {
        let ghost s = self.locks@;
        match self.lock_index(&key) {
            Some(i) => {
                proof {
                    lemma_keyed_remove(s, lock_key_view(), i as int);
                }
                let (k, _) = self.locks.remove(i);
                proof {
                    lemma_keyed_push(self.locks@, lock_key_view(), (k, held));
                }
                self.locks.push((k, held));
                assert(keyed_map(self.locks@, lock_key_view()) =~= keyed_map(s, lock_key_view()).insert((lock_key_view())(key), held));
            },
            None => {
                proof {
                    lemma_keyed_absent(s, lock_key_view(), (lock_key_view())(key));
                    lemma_keyed_push(s, lock_key_view(), (key, held));
                }
                self.locks.push((key, held));
            },
        }
    }

    fn lock_held(&self, key: &SidecarLockKey) -> (r: bool)
        requires
            self.wf(),
        ensures
            r == (self.locks_spec().contains_key((lock_key_view())(*key)) && self.locks_spec()[(lock_key_view())(*key)]),
    {
        match self.lock_index(key) {
            Some(i) => {
                proof {
                    lemma_keyed_at(self.locks@, lock_key_view(), i as int);
                }
                self.locks[i].1
            },
            None => {
                proof {
                    lemma_keyed_absent(self.locks@, lock_key_view(), (lock_key_view())(*key));
                }
                false
            },
        }
    }

    /// Tries to take the named lock under `key`.
    pub fn try_take_lock(&mut self, key: &SidecarLockKey) -> (taken: bool)
        requires
            old(self).wf(),
        ensures
            final(self).wf(),
            (final(self).locks_spec(), taken) == lock_take_step(old(self).locks_spec(), (lock_key_view())(*key)),
            final(self).refs_spec() == old(self).refs_spec(),
            final(self).leases_spec() == old(self).leases_spec(),
    {
        if self.lock_held(key) {
            return false;
        }
        let k = SidecarLockKey { plugin_id: key.plugin_id.clone(), lock_name: key.lock_name.clone() };
        self.set_lock(k, true);
        true
    }

    /// Asks for the named lock `lock_name` (trimmed; blank names are refused)
    /// of a plugin: taken where free, else busy.
    pub fn acquire_lock(&mut self, plugin_id: &str, lock_name: &str) -> (r: Result<LockAttempt, String>)
        requires
            old(self).wf(),
        ensures
            final(self).wf(),
            final(self).refs_spec() == old(self).refs_spec(),
            final(self).leases_spec() == old(self).leases_spec(),
            trim_s(lock_name@).len() == 0 ==> (r matches Err(e) && e@ == "sidecar lock name is empty"@
                && final(self).locks_spec() == old(self).locks_spec()),
            trim_s(lock_name@).len() > 0 ==> ({
                let k = (plugin_id@, trim_s(lock_name@));
                let (m, taken) = lock_take_step(old(self).locks_spec(), k);
                &&& final(self).locks_spec() == m
                &&& match r {
                    Ok(LockAttempt::Acquired(key)) => taken && (lock_key_view())(key) == k,
                    Ok(LockAttempt::Busy(key)) => !taken && (lock_key_view())(key) == k,
                    Err(_) => false,
                }
            }),
    {
        let name = trim_string(lock_name);
        if name.as_str().is_empty() {
            return Err(String::from_str("sidecar lock name is empty"));
        }
        let key = SidecarLockKey { plugin_id: String::from_str(plugin_id), lock_name: name };
        if self.try_take_lock(&key) {
            Ok(LockAttempt::Acquired(key))
        } else {
            Ok(LockAttempt::Busy(key))
        }
    }

    /// Releases the named lock under `key`; says whether a waiter is to be
    /// woken (the lock was held).
    pub fn release_lock(&mut self, key: &SidecarLockKey) -> (notify: bool)
        requires
            old(self).wf(),
        ensures
            final(self).wf(),
            (final(self).locks_spec(), notify) == lock_release_step(old(self).locks_spec(), (lock_key_view())(*key)),
            final(self).refs_spec() == old(self).refs_spec(),
            final(self).leases_spec() == old(self).leases_spec(),
    {
        if !self.lock_held(key) {
            return false;
        }
        let k = SidecarLockKey { plugin_id: key.plugin_id.clone(), lock_name: key.lock_name.clone() };
        self.set_lock(k, false);
        true
    }
}

/// The text a lock wait that ran out of time fails with.
pub open spec fn lock_timeout_text(lock_name: Seq<char>, timeout_ms: u32) -> Seq<char> {
    "sidecar lock `"@ + lock_name + "` timed out after "@ + dec_digits(timeout_ms as nat) + "ms"@
}

pub fn lock_timeout_message(lock_name: &str, timeout_ms: u32) -> (s: String)
    ensures
        s@ == lock_timeout_text(lock_name@, timeout_ms),
{
    let mut v: Vec<char> = Vec::new();
    push_str(&mut v, "sidecar lock `");
    push_str(&mut v, lock_name);
    push_str(&mut v, "` timed out after ");
    push_decimal(&mut v, timeout_ms as u64);
    push_str(&mut v, "ms");
    assert(v@ =~= lock_timeout_text(lock_name@, timeout_ms));
    string_of(&v)
}

/// Instances of one plugin that launch the same package process share it:
/// the first launches it, the second reuses it, the first release leaves it
/// running, and the last release of an inactive plugin terminates it, leaving
/// the leases as they were.
pub proof fn law_shared_process_lifecycle(m: Map<(Seq<char>, Seq<char>), usize>, k: (Seq<char>, Seq<char>))
    requires
        !m.contains_key(k),
    ensures
        ({
            let (m1, a1) = acquire_step(m, k);
            let (m2, g) = register_step(m1, k);
            let (m3, a2) = acquire_step(m2, k);
            let (m4, r1) = release_step(m3, k, false);
            let (m5, r2) = release_step(m4, k, false);
            &&& a1 == ProcessAcquire::Launch
            &&& g == ProcessRegistered::Inserted
            &&& a2 == ProcessAcquire::Reused
            &&& m3[k] == 2
            &&& r1 == ProcessRelease::LeaseReleased
            &&& r2 == ProcessRelease::Terminate
            &&& m5 == m
        }),
{
    let (m1, a1) = acquire_step(m, k);
    let (m2, g) = register_step(m1, k);
    let (m3, a2) = acquire_step(m2, k);
    let (m4, r1) = release_step(m3, k, false);
    let (m5, r2) = release_step(m4, k, false);
    assert(m5 =~= m);
}

/// A named lock is held by one taker at a time: while it is held a second
/// take fails and changes nothing; after a release it can be taken again.
pub proof fn law_lock_excludes(m: Map<(Seq<char>, Seq<char>), bool>, k: (Seq<char>, Seq<char>))
    ensures
        ({
            let (m1, first) = lock_take_step(m, k);
            let (m2, second) = lock_take_step(m1, k);
            let (m3, woke) = lock_release_step(m2, k);
            let (m4, third) = lock_take_step(m3, k);
            &&& (!m.contains_key(k) || !m[k]) ==> first
            &&& !second && m2 == m1
            &&& woke
            &&& third
            &&& m4 == m1
        }),
{
    let (m1, first) = lock_take_step(m, k);
    let (m3, woke) = lock_release_step(m1, k);
    assert(m3.insert(k, true) =~= m1);
}

impl OrderedRow for (String, String) {
    open spec fn row_key(&self) -> (int, Seq<char>, Seq<Seq<char>>) {
        (0, self.0@, seq![self.1@])
    }

    fn row_rank(&self) -> (r: i64) {
        0
    }

    fn row_primary(&self) -> (s: &str) {
        self.0.as_str()
    }

    fn row_secondary(&self) -> (s: Vec<String>) {
        let s = vec![self.1.clone()];
        assert(strings_view(s@) =~= seq![self.1@]);
        s
    }
}

/// A launch environment in the order its signature lists it: by name, then
/// by value.
pub fn signature_env(env: Vec<(String, String)>) -> (r: Vec<(String, String)>)
    ensures
        r@.to_multiset() == env@.to_multiset(),
        rows_sorted(r@),
        env_in_order(r@),
{
    let r = sort_rows(env);
    proof {
        law_env_in_order(r@);
    }
    r
}

/// Environment entries by name, then by value, in `str` order.
pub open spec fn env_in_order(r: Seq<(String, String)>) -> bool {
    forall|i: int, j: int|
        0 <= i < j < r.len() ==> {
            &&& !str_lt((#[trigger] r[j]).0@, (#[trigger] r[i]).0@)
            &&& r[i].0@ == r[j].0@ ==> !str_lt(r[j].1@, r[i].1@)
        }
}

/// Sorting an environment orders it by name, then by value.
pub proof fn law_env_in_order(r: Seq<(String, String)>)
    requires
        rows_sorted(r),
    ensures
        env_in_order(r),
{
    lemma_sorted_rows_in_key_order(r);
    assert forall|i: int, j: int| 0 <= i < j < r.len() && (#[trigger] r[i]).0@ == (#[trigger] r[j]).0@ implies !str_lt(
        r[j].1@,
        r[i].1@,
    ) by {
        lemma_seqs_lt_single(r[j].1@, r[i].1@);
    }
}

/// Whether a launch shares one process among the instances of its plugin
/// package (package scope) rather than starting one for the instance alone.
pub fn shares_process(spec: &SidecarLaunchSpec) -> (r: bool)
    ensures
        r == (spec.scope == SidecarLaunchScope::Package),
{
    match spec.scope {
        SidecarLaunchScope::Package => true,
        SidecarLaunchScope::Instance => false,
    }
}

/// The debug text of a string slice (`{:?}`): the string between double
/// quotes, with quotes, backslashes and the characters that do not print
/// escaped.
pub uninterp spec fn str_debug_text(s: Seq<char>) -> Seq<char>;

/// Formats a string slice with `{:?}` (`<str as Debug>::fmt`). The contract
/// claims only that the text is a function of the string; which characters
/// are escaped follows the Unicode tables of the standard library, which are
/// not stated here.
#[verifier::external_body]
fn str_debug(s: &str) -> (r: String)
    ensures
        r@ == str_debug_text(s@),
{
    format!("{:?}", s)
}

/// A list as its debug text shows it: `[a, b, c]`.
pub open spec fn list_text(items: Seq<Seq<char>>) -> Seq<char> {
    "["@ + join_with(items, ", "@) + "]"@
}

/// The name of a transport.
pub open spec fn transport_kind_name(kind: SidecarTransportKind) -> Seq<char> {
    match kind {
        SidecarTransportKind::Stdio => "Stdio"@,
        SidecarTransportKind::NamedPipe => "NamedPipe"@,
        SidecarTransportKind::UnixSocket => "UnixSocket"@,
        SidecarTransportKind::LoopbackTcp => "LoopbackTcp"@,
        SidecarTransportKind::SharedMemoryRing => "SharedMemoryRing"@,
    }
}

/// The debug text of a transport option.
pub open spec fn option_text(o: SidecarTransportOption) -> Seq<char> {
    "SidecarTransportOption { kind: "@ + transport_kind_name(o.kind) + ", priority: "@ + dec_digits(
        o.priority as nat,
    ) + ", max_frame_bytes: "@ + match o.max_frame_bytes {
        None => "None"@,
        Some(n) => "Some("@ + dec_digits(n as nat) + ")"@,
    } + " }"@
}

/// The debug text of an environment entry: `("NAME", "value")`.
pub open spec fn pair_text(p: (String, String)) -> Seq<char> {
    "("@ + str_debug_text(p.0@) + ", "@ + str_debug_text(p.1@) + ")"@
}

/// The word a launch scope is named by in a signature.
pub open spec fn scope_word(scope: SidecarLaunchScope) -> Seq<char> {
    match scope {
        SidecarLaunchScope::Instance => "instance"@,
        SidecarLaunchScope::Package => "package"@,
    }
}

/// The signature of a launch whose environment, in signature order, is
/// `env`: scope, executable, arguments, preferred transports and
/// environment.
pub open spec fn signature_text(spec: SidecarLaunchSpec, env: Seq<(String, String)>) -> Seq<char> {
    "scope="@ + scope_word(spec.scope) + ";exe="@ + spec.executable@ + ";args="@ + list_text(
        spec.args@.map_values(|a: String| str_debug_text(a@)),
    ) + ";control="@ + list_text(spec.preferred_control@.map_values(|o: SidecarTransportOption| option_text(o)))
        + ";data="@ + list_text(spec.preferred_data@.map_values(|o: SidecarTransportOption| option_text(o)))
        + ";env="@ + list_text(env.map_values(|p: (String, String)| pair_text(p)))
}

/// Appends `items` as a list: `[a, b, c]`.
fn push_list(v: &mut Vec<char>, items: &Vec<String>)
    ensures
        final(v)@ == old(v)@ + list_text(strings_view(items@)),
{
    let ghost w = strings_view(items@);
    push_str(v, "[");
    let ghost start = v@;
    let mut i: usize = 0;
    assert(w.take(0) =~= Seq::<Seq<char>>::empty());
    while i < items.len()
        invariant
            i <= items@.len(),
            w == strings_view(items@),
            start == old(v)@ + "["@,
            v@ == start + join_with(w.take(i as int), ", "@),
        decreases items@.len() - i,
    {
        assert(w.take(i + 1).drop_last() =~= w.take(i as int));
        assert(w.take(i + 1).last() == items@[i as int]@);
        if i > 0 {
            push_str(v, ", ");
        }
        push_str(v, items[i].as_str());
        i = i + 1;
        if i == 1 {
            assert(join_with(w.take(1), ", "@) == w.take(1)[0]);
        }
        assert(v@ =~= start + join_with(w.take(i as int), ", "@));
    }
    assert(w.take(items@.len() as int) =~= w);
    push_str(v, "]");
    assert(v@ =~= old(v)@ + list_text(w));
}

/// The debug text of a transport option.
fn option_debug(o: &SidecarTransportOption) -> (r: String)
    ensures
        r@ == option_text(*o),
{
    let mut v: Vec<char> = Vec::new();
    push_str(&mut v, "SidecarTransportOption { kind: ");
    match o.kind {
        SidecarTransportKind::Stdio => push_str(&mut v, "Stdio"),
        SidecarTransportKind::NamedPipe => push_str(&mut v, "NamedPipe"),
        SidecarTransportKind::UnixSocket => push_str(&mut v, "UnixSocket"),
        SidecarTransportKind::LoopbackTcp => push_str(&mut v, "LoopbackTcp"),
        SidecarTransportKind::SharedMemoryRing => push_str(&mut v, "SharedMemoryRing"),
    }
    push_str(&mut v, ", priority: ");
    push_decimal(&mut v, o.priority as u64);
    push_str(&mut v, ", max_frame_bytes: ");
    match o.max_frame_bytes {
        None => push_str(&mut v, "None"),
        Some(n) => {
            push_str(&mut v, "Some(");
            push_decimal(&mut v, n as u64);
            push_str(&mut v, ")");
        },
    }
    push_str(&mut v, " }");
    let r = string_of(&v);
    assert(r@ =~= option_text(*o));
    r
}

/// The debug texts of the arguments.
fn arg_texts(args: &Vec<String>) -> (r: Vec<String>)
    ensures
        r@.len() == args@.len(),
        forall|k: int| 0 <= k < args@.len() ==> (#[trigger] r@[k])@ == str_debug_text(args@[k]@),
{
    let mut r: Vec<String> = Vec::new();
    let mut i: usize = 0;
    while i < args.len()
        invariant
            i <= args@.len(),
            r@.len() == i,
            forall|k: int| 0 <= k < i ==> (#[trigger] r@[k])@ == str_debug_text(args@[k]@),
        decreases args@.len() - i,
    {
        let t = str_debug(args[i].as_str());
        r.push(t);
        i = i + 1;
    }
    r
}

/// The debug texts of transport options.
fn option_texts(opts: &Vec<SidecarTransportOption>) -> (r: Vec<String>)
    ensures
        r@.len() == opts@.len(),
        forall|k: int| 0 <= k < opts@.len() ==> (#[trigger] r@[k])@ == option_text(opts@[k]),
{
    let mut r: Vec<String> = Vec::new();
    let mut i: usize = 0;
    while i < opts.len()
        invariant
            i <= opts@.len(),
            r@.len() == i,
            forall|k: int| 0 <= k < i ==> (#[trigger] r@[k])@ == option_text(opts@[k]),
        decreases opts@.len() - i,
    {
        let t = option_debug(&opts[i]);
        r.push(t);
        i = i + 1;
    }
    r
}

/// The debug texts of environment entries.
fn pair_texts(env: &Vec<(String, String)>) -> (r: Vec<String>)
    ensures
        r@.len() == env@.len(),
        forall|k: int| 0 <= k < env@.len() ==> (#[trigger] r@[k])@ == pair_text(env@[k]),
{
    let mut r: Vec<String> = Vec::new();
    let mut i: usize = 0;
    while i < env.len()
        invariant
            i <= env@.len(),
            r@.len() == i,
            forall|k: int| 0 <= k < i ==> (#[trigger] r@[k])@ == pair_text(env@[k]),
        decreases env@.len() - i,
    {
        let mut v: Vec<char> = Vec::new();
        push_str(&mut v, "(");
        push_str(&mut v, str_debug(env[i].0.as_str()).as_str());
        push_str(&mut v, ", ");
        push_str(&mut v, str_debug(env[i].1.as_str()).as_str());
        push_str(&mut v, ")");
        let t = string_of(&v);
        assert(t@ =~= pair_text(env@[i as int]));
        r.push(t);
        i = i + 1;
    }
    r
}

/// A copy of an environment.
fn copy_env(env: &Vec<(String, String)>) -> (r: Vec<(String, String)>)
    ensures
        r@ == env@,
{
    let mut r: Vec<(String, String)> = Vec::new();
    let mut i: usize = 0;
    while i < env.len()
        invariant
            i <= env@.len(),
            r@ == env@.take(i as int),
        decreases env@.len() - i,
    {
        r.push((env[i].0.clone(), env[i].1.clone()));
        i = i + 1;
        assert(r@ =~= env@.take(i as int));
    }
    assert(env@.take(env@.len() as int) =~= env@);
    r
}

/// The text two launches share exactly when they may share one process:
/// scope, executable, arguments, preferred transports and the environment
/// sorted by name and value.
pub fn launch_signature(spec: &SidecarLaunchSpec) -> (r: String)
    ensures
        exists|env: Seq<(String, String)>|
            env.to_multiset() == spec.env@.to_multiset() && rows_sorted(env) && r@ == signature_text(
                *spec,
                env,
            ),
{
    let env = signature_env(copy_env(&spec.env));
    let mut v: Vec<char> = Vec::new();
    push_str(&mut v, "scope=");
    match spec.scope {
        SidecarLaunchScope::Instance => push_str(&mut v, "instance"),
        SidecarLaunchScope::Package => push_str(&mut v, "package"),
    }
    push_str(&mut v, ";exe=");
    push_str(&mut v, spec.executable.as_str());
    let args = arg_texts(&spec.args);
    let control = option_texts(&spec.preferred_control);
    let data = option_texts(&spec.preferred_data);
    let pairs = pair_texts(&env);
    assert(strings_view(args@) =~= spec.args@.map_values(|a: String| str_debug_text(a@)));
    assert(strings_view(control@) =~= spec.preferred_control@.map_values(
        |o: SidecarTransportOption| option_text(o),
    ));
    assert(strings_view(data@) =~= spec.preferred_data@.map_values(
        |o: SidecarTransportOption| option_text(o),
    ));
    assert(strings_view(pairs@) =~= env@.map_values(|p: (String, String)| pair_text(p)));
    push_str(&mut v, ";args=");
    push_list(&mut v, &args);
    push_str(&mut v, ";control=");
    push_list(&mut v, &control);
    push_str(&mut v, ";data=");
    push_list(&mut v, &data);
    push_str(&mut v, ";env=");
    push_list(&mut v, &pairs);
    let r = string_of(&v);
    assert(r@ =~= signature_text(*spec, env@));
    r
}

/// Two launches that differ at most in the order of their environment
/// entries have the same signature.
pub proof fn law_signature_ignores_env_order(
    a: SidecarLaunchSpec,
    b: SidecarLaunchSpec,
    env_a: Seq<(String, String)>,
    env_b: Seq<(String, String)>,
)
    requires
        a.scope == b.scope,
        a.executable@ == b.executable@,
        strings_view(a.args@) == strings_view(b.args@),
        a.preferred_control@ == b.preferred_control@,
        a.preferred_data@ == b.preferred_data@,
        a.env@.to_multiset() == b.env@.to_multiset(),
        env_a.to_multiset() == a.env@.to_multiset(),
        rows_sorted(env_a),
        env_b.to_multiset() == b.env@.to_multiset(),
        rows_sorted(env_b),
    ensures
        signature_text(a, env_a) == signature_text(b, env_b),
{
    lemma_sorted_keys_unique(env_a, env_b);
    assert forall|k: int| 0 <= k < env_a.len() implies pair_text(#[trigger] env_a[k]) == pair_text(
        env_b[k],
    ) by {
        assert(env_a[k].row_key() == env_b[k].row_key());
        assert(seq![env_a[k].1@][0] == seq![env_b[k].1@][0]);
    }
    assert(env_a.map_values(|p: (String, String)| pair_text(p)) =~= env_b.map_values(
        |p: (String, String)| pair_text(p),
    ));
    assert(strings_view(a.args@).len() == a.args@.len());
    assert(strings_view(b.args@).len() == b.args@.len());
    assert forall|k: int| 0 <= k < a.args@.len() implies (#[trigger] a.args@[k])@ == b.args@[k]@ by {
        assert(strings_view(a.args@)[k] == strings_view(b.args@)[k]);
    }
    assert(a.args@.map_values(|x: String| str_debug_text(x@)) =~= b.args@.map_values(
        |x: String| str_debug_text(x@),
    ));
}

} // verus!
