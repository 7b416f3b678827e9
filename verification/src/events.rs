//! The plugin event bus: how many host contexts each plugin currently holds,
//! and the per-plugin host context that a loaded plugin library is handed.
use vstd::prelude::*;

verus! {

/// The counts that a list of distinct keys carries.
pub open spec fn counts_map(s: Seq<(String, usize)>) -> Map<Seq<char>, usize>
    decreases s.len(),
{
    if s.len() == 0 {
        Map::empty()
    } else {
        counts_map(s.drop_last()).insert(s.last().0@, s.last().1)
    }
}

pub open spec fn distinct_keys(s: Seq<(String, usize)>) -> bool {
    forall|i: int, j: int| 0 <= i < j < s.len() ==> (#[trigger] s[i]).0@ != (#[trigger] s[j]).0@
}

pub proof fn lemma_counts_absent(s: Seq<(String, usize)>, k: Seq<char>)
    requires
        forall|i: int| 0 <= i < s.len() ==> (#[trigger] s[i]).0@ != k,
    ensures
        !counts_map(s).contains_key(k),
    decreases s.len(),
{
    if s.len() > 0 {
        assert(s[s.len() - 1] == s.last());
        lemma_counts_absent(s.drop_last(), k);
    }
}

pub proof fn lemma_counts_at(s: Seq<(String, usize)>, i: int)
    requires
        distinct_keys(s),
        0 <= i < s.len(),
    ensures
        counts_map(s).contains_key(s[i].0@),
        counts_map(s)[s[i].0@] == s[i].1,
    decreases s.len(),
{
    if i < s.len() - 1 {
        let d = s.drop_last();
        assert(d[i] == s[i]);
        assert(s[i].0@ != s[s.len() - 1].0@);
        lemma_counts_at(d, i);
    }
}

pub proof fn lemma_counts_remove(s: Seq<(String, usize)>, i: int)
    requires
        distinct_keys(s),
        0 <= i < s.len(),
    ensures
        distinct_keys(s.remove(i)),
        counts_map(s.remove(i)) == counts_map(s).remove(s[i].0@),
    decreases s.len(),
{
    let k = s[i].0@;
    let r = s.remove(i);
    assert forall|a: int, b: int| 0 <= a < b < r.len() implies (#[trigger] r[a]).0@ != (
    #[trigger] r[b]).0@ by {
        let a0 = if a < i { a } else { a + 1 };
        let b0 = if b < i { b } else { b + 1 };
        assert(r[a] == s[a0]);
        assert(r[b] == s[b0]);
    }
    let d = s.drop_last();
    if i == s.len() - 1 {
        assert(r =~= d);
        assert forall|j: int| 0 <= j < d.len() implies (#[trigger] d[j]).0@ != k by {
            assert(d[j] == s[j]);
        }
        lemma_counts_absent(d, k);
        assert(counts_map(s).remove(k) =~= counts_map(d));
    } else {
        assert(r =~= d.remove(i).push(s.last()));
        assert(distinct_keys(d));
        assert(d[i] == s[i]);
        lemma_counts_remove(d, i);
        assert(r.drop_last() =~= d.remove(i));
        assert(s.last().0@ != k);
        assert(counts_map(r) =~= counts_map(s).remove(k));
    }
}

/// Pushing a key that is not listed keeps the keys distinct.
pub proof fn lemma_counts_push(s: Seq<(String, usize)>, e: (String, usize))
    requires
        distinct_keys(s),
        forall|i: int| 0 <= i < s.len() ==> (#[trigger] s[i]).0@ != e.0@,
    ensures
        distinct_keys(s.push(e)),
        counts_map(s.push(e)) == counts_map(s).insert(e.0@, e.1),
{
    let t = s.push(e);
    assert(t.drop_last() =~= s);
    assert forall|a: int, b: int| 0 <= a < b < t.len() implies (#[trigger] t[a]).0@ != (
    #[trigger] t[b]).0@ by {
        assert(t[a] == s[a]);
        if b < s.len() {
            assert(t[b] == s[b]);
        }
    }
}

/// Reference counts keyed by plugin id.
#[derive(Debug)]
pub struct PluginEventBus {
    plugin_ref_counts: Vec<(String, usize)>,
}

impl View for PluginEventBus {
    type V = Map<Seq<char>, usize>;

    closed spec fn view(&self) -> Map<Seq<char>, usize> {
        counts_map(self.plugin_ref_counts@)
    }
}

impl PluginEventBus {
    pub closed spec fn wf(&self) -> bool {
        &&& distinct_keys(self.plugin_ref_counts@)
        &&& forall|i: int|
            0 <= i < self.plugin_ref_counts@.len() ==> (#[trigger] self.plugin_ref_counts@[i]).1 >= 1
    }

    /// A plugin on the bus holds at least one host context: a count that
    /// reaches zero leaves the map.
    pub proof fn lemma_counts_positive(&self)
        requires
            self.wf(),
        ensures
            forall|k: Seq<char>| #[trigger] self@.contains_key(k) ==> self@[k] >= 1,
    {
        assert forall|k: Seq<char>| #[trigger] self@.contains_key(k) implies self@[k] >= 1 by {
            let s = self.plugin_ref_counts@;
            if forall|i: int| 0 <= i < s.len() ==> (#[trigger] s[i]).0@ != k {
                lemma_counts_absent(s, k);
            } else {
                let i = choose|i: int| 0 <= i < s.len() && !((#[trigger] s[i]).0@ != k);
                lemma_counts_at(s, i);
            }
        }
    }

    /// A bus on which no plugin holds anything.
    pub fn new() -> (b: PluginEventBus)
        ensures
            b.wf(),
            b@ == Map::<Seq<char>, usize>::empty(),
    {
        PluginEventBus { plugin_ref_counts: Vec::new() }
    }

    fn index_of(&self, plugin_id: &String) -> (r: Option<usize>)
        requires
            self.wf(),
        ensures
            match r {
                Some(i) => i < self.plugin_ref_counts@.len() && self.plugin_ref_counts@[i as int].0@
                    == plugin_id@,
                None => forall|i: int|
                    0 <= i < self.plugin_ref_counts@.len() ==> (
                    #[trigger] self.plugin_ref_counts@[i]).0@ != plugin_id@,
            },
    {
        let mut i: usize = 0;
        while i < self.plugin_ref_counts.len()
            invariant
                0 <= i <= self.plugin_ref_counts@.len(),
                forall|j: int|
                    0 <= j < i ==> (#[trigger] self.plugin_ref_counts@[j]).0@ != plugin_id@,
            decreases self.plugin_ref_counts@.len() - i,
        {
            if self.plugin_ref_counts[i].0 == *plugin_id {
                return Some(i);
            }
            i = i + 1;
        }
        None
    }

    /// The count of `plugin_id`, where it has one.
    pub fn count_of(&self, plugin_id: &String) -> (r: Option<usize>)
        requires
            self.wf(),
        ensures
            match r {
                Some(c) => self@.contains_key(plugin_id@) && self@[plugin_id@] == c,
                None => !self@.contains_key(plugin_id@),
            },
    {
        match self.index_of(plugin_id) {
            Some(i) => {
                proof {
                    lemma_counts_at(self.plugin_ref_counts@, i as int);
                }
                Some(self.plugin_ref_counts[i].1)
            },
            None => {
                proof {
                    lemma_counts_absent(self.plugin_ref_counts@, plugin_id@);
                }
                None
            },
        }
    }

    /// Counts one more host context for `plugin_id` (saturating).
    pub fn acquire_plugin(&mut self, plugin_id: &str)
        requires
            old(self).wf(),
        ensures
            final(self).wf(),
            final(self)@ == old(self)@.insert(
                plugin_id@,
                if old(self)@.contains_key(plugin_id@) {
                    if old(self)@[plugin_id@] == usize::MAX {
                        usize::MAX
                    } else {
                        (old(self)@[plugin_id@] + 1) as usize
                    }
                } else {
                    1usize
                },
            ),
    {
        let ghost s = self.plugin_ref_counts@;
        let key = String::from_str(plugin_id);
        match self.index_of(&key) {
            Some(i) => {
                let c = self.plugin_ref_counts[i].1;
                proof {
                    lemma_counts_at(s, i as int);
                    lemma_counts_remove(s, i as int);
                }
                let (name, _) = self.plugin_ref_counts.remove(i);
                let ghost r = self.plugin_ref_counts@;
                proof {
                    assert(r == s.remove(i as int));
                    assert forall|j: int| 0 <= j < r.len() implies (#[trigger] r[j]).0@ != name@ by {
                        let j0 = if j < i { j } else { j + 1 };
                        assert(r[j] == s[j0]);
                    }
                    lemma_counts_push(r, (name, c.saturating_add(1)));
                }
                self.plugin_ref_counts.push((name, c.saturating_add(1)));
                assert(counts_map(self.plugin_ref_counts@) =~= counts_map(s).insert(
                    plugin_id@,
                    if c == usize::MAX {
                        usize::MAX
                    } else {
                        (c + 1) as usize
                    },
                ));
            },
            None => {
                proof {
                    lemma_counts_absent(s, plugin_id@);
                    lemma_counts_push(s, (key, 1usize));
                }
                self.plugin_ref_counts.push((key, 1));
            },
        }
    }

    /// Counts one host context of `plugin_id` less; a plugin whose count
    /// reaches zero leaves the map. Unknown plugins are ignored.
    pub fn release_plugin(&mut self, plugin_id: &str)
        requires
            old(self).wf(),
        ensures
            final(self).wf(),
            !old(self)@.contains_key(plugin_id@) ==> final(self)@ == old(self)@,
            old(self)@.contains_key(plugin_id@) && old(self)@[plugin_id@] <= 1 ==> final(self)@
                == old(self)@.remove(plugin_id@),
            old(self)@.contains_key(plugin_id@) && old(self)@[plugin_id@] > 1 ==> final(self)@
                == old(self)@.insert(plugin_id@, (old(self)@[plugin_id@] - 1) as usize),
    {
        let ghost s = self.plugin_ref_counts@;
        let key = String::from_str(plugin_id);
        match self.index_of(&key) {
            Some(i) => {
                let c = self.plugin_ref_counts[i].1;
                proof {
                    lemma_counts_at(s, i as int);
                    lemma_counts_remove(s, i as int);
                }
                let (name, _) = self.plugin_ref_counts.remove(i);
                let ghost r = self.plugin_ref_counts@;
                assert(r == s.remove(i as int));
                if c > 1 {
                    proof {
                        assert forall|j: int| 0 <= j < r.len() implies (#[trigger] r[j]).0@
                            != name@ by {
                            let j0 = if j < i { j } else { j + 1 };
                            assert(r[j] == s[j0]);
                        }
                        lemma_counts_push(r, (name, (c - 1) as usize));
                    }
                    self.plugin_ref_counts.push((name, c - 1));
                    assert(counts_map(self.plugin_ref_counts@) =~= counts_map(s).insert(
                        plugin_id@,
                        (c - 1) as usize,
                    ));
                }
            },
            None => {
                proof {
                    lemma_counts_absent(s, plugin_id@);
                }
            },
        }
    }
}

/// A fresh event bus for a runtime.
pub fn new_runtime_event_bus() -> (b: PluginEventBus)
    ensures
        b.wf(),
        b@ == Map::<Seq<char>, usize>::empty(),
{
    PluginEventBus::new()
}

/// Acquiring a plugin and then releasing it gives back the counts there were,
/// as long as the plugin's count was below the saturation bound (counts on a
/// bus are never zero: a count that reaches zero leaves the map).
pub proof fn law_acquire_then_release(before: Map<Seq<char>, usize>, plugin_id: Seq<char>)
    requires
        before.contains_key(plugin_id) ==> 1 <= before[plugin_id] < usize::MAX,
    ensures
        ({
            let acquired = before.insert(
                plugin_id,
                if before.contains_key(plugin_id) {
                    (before[plugin_id] + 1) as usize
                } else {
                    1usize
                },
            );
            let released = if acquired[plugin_id] <= 1 {
                acquired.remove(plugin_id)
            } else {
                acquired.insert(plugin_id, (acquired[plugin_id] - 1) as usize)
            };
            released == before
        }),
{
    let acquired = before.insert(
        plugin_id,
        if before.contains_key(plugin_id) {
            (before[plugin_id] + 1) as usize
        } else {
            1usize
        },
    );
    if before.contains_key(plugin_id) {
        assert(acquired[plugin_id] == before[plugin_id] + 1);
        assert(acquired.insert(plugin_id, (acquired[plugin_id] - 1) as usize) =~= before);
    } else {
        assert(acquired[plugin_id] == 1);
        assert(acquired.remove(plugin_id) =~= before.remove(plugin_id));
        assert(before.remove(plugin_id) =~= before);
    }
}

/// On every bus, acquiring a plugin and then releasing it gives back the
/// counts there were, unless the plugin's count stands at the saturation
/// bound.
pub proof fn law_bus_acquire_then_release(bus: &PluginEventBus, plugin_id: Seq<char>)
    requires
        bus.wf(),
        !(bus@.contains_key(plugin_id) && bus@[plugin_id] == usize::MAX),
    ensures
        ({
            let before = bus@;
            let acquired = before.insert(
                plugin_id,
                if before.contains_key(plugin_id) {
                    (before[plugin_id] + 1) as usize
                } else {
                    1usize
                },
            );
            let released = if acquired[plugin_id] <= 1 {
                acquired.remove(plugin_id)
            } else {
                acquired.insert(plugin_id, (acquired[plugin_id] - 1) as usize)
            };
            released == before
        }),
{
    bus.lemma_counts_positive();
    law_acquire_then_release(bus@, plugin_id);
}

/// The per-plugin context that a loaded plugin library is handed: its id and
/// its runtime root directory as UTF-8 bytes.
#[derive(Debug)]
pub struct PluginHostCtx {
    plugin_id: String,
    runtime_root_utf8: Vec<u8>,
}

impl PluginHostCtx {
    pub fn new(plugin_id: String, runtime_root_utf8: Vec<u8>) -> (c: PluginHostCtx)
        ensures
            c.plugin_id() == plugin_id@,
            c.runtime_root() == runtime_root_utf8@,
    {
        PluginHostCtx { plugin_id, runtime_root_utf8 }
    }

    pub closed spec fn plugin_id(&self) -> Seq<char> {
        self.plugin_id@
    }

    pub closed spec fn runtime_root(&self) -> Seq<u8> {
        self.runtime_root_utf8@
    }

    /// The plugin this context belongs to.
    pub fn plugin_id_str(&self) -> (r: &str)
        ensures
            r@ == self.plugin_id(),
    {
        self.plugin_id.as_str()
    }

    /// The runtime root handed to the plugin (empty where none was set).
    pub fn runtime_root_bytes(&self) -> (r: &[u8])
        ensures
            r@ == self.runtime_root(),
    {
        self.runtime_root_utf8.as_slice()
    }
}

/// Makes the host context of a plugin and counts it on the bus.
pub fn build_plugin_host_ctx(
    bus: &mut PluginEventBus,
    plugin_id: &str,
    runtime_root_utf8: Vec<u8>,
) -> (c: PluginHostCtx)
    requires
        old(bus).wf(),
    ensures
        final(bus).wf(),
        c.plugin_id() == plugin_id@,
        c.runtime_root() == runtime_root_utf8@,
        final(bus)@.contains_key(plugin_id@),
        final(bus)@ == old(bus)@.insert(
            plugin_id@,
            if old(bus)@.contains_key(plugin_id@) {
                if old(bus)@[plugin_id@] == usize::MAX {
                    usize::MAX
                } else {
                    (old(bus)@[plugin_id@] + 1) as usize
                }
            } else {
                1usize
            },
        ),
{
    bus.acquire_plugin(plugin_id);
    PluginHostCtx::new(String::from_str(plugin_id), runtime_root_utf8)
}

/// Gives a plugin's host context back: its count on the bus drops by one.
pub fn release_plugin_host_ctx(bus: &mut PluginEventBus, ctx: PluginHostCtx)
    requires
        old(bus).wf(),
    ensures
        final(bus).wf(),
        !old(bus)@.contains_key(ctx.plugin_id()) ==> final(bus)@ == old(bus)@,
        old(bus)@.contains_key(ctx.plugin_id()) && old(bus)@[ctx.plugin_id()] <= 1 ==> final(bus)@
            == old(bus)@.remove(ctx.plugin_id()),
        old(bus)@.contains_key(ctx.plugin_id()) && old(bus)@[ctx.plugin_id()] > 1 ==> final(bus)@
            == old(bus)@.insert(ctx.plugin_id(), (old(bus)@[ctx.plugin_id()] - 1) as usize),
{
    bus.release_plugin(ctx.plugin_id.as_str());
}

} // verus!
