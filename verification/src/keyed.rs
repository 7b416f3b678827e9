//! Small tables held as lists of (key, value) pairs with distinct keys, and
//! the map from key views to values that such a list stands for.
use vstd::prelude::*;

verus! {

/// The map that a list of (key, value) pairs stands for, keys taken by `kv`;
/// a later pair wins.
pub open spec fn keyed_map<K, V, KV>(s: Seq<(K, V)>, kv: spec_fn(K) -> KV) -> Map<KV, V>
    decreases s.len(),
{
    if s.len() == 0 {
        Map::empty()
    } else {
        keyed_map(s.drop_last(), kv).insert(kv(s.last().0), s.last().1)
    }
}

/// No two pairs have the same key.
pub open spec fn keyed_distinct<K, V, KV>(s: Seq<(K, V)>, kv: spec_fn(K) -> KV) -> bool {
    forall|i: int, j: int| 0 <= i < j < s.len() ==> kv(#[trigger] s[i].0) != kv(#[trigger] s[j].0)
}

pub proof fn lemma_keyed_absent<K, V, KV>(s: Seq<(K, V)>, kv: spec_fn(K) -> KV, k: KV)
    requires
        forall|i: int| 0 <= i < s.len() ==> kv(#[trigger] s[i].0) != k,
    ensures
        !keyed_map(s, kv).contains_key(k),
    decreases s.len(),
{
    if s.len() > 0 {
        assert(s[s.len() - 1] == s.last());
        assert forall|i: int| 0 <= i < s.drop_last().len() implies kv(#[trigger] s.drop_last()[i].0) != k by {
            assert(s.drop_last()[i] == s[i]);
        }
        lemma_keyed_absent(s.drop_last(), kv, k);
    }
}

pub proof fn lemma_keyed_at<K, V, KV>(s: Seq<(K, V)>, kv: spec_fn(K) -> KV, i: int)
    requires
        keyed_distinct(s, kv),
        0 <= i < s.len(),
    ensures
        keyed_map(s, kv).contains_key(kv(s[i].0)),
        keyed_map(s, kv)[kv(s[i].0)] == s[i].1,
    decreases s.len(),
{
    if i < s.len() - 1 {
        let d = s.drop_last();
        assert(d[i] == s[i]);
        assert(kv(s[i].0) != kv(s[s.len() - 1].0));
        assert forall|a: int, b: int| 0 <= a < b < d.len() implies kv(#[trigger] d[a].0) != kv(#[trigger] d[b].0) by {
            assert(d[a] == s[a] && d[b] == s[b]);
        }
        lemma_keyed_at(d, kv, i);
    }
}

pub proof fn lemma_keyed_remove<K, V, KV>(s: Seq<(K, V)>, kv: spec_fn(K) -> KV, i: int)
    requires
        keyed_distinct(s, kv),
        0 <= i < s.len(),
    ensures
        keyed_distinct(s.remove(i), kv),
        keyed_map(s.remove(i), kv) == keyed_map(s, kv).remove(kv(s[i].0)),
        forall|j: int| 0 <= j < s.remove(i).len() ==> kv(#[trigger] s.remove(i)[j].0) != kv(s[i].0),
    decreases s.len(),
{
    let k = kv(s[i].0);
    let r = s.remove(i);
    assert forall|a: int, b: int| 0 <= a < b < r.len() implies kv(#[trigger] r[a].0) != kv(#[trigger] r[b].0) by {
        let a0 = if a < i { a } else { a + 1 };
        let b0 = if b < i { b } else { b + 1 };
        assert(r[a] == s[a0]);
        assert(r[b] == s[b0]);
    }
    assert forall|j: int| 0 <= j < r.len() implies kv(#[trigger] r[j].0) != k by {
        let j0 = if j < i { j } else { j + 1 };
        assert(r[j] == s[j0]);
    }
    let d = s.drop_last();
    assert forall|a: int, b: int| 0 <= a < b < d.len() implies kv(#[trigger] d[a].0) != kv(#[trigger] d[b].0) by {
        assert(d[a] == s[a] && d[b] == s[b]);
    }
    if i == s.len() - 1 {
        assert(r =~= d);
        assert forall|j: int| 0 <= j < d.len() implies kv(#[trigger] d[j].0) != k by {
            assert(d[j] == s[j]);
        }
        lemma_keyed_absent(d, kv, k);
        assert(keyed_map(s, kv).remove(k) =~= keyed_map(d, kv));
    } else {
        assert(r =~= d.remove(i).push(s.last()));
        assert(d[i] == s[i]);
        lemma_keyed_remove(d, kv, i);
        assert(r.drop_last() =~= d.remove(i));
        assert(kv(s.last().0) != k);
        assert(keyed_map(r, kv) =~= keyed_map(s, kv).remove(k));
    }
}

pub proof fn lemma_keyed_push<K, V, KV>(s: Seq<(K, V)>, kv: spec_fn(K) -> KV, e: (K, V))
    requires
        keyed_distinct(s, kv),
        forall|i: int| 0 <= i < s.len() ==> kv(#[trigger] s[i].0) != kv(e.0),
    ensures
        keyed_distinct(s.push(e), kv),
        keyed_map(s.push(e), kv) == keyed_map(s, kv).insert(kv(e.0), e.1),
{
    let t = s.push(e);
    assert(t.drop_last() =~= s);
    assert forall|a: int, b: int| 0 <= a < b < t.len() implies kv(#[trigger] t[a].0) != kv(#[trigger] t[b].0) by {
        assert(t[a] == s[a]);
        if b < s.len() {
            assert(t[b] == s[b]);
        }
    }
}

pub proof fn lemma_keyed_in_list<K, V, KV>(s: Seq<(K, V)>, kv: spec_fn(K) -> KV, k: KV)
    requires
        keyed_map(s, kv).contains_key(k),
    ensures
        exists|j: int| 0 <= j < s.len() && kv(s[j].0) == k,
    decreases s.len(),
{
    if s.len() > 0 {
        if kv(s.last().0) == k {
            assert(kv(s[s.len() - 1].0) == k);
        } else {
            lemma_keyed_in_list(s.drop_last(), kv, k);
            let j = choose|j: int| 0 <= j < s.drop_last().len() && kv(s.drop_last()[j].0) == k;
            assert(s[j] == s.drop_last()[j]);
        }
    }
}

/// Names as their texts.
pub open spec fn name_view() -> spec_fn(String) -> Seq<char> {
    |k: String| k@
}

/// A table from names to values, each name at most once.
#[derive(Debug)]
pub struct NamedTable<V> {
    entries: Vec<(String, V)>,
}

impl<V> NamedTable<V> {
    pub closed spec fn wf(&self) -> bool {
        keyed_distinct(self.entries@, name_view())
    }

    /// The value under each name.
    pub closed spec fn map(&self) -> Map<Seq<char>, V> {
        keyed_map(self.entries@, name_view())
    }

    pub fn new() -> (t: NamedTable<V>)
        ensures
            t.wf(),
            t.map() == Map::<Seq<char>, V>::empty(),
    {
        let t = NamedTable { entries: Vec::new() };
        assert(t.map() =~= Map::<Seq<char>, V>::empty());
        t
    }

    fn index_of(&self, name: &str) -> (r: Option<usize>)
        requires
            self.wf(),
        ensures
            match r {
                Some(i) => i < self.entries@.len() && self.entries@[i as int].0@ == name@,
                None => forall|i: int| 0 <= i < self.entries@.len() ==> (name_view())(#[trigger] self.entries@[i].0) != name@,
            },
    {
        let key = String::from_str(name);
        let mut i: usize = 0;
        while i < self.entries.len()
            invariant
                i <= self.entries@.len(),
                key@ == name@,
                forall|j: int| 0 <= j < i ==> (name_view())(#[trigger] self.entries@[j].0) != name@,
            decreases self.entries@.len() - i,
        {
            if self.entries[i].0 == key {
                return Some(i);
            }
            i = i + 1;
        }
        None
    }

    /// The value under `name`.
    pub fn get(&self, name: &str) -> (r: Option<&V>)
        requires
            self.wf(),
        ensures
            match r {
                Some(v) => self.map().contains_key(name@) && self.map()[name@] == *v,
                None => !self.map().contains_key(name@),
            },
    {
        match self.index_of(name) {
            Some(i) => {
                proof {
                    lemma_keyed_at(self.entries@, name_view(), i as int);
                }
                Some(&self.entries[i].1)
            },
            None => {
                proof {
                    lemma_keyed_absent(self.entries@, name_view(), name@);
                }
                None
            },
        }
    }

    /// Takes the value under `name` out of the table.
    pub fn remove(&mut self, name: &str) -> (r: Option<V>)
        requires
            old(self).wf(),
        ensures
            final(self).wf(),
            final(self).map() == old(self).map().remove(name@),
            match r {
                Some(v) => old(self).map().contains_key(name@) && old(self).map()[name@] == v,
                None => !old(self).map().contains_key(name@),
            },
    {
        match self.index_of(name) {
            Some(i) => {
                proof {
                    lemma_keyed_at(self.entries@, name_view(), i as int);
                    lemma_keyed_remove(self.entries@, name_view(), i as int);
                }
                let (_, v) = self.entries.remove(i);
                Some(v)
            },
            None => {
                proof {
                    lemma_keyed_absent(self.entries@, name_view(), name@);
                    assert(self.map().remove(name@) =~= self.map());
                }
                None
            },
        }
    }

    /// Puts `value` under `name`, replacing what was there.
    pub fn insert(&mut self, name: String, value: V)
        requires
            old(self).wf(),
        ensures
            final(self).wf(),
            final(self).map() == old(self).map().insert(name@, value),
    {
        match self.index_of(name.as_str()) {
            Some(i) => {
                proof {
                    lemma_keyed_remove(self.entries@, name_view(), i as int);
                }
                let _ = self.entries.remove(i);
                proof {
                    lemma_keyed_push(self.entries@, name_view(), (name, value));
                    assert(old(self).map().remove(name@).insert(name@, value) =~= old(self).map().insert(name@, value));
                }
                self.entries.push((name, value));
            },
            None => {
                proof {
                    lemma_keyed_push(self.entries@, name_view(), (name, value));
                }
                self.entries.push((name, value));
            },
        }
    }

    /// Empties the table and hands back its names and values.
    pub fn drain_all(&mut self) -> (r: Vec<(String, V)>)
        requires
            old(self).wf(),
        ensures
            final(self).wf(),
            final(self).map() == Map::<Seq<char>, V>::empty(),
            keyed_map(r@, name_view()) == old(self).map(),
            keyed_distinct(r@, name_view()),
    {
        let mut out: Vec<(String, V)> = Vec::new();
        std::mem::swap(&mut out, &mut self.entries);
        assert(self.map() =~= Map::<Seq<char>, V>::empty());
        out
    }
}

} // verus!
