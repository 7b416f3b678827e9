//! The environment of a sidecar launch: the key/value list handed to the
//! process and the case-folded lookup map built from it, and the rules that
//! find channel endpoints in it.
use vstd::prelude::*;

use crate::sidecar::{
    ordered_kinds, ordered_kinds_spec, strings_view, suffixes_spec, transport_env_suffixes,
    SidecarLaunchSpec, SidecarTransportKind, SidecarTransportOption,
};
use crate::error::Error;
use crate::text::{chars_of, lower_s, trim_s, trim_string, upper_s};

verus! {

/// The map that a sequence of insertions builds, later ones winning.
pub open spec fn entries_map(s: Seq<(String, String)>) -> Map<Seq<char>, Seq<char>>
    decreases s.len(),
{
    if s.len() == 0 {
        Map::empty()
    } else {
        entries_map(s.drop_last()).insert(s.last().0@, s.last().1@)
    }
}

pub proof fn lemma_entries_map_absent(s: Seq<(String, String)>, k: Seq<char>)
    requires
        forall|i: int| 0 <= i < s.len() ==> s[i].0@ != k,
    ensures
        !entries_map(s).contains_key(k),
    decreases s.len(),
{
    if s.len() > 0 {
        lemma_entries_map_absent(s.drop_last(), k);
    }
}

pub proof fn lemma_entries_map_last(s: Seq<(String, String)>, k: Seq<char>, j: int)
    requires
        0 <= j < s.len(),
        s[j].0@ == k,
        forall|i: int| j < i < s.len() ==> s[i].0@ != k,
    ensures
        entries_map(s).contains_key(k),
        entries_map(s)[k] == s[j].1@,
    decreases s.len(),
{
    if j < s.len() - 1 {
        lemma_entries_map_last(s.drop_last(), k, j);
    }
}

/// A lookup map from environment keys to values.
#[derive(Debug)]
pub struct EnvMap {
    entries: Vec<(String, String)>,
}

impl View for EnvMap {
    type V = Map<Seq<char>, Seq<char>>;

    closed spec fn view(&self) -> Map<Seq<char>, Seq<char>> {
        entries_map(self.entries@)
    }
}

impl EnvMap {
    pub fn new() -> (m: EnvMap)
        ensures
            m@ == Map::<Seq<char>, Seq<char>>::empty(),
    {
        EnvMap { entries: Vec::new() }
    }

    /// Sets `key` to `value`, replacing what it held.
    pub fn insert(&mut self, key: String, value: String)
        ensures
            final(self)@ == old(self)@.insert(key@, value@),
    {
        let ghost old_entries = self.entries@;
        self.entries.push((key, value));
        assert(self.entries@.drop_last() =~= old_entries);
    }

    /// The value of `key`.
    pub fn get(&self, key: &str) -> (r: Option<String>)
        ensures
            match r {
                Some(v) => self@.contains_key(key@) && self@[key@] == v@,
                None => !self@.contains_key(key@),
            },
    {
        let k = String::from_str(key);
        let mut i: usize = self.entries.len();
        while i > 0
            invariant
                0 <= i <= self.entries@.len(),
                k@ == key@,
                forall|j: int| i <= j < self.entries@.len() ==> self.entries@[j].0@ != key@,
            decreases i,
        {
            if self.entries[i - 1].0 == k {
                proof {
                    lemma_entries_map_last(self.entries@, key@, i - 1);
                }
                return Some(self.entries[i - 1].1.clone());
            }
            i = i - 1;
        }
        proof {
            lemma_entries_map_absent(self.entries@, key@);
        }
        None
    }
}

/// The lookup map of a launch environment: keys trimmed and uppercased, blank
/// keys left out, later entries winning.
pub open spec fn env_map_spec(env: Seq<(String, String)>) -> Map<Seq<char>, Seq<char>>
    decreases env.len(),
{
    if env.len() == 0 {
        Map::empty()
    } else {
        let m = env_map_spec(env.drop_last());
        let key = trim_s(env.last().0@);
        if key.len() == 0 {
            m
        } else {
            m.insert(upper_s(key), env.last().1@)
        }
    }
}

/// Builds the lookup map of a launch environment.
pub fn build_env_map(env: &Vec<(String, String)>) -> (m: EnvMap)
    ensures
        m@ == env_map_spec(env@),
{
    let mut m = EnvMap::new();
    let mut i: usize = 0;
    assert(env@.take(0) =~= Seq::<(String, String)>::empty());
    while i < env.len()
        invariant
            0 <= i <= env@.len(),
            m@ == env_map_spec(env@.take(i as int)),
        decreases env@.len() - i,
    {
        assert(env@.take((i + 1) as int).drop_last() =~= env@.take(i as int));
        let key = trim_string(env[i].0.as_str());
        if !key.as_str().is_empty() {
            let upper = upper_string(&key);
            m.insert(upper, env[i].1.clone());
        } else {
            assert(key@.len() == 0);
        }
        i = i + 1;
    }
    assert(env@.take(env@.len() as int) =~= env@);
    m
}

/// `s` uppercased in ASCII.
pub fn upper_string(s: &String) -> (r: String)
    ensures
        r@ == upper_s(s@),
{
    let v = chars_of(s.as_str());
    let mut out: Vec<char> = Vec::new();
    let mut i: usize = 0;
    while i < v.len()
        invariant
            0 <= i <= v@.len(),
            v@ == s@,
            out@ == upper_s(v@.take(i as int)),
        decreases v@.len() - i,
    {
        out.push(crate::text::upper_c_exec(v[i]));
        i = i + 1;
        assert(out@ =~= upper_s(v@.take(i as int)));
    }
    assert(v@.take(v@.len() as int) =~= v@);
    crate::text::string_of(&out)
}

/// `str::eq_ignore_ascii_case`.
pub open spec fn eq_ignore_case(a: Seq<char>, b: Seq<char>) -> bool {
    lower_s(a) == lower_s(b)
}

pub fn eq_ignore_ascii_case(a: &String, b: &String) -> (r: bool)
    ensures
        r == eq_ignore_case(a@, b@),
{
    let va = chars_of(a.as_str());
    let vb = chars_of(b.as_str());
    if va.len() != vb.len() {
        assert(lower_s(a@).len() != lower_s(b@).len());
        return false;
    }
    let mut i: usize = 0;
    while i < va.len()
        invariant
            0 <= i <= va@.len(),
            va@.len() == vb@.len(),
            va@ == a@,
            vb@ == b@,
            forall|j: int| 0 <= j < i ==> lower_s(a@)[j] == lower_s(b@)[j],
        decreases va@.len() - i,
    {
        if crate::text::lower_c_exec(va[i]) != crate::text::lower_c_exec(vb[i]) {
            assert(lower_s(a@)[i as int] != lower_s(b@)[i as int]);
            return false;
        }
        i = i + 1;
    }
    assert(lower_s(a@) =~= lower_s(b@));
    true
}

/// The index of the first entry whose key equals `key` ignoring ASCII case.
pub open spec fn first_entry_ignore_case(env: Seq<(String, String)>, key: Seq<char>) -> int {
    if exists|i: int| 0 <= i < env.len() && eq_ignore_case(env[i].0@, key) {
        choose|i: int|
            0 <= i < env.len() && eq_ignore_case(env[i].0@, key) && forall|j: int|
                0 <= j < i ==> !eq_ignore_case(env[j].0@, key)
    } else {
        -1
    }
}

/// A launch environment as (key, value) texts.
pub open spec fn env_view(env: Seq<(String, String)>) -> Seq<(Seq<char>, Seq<char>)> {
    env.map_values(|p: (String, String)| (p.0@, p.1@))
}

/// The index of the first entry whose key equals `key` ignoring ASCII case,
/// or -1.
pub open spec fn first_key_index(e: Seq<(Seq<char>, Seq<char>)>, key: Seq<char>) -> int
    decreases e.len(),
{
    if e.len() == 0 {
        -1
    } else if eq_ignore_case(e[0].0, key) {
        0
    } else {
        let r = first_key_index(e.drop_first(), key);
        if r < 0 {
            -1
        } else {
            r + 1
        }
    }
}

/// A launch environment with `key` set to `value`: the first entry whose key
/// matches ignoring ASCII case becomes `(key, value)`; without one, the pair
/// is appended. Nothing else changes.
pub open spec fn env_set(e: Seq<(Seq<char>, Seq<char>)>, key: Seq<char>, value: Seq<char>) -> Seq<(Seq<char>, Seq<char>)> {
    let i = first_key_index(e, key);
    if i < 0 {
        e.push((key, value))
    } else {
        e.update(i, (key, value))
    }
}

proof fn lemma_first_key_index_at(e: Seq<(Seq<char>, Seq<char>)>, key: Seq<char>, i: int)
    requires
        0 <= i < e.len(),
        eq_ignore_case(e[i].0, key),
        forall|j: int| 0 <= j < i ==> !eq_ignore_case(#[trigger] e[j].0, key),
    ensures
        first_key_index(e, key) == i,
    decreases e.len(),
{
    if i > 0 {
        let d = e.drop_first();
        assert(!eq_ignore_case(e[0].0, key));
        assert forall|j: int| 0 <= j < i - 1 implies !eq_ignore_case(#[trigger] d[j].0, key) by {
            assert(d[j] == e[j + 1]);
        }
        lemma_first_key_index_at(d, key, i - 1);
    }
}

proof fn lemma_first_key_index_none(e: Seq<(Seq<char>, Seq<char>)>, key: Seq<char>)
    requires
        forall|j: int| 0 <= j < e.len() ==> !eq_ignore_case(#[trigger] e[j].0, key),
    ensures
        first_key_index(e, key) == -1,
    decreases e.len(),
{
    if e.len() > 0 {
        let d = e.drop_first();
        assert(!eq_ignore_case(e[0].0, key));
        assert forall|j: int| 0 <= j < d.len() implies !eq_ignore_case(#[trigger] d[j].0, key) by {
            assert(d[j] == e[j + 1]);
        }
        lemma_first_key_index_none(d, key);
    }
}

/// Sets `key` in a launch environment: the first entry whose key matches it
/// ignoring ASCII case is rewritten to `key=value`; without one, the pair is
/// appended.
pub fn ensure_env_entry(env: &mut Vec<(String, String)>, key: &str, value: &str)
    ensures
        ({
            let ks = key@;
            exists|i: int| 0 <= i < old(env)@.len() && eq_ignore_case(old(env)@[i].0@, ks)
        }) ==> {
            let i = first_entry_ignore_case(old(env)@, key@);
            &&& final(env)@.len() == old(env)@.len()
            &&& final(env)@[i].0@ == key@
            &&& final(env)@[i].1@ == value@
            &&& forall|j: int| 0 <= j < old(env)@.len() && j != i ==> final(env)@[j] == old(env)@[j]
        },
        !(exists|i: int| 0 <= i < old(env)@.len() && eq_ignore_case(old(env)@[i].0@, key@))
            ==> final(env)@.len() == old(env)@.len() + 1 && final(env)@.take(
            old(env)@.len() as int,
        ) == old(env)@ && final(env)@.last().0@ == key@ && final(env)@.last().1@ == value@,
        env_view(final(env)@) == env_set(env_view(old(env)@), key@, value@),
{
    let k = String::from_str(key);
    let mut i: usize = 0;
    while i < env.len()
        invariant
            0 <= i <= env@.len(),
            env@ == old(env)@,
            k@ == key@,
            forall|j: int| 0 <= j < i ==> !eq_ignore_case(env@[j].0@, key@),
        decreases env@.len() - i,
    {
        if eq_ignore_ascii_case(&env[i].0, &k) {
            proof {
                let c = choose|c: int|
                    0 <= c < env@.len() && eq_ignore_case(env@[c].0@, key@) && forall|j: int|
                        0 <= j < c ==> !eq_ignore_case(env@[j].0@, key@);
                assert(0 <= i < env@.len() && eq_ignore_case(env@[i as int].0@, key@) && forall|
                    j: int,
                | 0 <= j < i ==> !eq_ignore_case(env@[j].0@, key@));
                if c < i {
                } else if i < c {
                    assert(!eq_ignore_case(env@[i as int].0@, key@));
                }
                assert(c == i);
                assert forall|j: int| 0 <= j < i implies !eq_ignore_case(#[trigger] env_view(env@)[j].0, key@) by {
                    assert(env_view(env@)[j].0 == env@[j].0@);
                }
                lemma_first_key_index_at(env_view(env@), key@, i as int);
            }
            let pair = (k, String::from_str(value));
            let ghost pv = (pair.0@, pair.1@);
            env.set(i, pair);
            assert(env_view(env@) =~= env_set(env_view(old(env)@), key@, value@)) by {
                assert(env_view(env@) =~= env_view(old(env)@).update(i as int, pv));
            }
            return;
        }
        i = i + 1;
    }
    proof {
        assert forall|j: int| 0 <= j < env_view(env@).len() implies !eq_ignore_case(#[trigger] env_view(env@)[j].0, key@) by {
            assert(env_view(env@)[j].0 == env@[j].0@);
        }
        lemma_first_key_index_none(env_view(env@), key@);
    }
    let pair = (k, String::from_str(value));
    let ghost pv = (pair.0@, pair.1@);
    env.push(pair);
    assert(env@.take(old(env)@.len() as int) =~= old(env)@);
    assert(env_view(env@) =~= env_view(old(env)@).push(pv));
}

/// `keys.iter().find_map(|k| map.get(k))`, trimmed, kept only if not blank:
/// the first key present decides, even where its value is blank.
pub open spec fn first_present(m: Map<Seq<char>, Seq<char>>, keys: Seq<Seq<char>>) -> Option<
    Seq<char>,
>
    decreases keys.len(),
{
    if keys.len() == 0 {
        None
    } else if m.contains_key(keys[0]) {
        Some(m[keys[0]])
    } else {
        first_present(m, keys.drop_first())
    }
}

pub open spec fn first_non_empty_spec(m: Map<Seq<char>, Seq<char>>, keys: Seq<Seq<char>>) -> Option<
    Seq<char>,
> {
    match first_present(m, keys) {
        Some(v) => if trim_s(v).len() == 0 {
            None
        } else {
            Some(trim_s(v))
        },
        None => None,
    }
}

/// The trimmed value of the first of `keys` that the map holds, where that
/// value is not blank.
pub fn first_non_empty_env(env_map: &EnvMap, keys: &Vec<String>) -> (r: Option<String>)
    ensures
        match r {
            Some(v) => first_non_empty_spec(env_map@, strings_view(keys@)) == Some(v@),
            None => first_non_empty_spec(env_map@, strings_view(keys@)) is None,
        },
{
    let ghost ks = strings_view(keys@);
    assert(ks.skip(0) =~= ks);
    let mut i: usize = 0;
    while i < keys.len()
        invariant
            0 <= i <= keys@.len(),
            ks == strings_view(keys@),
            first_present(env_map@, ks) == first_present(env_map@, ks.skip(i as int)),
        decreases keys@.len() - i,
    {
        assert(ks.skip(i as int)[0] == keys@[i as int]@);
        assert(ks.skip(i as int).drop_first() =~= ks.skip((i + 1) as int));
        match env_map.get(keys[i].as_str()) {
            Some(v) => {
                let t = trim_string(v.as_str());
                if t.as_str().is_empty() {
                    assert(t@.len() == 0);
                    return None;
                }
                return Some(t);
            },
            None => {},
        }
        i = i + 1;
    }
    assert(ks.skip(i as int).len() == 0);
    None
}

/// The first of `keys` whose trimmed value in the map is not blank, with that
/// trimmed value.
pub open spec fn first_filled(m: Map<Seq<char>, Seq<char>>, keys: Seq<Seq<char>>) -> Option<
    Seq<char>,
>
    decreases keys.len(),
{
    if keys.len() == 0 {
        None
    } else if m.contains_key(keys[0]) && trim_s(m[keys[0]]).len() > 0 {
        Some(trim_s(m[keys[0]]))
    } else {
        first_filled(m, keys.drop_first())
    }
}

/// The first key with a non-blank value decides: where key `i` is the first
/// whose value is not blank, its trimmed value is the answer; where no key
/// has one, there is none.
pub proof fn law_first_filled_key_wins(m: Map<Seq<char>, Seq<char>>, keys: Seq<Seq<char>>)
    ensures
        first_filled(m, keys) is None <==> forall|i: int|
            0 <= i < keys.len() ==> !(m.contains_key(#[trigger] keys[i]) && trim_s(m[keys[i]]).len() > 0),
        forall|i: int|
            0 <= i < keys.len() && m.contains_key(#[trigger] keys[i]) && trim_s(m[keys[i]]).len() > 0
                && (forall|j: int| 0 <= j < i ==> !(m.contains_key(keys[j]) && trim_s(m[keys[j]]).len() > 0))
                ==> first_filled(m, keys) == Some(trim_s(m[keys[i]])),
    decreases keys.len(),
{
    if keys.len() > 0 {
        let d = keys.drop_first();
        law_first_filled_key_wins(m, d);
        assert forall|i: int| 0 <= i < d.len() implies d[i] == keys[i + 1] by {}
        if !(m.contains_key(keys[0]) && trim_s(m[keys[0]]).len() > 0) {
            if forall|i: int| 0 <= i < d.len() ==> !(m.contains_key(#[trigger] d[i]) && trim_s(m[d[i]]).len() > 0) {
                assert forall|i: int| 0 <= i < keys.len() implies !(m.contains_key(#[trigger] keys[i]) && trim_s(m[keys[i]]).len() > 0) by {
                    if i > 0 {
                        assert(keys[i] == d[i - 1]);
                    }
                }
            }
            if forall|i: int| 0 <= i < keys.len() ==> !(m.contains_key(#[trigger] keys[i]) && trim_s(m[keys[i]]).len() > 0) {
                assert forall|i: int| 0 <= i < d.len() implies !(m.contains_key(#[trigger] d[i]) && trim_s(m[d[i]]).len() > 0) by {
                    assert(d[i] == keys[i + 1]);
                }
            }
        }
        assert forall|i: int|
            0 <= i < keys.len() && m.contains_key(#[trigger] keys[i]) && trim_s(m[keys[i]]).len() > 0
                && (forall|j: int| 0 <= j < i ==> !(m.contains_key(keys[j]) && trim_s(m[keys[j]]).len() > 0))
            implies first_filled(m, keys) == Some(trim_s(m[keys[i]])) by {
            if i > 0 {
                assert(d[i - 1] == keys[i]);
                assert forall|j: int| 0 <= j < i - 1 implies !(m.contains_key(d[j]) && trim_s(m[d[j]]).len() > 0) by {
                    assert(d[j] == keys[j + 1]);
                }
            }
        }
    }
}

/// The variables that may hold the endpoint of a channel: for a data channel
/// of a role, `STELLATUNE_SIDECAR_DATA_<ROLE>_<SUFFIX>` (where the role key is
/// not empty) then `STELLATUNE_SIDECAR_DATA_<SUFFIX>`; for the control channel
/// `STELLATUNE_SIDECAR_CONTROL_<SUFFIX>`.
pub open spec fn endpoint_keys_spec(role_key: Option<Seq<char>>, suffixes: Seq<Seq<char>>) -> Seq<
    Seq<char>,
> {
    match role_key {
        Some(rk) => {
            let role_keys = if rk.len() > 0 {
                suffixes.map_values(
                    |s: Seq<char>| "STELLATUNE_SIDECAR_DATA_"@ + rk + "_"@ + s,
                )
            } else {
                Seq::empty()
            };
            role_keys + suffixes.map_values(|s: Seq<char>| "STELLATUNE_SIDECAR_DATA_"@ + s)
        },
        None => suffixes.map_values(|s: Seq<char>| "STELLATUNE_SIDECAR_CONTROL_"@ + s),
    }
}

/// The endpoint of a channel of `kind`, found in the launch environment.
pub fn resolve_endpoint(env_map: &EnvMap, role: Option<&str>, kind: SidecarTransportKind) -> (r:
    Option<String>)
    ensures
        ({
            let rk = match role {
                Some(s) => Some(crate::sidecar::role_key_spec(s@)),
                None => None,
            };
            match r {
                Some(v) => first_filled(env_map@, endpoint_keys_spec(rk, suffixes_spec(kind)))
                    == Some(v@),
                None => first_filled(env_map@, endpoint_keys_spec(rk, suffixes_spec(kind))) is None,
            }
        }),
{
    let suffixes = transport_env_suffixes(kind);
    let ghost sv = strings_view(suffixes@);
    let mut keys: Vec<String> = Vec::new();
    match role {
        Some(role) => {
            let role_key = crate::sidecar::normalize_role_key(role);
            if !role_key.as_str().is_empty() {
                let mut i: usize = 0;
                while i < suffixes.len()
                    invariant
                        0 <= i <= suffixes@.len(),
                        sv == strings_view(suffixes@),
                        strings_view(keys@) == sv.take(i as int).map_values(
                            |s: Seq<char>| "STELLATUNE_SIDECAR_DATA_"@ + role_key@ + "_"@ + s,
                        ),
                    decreases suffixes@.len() - i,
                {
                    let k = String::from_str("STELLATUNE_SIDECAR_DATA_").concat(
                        role_key.as_str(),
                    ).concat("_").concat(suffixes[i].as_str());
                    let ghost before = keys@;
                    keys.push(k);
                    proof {
                        assert(sv[i as int] == suffixes@[i as int]@);
                        assert(keys@ == before.push(k));
                        assert(strings_view(keys@) =~= strings_view(before).push(k@));
                        assert(sv.take((i + 1) as int) =~= sv.take(i as int).push(sv[i as int]));
                    }
                    i = i + 1;
                    assert(strings_view(keys@) =~= sv.take(i as int).map_values(
                        |s: Seq<char>| "STELLATUNE_SIDECAR_DATA_"@ + role_key@ + "_"@ + s,
                    ));
                }
                assert(sv.take(suffixes@.len() as int) =~= sv);
            } else {
                assert(strings_view(keys@) =~= Seq::<Seq<char>>::empty());
            }
            let ghost role_part = strings_view(keys@);
            let mut i: usize = 0;
            while i < suffixes.len()
                invariant
                    0 <= i <= suffixes@.len(),
                    sv == strings_view(suffixes@),
                    strings_view(keys@) == role_part + sv.take(i as int).map_values(
                        |s: Seq<char>| "STELLATUNE_SIDECAR_DATA_"@ + s,
                    ),
                decreases suffixes@.len() - i,
            {
                let k = String::from_str("STELLATUNE_SIDECAR_DATA_").concat(suffixes[i].as_str());
                let ghost before = keys@;
                keys.push(k);
                proof {
                    assert(sv[i as int] == suffixes@[i as int]@);
                    assert(strings_view(keys@) =~= strings_view(before).push(k@));
                    assert(sv.take((i + 1) as int) =~= sv.take(i as int).push(sv[i as int]));
                }
                i = i + 1;
                assert(strings_view(keys@) =~= role_part + sv.take(i as int).map_values(
                    |s: Seq<char>| "STELLATUNE_SIDECAR_DATA_"@ + s,
                ));
            }
            assert(sv.take(suffixes@.len() as int) =~= sv);
            assert(strings_view(keys@) =~= endpoint_keys_spec(Some(role_key@), sv));
        },
        None => {
            let mut i: usize = 0;
            while i < suffixes.len()
                invariant
                    0 <= i <= suffixes@.len(),
                    sv == strings_view(suffixes@),
                    strings_view(keys@) == sv.take(i as int).map_values(
                        |s: Seq<char>| "STELLATUNE_SIDECAR_CONTROL_"@ + s,
                    ),
                decreases suffixes@.len() - i,
            {
                let k = String::from_str("STELLATUNE_SIDECAR_CONTROL_").concat(
                    suffixes[i].as_str(),
                );
                let ghost before = keys@;
                keys.push(k);
                proof {
                    assert(sv[i as int] == suffixes@[i as int]@);
                    assert(strings_view(keys@) =~= strings_view(before).push(k@));
                    assert(sv.take((i + 1) as int) =~= sv.take(i as int).push(sv[i as int]));
                }
                i = i + 1;
                assert(strings_view(keys@) =~= sv.take(i as int).map_values(
                    |s: Seq<char>| "STELLATUNE_SIDECAR_CONTROL_"@ + s,
                ));
            }
            assert(sv.take(suffixes@.len() as int) =~= sv);
            assert(strings_view(keys@) =~= endpoint_keys_spec(None, sv));
        },
    }
    let ghost ks = strings_view(keys@);
    let ghost rk = match role {
        Some(s) => Some(crate::sidecar::role_key_spec(s@)),
        None => None,
    };
    assert(sv == suffixes_spec(kind));
    assert(ks == endpoint_keys_spec(rk, suffixes_spec(kind)));
    assert(ks.skip(0) =~= ks);
    let mut i: usize = 0;
    while i < keys.len()
        invariant
            0 <= i <= keys@.len(),
            ks == strings_view(keys@),
            ks == endpoint_keys_spec(rk, suffixes_spec(kind)),
            rk == match role {
                Some(s) => Some(crate::sidecar::role_key_spec(s@)),
                None => None,
            },
            first_filled(env_map@, ks) == first_filled(env_map@, ks.skip(i as int)),
        decreases keys@.len() - i,
    {
        assert(ks.skip(i as int)[0] == keys@[i as int]@);
        assert(ks.skip(i as int).drop_first() =~= ks.skip((i + 1) as int));
        match env_map.get(keys[i].as_str()) {
            Some(v) => {
                let t = trim_string(v.as_str());
                if !t.as_str().is_empty() {
                    assert(env_map@.contains_key(ks.skip(i as int)[0]));
                    assert(first_filled(env_map@, ks.skip(i as int)) == Some(t@));
                    return Some(t);
                }
                assert(t@.len() == 0);
            },
            None => {},
        }
        i = i + 1;
    }
    assert(ks.skip(i as int).len() == 0);
    None
}

/// What the environment of a launch needs for a shared-memory channel.
#[derive(Debug)]
pub enum ShmEnvPlan {
    /// No preferred transport is a shared-memory ring: nothing to do.
    Skip,
    /// The environment already names an endpoint: write it under both keys.
    Reuse(String),
    /// Rings of this capacity must be created, and their endpoint written
    /// under both keys.
    Create(usize),
}

pub open spec fn wants_shm(preferred: Seq<SidecarTransportOption>) -> bool {
    exists|i: int|
        0 <= i < preferred.len() && preferred[i].kind == SidecarTransportKind::SharedMemoryRing
}

/// The frame sizes asked for by the shared-memory options, in order.
pub open spec fn shm_frame_sizes(preferred: Seq<SidecarTransportOption>) -> Seq<u32>
    decreases preferred.len(),
{
    if preferred.len() == 0 {
        Seq::empty()
    } else {
        let r = shm_frame_sizes(preferred.drop_last());
        let o = preferred.last();
        if o.kind == SidecarTransportKind::SharedMemoryRing && o.max_frame_bytes is Some {
            r.push(o.max_frame_bytes->0)
        } else {
            r
        }
    }
}

/// Decides how a launch gets its shared-memory endpoint under `full_key` and
/// `short_key`.
pub fn plan_shared_memory_env(
    preferred: &Vec<SidecarTransportOption>,
    full_key: &str,
    short_key: &str,
    env_map: &EnvMap,
) -> (p: ShmEnvPlan)
    ensures
        !wants_shm(preferred@) ==> p is Skip,
        wants_shm(preferred@) ==> {
            let keys = seq![full_key@, short_key@];
            match first_non_empty_spec(env_map@, keys) {
                Some(v) => p matches ShmEnvPlan::Reuse(s) && s@ == v,
                None => p matches ShmEnvPlan::Create(cap) && crate::ring::valid_capacity(
                    cap as int,
                ) && (shm_frame_sizes(preferred@).len() == 0 ==> cap
                    == crate::ring::SHM_DEFAULT_CAPACITY) && (shm_frame_sizes(preferred@).len() > 0
                    ==> {
                    let m = crate::ring::seq_max(shm_frame_sizes(preferred@));
                    cap == if m < crate::ring::SHM_MIN_CAPACITY {
                        crate::ring::SHM_MIN_CAPACITY as int
                    } else if m > crate::ring::SHM_MAX_CAPACITY {
                        crate::ring::SHM_MAX_CAPACITY as int
                    } else {
                        m
                    }
                }),
            }
        },
{
    let mut wants = false;
    let mut sizes: Vec<u32> = Vec::new();
    let mut i: usize = 0;
    assert(preferred@.take(0) =~= Seq::<SidecarTransportOption>::empty());
    while i < preferred.len()
        invariant
            0 <= i <= preferred@.len(),
            wants == exists|j: int|
                0 <= j < i && preferred@[j].kind == SidecarTransportKind::SharedMemoryRing,
            sizes@ == shm_frame_sizes(preferred@.take(i as int)),
        decreases preferred@.len() - i,
    {
        assert(preferred@.take((i + 1) as int).drop_last() =~= preferred@.take(i as int));
        let o = preferred[i];
        if o.kind == SidecarTransportKind::SharedMemoryRing {
            wants = true;
            match o.max_frame_bytes {
                Some(b) => {
                    sizes.push(b);
                },
                None => {},
            }
        }
        i = i + 1;
    }
    assert(preferred@.take(preferred@.len() as int) =~= preferred@);
    if !wants {
        return ShmEnvPlan::Skip;
    }
    let mut keys: Vec<String> = Vec::new();
    keys.push(String::from_str(full_key));
    keys.push(String::from_str(short_key));
    assert(strings_view(keys@) =~= seq![full_key@, short_key@]);
    match first_non_empty_env(env_map, &keys) {
        Some(v) => ShmEnvPlan::Reuse(v),
        None => ShmEnvPlan::Create(crate::ring::shm_ring_capacity(&sizes)),
    }
}

/// Writes a shared-memory endpoint into the launch environment and its lookup
/// map, under both keys.
pub fn apply_shared_memory_endpoint(
    env: &mut Vec<(String, String)>,
    env_map: &mut EnvMap,
    full_key: &str,
    short_key: &str,
    endpoint: &str,
)
    ensures
        env_view(final(env)@) == env_set(
            env_set(env_view(old(env)@), full_key@, endpoint@),
            short_key@,
            endpoint@,
        ),
        final(env_map)@ == old(env_map)@.insert(full_key@, endpoint@).insert(
            short_key@,
            endpoint@,
        ),
{
    ensure_env_entry(env, full_key, endpoint);
    ensure_env_entry(env, short_key, endpoint);
    env_map.insert(String::from_str(full_key), String::from_str(endpoint));
    env_map.insert(String::from_str(short_key), String::from_str(endpoint));
}

/// The kinds a channel is tried with, in order: the preferred kinds by
/// priority, then stdio where it is not among them.
pub open spec fn channel_attempts_spec(options: Seq<SidecarTransportOption>) -> Seq<SidecarTransportKind> {
    let kinds = ordered_kinds_spec(options);
    if kinds.contains(SidecarTransportKind::Stdio) {
        kinds
    } else {
        kinds.push(SidecarTransportKind::Stdio)
    }
}

pub fn channel_attempt_order(options: &Vec<SidecarTransportOption>) -> (r: Vec<SidecarTransportKind>)
    ensures
        r@ == channel_attempts_spec(options@),
{
    let mut kinds = ordered_kinds(options);
    let mut i: usize = 0;
    let mut has_stdio = false;
    while i < kinds.len()
        invariant
            i <= kinds@.len(),
            kinds@ == ordered_kinds_spec(options@),
            has_stdio == (exists|j: int| 0 <= j < i && kinds@[j] == SidecarTransportKind::Stdio),
        decreases kinds@.len() - i,
    {
        if kinds[i] == SidecarTransportKind::Stdio {
            has_stdio = true;
        }
        i = i + 1;
    }
    if !has_stdio {
        kinds.push(SidecarTransportKind::Stdio);
    }
    kinds
}

/// How a channel of one kind is opened.
#[derive(Debug)]
pub enum ChannelPlan {
    /// Over the process's standard input and output.
    Stdio,
    /// By connecting to this endpoint.
    Connect { kind: SidecarTransportKind, endpoint: String },
}

/// How a transport is named where its endpoint is missing.
pub open spec fn transport_label(kind: SidecarTransportKind) -> Seq<char> {
    match kind {
        SidecarTransportKind::Stdio => "stdio"@,
        SidecarTransportKind::NamedPipe => "named pipe"@,
        SidecarTransportKind::UnixSocket => "unix socket"@,
        SidecarTransportKind::LoopbackTcp => "loopback tcp"@,
        SidecarTransportKind::SharedMemoryRing => "shared-memory-ring"@,
    }
}

/// Decides how a channel of `kind` is opened for `role` (`None` for the
/// control channel): stdio needs nothing; any other kind needs its endpoint
/// in the launch environment.
pub fn channel_plan(env_map: &EnvMap, role: Option<&str>, kind: SidecarTransportKind) -> (r: Result<ChannelPlan, Error>)
    ensures
        kind == SidecarTransportKind::Stdio ==> r matches Ok(ChannelPlan::Stdio),
        kind != SidecarTransportKind::Stdio ==> ({
            let rk = match role {
                Some(s) => Some(crate::sidecar::role_key_spec(s@)),
                None => None,
            };
            match first_filled(env_map@, endpoint_keys_spec(rk, suffixes_spec(kind))) {
                Some(v) => r matches Ok(ChannelPlan::Connect { kind: k, endpoint }) && k == kind && endpoint@ == v,
                None => r matches Err(Error::Unsupported { message }) && message@ == "missing endpoint env for "@
                    + transport_label(kind) + " role="@ + match role {
                    Some(s) => s@,
                    None => "control"@,
                },
            }
        }),
{
    if kind == SidecarTransportKind::Stdio {
        return Ok(ChannelPlan::Stdio);
    }
    match resolve_endpoint(env_map, role, kind) {
        Some(endpoint) => Ok(ChannelPlan::Connect { kind, endpoint }),
        None => {
            let label = match kind {
                SidecarTransportKind::Stdio => "stdio",
                SidecarTransportKind::NamedPipe => "named pipe",
                SidecarTransportKind::UnixSocket => "unix socket",
                SidecarTransportKind::LoopbackTcp => "loopback tcp",
                SidecarTransportKind::SharedMemoryRing => "shared-memory-ring",
            };
            let role_text = match role {
                Some(s) => s,
                None => "control",
            };
            let message = String::from_str("missing endpoint env for ").concat(label).concat(" role=").concat(
                role_text,
            );
            Err(Error::Unsupported { message })
        },
    }
}

/// The executable a launch starts: the spec's, trimmed; a blank one is
/// refused.
pub fn launch_executable(spec: &SidecarLaunchSpec) -> (r: Result<String, Error>)
    ensures
        trim_s(spec.executable@).len() == 0 ==> (r matches Err(Error::InvalidInput { message }) && message@
            == "sidecar executable is empty"@),
        trim_s(spec.executable@).len() > 0 ==> (r matches Ok(e) && e@ == trim_s(spec.executable@)),
{
    let e = trim_string(spec.executable.as_str());
    if e.as_str().is_empty() {
        return Err(Error::invalid_input("sidecar executable is empty"));
    }
    Ok(e)
}

} // verus!
