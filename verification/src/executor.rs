//! The bookkeeping of the component plugin controller: which world a
//! component implements, which components an install loads and whether the
//! plugin's live instances must be rebuilt, which plugins are active and which
//! channels reach their instances, and where a capability is found.
use vstd::prelude::*;

use crate::host_runtime::AbilityKind;
use crate::install::{last_slash, lemma_last_slash_bounds};
use crate::keyed::{keyed_distinct, keyed_map, lemma_keyed_at, lemma_keyed_in_list, name_view, NamedTable};
use crate::order::{lemma_str_lt_asymmetric, lemma_str_lt_irreflexive, lemma_str_lt_total, str_less, str_lt};
use crate::text::{chars_of, first_index, find_char_in, string_of_range, trim_range, trim_s, trim_string};

verus! {

/// The part of a world name that names the world: after the last `/`,
/// before the first `@`, trimmed.
pub open spec fn after_last_slash(s: Seq<char>) -> Seq<char> {
    s.subrange(last_slash(s) + 1, s.len() as int)
}

pub open spec fn before_first_at(s: Seq<char>) -> Seq<char> {
    let k = first_index(s, '@');
    if k < 0 {
        s
    } else {
        s.take(k)
    }
}

pub open spec fn normalize_world_spec(world: Seq<char>) -> Seq<char> {
    trim_s(before_first_at(after_last_slash(trim_s(world))))
}

/// The bare name of a component world (`pkg:ns/decoder-plugin@1.0` names
/// `decoder-plugin`).
pub fn normalize_world_name(world: &str) -> (r: String)
    ensures
        r@ == normalize_world_spec(world@),
{
    let t = trim_string(world);
    let v = chars_of(t.as_str());
    let n = v.len();
    let mut j: usize = n;
    assert(v@.take(n as int) =~= v@);
    while j > 0 && v[j - 1] != '/'
        invariant
            j <= n == v@.len(),
            last_slash(v@) == last_slash(v@.take(j as int)),
        decreases j,
    {
        assert(v@.take(j as int).drop_last() =~= v@.take(j - 1));
        assert(v@.take(j as int).last() == v@[j - 1]);
        j = j - 1;
    }
    proof {
        assert(v@.take(n as int) =~= v@);
        if j > 0 {
            assert(v@.take(j as int).last() == v@[j - 1]);
        }
        lemma_last_slash_bounds(v@.take(j as int));
        assert(last_slash(v@) + 1 == j);
    }
    let ghost a = v@.subrange(j as int, n as int);
    assert(a == after_last_slash(t@));
    let k = match find_char_in(&v, j, n, '@') {
        Some(k) => k,
        None => n,
    };
    assert(v@.subrange(j as int, k as int) == before_first_at(a)) by {
        if k < n {
            assert(a.take(k - j) =~= v@.subrange(j as int, k as int));
        } else {
            assert(a =~= v@.subrange(j as int, k as int));
        }
    }
    let (lo, hi) = trim_range(&v, j, k);
    string_of_range(&v, lo, hi)
}

/// The kinds of component worlds the controller can run.
#[derive(Debug, Clone, Copy, PartialEq, Eq, Structural)]
pub enum WorldKind {
    Decoder,
    Source,
    Lyrics,
    OutputSink,
    Dsp,
    Unknown,
}

/// The bare names of the worlds the host implements.
#[derive(Debug)]
pub struct WorldNames {
    pub decoder: String,
    pub source: String,
    pub lyrics: String,
    pub output_sink: String,
    pub dsp: String,
}

pub open spec fn world_kind_spec(names: WorldNames, world: Seq<char>) -> WorldKind {
    let n = normalize_world_spec(world);
    if n == names.decoder@ {
        WorldKind::Decoder
    } else if n == names.source@ {
        WorldKind::Source
    } else if n == names.lyrics@ {
        WorldKind::Lyrics
    } else if n == names.output_sink@ {
        WorldKind::OutputSink
    } else if n == names.dsp@ {
        WorldKind::Dsp
    } else {
        WorldKind::Unknown
    }
}

/// Which world a component implements, by its bare world name.
pub fn classify_world(names: &WorldNames, world: &str) -> (k: WorldKind)
    ensures
        k == world_kind_spec(*names, world@),
{
    let n = normalize_world_name(world);
    if n == names.decoder {
        WorldKind::Decoder
    } else if n == names.source {
        WorldKind::Source
    } else if n == names.lyrics {
        WorldKind::Lyrics
    } else if n == names.output_sink {
        WorldKind::OutputSink
    } else if n == names.dsp {
        WorldKind::Dsp
    } else {
        WorldKind::Unknown
    }
}

/// One capability of a component plugin: its kind and type, and the
/// component that provides it (id, path under the plugin root, world).
#[derive(Debug)]
pub struct ComponentCapability {
    pub kind: AbilityKind,
    pub type_id: String,
    pub component_id: String,
    pub component_rel_path: String,
    pub world: String,
}

/// The path and world that the last capability naming `id` gives it.
pub open spec fn last_component(caps: Seq<ComponentCapability>, id: Seq<char>) -> Option<(Seq<char>, Seq<char>)>
    decreases caps.len(),
{
    if caps.len() == 0 {
        None
    } else if caps.last().component_id@ == id {
        Some((caps.last().component_rel_path@, caps.last().world@))
    } else {
        last_component(caps.drop_last(), id)
    }
}

/// The world that the last capability naming `id` gives it.
pub open spec fn last_world(caps: Seq<ComponentCapability>, id: Seq<char>) -> Seq<char> {
    match last_component(caps, id) {
        Some(pw) => pw.1,
        None => Seq::empty(),
    }
}

/// Two capabilities name the same component with a different path or world.
pub open spec fn has_component_conflict(caps: Seq<ComponentCapability>) -> bool {
    exists|i: int, j: int|
        #![trigger caps[i], caps[j]]
        0 <= i < j < caps.len() && caps[i].component_id@ == caps[j].component_id@ && (
        caps[i].component_rel_path@ != caps[j].component_rel_path@ || caps[i].world@
            != caps[j].world@)
}

/// The text an install with a component of an unknown world fails with.
pub open spec fn unsupported_world_text(world: Seq<char>, plugin_id: Seq<char>, component_id: Seq<char>) -> Seq<char> {
    "unsupported world `"@ + world + "` in plugin `"@ + plugin_id + "` component `"@ + component_id
        + "`"@
}

/// The components an install loads, by id in order, with their paths, and
/// whether the live instances must be rebuilt.
#[derive(Debug)]
pub struct ComponentInstallPlan {
    pub components: Vec<(String, String)>,
    pub force_rebuild: bool,
}

/// One component in the table an install builds.
struct ComponentEntry {
    id: String,
    path: String,
    world: String,
}

spec fn entries_sorted(t: Seq<ComponentEntry>) -> bool {
    forall|a: int, b: int| 0 <= a < b < t.len() ==> str_lt(#[trigger] t[a].id@, #[trigger] t[b].id@)
}

spec fn entries_match(t: Seq<ComponentEntry>, caps: Seq<ComponentCapability>) -> bool {
    forall|a: int| 0 <= a < t.len() ==> last_component(caps, #[trigger] t[a].id@) == Some((t[a].path@, t[a].world@))
}

spec fn entries_cover(t: Seq<ComponentEntry>, caps: Seq<ComponentCapability>) -> bool {
    forall|i: int| 0 <= i < caps.len() ==> exists|a: int| 0 <= a < t.len() && #[trigger] t[a].id@ == #[trigger] caps[i].component_id@
}

proof fn lemma_last_component_push(caps: Seq<ComponentCapability>, c: ComponentCapability, id: Seq<char>)
    ensures
        last_component(caps.push(c), id) == if c.component_id@ == id {
            Some((c.component_rel_path@, c.world@))
        } else {
            last_component(caps, id)
        },
{
    assert(caps.push(c).drop_last() =~= caps);
}

proof fn lemma_last_component_from(caps: Seq<ComponentCapability>, id: Seq<char>)
    requires
        last_component(caps, id) is Some,
    ensures
        exists|i: int| 0 <= i < caps.len() && #[trigger] caps[i].component_id@ == id,
    decreases caps.len(),
{
    if caps.last().component_id@ != id {
        lemma_last_component_from(caps.drop_last(), id);
        let i = choose|i: int| 0 <= i < caps.drop_last().len() && #[trigger] caps.drop_last()[i].component_id@ == id;
        assert(caps[i] == caps.drop_last()[i]);
    } else {
        assert(caps[caps.len() - 1].component_id@ == id);
    }
}

/// Without a conflict, every capability naming a component agrees with the
/// last one.
proof fn lemma_no_conflict_agrees(caps: Seq<ComponentCapability>, i: int)
    requires
        !has_component_conflict(caps),
        0 <= i < caps.len(),
    ensures
        last_component(caps, caps[i].component_id@) == Some((caps[i].component_rel_path@, caps[i].world@)),
    decreases caps.len(),
{
    let n = caps.len() - 1;
    if i < n {
        if caps.last().component_id@ == caps[i].component_id@ {
            assert(caps[n] == caps.last());
            assert(!(caps[i].component_rel_path@ != caps[n].component_rel_path@ || caps[i].world@ != caps[n].world@));
        } else {
            let d = caps.drop_last();
            assert(d[i] == caps[i]);
            assert(!has_component_conflict(d)) by {
                if has_component_conflict(d) {
                    let (a, b) = choose|a: int, b: int|
                        #![trigger d[a], d[b]]
                        0 <= a < b < d.len() && d[a].component_id@ == d[b].component_id@ && (
                        d[a].component_rel_path@ != d[b].component_rel_path@ || d[a].world@
                            != d[b].world@);
                    assert(d[a] == caps[a] && d[b] == caps[b]);
                }
            }
            lemma_no_conflict_agrees(d, i);
        }
    }
}

proof fn lemma_conflict_push(caps: Seq<ComponentCapability>, c: ComponentCapability)
    ensures
        has_component_conflict(caps.push(c)) == (has_component_conflict(caps) || exists|i: int|
            0 <= i < caps.len() && #[trigger] caps[i].component_id@ == c.component_id@ && (
            caps[i].component_rel_path@ != c.component_rel_path@ || caps[i].world@ != c.world@)),
{
    let p = caps.push(c);
    if has_component_conflict(p) {
        let (a, b) = choose|a: int, b: int|
            #![trigger p[a], p[b]]
            0 <= a < b < p.len() && p[a].component_id@ == p[b].component_id@ && (
            p[a].component_rel_path@ != p[b].component_rel_path@ || p[a].world@ != p[b].world@);
        assert(p[a] == caps[a]);
        if b < caps.len() {
            assert(p[b] == caps[b]);
        } else {
            assert(p[b] == c);
        }
    }
    if has_component_conflict(caps) {
        let (a, b) = choose|a: int, b: int|
            #![trigger caps[a], caps[b]]
            0 <= a < b < caps.len() && caps[a].component_id@ == caps[b].component_id@ && (
            caps[a].component_rel_path@ != caps[b].component_rel_path@ || caps[a].world@
                != caps[b].world@);
        assert(p[a] == caps[a] && p[b] == caps[b]);
    }
    if exists|i: int|
        0 <= i < caps.len() && #[trigger] caps[i].component_id@ == c.component_id@ && (
        caps[i].component_rel_path@ != c.component_rel_path@ || caps[i].world@ != c.world@) {
        let i = choose|i: int|
            0 <= i < caps.len() && #[trigger] caps[i].component_id@ == c.component_id@ && (
            caps[i].component_rel_path@ != c.component_rel_path@ || caps[i].world@ != c.world@);
        assert(p[i] == caps[i] && p[caps.len() as int] == c);
    }
}

/// Everything the table of an install holds after reading the capabilities
/// `p`: one entry per component id, ordered by id, each with the last path and
/// world given to it; `force` tells whether two capabilities disagree.
spec fn table_inv(t: Seq<ComponentEntry>, p: Seq<ComponentCapability>, force: bool) -> bool {
    &&& entries_sorted(t)
    &&& entries_match(t, p)
    &&& entries_cover(t, p)
    &&& forall|a: int| 0 <= a < t.len() ==> #[trigger] entry_from(t, p, a)
    &&& force == has_component_conflict(p)
}

/// Some capability of `p` names the component of entry `a`.
spec fn entry_from(t: Seq<ComponentEntry>, p: Seq<ComponentCapability>, a: int) -> bool {
    exists|i: int| 0 <= i < p.len() && #[trigger] p[i].component_id@ == t[a].id@
}

spec fn entry_of(e: ComponentEntry, c: ComponentCapability) -> bool {
    e.id@ == c.component_id@ && e.path@ == c.component_rel_path@ && e.world@ == c.world@
}

proof fn lemma_push_facts(p: Seq<ComponentCapability>, c: ComponentCapability)
    ensures
        has_component_conflict(p.push(c)) == (has_component_conflict(p) || exists|i: int|
            0 <= i < p.len() && #[trigger] p[i].component_id@ == c.component_id@ && (
            p[i].component_rel_path@ != c.component_rel_path@ || p[i].world@ != c.world@)),
        forall|id: Seq<char>| #[trigger] last_component(p.push(c), id) == if c.component_id@ == id {
            Some((c.component_rel_path@, c.world@))
        } else {
            last_component(p, id)
        },
        forall|i: int| 0 <= i < p.len() ==> #[trigger] p.push(c)[i] == p[i],
        p.push(c)[p.len() as int] == c,
{
    lemma_conflict_push(p, c);
    assert forall|id: Seq<char>| #[trigger] last_component(p.push(c), id) == if c.component_id@ == id {
        Some((c.component_rel_path@, c.world@))
    } else {
        last_component(p, id)
    } by {
        lemma_last_component_push(p, c, id);
    }
}

/// A capability that repeats an entry's path and world changes nothing.
proof fn lemma_add_same(t: Seq<ComponentEntry>, p: Seq<ComponentCapability>, c: ComponentCapability, pos: int, force: bool)
    requires
        table_inv(t, p, force),
        0 <= pos < t.len(),
        entry_of(t[pos], c),
    ensures
        table_inv(t, p.push(c), force),
{
    let q = p.push(c);
    lemma_push_facts(p, c);
    assert(last_component(p, t[pos].id@) == Some((t[pos].path@, t[pos].world@)));
    if !has_component_conflict(p) {
        assert forall|i: int| 0 <= i < p.len() && #[trigger] p[i].component_id@ == c.component_id@ implies !(p[i].component_rel_path@ != c.component_rel_path@ || p[i].world@ != c.world@) by {
            lemma_no_conflict_agrees(p, i);
        }
    }
    assert forall|a: int| 0 <= a < t.len() implies last_component(q, #[trigger] t[a].id@) == Some((t[a].path@, t[a].world@)) by {
        if a != pos {
            assert(t[a].id@ != c.component_id@) by {
                if a < pos {
                    assert(str_lt(t[a].id@, t[pos].id@));
                } else {
                    assert(str_lt(t[pos].id@, t[a].id@));
                }
                lemma_str_lt_irreflexive(c.component_id@);
            }
        }
    }
    assert forall|i: int| 0 <= i < q.len() implies exists|a: int| 0 <= a < t.len() && #[trigger] t[a].id@ == #[trigger] q[i].component_id@ by {
        if i < p.len() {
            let a = choose|a: int| 0 <= a < t.len() && #[trigger] t[a].id@ == #[trigger] p[i].component_id@;
        } else {
            assert(t[pos].id@ == q[i].component_id@);
        }
    }
    assert forall|a: int| 0 <= a < t.len() implies #[trigger] entry_from(t, q, a) by {
        assert(entry_from(t, p, a));
        let i = choose|i: int| 0 <= i < p.len() && #[trigger] p[i].component_id@ == t[a].id@;
        assert(q[i] == p[i]);
    }
}

/// A capability that gives an entry another path or world replaces it, and
/// the install must rebuild.
proof fn lemma_add_differ(t: Seq<ComponentEntry>, t2: Seq<ComponentEntry>, p: Seq<ComponentCapability>, c: ComponentCapability, pos: int, force: bool, e: ComponentEntry)
    requires
        table_inv(t, p, force),
        0 <= pos < t.len(),
        t[pos].id@ == c.component_id@,
        !(t[pos].path@ == c.component_rel_path@ && t[pos].world@ == c.world@),
        entry_of(e, c),
        t2 == t.update(pos, e),
    ensures
        table_inv(t2, p.push(c), true),
{
    let q = p.push(c);
    lemma_push_facts(p, c);
    assert(last_component(p, t[pos].id@) == Some((t[pos].path@, t[pos].world@)));
    assert(entry_from(t, p, pos));
    let i0 = choose|i: int| 0 <= i < p.len() && #[trigger] p[i].component_id@ == t[pos].id@;
    if !has_component_conflict(p) {
        lemma_no_conflict_agrees(p, i0);
    }
    assert(has_component_conflict(q));
    assert forall|a: int, b: int| 0 <= a < b < t2.len() implies str_lt(#[trigger] t2[a].id@, #[trigger] t2[b].id@) by {
        assert(t[a].id@ == t2[a].id@ && t[b].id@ == t2[b].id@);
    }
    assert forall|a: int| 0 <= a < t2.len() implies last_component(q, #[trigger] t2[a].id@) == Some((t2[a].path@, t2[a].world@)) by {
        if a != pos {
            assert(t2[a] == t[a]);
            assert(t[a].id@ != c.component_id@) by {
                if a < pos {
                    assert(str_lt(t[a].id@, t[pos].id@));
                } else {
                    assert(str_lt(t[pos].id@, t[a].id@));
                }
                lemma_str_lt_irreflexive(c.component_id@);
            }
        }
    }
    assert forall|i: int| 0 <= i < q.len() implies exists|a: int| 0 <= a < t2.len() && #[trigger] t2[a].id@ == #[trigger] q[i].component_id@ by {
        if i < p.len() {
            let a = choose|a: int| 0 <= a < t.len() && #[trigger] t[a].id@ == #[trigger] p[i].component_id@;
            assert(t2[a].id@ == t[a].id@);
        } else {
            assert(t2[pos].id@ == q[i].component_id@);
        }
    }
    assert forall|a: int| 0 <= a < t2.len() implies #[trigger] entry_from(t2, q, a) by {
        if a != pos {
            assert(t2[a] == t[a]);
            assert(entry_from(t, p, a));
            let i = choose|i: int| 0 <= i < p.len() && #[trigger] p[i].component_id@ == t[a].id@;
            assert(q[i] == p[i]);
        } else {
            assert(q[p.len() as int].component_id@ == t2[a].id@);
        }
    }
}

/// A capability of a new component id is inserted where the order puts it.
proof fn lemma_add_new(t: Seq<ComponentEntry>, t2: Seq<ComponentEntry>, p: Seq<ComponentCapability>, c: ComponentCapability, pos: int, force: bool, e: ComponentEntry)
    requires
        table_inv(t, p, force),
        0 <= pos <= t.len(),
        forall|a: int| 0 <= a < pos ==> str_lt(#[trigger] t[a].id@, c.component_id@),
        pos < t.len() ==> str_lt(c.component_id@, t[pos].id@),
        entry_of(e, c),
        t2 == t.insert(pos, e),
    ensures
        table_inv(t2, p.push(c), force),
{
    let q = p.push(c);
    lemma_push_facts(p, c);
    assert forall|a: int| 0 <= a < t.len() implies #[trigger] t[a].id@ != c.component_id@ by {
        if a < pos {
            lemma_str_lt_irreflexive(c.component_id@);
        } else {
            if a > pos {
                assert(str_lt(t[pos].id@, t[a].id@));
                crate::order::lemma_str_lt_transitive(c.component_id@, t[pos].id@, t[a].id@);
            }
            lemma_str_lt_irreflexive(c.component_id@);
        }
    }
    assert(!exists|i: int| 0 <= i < p.len() && #[trigger] p[i].component_id@ == c.component_id@ && (
        p[i].component_rel_path@ != c.component_rel_path@ || p[i].world@ != c.world@)) by {
        if exists|i: int| 0 <= i < p.len() && #[trigger] p[i].component_id@ == c.component_id@ && (
            p[i].component_rel_path@ != c.component_rel_path@ || p[i].world@ != c.world@) {
            let i = choose|i: int| 0 <= i < p.len() && #[trigger] p[i].component_id@ == c.component_id@ && (
                p[i].component_rel_path@ != c.component_rel_path@ || p[i].world@ != c.world@);
            let a = choose|a: int| 0 <= a < t.len() && #[trigger] t[a].id@ == #[trigger] p[i].component_id@;
        }
    }
    assert forall|a: int, b: int| 0 <= a < b < t2.len() implies str_lt(#[trigger] t2[a].id@, #[trigger] t2[b].id@) by {
        if b < pos {
            assert(t2[a] == t[a] && t2[b] == t[b]);
        } else if b == pos {
            assert(t2[a] == t[a]);
        } else if a < pos {
            assert(t2[a] == t[a] && t2[b] == t[b - 1]);
            if b - 1 > pos {
                assert(str_lt(t[pos].id@, t[b - 1].id@));
                crate::order::lemma_str_lt_transitive(c.component_id@, t[pos].id@, t[b - 1].id@);
            }
            crate::order::lemma_str_lt_transitive(t[a].id@, c.component_id@, t[b - 1].id@);
        } else if a == pos {
            assert(t2[b] == t[b - 1]);
            if b - 1 > pos {
                assert(str_lt(t[pos].id@, t[b - 1].id@));
                crate::order::lemma_str_lt_transitive(c.component_id@, t[pos].id@, t[b - 1].id@);
            }
        } else {
            assert(t2[a] == t[a - 1] && t2[b] == t[b - 1]);
        }
    }
    assert forall|a: int| 0 <= a < t2.len() implies last_component(q, #[trigger] t2[a].id@) == Some((t2[a].path@, t2[a].world@)) by {
        if a < pos {
            assert(t2[a] == t[a]);
        } else if a > pos {
            assert(t2[a] == t[a - 1]);
        }
    }
    assert forall|i: int| 0 <= i < q.len() implies exists|a: int| 0 <= a < t2.len() && #[trigger] t2[a].id@ == #[trigger] q[i].component_id@ by {
        if i < p.len() {
            let a = choose|a: int| 0 <= a < t.len() && #[trigger] t[a].id@ == #[trigger] p[i].component_id@;
            if a < pos {
                assert(t2[a] == t[a]);
            } else {
                assert(t2[a + 1] == t[a]);
            }
        } else {
            assert(t2[pos].id@ == q[i].component_id@);
        }
    }
    assert forall|a: int| 0 <= a < t2.len() implies #[trigger] entry_from(t2, q, a) by {
        if a < pos {
            assert(t2[a] == t[a]);
            assert(entry_from(t, p, a));
            let i = choose|i: int| 0 <= i < p.len() && #[trigger] p[i].component_id@ == t[a].id@;
            assert(q[i] == p[i]);
        } else if a > pos {
            assert(t2[a] == t[a - 1]);
            assert(entry_from(t, p, a - 1));
            let i = choose|i: int| 0 <= i < p.len() && #[trigger] p[i].component_id@ == t[a - 1].id@;
            assert(q[i] == p[i]);
        } else {
            assert(q[p.len() as int].component_id@ == t2[a].id@);
        }
    }
}

/// Reads one more capability into the table of an install.
fn table_add(table: &mut Vec<ComponentEntry>, force: &mut bool, c: &ComponentCapability, Ghost(p): Ghost<Seq<ComponentCapability>>)
    requires
        table_inv(old(table)@, p, *old(force)),
    ensures
        table_inv(final(table)@, p.push(*c), *final(force)),
{
    let mut pos: usize = 0;
    while pos < table.len() && str_less(table[pos].id.as_str(), c.component_id.as_str())
        invariant
            pos <= table@.len(),
            forall|a: int| 0 <= a < pos ==> str_lt(#[trigger] table@[a].id@, c.component_id@),
        decreases table@.len() - pos,
    {
        pos = pos + 1;
    }
    let found = pos < table.len() && table[pos].id == c.component_id;
    if found {
        let same = table[pos].path == c.component_rel_path && table[pos].world == c.world;
        if same {
            proof {
                lemma_add_same(table@, p, *c, pos as int, *force);
            }
        } else {
            let entry = ComponentEntry {
                id: c.component_id.clone(),
                path: c.component_rel_path.clone(),
                world: c.world.clone(),
            };
            let ghost before = table@;
            let ghost e = entry;
            table.set(pos, entry);
            proof {
                lemma_add_differ(before, table@, p, *c, pos as int, *force, e);
            }
            *force = true;
        }
    } else {
        proof {
            if pos < table@.len() {
                lemma_str_lt_total(table@[pos as int].id@, c.component_id@);
            }
        }
        let entry = ComponentEntry {
            id: c.component_id.clone(),
            path: c.component_rel_path.clone(),
            world: c.world.clone(),
        };
        let ghost before = table@;
        let ghost e = entry;
        table.insert(pos, entry);
        proof {
            lemma_add_new(before, table@, p, *c, pos as int, *force, e);
        }
    }
}

/// Decides what an install of `plugin_id` with these capabilities loads: one
/// entry per component id (the last capability naming it gives its path and
/// world), ordered by id; the instances are rebuilt where two capabilities
/// disagree about a component. A component of a world the host does not
/// run refuses the install (the first such component by id is named).
pub fn plan_component_install(plugin_id: &str, caps: &Vec<ComponentCapability>, names: &WorldNames) -> (r: Result<ComponentInstallPlan, String>)
    ensures
        match r {
            Ok(plan) => {
                &&& plan.force_rebuild == has_component_conflict(caps@)
                &&& forall|a: int, b: int| 0 <= a < b < plan.components@.len() ==> str_lt(#[trigger] plan.components@[a].0@, #[trigger] plan.components@[b].0@)
                &&& forall|a: int| 0 <= a < plan.components@.len() ==> (#[trigger] last_component(caps@, plan.components@[a].0@) matches Some(pw) && pw.0 == plan.components@[a].1@ && world_kind_spec(*names, pw.1) != WorldKind::Unknown)
                &&& forall|i: int| 0 <= i < caps@.len() ==> exists|a: int| 0 <= a < plan.components@.len() && #[trigger] plan.components@[a].0@ == #[trigger] caps@[i].component_id@
            },
            Err(e) => exists|id: Seq<char>|
                #[trigger] last_component(caps@, id) is Some && world_kind_spec(*names, last_world(caps@, id)) == WorldKind::Unknown
                && e@ == unsupported_world_text(last_world(caps@, id), plugin_id@, id)
                && forall|id2: Seq<char>| #[trigger] str_lt(id2, id) && last_component(caps@, id2) is Some ==> world_kind_spec(*names, last_world(caps@, id2)) != WorldKind::Unknown,
        },
{
    let mut table: Vec<ComponentEntry> = Vec::new();
    let mut force = false;
    let mut k: usize = 0;
    while k < caps.len()
        invariant
            k <= caps@.len(),
            table_inv(table@, caps@.take(k as int), force),
        decreases caps@.len() - k,
    {
        let ghost p = caps@.take(k as int);
        assert(caps@.take(k + 1) =~= p.push(caps@[k as int]));
        table_add(&mut table, &mut force, &caps[k], Ghost(p));
        k = k + 1;
    }
    assert(caps@.take(caps@.len() as int) =~= caps@);
    let mut out: Vec<(String, String)> = Vec::new();
    let mut j: usize = 0;
    while j < table.len()
        invariant
            j <= table@.len(),
            entries_sorted(table@),
            entries_match(table@, caps@),
            entries_cover(table@, caps@),
            out@.len() == j,
            forall|a: int| 0 <= a < j ==> (#[trigger] out@[a]).0@ == table@[a].id@ && out@[a].1@ == table@[a].path@,
            forall|a: int| 0 <= a < j ==> world_kind_spec(*names, #[trigger] table@[a].world@) != WorldKind::Unknown,
        decreases table@.len() - j,
    {
        let kind = classify_world(names, table[j].world.as_str());
        if kind == WorldKind::Unknown {
            let e = &table[j];
            let message = String::from_str("unsupported world `").concat(e.world.as_str()).concat("` in plugin `").concat(plugin_id).concat("` component `").concat(e.id.as_str()).concat("`");
            proof {
                let id = table@[j as int].id@;
                let pw = (table@[j as int].path@, table@[j as int].world@);
                assert(last_component(caps@, id) == Some(pw));
                assert forall|id2: Seq<char>| #[trigger] str_lt(id2, id) && last_component(caps@, id2) is Some implies world_kind_spec(*names, last_world(caps@, id2)) != WorldKind::Unknown by {
                    lemma_last_component_from(caps@, id2);
                    let i = choose|i: int| 0 <= i < caps@.len() && #[trigger] caps@[i].component_id@ == id2;
                    let b = choose|b: int| 0 <= b < table@.len() && #[trigger] table@[b].id@ == #[trigger] caps@[i].component_id@;
                    if b >= j {
                        if b == j {
                            lemma_str_lt_irreflexive(id);
                        } else {
                            assert(str_lt(table@[j as int].id@, table@[b].id@));
                            lemma_str_lt_asymmetric(id2, id);
                        }
                    }
                    assert(world_kind_spec(*names, table@[b].world@) != WorldKind::Unknown);
                }
                assert(message@ =~= unsupported_world_text(pw.1, plugin_id@, id));
            }
            return Err(message);
        }
        out.push((table[j].id.clone(), table[j].path.clone()));
        j = j + 1;
    }
    proof {
        assert forall|a: int, b: int| 0 <= a < b < out@.len() implies str_lt(#[trigger] out@[a].0@, #[trigger] out@[b].0@) by {
            assert(str_lt(table@[a].id@, table@[b].id@));
        }
        assert forall|a: int| 0 <= a < out@.len() implies (#[trigger] last_component(caps@, out@[a].0@) matches Some(pw) && pw.0 == out@[a].1@ && world_kind_spec(*names, pw.1) != WorldKind::Unknown) by {
            assert(last_component(caps@, table@[a].id@) == Some((table@[a].path@, table@[a].world@)));
        }
        assert forall|i: int| 0 <= i < caps@.len() implies exists|a: int| 0 <= a < out@.len() && #[trigger] out@[a].0@ == #[trigger] caps@[i].component_id@ by {
            let a = choose|a: int| 0 <= a < table@.len() && #[trigger] table@[a].id@ == #[trigger] caps@[i].component_id@;
            assert(out@[a].0@ == table@[a].id@);
        }
    }
    Ok(ComponentInstallPlan { components: out, force_rebuild: force })
}

/// What the host knows of a loaded plugin.
#[derive(Debug)]
pub struct RuntimePluginInfo {
    pub id: String,
    pub name: String,
    pub metadata_json: String,
    pub root_dir: Option<String>,
    pub library_path: Option<String>,
}

/// The plugins the controller runs, and the channels that reach their live
/// instances (`S` is one channel's sending end).
#[derive(Debug)]
pub struct DirectiveRoutes<S> {
    active: NamedTable<()>,
    senders: NamedTable<Vec<S>>,
}

/// The text a request for an inactive plugin fails with.
pub open spec fn not_active_text(id: Seq<char>) -> Seq<char> {
    "plugin `"@ + id + "` is not active"@
}

/// The text a channel registered for a plugin deactivated meanwhile fails with.
pub open spec fn deactivated_text(id: Seq<char>) -> Seq<char> {
    "plugin `"@ + id + "` was deactivated during creation"@
}

impl<S> DirectiveRoutes<S> {
    pub closed spec fn wf(&self) -> bool {
        self.active.wf() && self.senders.wf()
    }

    /// The active plugins.
    pub closed spec fn active_set(&self) -> Set<Seq<char>> {
        self.active.map().dom()
    }

    /// The channels of each plugin.
    pub closed spec fn channels(&self) -> Map<Seq<char>, Seq<S>> {
        self.senders.map().map_values(|v: Vec<S>| v@)
    }

    /// Routes with no plugin.
    pub fn new() -> (r: DirectiveRoutes<S>)
        ensures
            r.wf(),
            r.active_set() == Set::<Seq<char>>::empty(),
            r.channels() == Map::<Seq<char>, Seq<S>>::empty(),
    {
        let r = DirectiveRoutes { active: NamedTable::new(), senders: NamedTable::new() };
        assert(r.active_set() =~= Set::<Seq<char>>::empty());
        assert(r.channels() =~= Map::<Seq<char>, Seq<S>>::empty());
        r
    }

    pub fn is_active(&self, plugin_id: &str) -> (b: bool)
        requires
            self.wf(),
        ensures
            b == self.active_set().contains(plugin_id@),
    {
        self.active.get(plugin_id).is_some()
    }

    /// Succeeds where the plugin is active.
    pub fn ensure_active(&self, plugin_id: &str) -> (r: Result<(), String>)
        requires
            self.wf(),
        ensures
            self.active_set().contains(plugin_id@) ==> r is Ok,
            !self.active_set().contains(plugin_id@) ==> (r matches Err(e) && e@ == not_active_text(plugin_id@)),
    {
        if self.is_active(plugin_id) {
            Ok(())
        } else {
            Err(String::from_str("plugin `").concat(plugin_id).concat("` is not active"))
        }
    }

    /// Adds a channel to a live instance of an active plugin; a plugin that
    /// is no longer active refuses it.
    pub fn register_sender(&mut self, plugin_id: &str, sender: S) -> (r: Result<(), String>)
        requires
            old(self).wf(),
        ensures
            final(self).wf(),
            final(self).active_set() == old(self).active_set(),
            old(self).active_set().contains(plugin_id@) ==> r is Ok && final(self).channels()
                == old(self).channels().insert(
                plugin_id@,
                if old(self).channels().contains_key(plugin_id@) {
                    old(self).channels()[plugin_id@]
                } else {
                    Seq::empty()
                }.push(sender),
            ),
            !old(self).active_set().contains(plugin_id@) ==> (r matches Err(e) && e@
                == deactivated_text(plugin_id@)) && final(self).channels() == old(self).channels(),
    {
        if !self.is_active(plugin_id) {
            return Err(String::from_str("plugin `").concat(plugin_id).concat("` was deactivated during creation"));
        }
        let mut list = match self.senders.remove(plugin_id) {
            Some(v) => v,
            None => Vec::new(),
        };
        list.push(sender);
        self.senders.insert(String::from_str(plugin_id), list);
        assert(self.channels() =~= old(self).channels().insert(
            plugin_id@,
            if old(self).channels().contains_key(plugin_id@) {
                old(self).channels()[plugin_id@]
            } else {
                Seq::empty()
            }.push(sender),
        ));
        Ok(())
    }

    /// Marks a plugin active (giving it an empty channel list where it has
    /// none); says whether it was active already.
    pub fn activate(&mut self, plugin_id: &str) -> (was_active: bool)
        requires
            old(self).wf(),
        ensures
            final(self).wf(),
            was_active == old(self).active_set().contains(plugin_id@),
            final(self).active_set() == old(self).active_set().insert(plugin_id@),
            final(self).channels() == if old(self).channels().contains_key(plugin_id@) {
                old(self).channels()
            } else {
                old(self).channels().insert(plugin_id@, Seq::empty())
            },
    {
        let was_active = self.is_active(plugin_id);
        self.active.insert(String::from_str(plugin_id), ());
        assert(self.active_set() =~= old(self).active_set().insert(plugin_id@));
        if self.senders.get(plugin_id).is_none() {
            self.senders.insert(String::from_str(plugin_id), Vec::new());
            assert(self.channels() =~= old(self).channels().insert(plugin_id@, Seq::empty()));
        }
        was_active
    }

    /// Takes the channels of a plugin out, to send it something; they are
    /// put back with `restore_senders`.
    pub fn take_senders(&mut self, plugin_id: &str) -> (r: Vec<S>)
        requires
            old(self).wf(),
        ensures
            final(self).wf(),
            final(self).active_set() == old(self).active_set(),
            r@ == if old(self).channels().contains_key(plugin_id@) {
                old(self).channels()[plugin_id@]
            } else {
                Seq::empty()
            },
            final(self).channels() == old(self).channels().remove(plugin_id@),
    {
        let r = match self.senders.remove(plugin_id) {
            Some(v) => v,
            None => Vec::new(),
        };
        assert(self.channels() =~= old(self).channels().remove(plugin_id@));
        r
    }

    /// Puts a plugin's channel list back.
    pub fn restore_senders(&mut self, plugin_id: &str, senders: Vec<S>)
        requires
            old(self).wf(),
        ensures
            final(self).wf(),
            final(self).active_set() == old(self).active_set(),
            final(self).channels() == old(self).channels().insert(plugin_id@, senders@),
    {
        let ghost v = senders@;
        self.senders.insert(String::from_str(plugin_id), senders);
        assert(self.channels() =~= old(self).channels().insert(plugin_id@, v));
    }

    /// Deactivates the plugin `plugin_id` (trimmed; blank ids are ignored):
    /// says whether it was active and hands back its channels, which are
    /// dropped from the routes.
    pub fn deactivate(&mut self, plugin_id: &str) -> (r: (bool, Vec<S>))
        requires
            old(self).wf(),
        ensures
            final(self).wf(),
            ({
                let t = trim_s(plugin_id@);
                if t.len() == 0 {
                    !r.0 && r.1@.len() == 0 && final(self).active_set() == old(self).active_set()
                        && final(self).channels() == old(self).channels()
                } else {
                    &&& r.0 == old(self).active_set().contains(t)
                    &&& r.1@ == if old(self).channels().contains_key(t) {
                        old(self).channels()[t]
                    } else {
                        Seq::empty()
                    }
                    &&& final(self).active_set() == old(self).active_set().remove(t)
                    &&& final(self).channels() == old(self).channels().remove(t)
                }
            }),
    {
        let t = trim_string(plugin_id);
        if t.as_str().is_empty() {
            return (false, Vec::new());
        }
        let was_active = self.active.remove(t.as_str()).is_some();
        assert(self.active_set() =~= old(self).active_set().remove(t@));
        let senders = self.take_senders(t.as_str());
        (was_active, senders)
    }

    /// The channels a directive for `plugin_id` (trimmed) goes to: none for
    /// a blank id or an inactive plugin.
    pub fn dispatch_targets(&self, plugin_id: &str) -> (r: Option<&Vec<S>>)
        requires
            self.wf(),
        ensures
            ({
                let t = trim_s(plugin_id@);
                if t.len() == 0 || !self.active_set().contains(t) || !self.channels().contains_key(t) {
                    r is None
                } else {
                    r matches Some(v) && v@ == self.channels()[t]
                }
            }),
    {
        let t = trim_string(plugin_id);
        if t.as_str().is_empty() || !self.is_active(t.as_str()) {
            return None;
        }
        self.senders.get(t.as_str())
    }

    /// Deactivates every plugin: hands back the ids that were active and
    /// every plugin's channels.
    pub fn shutdown(&mut self) -> (r: (Vec<String>, Vec<(String, Vec<S>)>))
        requires
            old(self).wf(),
        ensures
            final(self).wf(),
            final(self).active_set() == Set::<Seq<char>>::empty(),
            final(self).channels() == Map::<Seq<char>, Seq<S>>::empty(),
            forall|x: Seq<char>| old(self).active_set().contains(x) <==> exists|i: int| 0 <= i < r.0@.len() && #[trigger] r.0@[i]@ == x,
            keyed_distinct(r.1@, name_view()),
            keyed_map(r.1@, name_view()).map_values(|v: Vec<S>| v@) == old(self).channels(),
    {
        let ids = self.active.drain_all();
        let ghost old_active = old(self).active_set();
        assert(old_active == keyed_map(ids@, name_view()).dom());
        let mut out: Vec<String> = Vec::new();
        let mut i: usize = 0;
        while i < ids.len()
            invariant
                i <= ids@.len(),
                keyed_distinct(ids@, name_view()),
                old_active == keyed_map(ids@, name_view()).dom(),
                out@.len() == i,
                forall|j: int| 0 <= j < i ==> (#[trigger] out@[j])@ == ids@[j].0@,
            decreases ids@.len() - i,
        {
            out.push(ids[i].0.clone());
            i = i + 1;
        }
        let channels = self.senders.drain_all();
        assert(self.active_set() =~= Set::<Seq<char>>::empty());
        assert(self.channels() =~= Map::<Seq<char>, Seq<S>>::empty());
        let r = (out, channels);
        assert forall|x: Seq<char>| old_active.contains(x) <==> exists|i: int| 0 <= i < r.0@.len() && #[trigger] r.0@[i]@ == x by {
            if old_active.contains(x) {
                lemma_keyed_in_list(ids@, name_view(), x);
                let j = choose|j: int| 0 <= j < ids@.len() && (name_view())(ids@[j].0) == x;
                assert(r.0@[j]@ == x);
            }
            if exists|i: int| 0 <= i < r.0@.len() && #[trigger] r.0@[i]@ == x {
                let j = choose|j: int| 0 <= j < r.0@.len() && #[trigger] r.0@[j]@ == x;
                lemma_keyed_at(ids@, name_view(), j);
            }
        }
        r
    }
}

/// Once a plugin is deactivated no directive reaches it: it is neither active
/// nor has channels, whatever it had before; other plugins keep theirs.
pub proof fn law_deactivate_unroutes<S>(active: Set<Seq<char>>, channels: Map<Seq<char>, Seq<S>>, id: Seq<char>, other: Seq<char>)
    requires
        other != id,
    ensures
        !active.remove(id).contains(id),
        !channels.remove(id).contains_key(id),
        active.remove(id).contains(other) == active.contains(other),
        channels.contains_key(other) ==> channels.remove(id)[other] == channels[other],
{
}

/// A channel registered for an active plugin is the last of the plugin's
/// channels, after those it had.
pub proof fn law_registered_channel_is_reached<S>(channels: Map<Seq<char>, Seq<S>>, id: Seq<char>, sender: S)
    ensures
        ({
            let prev = if channels.contains_key(id) {
                channels[id]
            } else {
                Seq::empty()
            };
            let after = channels.insert(id, prev.push(sender))[id];
            after.last() == sender && after.drop_last() == prev
        }),
{
    let prev = if channels.contains_key(id) {
        channels[id]
    } else {
        Seq::empty()
    };
    assert(prev.push(sender).drop_last() =~= prev);
}

/// The channels whose delivery succeeded, in order.
pub open spec fn delivered_only<S>(senders: Seq<S>, delivered: Seq<bool>) -> Seq<S>
    decreases senders.len(),
{
    if senders.len() == 0 {
        Seq::empty()
    } else {
        let rest = delivered_only(senders.drop_last(), delivered.drop_last());
        if delivered.last() {
            rest.push(senders.last())
        } else {
            rest
        }
    }
}

/// Keeps the channels that took the last directive (`delivered[i]` tells
/// whether `senders[i]` did); a channel whose instance is gone is dropped.
pub fn retain_delivered<S>(senders: Vec<S>, delivered: &Vec<bool>) -> (r: Vec<S>)
    requires
        delivered@.len() == senders@.len(),
    ensures
        r@ == delivered_only(senders@, delivered@),
{
    let ghost all = senders@;
    let mut rest = senders;
    let mut kept_rev: Vec<S> = Vec::new();
    let mut n: usize = rest.len();
    assert(all.take(n as int) =~= all);
    assert(delivered@.take(n as int) =~= delivered@);
    assert(kept_rev@.reverse() =~= Seq::<S>::empty());
    assert(delivered_only(all, delivered@) + Seq::<S>::empty() =~= delivered_only(all, delivered@));
    while n > 0
        invariant
            n == rest@.len() <= all.len() == delivered@.len(),
            rest@ == all.take(n as int),
            delivered_only(all, delivered@) == delivered_only(all.take(n as int), delivered@.take(n as int)) + kept_rev@.reverse(),
        decreases n,
    {
        let s = rest.pop().unwrap();
        proof {
            assert(all.take(n as int).drop_last() =~= all.take(n - 1));
            assert(delivered@.take(n as int).drop_last() =~= delivered@.take(n - 1));
            assert(all.take(n as int).last() == s);
            assert(delivered@.take(n as int).last() == delivered@[n - 1]);
        }
        if delivered[n - 1] {
            let ghost before = kept_rev@;
            kept_rev.push(s);
            assert(kept_rev@.reverse() =~= seq![s] + before.reverse());
            assert(delivered_only(all.take(n - 1), delivered@.take(n - 1)).push(s) + before.reverse() =~= delivered_only(all.take(n - 1), delivered@.take(n - 1)) + kept_rev@.reverse());
        }
        n = n - 1;
        assert(rest@ =~= all.take(n as int));
    }
    let mut out: Vec<S> = Vec::new();
    let ghost target = kept_rev@.reverse();
    assert(delivered_only(all.take(0), delivered@.take(0)) =~= Seq::<S>::empty());
    while kept_rev.len() > 0
        invariant
            target == out@ + kept_rev@.reverse(),
        decreases kept_rev@.len(),
    {
        let ghost before = kept_rev@;
        let s = kept_rev.pop().unwrap();
        assert(before.reverse() =~= seq![s] + kept_rev@.reverse());
        out.push(s);
        assert(target =~= out@ + kept_rev@.reverse());
    }
    assert(out@ =~= target);
    out
}

/// The record the controller keeps of an installed plugin.
#[derive(Debug)]
pub struct ActivePluginRecord {
    pub info: RuntimePluginInfo,
    pub capabilities: Vec<ComponentCapability>,
}

/// How a capability kind is written in messages.
pub open spec fn ability_kind_text(kind: AbilityKind) -> Seq<char> {
    match kind {
        AbilityKind::Decoder => "Decoder"@,
        AbilityKind::Encoder => "Encoder"@,
        AbilityKind::Dsp => "Dsp"@,
        AbilityKind::Source => "Source"@,
        AbilityKind::Lyrics => "Lyrics"@,
        AbilityKind::OutputSink => "OutputSink"@,
    }
}

pub open spec fn cap_matches(c: ComponentCapability, kind: AbilityKind, type_id: Seq<char>) -> bool {
    c.kind == kind && c.type_id@ == type_id
}

/// The text a plugin without the asked capability fails with.
pub open spec fn no_capability_text(plugin_id: Seq<char>, kind: AbilityKind, type_id: Seq<char>) -> Seq<char> {
    "plugin `"@ + plugin_id + "` has no capability kind=`"@ + ability_kind_text(kind)
        + "` type_id=`"@ + type_id + "`"@
}

/// Finds the installed plugin `plugin_id` and its first capability of `kind`
/// with `type_id` (both ids trimmed).
pub fn resolve_capability<'a>(
    records: &'a NamedTable<ActivePluginRecord>,
    plugin_id: &str,
    kind: AbilityKind,
    type_id: &str,
) -> (r: Result<(&'a RuntimePluginInfo, &'a ComponentCapability), String>)
    requires
        records.wf(),
    ensures
        ({
            let p = trim_s(plugin_id@);
            let t = trim_s(type_id@);
            if p.len() == 0 {
                r matches Err(e) && e@ == "plugin_id is empty"@
            } else if t.len() == 0 {
                r matches Err(e) && e@ == "type_id is empty"@
            } else if !records.map().contains_key(p) {
                r matches Err(e) && e@ == "plugin `"@ + p + "` is not installed"@
            } else {
                let rec = records.map()[p];
                match r {
                    Ok((info, cap)) => *info == rec.info && exists|i: int|
                        0 <= i < rec.capabilities@.len() && #[trigger] rec.capabilities@[i] == *cap
                        && cap_matches(*cap, kind, t) && forall|j: int| 0 <= j < i ==> !cap_matches(#[trigger] rec.capabilities@[j], kind, t),
                    Err(e) => e@ == no_capability_text(p, kind, t) && forall|j: int|
                        0 <= j < rec.capabilities@.len() ==> !cap_matches(#[trigger] rec.capabilities@[j], kind, t),
                }
            }
        }),
{
    let p = trim_string(plugin_id);
    if p.as_str().is_empty() {
        return Err(String::from_str("plugin_id is empty"));
    }
    let t = trim_string(type_id);
    if t.as_str().is_empty() {
        return Err(String::from_str("type_id is empty"));
    }
    let rec = match records.get(p.as_str()) {
        Some(rec) => rec,
        None => {
            return Err(String::from_str("plugin `").concat(p.as_str()).concat("` is not installed"));
        },
    };
    let mut i: usize = 0;
    while i < rec.capabilities.len()
        invariant
            i <= rec.capabilities@.len(),
            p@ == trim_s(plugin_id@),
            p@.len() > 0,
            t@ == trim_s(type_id@),
            t@.len() > 0,
            records.map().contains_key(p@),
            records.map()[p@] == *rec,
            forall|j: int| 0 <= j < i ==> !cap_matches(#[trigger] rec.capabilities@[j], kind, t@),
        decreases rec.capabilities@.len() - i,
    {
        let c = &rec.capabilities[i];
        if c.kind == kind && c.type_id == t {
            assert(rec.capabilities@[i as int] == *c);
            return Ok((&rec.info, c));
        }
        i = i + 1;
    }
    let kind_text = match kind {
        AbilityKind::Decoder => "Decoder",
        AbilityKind::Encoder => "Encoder",
        AbilityKind::Dsp => "Dsp",
        AbilityKind::Source => "Source",
        AbilityKind::Lyrics => "Lyrics",
        AbilityKind::OutputSink => "OutputSink",
    };
    Err(String::from_str("plugin `").concat(p.as_str()).concat("` has no capability kind=`").concat(kind_text).concat("` type_id=`").concat(t.as_str()).concat("`"))
}

/// Why a plugin is disabled.
#[derive(Debug, Clone, Copy, PartialEq, Eq, Structural)]
pub enum PluginDisableReason {
    HostDisable,
    Unload,
    Shutdown,
    Reload,
}

/// What the controller tells a plugin's live instances.
#[derive(Debug, Clone, Copy, PartialEq, Eq, Structural)]
pub enum RuntimePluginDirective {
    /// Rebuild from the plugin's current components.
    Rebuild,
    /// Shut down for this reason.
    Destroy { reason: PluginDisableReason },
}

/// A controller of component plugins: installs, uninstalls, forwards
/// directives and shuts down.
pub trait WasmPluginController {
    fn install_plugin(&self, plugin: &RuntimePluginInfo, capabilities: &Vec<ComponentCapability>) -> Result<(), String>;

    fn uninstall_plugin(&self, plugin_id: &str, reason: PluginDisableReason) -> Result<(), String>;

    fn dispatch_directive(&self, plugin_id: &str, directive: RuntimePluginDirective) -> Result<(), String>;

    fn shutdown(&self) -> Result<(), String>;
}

/// What committing an install asks of the caller.
#[derive(Debug)]
pub struct InstallCommit<S> {
    /// The plugin was not active: its package sidecars start being shared.
    pub newly_active: bool,
    /// The channels to send `Rebuild` to (then keep those that took it);
    /// none where nothing is to be rebuilt.
    pub rebuild: Option<Vec<S>>,
}

/// What an uninstall asks of the caller.
#[derive(Debug)]
pub struct UninstallOutcome<S> {
    /// The plugin was active: its package sidecars are released.
    pub was_active: bool,
    /// The channels to send `Destroy` to.
    pub destroy: Vec<S>,
    /// The record dropped, whose cached components are evicted.
    pub removed: Option<ActivePluginRecord>,
}

/// The controller's state apart from the component runtime: the directive
/// routes and the record of each installed plugin.
#[derive(Debug)]
pub struct ControllerBook<S> {
    pub routes: DirectiveRoutes<S>,
    pub plugins: NamedTable<ActivePluginRecord>,
}

impl<S> ControllerBook<S> {
    pub open spec fn wf(&self) -> bool {
        self.routes.wf() && self.plugins.wf()
    }

    pub fn new() -> (b: ControllerBook<S>)
        ensures
            b.wf(),
            b.routes.active_set() == Set::<Seq<char>>::empty(),
            b.routes.channels() == Map::<Seq<char>, Seq<S>>::empty(),
            b.plugins.map() == Map::<Seq<char>, ActivePluginRecord>::empty(),
    {
        ControllerBook { routes: DirectiveRoutes::new(), plugins: NamedTable::new() }
    }

    /// Records an install whose components loaded: the plugin becomes active
    /// and its record replaces any earlier one. Where it was active already,
    /// or the install plan asks for it, its live instances are rebuilt.
    pub fn commit_install(&mut self, plugin: RuntimePluginInfo, capabilities: Vec<ComponentCapability>, force_rebuild: bool) -> (r: InstallCommit<S>)
        requires
            old(self).wf(),
        ensures
            final(self).wf(),
            ({
                let id = plugin.id@;
                let was = old(self).routes.active_set().contains(id);
                let prev = if old(self).routes.channels().contains_key(id) {
                    old(self).routes.channels()[id]
                } else {
                    Seq::empty()
                };
                &&& r.newly_active == !was
                &&& final(self).routes.active_set() == old(self).routes.active_set().insert(id)
                &&& (was || force_rebuild) ==> (r.rebuild matches Some(v) && v@ == prev
                    && final(self).routes.channels() == old(self).routes.channels().remove(id))
                &&& !(was || force_rebuild) ==> (r.rebuild is None && final(self).routes.channels()
                    == old(self).routes.channels().insert(id, prev))
                &&& final(self).plugins.map() == old(self).plugins.map().insert(id, ActivePluginRecord { info: plugin, capabilities })
            }),
    {
        let id = plugin.id.clone();
        let was = self.routes.activate(id.as_str());
        let rebuild = if was || force_rebuild {
            Some(self.routes.take_senders(id.as_str()))
        } else {
            proof {
                assert(self.routes.channels() =~= old(self).routes.channels().insert(id@, if old(self).routes.channels().contains_key(id@) {
                    old(self).routes.channels()[id@]
                } else {
                    Seq::empty()
                }));
            }
            None
        };
        self.plugins.insert(id, ActivePluginRecord { info: plugin, capabilities });
        InstallCommit { newly_active: !was, rebuild }
    }

    /// Removes the plugin `plugin_id` (trimmed; blank ids change nothing):
    /// its routes and its record.
    pub fn uninstall(&mut self, plugin_id: &str) -> (r: UninstallOutcome<S>)
        requires
            old(self).wf(),
        ensures
            final(self).wf(),
            ({
                let t = trim_s(plugin_id@);
                if t.len() == 0 {
                    !r.was_active && r.destroy@.len() == 0 && r.removed is None
                        && final(self).routes.active_set() == old(self).routes.active_set()
                        && final(self).routes.channels() == old(self).routes.channels()
                        && final(self).plugins.map() == old(self).plugins.map()
                } else {
                    &&& r.was_active == old(self).routes.active_set().contains(t)
                    &&& r.destroy@ == if old(self).routes.channels().contains_key(t) {
                        old(self).routes.channels()[t]
                    } else {
                        Seq::empty()
                    }
                    &&& final(self).routes.active_set() == old(self).routes.active_set().remove(t)
                    &&& final(self).routes.channels() == old(self).routes.channels().remove(t)
                    &&& final(self).plugins.map() == old(self).plugins.map().remove(t)
                    &&& match r.removed {
                        Some(rec) => old(self).plugins.map().contains_key(t) && old(self).plugins.map()[t] == rec,
                        None => !old(self).plugins.map().contains_key(t),
                    }
                }
            }),
    {
        let (was_active, destroy) = self.routes.deactivate(plugin_id);
        let t = trim_string(plugin_id);
        if t.as_str().is_empty() {
            return UninstallOutcome { was_active, destroy, removed: None };
        }
        let removed = self.plugins.remove(t.as_str());
        UninstallOutcome { was_active, destroy, removed }
    }
}

/// One lyric a lyrics provider found.
#[derive(Debug)]
pub struct RuntimeLyricCandidate {
    pub id: String,
    pub title: String,
    pub artist: String,
}

/// What a lyrics plugin instance offers the host.
pub trait LyricsPluginApi {
    fn search(&mut self, keyword: &str) -> Result<Vec<RuntimeLyricCandidate>, String>;

    fn fetch(&mut self, lyric_id: &str) -> Result<String, String>;
}

/// The keyword a lyrics search sends: trimmed; a blank one finds nothing and
/// is not sent.
pub fn lyrics_search_keyword(keyword: &str) -> (r: Option<String>)
    ensures
        trim_s(keyword@).len() == 0 ==> r is None,
        trim_s(keyword@).len() > 0 ==> (r matches Some(k) && k@ == trim_s(keyword@)),
{
    let k = trim_string(keyword);
    if k.as_str().is_empty() {
        None
    } else {
        Some(k)
    }
}

/// The id a lyrics fetch sends: trimmed; a blank one is refused.
pub fn lyrics_fetch_id(lyric_id: &str) -> (r: Result<String, String>)
    ensures
        trim_s(lyric_id@).len() == 0 ==> (r matches Err(e) && e@ == "lyric_id is empty"@),
        trim_s(lyric_id@).len() > 0 ==> (r matches Ok(k) && k@ == trim_s(lyric_id@)),
{
    let k = trim_string(lyric_id);
    if k.as_str().is_empty() {
        Err(String::from_str("lyric_id is empty"))
    } else {
        Ok(k)
    }
}

} // verus!
