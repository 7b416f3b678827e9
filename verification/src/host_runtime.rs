//! What the host runtime reports about its active plugins: their
//! capabilities, the decoders that can open a file extension, the extensions
//! decoders know, the plugins disabled by the user, and the summary of a sync
//! of the plugin directory.
use vstd::prelude::*;
use crate::order::{
    OrderedRow, insert_sorted_unique, key_lt, lemma_sorted_rows_in_key_order, lemma_str_lt_irreflexive, rows_sorted,
    seqs_lt, sort_rows, str_lt,
    strictly_sorted,
};
use crate::sidecar::{strings_view, strip_start_c};
use crate::text::{chars_of, lower_c_exec, lower_s, push_str, string_of_range, trim_range, trim_s, trim_string};

verus! {

/// What a plugin component can do, as its manifest says.
#[derive(Debug, Clone, Copy, PartialEq, Eq, Structural)]
pub enum AbilityKind {
    Decoder,
    Encoder,
    Dsp,
    Source,
    Lyrics,
    OutputSink,
}

/// What a capability is, as the runtime reports it.
#[derive(Debug, Clone, Copy, PartialEq, Eq, Structural)]
pub enum RuntimeCapabilityKind {
    Decoder,
    Encoder,
    Dsp,
    SourceCatalog,
    LyricsProvider,
    OutputSink,
}

pub open spec fn ability_to_runtime(kind: AbilityKind) -> RuntimeCapabilityKind {
    match kind {
        AbilityKind::Decoder => RuntimeCapabilityKind::Decoder,
        AbilityKind::Encoder => RuntimeCapabilityKind::Encoder,
        AbilityKind::Dsp => RuntimeCapabilityKind::Dsp,
        AbilityKind::Source => RuntimeCapabilityKind::SourceCatalog,
        AbilityKind::Lyrics => RuntimeCapabilityKind::LyricsProvider,
        AbilityKind::OutputSink => RuntimeCapabilityKind::OutputSink,
    }
}

pub fn map_ability_kind(kind: AbilityKind) -> (r: RuntimeCapabilityKind)
    ensures
        r == ability_to_runtime(kind),
{
    match kind {
        AbilityKind::Decoder => RuntimeCapabilityKind::Decoder,
        AbilityKind::Encoder => RuntimeCapabilityKind::Encoder,
        AbilityKind::Dsp => RuntimeCapabilityKind::Dsp,
        AbilityKind::Source => RuntimeCapabilityKind::SourceCatalog,
        AbilityKind::Lyrics => RuntimeCapabilityKind::LyricsProvider,
        AbilityKind::OutputSink => RuntimeCapabilityKind::OutputSink,
    }
}

/// A file extension as decoders are matched on it: trimmed, without leading
/// dots, ASCII-lowercased.
pub open spec fn normalize_ext_spec(raw: Seq<char>) -> Seq<char> {
    lower_s(strip_start_c(trim_s(raw), '.'))
}

pub fn normalize_ext(raw: &str) -> (r: String)
    ensures
        r@ == normalize_ext_spec(raw@),
{
    let v = chars_of(raw);
    let (a, b) = trim_range(&v, 0, v.len());
    assert(v@.subrange(0, v@.len() as int) =~= v@);
    let ghost t = v@.subrange(a as int, b as int);
    let mut lo: usize = a;
    while lo < b && v[lo] == '.'
        invariant
            a <= lo <= b <= v@.len(),
            strip_start_c(t, '.') == strip_start_c(v@.subrange(lo as int, b as int), '.'),
        decreases b - lo,
    {
        assert(v@.subrange(lo as int, b as int).drop_first() =~= v@.subrange(lo + 1, b as int));
        lo = lo + 1;
    }
    assert(strip_start_c(v@.subrange(lo as int, b as int), '.') == v@.subrange(lo as int, b as int));
    let mut out: Vec<char> = Vec::new();
    let mut i: usize = lo;
    while i < b
        invariant
            lo <= i <= b <= v@.len(),
            out@ == lower_s(v@.subrange(lo as int, i as int)),
        decreases b - i,
    {
        out.push(lower_c_exec(v[i]));
        i = i + 1;
        assert(out@ =~= lower_s(v@.subrange(lo as int, i as int)));
    }
    crate::text::string_of(&out)
}

/// A decoder's score for one extension.
#[derive(Debug)]
pub struct DecoderExtScore {
    pub ext: String,
    pub score: u16,
}

/// A capability of an active plugin, as the runtime holds it.
#[derive(Debug)]
pub struct RuntimeCapability {
    pub kind: AbilityKind,
    pub type_id: String,
    pub display_name: String,
    pub config_schema_json: String,
    pub default_config_json: String,
    pub decoder_wildcard_score: u16,
    pub decoder_ext_scores: Vec<DecoderExtScore>,
}

/// An active plugin and its capabilities.
#[derive(Debug)]
pub struct ActivePlugin {
    pub id: String,
    pub name: String,
    pub version: String,
    pub capabilities: Vec<RuntimeCapability>,
}

/// The score of the first rule for `ext`, or `fallback` where none is.
pub open spec fn first_rule_score(rules: Seq<DecoderExtScore>, ext: Seq<char>, fallback: u16) -> u16
    decreases rules.len(),
{
    if rules.len() == 0 {
        fallback
    } else if rules[0].ext@ == ext {
        rules[0].score
    } else {
        first_rule_score(rules.drop_first(), ext, fallback)
    }
}

/// The first rule for an extension decides its score: where rule `i` is the
/// first for `ext`, its score is the answer; where no rule is for `ext`,
/// `fallback` is.
pub proof fn law_first_rule_wins(rules: Seq<DecoderExtScore>, ext: Seq<char>, fallback: u16)
    ensures
        (forall|i: int| 0 <= i < rules.len() ==> (#[trigger] rules[i]).ext@ != ext) ==> first_rule_score(
            rules,
            ext,
            fallback,
        ) == fallback,
        forall|i: int|
            0 <= i < rules.len() && (#[trigger] rules[i]).ext@ == ext && (forall|j: int|
                0 <= j < i ==> rules[j].ext@ != ext) ==> first_rule_score(rules, ext, fallback)
                == rules[i].score,
    decreases rules.len(),
{
    if rules.len() > 0 {
        let d = rules.drop_first();
        law_first_rule_wins(d, ext, fallback);
        if forall|i: int| 0 <= i < rules.len() ==> (#[trigger] rules[i]).ext@ != ext {
            assert(rules[0].ext@ != ext);
            assert forall|i: int| 0 <= i < d.len() implies (#[trigger] d[i]).ext@ != ext by {
                assert(d[i] == rules[i + 1]);
            }
        }
        assert forall|i: int|
            0 <= i < rules.len() && (#[trigger] rules[i]).ext@ == ext && (forall|j: int|
                0 <= j < i ==> rules[j].ext@ != ext) implies first_rule_score(rules, ext, fallback)
            == rules[i].score by {
            if i > 0 {
                assert(rules[0].ext@ != ext);
                assert(d[i - 1] == rules[i]);
                assert forall|j: int| 0 <= j < i - 1 implies d[j].ext@ != ext by {
                    assert(d[j] == rules[j + 1]);
                }
            }
        }
    }
}

/// How well a decoder fits an extension: its wildcard score for no
/// extension, else the score of its first rule for that extension, else its
/// wildcard score.
pub open spec fn decoder_score_spec(cap: RuntimeCapability, ext: Seq<char>) -> u16 {
    if ext.len() == 0 {
        cap.decoder_wildcard_score
    } else {
        first_rule_score(cap.decoder_ext_scores@, ext, cap.decoder_wildcard_score)
    }
}

pub fn decoder_score_for_ext(cap: &RuntimeCapability, ext: &str) -> (r: u16)
    ensures
        r == decoder_score_spec(*cap, ext@),
{
    if ext.unicode_len() == 0 {
        return cap.decoder_wildcard_score;
    }
    let ext_s = String::from_str(ext);
    let rules = &cap.decoder_ext_scores;
    let mut i: usize = 0;
    assert(rules@.skip(0) =~= rules@);
    while i < rules.len()
        invariant
            i <= rules@.len(),
            ext_s@ == ext@,
            decoder_score_spec(*cap, ext@) == first_rule_score(
                rules@.skip(i as int),
                ext@,
                cap.decoder_wildcard_score,
            ),
            rules@ == cap.decoder_ext_scores@,
            ext@.len() > 0,
        decreases rules@.len() - i,
    {
        assert(rules@.skip(i as int)[0] == rules@[i as int]);
        if rules[i].ext == ext_s {
            return rules[i].score;
        }
        assert(rules@.skip(i as int).drop_first() =~= rules@.skip(i + 1));
        i = i + 1;
    }
    assert(rules@.skip(i as int) =~= Seq::<DecoderExtScore>::empty());
    cap.decoder_wildcard_score
}

/// A capability as the host lists it.
#[derive(Debug)]
pub struct RuntimeCapabilityDescriptor {
    pub kind: RuntimeCapabilityKind,
    pub type_id: String,
    pub display_name: String,
    pub config_schema_json: String,
    pub default_config_json: String,
}

/// Capability descriptors listed by type id, in `str` order.
pub open spec fn capabilities_in_order(r: Seq<RuntimeCapabilityDescriptor>) -> bool {
    forall|i: int, j: int|
        0 <= i < j < r.len() ==> !str_lt((#[trigger] r[j]).type_id@, (#[trigger] r[i]).type_id@)
}

/// Sorting capability descriptors lists them by type id.
pub proof fn law_capabilities_in_order(r: Seq<RuntimeCapabilityDescriptor>)
    requires
        rows_sorted(r),
    ensures
        capabilities_in_order(r),
{
    lemma_sorted_rows_in_key_order(r);
}

impl OrderedRow for RuntimeCapabilityDescriptor {
    open spec fn row_key(&self) -> (int, Seq<char>, Seq<Seq<char>>) {
        (0, self.type_id@, Seq::empty())
    }

    fn row_rank(&self) -> (r: i64) {
        0
    }

    fn row_primary(&self) -> (s: &str) {
        self.type_id.as_str()
    }

    fn row_secondary(&self) -> (s: Vec<String>) {
        let s: Vec<String> = Vec::new();
        assert(strings_view(s@) =~= Seq::<Seq<char>>::empty());
        s
    }
}

/// `d` lists the capability `c`.
pub open spec fn describes(d: RuntimeCapabilityDescriptor, c: RuntimeCapability) -> bool {
    &&& d.kind == ability_to_runtime(c.kind)
    &&& d.type_id@ == c.type_id@
    &&& d.display_name@ == c.display_name@
    &&& d.config_schema_json@ == c.config_schema_json@
    &&& d.default_config_json@ == c.default_config_json@
}

pub fn describe_capability(c: &RuntimeCapability) -> (d: RuntimeCapabilityDescriptor)
    ensures
        describes(d, *c),
{
    RuntimeCapabilityDescriptor {
        kind: map_ability_kind(c.kind),
        type_id: c.type_id.clone(),
        display_name: c.display_name.clone(),
        config_schema_json: c.config_schema_json.clone(),
        default_config_json: c.default_config_json.clone(),
    }
}

/// The index of the first active plugin with id `id`, or -1.
pub open spec fn plugin_index(active: Seq<ActivePlugin>, id: Seq<char>) -> int
    decreases active.len(),
{
    if active.len() == 0 {
        -1
    } else if active.last().id@ == id && plugin_index(active.drop_last(), id) < 0 {
        active.len() - 1
    } else {
        plugin_index(active.drop_last(), id)
    }
}

proof fn lemma_plugin_index(active: Seq<ActivePlugin>, id: Seq<char>)
    ensures
        -1 <= plugin_index(active, id) < active.len(),
        plugin_index(active, id) >= 0 ==> active[plugin_index(active, id)].id@ == id,
        forall|k: int| 0 <= k < active.len() && #[trigger] active[k].id@ == id ==> plugin_index(active, id) >= 0 && plugin_index(active, id) <= k,
    decreases active.len(),
{
    if active.len() > 0 {
        lemma_plugin_index(active.drop_last(), id);
        assert forall|k: int| 0 <= k < active.len() && #[trigger] active[k].id@ == id implies plugin_index(active, id) >= 0 && plugin_index(active, id) <= k by {
            if k < active.len() - 1 {
                assert(active.drop_last()[k].id@ == id);
            }
        }
        if plugin_index(active.drop_last(), id) >= 0 {
            assert(active[plugin_index(active, id)] == active.drop_last()[plugin_index(active, id)]);
        }
    }
}

/// The index of the first active plugin with id `id`.
pub fn find_plugin(active: &Vec<ActivePlugin>, id: &String) -> (r: Option<usize>)
    ensures
        match r {
            Some(i) => i as int == plugin_index(active@, id@),
            None => plugin_index(active@, id@) == -1,
        },
{
    let mut i: usize = 0;
    while i < active.len()
        invariant
            i <= active@.len(),
            forall|k: int| 0 <= k < i ==> #[trigger] active@[k].id@ != id@,
        decreases active@.len() - i,
    {
        if active[i].id == *id {
            proof {
                lemma_plugin_index(active@, id@);
                let p = plugin_index(active@, id@);
                assert(p <= i);
                if p < i {
                    assert(active@[p].id@ != id@);
                }
            }
            return Some(i);
        }
        i = i + 1;
    }
    proof {
        lemma_plugin_index(active@, id@);
        if plugin_index(active@, id@) >= 0 {
            assert(active@[plugin_index(active@, id@)].id@ != id@);
        }
    }
    None
}

/// The capabilities of the plugin `plugin_id` (trimmed), or none where the
/// id is blank or no active plugin has it.
pub open spec fn capabilities_of(active: Seq<ActivePlugin>, plugin_id: Seq<char>) -> Seq<RuntimeCapability> {
    let id = trim_s(plugin_id);
    let i = plugin_index(active, id);
    if id.len() == 0 || i < 0 {
        seq![]
    } else {
        active[i].capabilities@
    }
}

/// `rows` describes `caps`, one row each, in order.
pub open spec fn describes_all(rows: Seq<RuntimeCapabilityDescriptor>, caps: Seq<RuntimeCapability>) -> bool {
    rows.len() == caps.len() && forall|k: int| 0 <= k < caps.len() ==> describes(#[trigger] rows[k], caps[k])
}

/// The capabilities whose kind is `kind`, in order (all of them for `None`).
pub open spec fn caps_of_kind(caps: Seq<RuntimeCapability>, kind: Option<RuntimeCapabilityKind>) -> Seq<RuntimeCapability>
    decreases caps.len(),
{
    if caps.len() == 0 {
        seq![]
    } else {
        let rest = caps_of_kind(caps.drop_last(), kind);
        if kind is None || kind == Some(ability_to_runtime(caps.last().kind)) {
            rest.push(caps.last())
        } else {
            rest
        }
    }
}

proof fn lemma_caps_of_kind_all(caps: Seq<RuntimeCapability>)
    ensures
        caps_of_kind(caps, None) == caps,
    decreases caps.len(),
{
    if caps.len() > 0 {
        lemma_caps_of_kind_all(caps.drop_last());
        assert(caps.drop_last().push(caps.last()) =~= caps);
    }
}

fn describe_matching(caps: &Vec<RuntimeCapability>, kind: Option<RuntimeCapabilityKind>) -> (r: Vec<RuntimeCapabilityDescriptor>)
    ensures
        describes_all(r@, caps_of_kind(caps@, kind)),
{
    let mut rows: Vec<RuntimeCapabilityDescriptor> = Vec::new();
    let mut j: usize = 0;
    while j < caps.len()
        invariant
            j <= caps@.len(),
            describes_all(rows@, caps_of_kind(caps@.take(j as int), kind)),
        decreases caps@.len() - j,
    {
        let ghost before = rows@;
        let ghost t = caps@.take(j + 1);
        assert(t.drop_last() =~= caps@.take(j as int));
        assert(t.last() == caps@[j as int]);
        let keep = match kind {
            None => true,
            Some(k) => map_ability_kind(caps[j].kind) == k,
        };
        if keep {
            rows.push(describe_capability(&caps[j]));
            proof {
                let want = caps_of_kind(t, kind);
                assert forall|k: int| 0 <= k < want.len() implies describes(#[trigger] rows@[k], want[k]) by {
                    if k < before.len() {
                        assert(rows@[k] == before[k]);
                    }
                }
            }
        }
        j = j + 1;
    }
    assert(caps@.take(caps@.len() as int) =~= caps@);
    rows
}

/// The capabilities of a plugin, described and ordered by type id.
pub fn list_capabilities(active: &Vec<ActivePlugin>, plugin_id: &str) -> (r: Vec<RuntimeCapabilityDescriptor>)
    ensures
        exists|rows: Seq<RuntimeCapabilityDescriptor>|
            describes_all(rows, capabilities_of(active@, plugin_id@)) && #[trigger] rows.to_multiset() == r@.to_multiset(),
        rows_sorted(r@),
        capabilities_in_order(r@),
{
    proof {
        lemma_caps_of_kind_all(capabilities_of(active@, plugin_id@));
    }
    list_capabilities_matching(active, plugin_id, None)
}

fn list_capabilities_matching(active: &Vec<ActivePlugin>, plugin_id: &str, kind: Option<RuntimeCapabilityKind>) -> (r: Vec<RuntimeCapabilityDescriptor>)
    ensures
        exists|rows: Seq<RuntimeCapabilityDescriptor>|
            describes_all(rows, caps_of_kind(capabilities_of(active@, plugin_id@), kind)) && #[trigger] rows.to_multiset() == r@.to_multiset(),
        rows_sorted(r@),
        capabilities_in_order(r@),
{
    let id = trim_string(plugin_id);
    let rows: Vec<RuntimeCapabilityDescriptor> = if id.as_str().is_empty() {
        Vec::new()
    } else {
        match find_plugin(active, &id) {
            None => Vec::new(),
            Some(p) => {
                proof {
                    lemma_plugin_index(active@, id@);
                }
                describe_matching(&active[p].capabilities, kind)
            },
        }
    };
    proof {
        if caps_of_kind(capabilities_of(active@, plugin_id@), kind).len() == 0 {
        }
        assert(caps_of_kind(Seq::<RuntimeCapability>::empty(), kind) =~= Seq::<RuntimeCapability>::empty());
    }
    let ghost rv = rows@;
    assert(describes_all(rv, caps_of_kind(capabilities_of(active@, plugin_id@), kind)));
    let r = sort_rows(rows);
    assert(describes_all(rv, caps_of_kind(capabilities_of(active@, plugin_id@), kind)) && rv.to_multiset() == r@.to_multiset());
    proof {
        law_capabilities_in_order(r@);
    }
    r
}

/// The capabilities of a plugin of one kind, ordered by type id.
pub fn list_capabilities_of_kind(active: &Vec<ActivePlugin>, plugin_id: &str, kind: RuntimeCapabilityKind) -> (r: Vec<RuntimeCapabilityDescriptor>)
    ensures
        exists|rows: Seq<RuntimeCapabilityDescriptor>|
            describes_all(rows, caps_of_kind(capabilities_of(active@, plugin_id@), Some(kind))) && #[trigger] rows.to_multiset() == r@.to_multiset(),
        rows_sorted(r@),
        capabilities_in_order(r@),
{
    list_capabilities_matching(active, plugin_id, Some(kind))
}

/// The index of the first capability of kind `kind` and type id `type_id`,
/// or -1.
pub open spec fn capability_index(caps: Seq<RuntimeCapability>, kind: RuntimeCapabilityKind, type_id: Seq<char>) -> int
    decreases caps.len(),
{
    if caps.len() == 0 {
        -1
    } else if capability_index(caps.drop_last(), kind, type_id) >= 0 {
        capability_index(caps.drop_last(), kind, type_id)
    } else if ability_to_runtime(caps.last().kind) == kind && caps.last().type_id@ == type_id {
        caps.len() - 1
    } else {
        -1
    }
}

/// The capability of a plugin with this kind and (trimmed) type id; blank ids
/// find nothing. Among several, the one the plugin lists first.
pub fn find_capability(active: &Vec<ActivePlugin>, plugin_id: &str, kind: RuntimeCapabilityKind, type_id: &str) -> (r: Option<RuntimeCapabilityDescriptor>)
    ensures
        ({
            let caps = capabilities_of(active@, plugin_id@);
            let k = capability_index(caps, kind, trim_s(type_id@));
            if trim_s(plugin_id@).len() == 0 || trim_s(type_id@).len() == 0 || k < 0 {
                r is None
            } else {
                r matches Some(d) && describes(d, caps[k])
            }
        }),
{
    let id = trim_string(plugin_id);
    let tid = trim_string(type_id);
    if id.as_str().is_empty() || tid.as_str().is_empty() {
        return None;
    }
    let p = match find_plugin(active, &id) {
        None => {
            return None;
        },
        Some(p) => p,
    };
    proof {
        lemma_plugin_index(active@, id@);
    }
    let caps = &active[p].capabilities;
    assert(caps@ == capabilities_of(active@, plugin_id@));
    let mut j: usize = 0;
    while j < caps.len()
        invariant
            j <= caps@.len(),
            tid@ == trim_s(type_id@),
            caps@ == capabilities_of(active@, plugin_id@),
            trim_s(plugin_id@).len() > 0,
            trim_s(type_id@).len() > 0,
            capability_index(caps@.take(j as int), kind, tid@) == -1,
        decreases caps@.len() - j,
    {
        let ghost t = caps@.take(j + 1);
        assert(t.drop_last() =~= caps@.take(j as int));
        assert(t.last() == caps@[j as int]);
        if map_ability_kind(caps[j].kind) == kind && caps[j].type_id == tid {
            proof {
                assert(capability_index(t, kind, tid@) == j);
                lemma_capability_index_prefix(caps@, kind, tid@, j + 1);
                assert(capability_index(caps@, kind, trim_s(type_id@)) == j);
            }
            return Some(describe_capability(&caps[j]));
        }
        j = j + 1;
    }
    assert(caps@.take(caps@.len() as int) =~= caps@);
    None
}

proof fn lemma_capability_index_prefix(caps: Seq<RuntimeCapability>, kind: RuntimeCapabilityKind, type_id: Seq<char>, n: int)
    requires
        0 <= n <= caps.len(),
        capability_index(caps.take(n), kind, type_id) >= 0,
    ensures
        capability_index(caps, kind, type_id) == capability_index(caps.take(n), kind, type_id),
    decreases caps.len() - n,
{
    if n < caps.len() {
        let t = caps.take(n + 1);
        assert(t.drop_last() =~= caps.take(n));
        lemma_capability_index_prefix(caps, kind, type_id, n + 1);
    } else {
        assert(caps.take(n) =~= caps);
    }
}

/// Some active plugin has a decoder with a wildcard score above zero.
pub open spec fn has_wildcard_decoder(active: Seq<ActivePlugin>) -> bool {
    exists|i: int, j: int|
        0 <= i < active.len() && 0 <= j < active[i].capabilities@.len()
            && (#[trigger] active[i].capabilities@[j]).kind == AbilityKind::Decoder
            && active[i].capabilities@[j].decoder_wildcard_score > 0
}

/// Whether some decoder takes files of any extension.
pub fn decoder_has_wildcard_candidate(active: &Vec<ActivePlugin>) -> (r: bool)
    ensures
        r == has_wildcard_decoder(active@),
{
    let mut i: usize = 0;
    while i < active.len()
        invariant
            i <= active@.len(),
            forall|a: int, b: int|
                0 <= a < i && 0 <= b < active@[a].capabilities@.len() ==> !((#[trigger] active@[a].capabilities@[b]).kind == AbilityKind::Decoder
                    && active@[a].capabilities@[b].decoder_wildcard_score > 0),
        decreases active@.len() - i,
    {
        let caps = &active[i].capabilities;
        let mut j: usize = 0;
        while j < caps.len()
            invariant
                i < active@.len(),
                caps@ == active@[i as int].capabilities@,
                j <= caps@.len(),
                forall|a: int, b: int|
                    0 <= a < i && 0 <= b < active@[a].capabilities@.len() ==> !((#[trigger] active@[a].capabilities@[b]).kind == AbilityKind::Decoder
                        && active@[a].capabilities@[b].decoder_wildcard_score > 0),
                forall|b: int| 0 <= b < j ==> !((#[trigger] caps@[b]).kind == AbilityKind::Decoder && caps@[b].decoder_wildcard_score > 0),
            decreases caps@.len() - j,
        {
            if caps[j].kind == AbilityKind::Decoder && caps[j].decoder_wildcard_score > 0 {
                assert(active@[i as int].capabilities@[j as int] == caps@[j as int]);
                return true;
            }
            j = j + 1;
        }
        proof {
            assert forall|a: int, b: int|
                0 <= a < i + 1 && 0 <= b < active@[a].capabilities@.len() implies !((#[trigger] active@[a].capabilities@[b]).kind == AbilityKind::Decoder
                    && active@[a].capabilities@[b].decoder_wildcard_score > 0) by {
                if a == i {
                    assert(caps@[b] == active@[a].capabilities@[b]);
                }
            }
        }
        i = i + 1;
    }
    false
}

/// The plugin has a decoder capability.
pub open spec fn has_decoder(p: ActivePlugin) -> bool {
    exists|j: int| 0 <= j < p.capabilities@.len() && (#[trigger] p.capabilities@[j]).kind == AbilityKind::Decoder
}

fn plugin_has_decoder(p: &ActivePlugin) -> (r: bool)
    ensures
        r == has_decoder(*p),
{
    let mut j: usize = 0;
    while j < p.capabilities.len()
        invariant
            j <= p.capabilities@.len(),
            forall|b: int| 0 <= b < j ==> (#[trigger] p.capabilities@[b]).kind != AbilityKind::Decoder,
        decreases p.capabilities@.len() - j,
    {
        if p.capabilities[j].kind == AbilityKind::Decoder {
            return true;
        }
        j = j + 1;
    }
    false
}

/// Texts in `str` order.
pub open spec fn texts_in_order(r: Seq<String>) -> bool {
    forall|i: int, j: int| 0 <= i < j < r.len() ==> !str_lt((#[trigger] r[j])@, (#[trigger] r[i])@)
}

/// Sorting texts puts them in `str` order.
pub proof fn law_texts_in_order(r: Seq<String>)
    requires
        rows_sorted(r),
    ensures
        texts_in_order(r),
{
    lemma_sorted_rows_in_key_order(r);
}

impl OrderedRow for String {
    open spec fn row_key(&self) -> (int, Seq<char>, Seq<Seq<char>>) {
        (0, self@, Seq::empty())
    }

    fn row_rank(&self) -> (r: i64) {
        0
    }

    fn row_primary(&self) -> (s: &str) {
        self.as_str()
    }

    fn row_secondary(&self) -> (s: Vec<String>) {
        let s: Vec<String> = Vec::new();
        assert(strings_view(s@) =~= Seq::<Seq<char>>::empty());
        s
    }
}

/// The ids of the active plugins that have a decoder, in order.
pub open spec fn decoder_plugin_ids(active: Seq<ActivePlugin>) -> Seq<Seq<char>>
    decreases active.len(),
{
    if active.len() == 0 {
        seq![]
    } else if has_decoder(active.last()) {
        decoder_plugin_ids(active.drop_last()).push(active.last().id@)
    } else {
        decoder_plugin_ids(active.drop_last())
    }
}

/// The ids of the active plugins that have a decoder, ordered.
pub fn decoder_capability_plugin_ids(active: &Vec<ActivePlugin>) -> (r: Vec<String>)
    ensures
        exists|ids: Seq<String>| strings_view(ids) == decoder_plugin_ids(active@) && #[trigger] ids.to_multiset() == r@.to_multiset(),
        rows_sorted(r@),
        texts_in_order(r@),
{
    let mut ids: Vec<String> = Vec::new();
    let mut i: usize = 0;
    while i < active.len()
        invariant
            i <= active@.len(),
            strings_view(ids@) == decoder_plugin_ids(active@.take(i as int)),
        decreases active@.len() - i,
    {
        let ghost t = active@.take(i + 1);
        assert(t.drop_last() =~= active@.take(i as int));
        assert(t.last() == active@[i as int]);
        if plugin_has_decoder(&active[i]) {
            ids.push(active[i].id.clone());
            assert(strings_view(ids@) =~= decoder_plugin_ids(t));
        }
        i = i + 1;
    }
    assert(active@.take(active@.len() as int) =~= active@);
    let ghost iv = ids@;
    let r = sort_rows(ids);
    assert(strings_view(iv) == decoder_plugin_ids(active@) && iv.to_multiset() == r@.to_multiset());
    proof {
        law_texts_in_order(r@);
    }
    r
}

/// A decoder that can open files of some extension, and how well.
#[derive(Debug)]
pub struct RuntimeDecoderCandidate {
    pub plugin_id: String,
    pub type_id: String,
    pub score: u16,
}

impl OrderedRow for RuntimeDecoderCandidate {
    /// Higher scores first, then by plugin id, then by type id.
    open spec fn row_key(&self) -> (int, Seq<char>, Seq<Seq<char>>) {
        (0 - self.score, self.plugin_id@, seq![self.type_id@])
    }

    fn row_rank(&self) -> (r: i64) {
        0 - (self.score as i64)
    }

    fn row_primary(&self) -> (s: &str) {
        self.plugin_id.as_str()
    }

    fn row_secondary(&self) -> (s: Vec<String>) {
        let s = vec![self.type_id.clone()];
        assert(strings_view(s@) =~= seq![self.type_id@]);
        s
    }
}

/// Decoder candidates in the order they are tried: higher scores first;
/// among equal scores by plugin id, then by type id (texts compared as
/// `str` compares them).
pub open spec fn candidates_in_order(r: Seq<RuntimeDecoderCandidate>) -> bool {
    forall|i: int, j: int|
        0 <= i < j < r.len() ==> {
            &&& (#[trigger] r[i]).score >= (#[trigger] r[j]).score
            &&& r[i].score == r[j].score ==> !str_lt(r[j].plugin_id@, r[i].plugin_id@)
            &&& r[i].score == r[j].score && r[i].plugin_id@ == r[j].plugin_id@ ==> !str_lt(
                r[j].type_id@,
                r[i].type_id@,
            )
        }
}

/// Sorting decoder candidates puts them in the order they are tried: score
/// descending, then plugin id, then type id.
pub proof fn law_decoder_candidates_in_order(r: Seq<RuntimeDecoderCandidate>)
    requires
        rows_sorted(r),
    ensures
        candidates_in_order(r),
{
    assert forall|i: int, j: int| 0 <= i < j < r.len() implies {
        &&& (#[trigger] r[i]).score >= (#[trigger] r[j]).score
        &&& r[i].score == r[j].score ==> !str_lt(r[j].plugin_id@, r[i].plugin_id@)
        &&& r[i].score == r[j].score && r[i].plugin_id@ == r[j].plugin_id@ ==> !str_lt(
            r[j].type_id@,
            r[i].type_id@,
        )
    } by {
        assert(!key_lt(r[j].row_key(), r[i].row_key()));
        let a = seq![r[j].type_id@];
        let b = seq![r[i].type_id@];
        assert(a.drop_first() =~= Seq::<Seq<char>>::empty());
        assert(b.drop_first() =~= Seq::<Seq<char>>::empty());
        assert(!seqs_lt(Seq::<Seq<char>>::empty(), Seq::<Seq<char>>::empty()));
        lemma_str_lt_irreflexive(r[j].type_id@);
        if r[j].type_id@ != r[i].type_id@ {
            assert(seqs_lt(a, b) == str_lt(r[j].type_id@, r[i].type_id@));
        }
    }
}

pub open spec fn candidate_view(c: RuntimeDecoderCandidate) -> (Seq<char>, Seq<char>, u16) {
    (c.plugin_id@, c.type_id@, c.score)
}

pub open spec fn candidate_views(s: Seq<RuntimeDecoderCandidate>) -> Seq<(Seq<char>, Seq<char>, u16)> {
    s.map_values(|c: RuntimeDecoderCandidate| candidate_view(c))
}

/// The decoders of one plugin that score above zero for `ext`, in order.
pub open spec fn plugin_candidates(plugin_id: Seq<char>, caps: Seq<RuntimeCapability>, ext: Seq<char>) -> Seq<(Seq<char>, Seq<char>, u16)>
    decreases caps.len(),
{
    if caps.len() == 0 {
        seq![]
    } else {
        let rest = plugin_candidates(plugin_id, caps.drop_last(), ext);
        let c = caps.last();
        if c.kind == AbilityKind::Decoder && decoder_score_spec(c, ext) > 0 {
            rest.push((plugin_id, c.type_id@, decoder_score_spec(c, ext)))
        } else {
            rest
        }
    }
}

/// The decoders of all active plugins that score above zero for `ext`.
pub open spec fn all_candidates(active: Seq<ActivePlugin>, ext: Seq<char>) -> Seq<(Seq<char>, Seq<char>, u16)>
    decreases active.len(),
{
    if active.len() == 0 {
        seq![]
    } else {
        all_candidates(active.drop_last(), ext) + plugin_candidates(active.last().id@, active.last().capabilities@, ext)
    }
}

/// The decoders that can open files with extension `ext` (normalized), best
/// first, then by plugin id and type id.
pub fn list_decoder_candidates_for_ext(active: &Vec<ActivePlugin>, ext: &str) -> (r: Vec<RuntimeDecoderCandidate>)
    ensures
        exists|rows: Seq<RuntimeDecoderCandidate>|
            candidate_views(rows) == all_candidates(active@, normalize_ext_spec(ext@)) && #[trigger] rows.to_multiset() == r@.to_multiset(),
        rows_sorted(r@),
        candidates_in_order(r@),
{
    let e = normalize_ext(ext);
    let ghost ev = e@;
    let mut out: Vec<RuntimeDecoderCandidate> = Vec::new();
    let mut i: usize = 0;
    while i < active.len()
        invariant
            i <= active@.len(),
            e@ == ev,
            candidate_views(out@) == all_candidates(active@.take(i as int), ev),
        decreases active@.len() - i,
    {
        let caps = &active[i].capabilities;
        let ghost pid = active@[i as int].id@;
        let ghost base = candidate_views(out@);
        let mut j: usize = 0;
        while j < caps.len()
            invariant
                i < active@.len(),
                caps@ == active@[i as int].capabilities@,
                pid == active@[i as int].id@,
                j <= caps@.len(),
                e@ == ev,
                candidate_views(out@) == base + plugin_candidates(pid, caps@.take(j as int), ev),
            decreases caps@.len() - j,
        {
            let ghost t = caps@.take(j + 1);
            assert(t.drop_last() =~= caps@.take(j as int));
            assert(t.last() == caps@[j as int]);
            if caps[j].kind == AbilityKind::Decoder {
                let score = decoder_score_for_ext(&caps[j], e.as_str());
                if score > 0 {
                    let c = RuntimeDecoderCandidate {
                        plugin_id: active[i].id.clone(),
                        type_id: caps[j].type_id.clone(),
                        score,
                    };
                    let ghost cv = candidate_view(c);
                    let ghost old_out = out@;
                    assert(cv == (pid, caps@[j as int].type_id@, decoder_score_spec(caps@[j as int], ev)));
                    out.push(c);
                    assert(candidate_views(out@) =~= candidate_views(old_out).push(cv));
                    assert(plugin_candidates(pid, t, ev) == plugin_candidates(pid, caps@.take(j as int), ev).push(cv));
                    assert(candidate_views(out@) =~= base + plugin_candidates(pid, t, ev));
                }
            }
            j = j + 1;
        }
        proof {
            let t = active@.take(i + 1);
            assert(t.drop_last() =~= active@.take(i as int));
            assert(t.last() == active@[i as int]);
            assert(caps@.take(caps@.len() as int) =~= caps@);
        }
        i = i + 1;
    }
    assert(active@.take(active@.len() as int) =~= active@);
    let ghost rows = out@;
    let r = sort_rows(out);
    assert(candidate_views(rows) == all_candidates(active@, normalize_ext_spec(ext@)) && rows.to_multiset() == r@.to_multiset());
    proof {
        law_decoder_candidates_in_order(r@);
    }
    r
}

/// The normalized, non-empty extensions of `rules`, in order.
pub open spec fn rule_exts(rules: Seq<DecoderExtScore>) -> Seq<Seq<char>>
    decreases rules.len(),
{
    if rules.len() == 0 {
        seq![]
    } else if normalize_ext_spec(rules.last().ext@).len() > 0 {
        rule_exts(rules.drop_last()).push(normalize_ext_spec(rules.last().ext@))
    } else {
        rule_exts(rules.drop_last())
    }
}

/// The extensions named by the decoders among `caps`, in order.
pub open spec fn cap_exts(caps: Seq<RuntimeCapability>) -> Seq<Seq<char>>
    decreases caps.len(),
{
    if caps.len() == 0 {
        seq![]
    } else if caps.last().kind == AbilityKind::Decoder {
        cap_exts(caps.drop_last()) + rule_exts(caps.last().decoder_ext_scores@)
    } else {
        cap_exts(caps.drop_last())
    }
}

/// The extensions named by the decoders of all active plugins.
pub open spec fn all_exts(active: Seq<ActivePlugin>) -> Seq<Seq<char>>
    decreases active.len(),
{
    if active.len() == 0 {
        seq![]
    } else {
        all_exts(active.drop_last()) + cap_exts(active.last().capabilities@)
    }
}

/// The extensions some decoder names, each once, in order.
pub fn decoder_supported_extensions(active: &Vec<ActivePlugin>) -> (r: Vec<String>)
    ensures
        strictly_sorted(strings_view(r@)),
        forall|x: Seq<char>| #[trigger] strings_view(r@).contains(x) <==> all_exts(active@).contains(x),
{
    let mut out: Vec<String> = Vec::new();
    let mut i: usize = 0;
    while i < active.len()
        invariant
            i <= active@.len(),
            strictly_sorted(strings_view(out@)),
            forall|x: Seq<char>| #[trigger] strings_view(out@).contains(x) <==> all_exts(active@.take(i as int)).contains(x),
        decreases active@.len() - i,
    {
        let caps = &active[i].capabilities;
        let ghost base = all_exts(active@.take(i as int));
        let mut j: usize = 0;
        while j < caps.len()
            invariant
                i < active@.len(),
                caps@ == active@[i as int].capabilities@,
                j <= caps@.len(),
                strictly_sorted(strings_view(out@)),
                forall|x: Seq<char>| #[trigger] strings_view(out@).contains(x) <==> (base + cap_exts(caps@.take(j as int))).contains(x),
            decreases caps@.len() - j,
        {
            let ghost t = caps@.take(j + 1);
            assert(t.drop_last() =~= caps@.take(j as int));
            assert(t.last() == caps@[j as int]);
            if caps[j].kind == AbilityKind::Decoder {
                let rules = &caps[j].decoder_ext_scores;
                let ghost base2 = base + cap_exts(caps@.take(j as int));
                let mut k: usize = 0;
                while k < rules.len()
                    invariant
                        j < caps@.len(),
                        rules@ == caps@[j as int].decoder_ext_scores@,
                        k <= rules@.len(),
                        strictly_sorted(strings_view(out@)),
                        forall|x: Seq<char>| #[trigger] strings_view(out@).contains(x) <==> (base2 + rule_exts(rules@.take(k as int))).contains(x),
                    decreases rules@.len() - k,
                {
                    let ghost t2 = rules@.take(k + 1);
                    assert(t2.drop_last() =~= rules@.take(k as int));
                    assert(t2.last() == rules@[k as int]);
                    let n = normalize_ext(rules[k].ext.as_str());
                    let ghost before = base2 + rule_exts(rules@.take(k as int));
                    if !n.as_str().is_empty() {
                        let ghost nv = n@;
                        insert_sorted_unique(&mut out, n);
                        proof {
                            assert(base2 + rule_exts(t2) =~= before.push(nv));
                            assert forall|x: Seq<char>| #[trigger] strings_view(out@).contains(x) <==> (base2 + rule_exts(t2)).contains(x) by {
                                if x == nv {
                                    assert(before.push(nv)[before.len() as int] == x);
                                }
                                if before.push(nv).contains(x) && x != nv {
                                    let w = choose|w: int| 0 <= w < before.push(nv).len() && before.push(nv)[w] == x;
                                    assert(before[w] == x);
                                }
                                if before.contains(x) {
                                    let w = choose|w: int| 0 <= w < before.len() && before[w] == x;
                                    assert(before.push(nv)[w] == x);
                                }
                            }
                        }
                    } else {
                        assert(base2 + rule_exts(t2) =~= before);
                    }
                    k = k + 1;
                }
                assert(rules@.take(rules@.len() as int) =~= rules@);
                assert(base + cap_exts(t) =~= base2 + rule_exts(rules@));
            } else {
                assert(base + cap_exts(t) =~= base + cap_exts(caps@.take(j as int)));
            }
            j = j + 1;
        }
        proof {
            let t = active@.take(i + 1);
            assert(t.drop_last() =~= active@.take(i as int));
            assert(t.last() == active@[i as int]);
            assert(caps@.take(caps@.len() as int) =~= caps@);
            assert(all_exts(t) =~= base + cap_exts(caps@));
        }
        i = i + 1;
    }
    assert(active@.take(active@.len() as int) =~= active@);
    out
}

/// The trimmed, non-empty ids of `ids`, in order.
pub open spec fn trimmed_ids(ids: Seq<String>) -> Seq<Seq<char>>
    decreases ids.len(),
{
    if ids.len() == 0 {
        seq![]
    } else if trim_s(ids.last()@).len() > 0 {
        trimmed_ids(ids.drop_last()).push(trim_s(ids.last()@))
    } else {
        trimmed_ids(ids.drop_last())
    }
}

/// The plugins the user disabled: each trimmed, non-empty id once, in order.
pub fn normalize_disabled_ids(disabled_ids: Vec<String>) -> (r: Vec<String>)
    ensures
        strictly_sorted(strings_view(r@)),
        forall|x: Seq<char>| #[trigger] strings_view(r@).contains(x) <==> trimmed_ids(disabled_ids@).contains(x),
{
    let mut out: Vec<String> = Vec::new();
    let mut i: usize = 0;
    while i < disabled_ids.len()
        invariant
            i <= disabled_ids@.len(),
            strictly_sorted(strings_view(out@)),
            forall|x: Seq<char>| #[trigger] strings_view(out@).contains(x) <==> trimmed_ids(disabled_ids@.take(i as int)).contains(x),
        decreases disabled_ids@.len() - i,
    {
        let ghost t = disabled_ids@.take(i + 1);
        assert(t.drop_last() =~= disabled_ids@.take(i as int));
        assert(t.last() == disabled_ids@[i as int]);
        let ghost before = trimmed_ids(disabled_ids@.take(i as int));
        let id = trim_string(disabled_ids[i].as_str());
        if !id.as_str().is_empty() {
            let ghost nv = id@;
            insert_sorted_unique(&mut out, id);
            proof {
                assert(trimmed_ids(t) =~= before.push(nv));
                assert forall|x: Seq<char>| #[trigger] strings_view(out@).contains(x) <==> trimmed_ids(t).contains(x) by {
                    if x == nv {
                        assert(before.push(nv)[before.len() as int] == x);
                    }
                    if before.push(nv).contains(x) && x != nv {
                        let w = choose|w: int| 0 <= w < before.push(nv).len() && before.push(nv)[w] == x;
                        assert(before[w] == x);
                    }
                    if before.contains(x) {
                        let w = choose|w: int| 0 <= w < before.len() && before[w] == x;
                        assert(before.push(nv)[w] == x);
                    }
                }
            }
        } else {
            assert(trimmed_ids(t) =~= before);
        }
        i = i + 1;
    }
    assert(disabled_ids@.take(disabled_ids@.len() as int) =~= disabled_ids@);
    out
}

/// An active plugin, as the host lists it.
#[derive(Debug)]
pub struct RuntimeActivePluginDescriptor {
    pub id: String,
    pub name: String,
    pub version: String,
}

/// Active plugins listed by id, in `str` order.
pub open spec fn active_plugins_in_order(r: Seq<RuntimeActivePluginDescriptor>) -> bool {
    forall|i: int, j: int| 0 <= i < j < r.len() ==> !str_lt((#[trigger] r[j]).id@, (#[trigger] r[i]).id@)
}

/// Sorting active plugin descriptors lists them by id.
pub proof fn law_active_plugins_in_order(r: Seq<RuntimeActivePluginDescriptor>)
    requires
        rows_sorted(r),
    ensures
        active_plugins_in_order(r),
{
    lemma_sorted_rows_in_key_order(r);
}

impl OrderedRow for RuntimeActivePluginDescriptor {
    open spec fn row_key(&self) -> (int, Seq<char>, Seq<Seq<char>>) {
        (0, self.id@, Seq::empty())
    }

    fn row_rank(&self) -> (r: i64) {
        0
    }

    fn row_primary(&self) -> (s: &str) {
        self.id.as_str()
    }

    fn row_secondary(&self) -> (s: Vec<String>) {
        let s: Vec<String> = Vec::new();
        assert(strings_view(s@) =~= Seq::<Seq<char>>::empty());
        s
    }
}

/// `d` lists the active plugin `p`.
pub open spec fn lists_plugin(d: RuntimeActivePluginDescriptor, p: ActivePlugin) -> bool {
    d.id@ == p.id@ && d.name@ == p.name@ && d.version@ == p.version@
}

/// The active plugins, ordered by id.
pub fn active_plugins_snapshot(active: &Vec<ActivePlugin>) -> (r: Vec<RuntimeActivePluginDescriptor>)
    ensures
        exists|rows: Seq<RuntimeActivePluginDescriptor>|
            rows.len() == active@.len() && (forall|k: int| 0 <= k < active@.len() ==> lists_plugin(#[trigger] rows[k], active@[k]))
                && #[trigger] rows.to_multiset() == r@.to_multiset(),
        rows_sorted(r@),
        active_plugins_in_order(r@),
{
    let mut out: Vec<RuntimeActivePluginDescriptor> = Vec::new();
    let mut i: usize = 0;
    while i < active.len()
        invariant
            i <= active@.len(),
            out@.len() == i,
            forall|k: int| 0 <= k < i ==> lists_plugin(#[trigger] out@[k], active@[k]),
        decreases active@.len() - i,
    {
        let d = RuntimeActivePluginDescriptor {
            id: active[i].id.clone(),
            name: active[i].name.clone(),
            version: active[i].version.clone(),
        };
        out.push(d);
        i = i + 1;
    }
    let ghost rows = out@;
    let r = sort_rows(out);
    assert(rows.len() == active@.len() && (forall|k: int| 0 <= k < active@.len() ==> lists_plugin(#[trigger] rows[k], active@[k]))
        && rows.to_multiset() == r@.to_multiset());
    proof {
        law_active_plugins_in_order(r@);
    }
    r
}

/// The lower-case hexadecimal digit of `n` (below sixteen).
pub open spec fn hex_digit(n: u32) -> char {
    if n < 10 {
        ((n + 48) as u8) as char
    } else {
        ((n + 87) as u8) as char
    }
}

/// How one character stands inside a JSON string: a quote, a backslash and
/// the control characters below U+0020 are escaped (by their short escape
/// where JSON has one, else as `\u00` and two hexadecimal digits); every
/// other character stands for itself.
pub open spec fn json_escape_char(c: char) -> Seq<char> {
    if c == '"' {
        seq!['\\', '"']
    } else if c == '\\' {
        seq!['\\', '\\']
    } else if c == '\u{8}' {
        seq!['\\', 'b']
    } else if c == '\t' {
        seq!['\\', 't']
    } else if c == '\n' {
        seq!['\\', 'n']
    } else if c == '\u{c}' {
        seq!['\\', 'f']
    } else if c == '\r' {
        seq!['\\', 'r']
    } else if (c as u32) < 32 {
        seq!['\\', 'u', '0', '0', hex_digit((c as u32) / 16), hex_digit((c as u32) % 16)]
    } else {
        seq![c]
    }
}

/// The characters of `s`, each as it stands inside a JSON string.
pub open spec fn json_escaped(s: Seq<char>) -> Seq<char>
    decreases s.len(),
{
    if s.len() == 0 {
        Seq::<char>::empty()
    } else {
        json_escaped(s.drop_last()) + json_escape_char(s.last())
    }
}

/// The JSON text of a string: its escaped characters between quotes.
pub open spec fn json_string_text(s: Seq<char>) -> Seq<char> {
    "\""@ + json_escaped(s) + "\""@
}

/// Calls `serde_json::to_string` on a string slice. The contract claims that
/// the call succeeds and gives the string's JSON text as `json_string_text`
/// states it: `serialize_str` writes a quote, the escaped contents
/// (`format_escaped_str_contents` with its `ESCAPE` table, and the default
/// formatter's `write_char_escape` with lower-case hexadecimal digits) and a
/// quote. Its only failure is one of the writer, and the writer `to_string`
/// uses is a `Vec<u8>`, whose writes do not fail.
#[verifier::external_body]
fn json_string(s: &str) -> (r: Option<String>)
    ensures
        r is Some,
        r matches Some(t) ==> t@ == json_string_text(s@),
{
    serde_json::to_string(s).ok()
}

/// The JSON object `{"id":..,"name":..,"version":..}` that describes a plugin.
pub open spec fn plugin_metadata_text(id: Seq<char>, name: Seq<char>, version: Seq<char>) -> Seq<char> {
    "{\"id\":"@ + json_string_text(id) + ",\"name\":"@ + json_string_text(name) + ",\"version\":"@
        + json_string_text(version) + "}"@
}

/// The JSON description of the active plugin `plugin_id` (trimmed): none for
/// a blank id or one that no active plugin has, else that of the first
/// active plugin with the id.
pub fn active_plugin_metadata_json(active: &Vec<ActivePlugin>, plugin_id: &str) -> (r: Option<String>)
    ensures
        ({
            let id = trim_s(plugin_id@);
            let k = plugin_index(active@, id);
            &&& (id.len() == 0 || k < 0) ==> r is None
            &&& (id.len() > 0 && k >= 0) ==> r is Some
            &&& r matches Some(t) ==> id.len() > 0 && k >= 0 && t@ == plugin_metadata_text(
                active@[k].id@,
                active@[k].name@,
                active@[k].version@,
            )
        }),
{
    let id = trim_string(plugin_id);
    if id.as_str().is_empty() {
        return None;
    }
    let k = match find_plugin(active, &id) {
        None => {
            return None;
        },
        Some(k) => k,
    };
    proof {
        lemma_plugin_index(active@, id@);
    }
    let p = &active[k];
    let jid = match json_string(p.id.as_str()) {
        Some(t) => t,
        None => {
            return None;
        },
    };
    let jname = match json_string(p.name.as_str()) {
        Some(t) => t,
        None => {
            return None;
        },
    };
    let jversion = match json_string(p.version.as_str()) {
        Some(t) => t,
        None => {
            return None;
        },
    };
    let mut v: Vec<char> = Vec::new();
    push_str(&mut v, "{\"id\":");
    push_str(&mut v, jid.as_str());
    push_str(&mut v, ",\"name\":");
    push_str(&mut v, jname.as_str());
    push_str(&mut v, ",\"version\":");
    push_str(&mut v, jversion.as_str());
    push_str(&mut v, "}");
    assert(v@ =~= plugin_metadata_text(p.id@, p.name@, p.version@));
    Some(crate::text::string_of(&v))
}

/// What set off a plugin's transition during a sync.
#[derive(Debug, Clone, Copy, PartialEq, Eq, Structural)]
pub enum RuntimePluginTransitionTrigger {
    LoadNew,
    ReloadChanged,
    DisableRequested,
    RemovedFromDisk,
}

/// How a plugin's transition went.
#[derive(Debug, Clone, Copy, PartialEq, Eq, Structural)]
pub enum RuntimePluginTransitionOutcome {
    Applied,
    Skipped,
    Failed,
}

/// One plugin's transition during a sync.
#[derive(Debug)]
pub struct RuntimePluginTransition {
    pub plugin_id: String,
    pub trigger: RuntimePluginTransitionTrigger,
    pub outcome: RuntimePluginTransitionOutcome,
    pub detail: String,
}

/// A plugin's status after a sync: whether the user disabled it and whether
/// its files are missing.
#[derive(Debug)]
pub struct RuntimePluginStatus {
    pub desired_disabled: bool,
    pub missing: bool,
}

/// What a load, unload or sync loaded, deactivated, and failed with.
#[derive(Debug)]
pub struct RuntimeLoadReport {
    pub loaded: Vec<String>,
    pub deactivated: Vec<String>,
    pub errors: Vec<String>,
}

/// The counts of a sync.
#[derive(Debug)]
pub struct RuntimeSyncPlanSummary {
    pub discovered: usize,
    pub disabled: usize,
    pub actions_total: usize,
    pub load_new: usize,
    pub reload_changed: usize,
    pub deactivate: usize,
}

/// What a sync did for one plugin.
#[derive(Debug)]
pub struct RuntimeSyncActionOutcome {
    pub action: String,
    pub plugin_id: String,
    pub outcome: String,
}

/// The report of a sync of the plugin directory.
#[derive(Debug)]
pub struct RuntimeSyncReport {
    pub load_report: RuntimeLoadReport,
    pub plan: RuntimeSyncPlanSummary,
    pub actions: Vec<RuntimeSyncActionOutcome>,
    pub plan_ms: u64,
    pub execute_ms: u64,
    pub total_ms: u64,
}

/// The action a transition is reported as, and its outcome text.
pub open spec fn action_text(t: RuntimePluginTransition) -> (Seq<char>, Seq<char>) {
    match t.outcome {
        RuntimePluginTransitionOutcome::Applied => match t.trigger {
            RuntimePluginTransitionTrigger::LoadNew => ("load_new"@, "ok"@),
            RuntimePluginTransitionTrigger::ReloadChanged => ("reload_changed"@, "ok"@),
            _ => ("deactivate_missing_or_disabled"@, "ok"@),
        },
        RuntimePluginTransitionOutcome::Skipped => ("skip"@, t.detail@),
        RuntimePluginTransitionOutcome::Failed => ("fail"@, t.detail@),
    }
}

pub open spec fn loads(t: RuntimePluginTransition) -> bool {
    t.outcome == RuntimePluginTransitionOutcome::Applied && (t.trigger
        == RuntimePluginTransitionTrigger::LoadNew || t.trigger
        == RuntimePluginTransitionTrigger::ReloadChanged)
}

pub open spec fn deactivates(t: RuntimePluginTransition) -> bool {
    t.outcome == RuntimePluginTransitionOutcome::Applied && (t.trigger
        == RuntimePluginTransitionTrigger::DisableRequested || t.trigger
        == RuntimePluginTransitionTrigger::RemovedFromDisk)
}

/// The ids of the transitions that satisfy `pick`, in order.
pub open spec fn ids_where(ts: Seq<RuntimePluginTransition>, pick: spec_fn(RuntimePluginTransition) -> bool) -> Seq<Seq<char>>
    decreases ts.len(),
{
    if ts.len() == 0 {
        seq![]
    } else if pick(ts.last()) {
        ids_where(ts.drop_last(), pick).push(ts.last().plugin_id@)
    } else {
        ids_where(ts.drop_last(), pick)
    }
}

pub open spec fn applied_with(trigger: RuntimePluginTransitionTrigger) -> spec_fn(RuntimePluginTransition) -> bool {
    |t: RuntimePluginTransition| t.outcome == RuntimePluginTransitionOutcome::Applied && t.trigger == trigger
}

/// The statuses of plugins disabled by the user whose files are there.
pub open spec fn disabled_count(ss: Seq<RuntimePluginStatus>) -> nat
    decreases ss.len(),
{
    if ss.len() == 0 {
        0
    } else {
        disabled_count(ss.drop_last()) + if ss.last().desired_disabled && !ss.last().missing {
            1nat
        } else {
            0nat
        }
    }
}

pub open spec fn action_views(s: Seq<RuntimeSyncActionOutcome>) -> Seq<(Seq<char>, Seq<char>, Seq<char>)> {
    s.map_values(|a: RuntimeSyncActionOutcome| (a.action@, a.plugin_id@, a.outcome@))
}

pub open spec fn transition_actions(ts: Seq<RuntimePluginTransition>) -> Seq<(Seq<char>, Seq<char>, Seq<char>)> {
    ts.map_values(|t: RuntimePluginTransition| (action_text(t).0, t.plugin_id@, action_text(t).1))
}

proof fn lemma_ids_where_len(ts: Seq<RuntimePluginTransition>, pick: spec_fn(RuntimePluginTransition) -> bool)
    ensures
        ids_where(ts, pick).len() <= ts.len(),
    decreases ts.len(),
{
    if ts.len() > 0 {
        lemma_ids_where_len(ts.drop_last(), pick);
    }
}

/// Folds the transitions and statuses of a sync into its report: what was
/// loaded and deactivated, the counts of each kind of transition, and one
/// action per transition.
pub fn summarize_sync(transitions: &Vec<RuntimePluginTransition>, statuses: &Vec<RuntimePluginStatus>, discovered: usize, errors: Vec<String>) -> (r: RuntimeSyncReport)
    ensures
        strings_view(r.load_report.loaded@) == ids_where(transitions@, |t: RuntimePluginTransition| loads(t)),
        strings_view(r.load_report.deactivated@) == ids_where(transitions@, |t: RuntimePluginTransition| deactivates(t)),
        r.load_report.errors@ == errors@,
        r.plan.discovered == discovered,
        r.plan.disabled == disabled_count(statuses@),
        r.plan.actions_total == transitions@.len(),
        r.plan.load_new == ids_where(transitions@, applied_with(RuntimePluginTransitionTrigger::LoadNew)).len(),
        r.plan.reload_changed == ids_where(transitions@, applied_with(RuntimePluginTransitionTrigger::ReloadChanged)).len(),
        r.plan.deactivate == ids_where(transitions@, |t: RuntimePluginTransition| deactivates(t)).len(),
        action_views(r.actions@) == transition_actions(transitions@),
        r.plan_ms == 0,
        r.execute_ms == 0,
        r.total_ms == 0,
{
    let ghost ld = |t: RuntimePluginTransition| loads(t);
    let ghost dc = |t: RuntimePluginTransition| deactivates(t);
    let ghost ln = applied_with(RuntimePluginTransitionTrigger::LoadNew);
    let ghost rc = applied_with(RuntimePluginTransitionTrigger::ReloadChanged);
    let mut loaded: Vec<String> = Vec::new();
    let mut deactivated: Vec<String> = Vec::new();
    let mut actions: Vec<RuntimeSyncActionOutcome> = Vec::new();
    let mut load_new: usize = 0;
    let mut reload_changed: usize = 0;
    let mut deactivate: usize = 0;
    let mut i: usize = 0;
    while i < transitions.len()
        invariant
            i <= transitions@.len(),
            strings_view(loaded@) == ids_where(transitions@.take(i as int), ld),
            strings_view(deactivated@) == ids_where(transitions@.take(i as int), dc),
            load_new == ids_where(transitions@.take(i as int), ln).len(),
            reload_changed == ids_where(transitions@.take(i as int), rc).len(),
            deactivate == deactivated@.len(),
            action_views(actions@) == transition_actions(transitions@.take(i as int)),
            ld == (|t: RuntimePluginTransition| loads(t)),
            dc == (|t: RuntimePluginTransition| deactivates(t)),
            ln == applied_with(RuntimePluginTransitionTrigger::LoadNew),
            rc == applied_with(RuntimePluginTransitionTrigger::ReloadChanged),
        decreases transitions@.len() - i,
    {
        let ghost t = transitions@.take(i + 1);
        assert(t.drop_last() =~= transitions@.take(i as int));
        assert(t.last() == transitions@[i as int]);
        proof {
            lemma_ids_where_len(transitions@.take(i as int), ln);
            lemma_ids_where_len(transitions@.take(i as int), rc);
            lemma_ids_where_len(transitions@.take(i as int), dc);
        }
        let tr = &transitions[i];
        let (action, outcome) = match tr.outcome {
            RuntimePluginTransitionOutcome::Applied => match tr.trigger {
                RuntimePluginTransitionTrigger::LoadNew => {
                    load_new = load_new + 1;
                    loaded.push(tr.plugin_id.clone());
                    (String::from_str("load_new"), String::from_str("ok"))
                },
                RuntimePluginTransitionTrigger::ReloadChanged => {
                    reload_changed = reload_changed + 1;
                    loaded.push(tr.plugin_id.clone());
                    (String::from_str("reload_changed"), String::from_str("ok"))
                },
                _ => {
                    deactivate = deactivate + 1;
                    deactivated.push(tr.plugin_id.clone());
                    (String::from_str("deactivate_missing_or_disabled"), String::from_str("ok"))
                },
            },
            RuntimePluginTransitionOutcome::Skipped => (String::from_str("skip"), tr.detail.clone()),
            RuntimePluginTransitionOutcome::Failed => (String::from_str("fail"), tr.detail.clone()),
        };
        let ghost before = actions@;
        let ghost av = (action@, tr.plugin_id@, outcome@);
        assert(av == (action_text(transitions@[i as int]).0, transitions@[i as int].plugin_id@, action_text(transitions@[i as int]).1));
        let item = RuntimeSyncActionOutcome { action, plugin_id: tr.plugin_id.clone(), outcome };
        actions.push(item);
        assert(action_views(actions@) =~= action_views(before).push(av));
        assert(transition_actions(t) =~= transition_actions(transitions@.take(i as int)).push(av));
        assert(strings_view(loaded@) =~= ids_where(t, ld));
        assert(strings_view(deactivated@) =~= ids_where(t, dc));
        assert(action_views(actions@) =~= transition_actions(t));
        i = i + 1;
    }
    assert(transitions@.take(transitions@.len() as int) =~= transitions@);
    let mut disabled: usize = 0;
    let mut j: usize = 0;
    while j < statuses.len()
        invariant
            j <= statuses@.len(),
            disabled == disabled_count(statuses@.take(j as int)),
            disabled <= j,
        decreases statuses@.len() - j,
    {
        let ghost t = statuses@.take(j + 1);
        assert(t.drop_last() =~= statuses@.take(j as int));
        assert(t.last() == statuses@[j as int]);
        if statuses[j].desired_disabled && !statuses[j].missing {
            disabled = disabled + 1;
        }
        j = j + 1;
    }
    assert(statuses@.take(statuses@.len() as int) =~= statuses@);
    RuntimeSyncReport {
        load_report: RuntimeLoadReport { loaded, deactivated, errors },
        plan: RuntimeSyncPlanSummary {
            discovered,
            disabled,
            actions_total: transitions.len(),
            load_new,
            reload_changed,
            deactivate,
        },
        actions,
        plan_ms: 0,
        execute_ms: 0,
        total_ms: 0,
    }
}

/// The plugin an unload targets: its trimmed id, none where that is blank.
pub fn unload_target(plugin_id: &str) -> (r: Option<String>)
    ensures
        match r {
            Some(id) => id@ == trim_s(plugin_id@) && id@.len() > 0,
            None => trim_s(plugin_id@).len() == 0,
        },
{
    let id = trim_string(plugin_id);
    if id.as_str().is_empty() {
        None
    } else {
        Some(id)
    }
}

/// The report of an unload of `plugin_id`: deactivated where the runtime
/// unloaded it, nothing where it was not loaded, the error where it failed.
pub fn unload_report(plugin_id: String, outcome: Result<bool, String>) -> (r: RuntimeLoadReport)
    ensures
        r.loaded@.len() == 0,
        match outcome {
            Ok(true) => strings_view(r.deactivated@) == seq![plugin_id@] && r.errors@.len() == 0,
            Ok(false) => r.deactivated@.len() == 0 && r.errors@.len() == 0,
            Err(e) => r.deactivated@.len() == 0 && strings_view(r.errors@) == seq![e@],
        },
{
    match outcome {
        Ok(unloaded) => {
            let mut deactivated: Vec<String> = Vec::new();
            if unloaded {
                deactivated.push(plugin_id);
                assert(strings_view(deactivated@) =~= seq![deactivated@[0]@]);
            }
            RuntimeLoadReport { loaded: Vec::new(), deactivated, errors: Vec::new() }
        },
        Err(e) => {
            let mut errors: Vec<String> = Vec::new();
            errors.push(e);
            assert(strings_view(errors@) =~= seq![errors@[0]@]);
            RuntimeLoadReport { loaded: Vec::new(), deactivated: Vec::new(), errors }
        },
    }
}

impl RuntimeLoadReport {
    /// A report of nothing.
    pub fn empty() -> (r: RuntimeLoadReport)
        ensures
            r.loaded@.len() == 0,
            r.deactivated@.len() == 0,
            r.errors@.len() == 0,
    {
        RuntimeLoadReport { loaded: Vec::new(), deactivated: Vec::new(), errors: Vec::new() }
    }
}

/// The report of a shutdown: the plugins it deactivated, or its error.
pub fn shutdown_report(outcome: Result<Vec<String>, String>) -> (r: RuntimeLoadReport)
    ensures
        r.loaded@.len() == 0,
        match outcome {
            Ok(ids) => r.deactivated@ == ids@ && r.errors@.len() == 0,
            Err(e) => r.deactivated@.len() == 0 && strings_view(r.errors@) == seq![e@],
        },
{
    match outcome {
        Ok(deactivated) => RuntimeLoadReport { loaded: Vec::new(), deactivated, errors: Vec::new() },
        Err(e) => {
            let mut errors: Vec<String> = Vec::new();
            errors.push(e);
            assert(strings_view(errors@) =~= seq![errors@[0]@]);
            RuntimeLoadReport { loaded: Vec::new(), deactivated: Vec::new(), errors }
        },
    }
}

} // verus!
