//! The registry of plugin capabilities: every capability that a loaded
//! generation of a plugin declares gets a fresh id and a record.
use vstd::prelude::*;

verus! {

/// Identifies a registered capability.
#[derive(Debug, Clone, Copy, PartialEq, Eq, Structural)]
pub struct CapabilityId(pub u64);

/// Identifies one load of a plugin.
#[derive(Debug, Clone, Copy, PartialEq, Eq, Structural)]
pub struct GenerationId(pub u64);

/// What a capability does.
#[derive(Debug, Clone, Copy, PartialEq, Eq, Structural)]
pub enum CapabilityKind {
    Decoder,
    Dsp,
    SourceCatalog,
    LyricsProvider,
    OutputSink,
}

/// A capability as a plugin declares it.
#[derive(Debug)]
pub struct CapabilityDescriptorInput {
    pub kind: CapabilityKind,
    pub type_id: String,
    pub display_name: String,
    pub config_schema_json: String,
    pub default_config_json: String,
}

/// A registered capability.
#[derive(Debug)]
pub struct CapabilityDescriptorRecord {
    pub id: CapabilityId,
    pub plugin_id: String,
    pub generation: GenerationId,
    pub kind: CapabilityKind,
    pub type_id: String,
    pub display_name: String,
    pub config_schema_json: String,
    pub default_config_json: String,
}

impl CapabilityDescriptorRecord {
    /// An equal copy of this record.
    pub fn duplicate(&self) -> (r: CapabilityDescriptorRecord)
        ensures
            r == *self,
    {
        CapabilityDescriptorRecord {
            id: self.id,
            plugin_id: self.plugin_id.clone(),
            generation: self.generation,
            kind: self.kind,
            type_id: self.type_id.clone(),
            display_name: self.display_name.clone(),
            config_schema_json: self.config_schema_json.clone(),
            default_config_json: self.default_config_json.clone(),
        }
    }

    /// Whether this record belongs to `generation` of the plugin `plugin_id`.
    pub open spec fn of_generation(&self, plugin_id: Seq<char>, generation: GenerationId) -> bool {
        self.plugin_id@ == plugin_id && self.generation == generation
    }

    /// Whether this record is the capability `kind`/`type_id` of a generation.
    pub open spec fn is_capability(
        &self,
        plugin_id: Seq<char>,
        generation: GenerationId,
        kind: CapabilityKind,
        type_id: Seq<char>,
    ) -> bool {
        self.of_generation(plugin_id, generation) && self.kind == kind && self.type_id@ == type_id
    }
}

/// The record that registering `input` under id `id` creates.
pub open spec fn record_of(
    id: u64,
    plugin_id: Seq<char>,
    generation: GenerationId,
    input: CapabilityDescriptorInput,
) -> (CapabilityId, Seq<char>, GenerationId, CapabilityKind, Seq<char>, Seq<char>, Seq<char>, Seq<char>) {
    (
        CapabilityId(id),
        plugin_id,
        generation,
        input.kind,
        input.type_id@,
        input.display_name@,
        input.config_schema_json@,
        input.default_config_json@,
    )
}

pub open spec fn record_fields(r: CapabilityDescriptorRecord) -> (
    CapabilityId,
    Seq<char>,
    GenerationId,
    CapabilityKind,
    Seq<char>,
    Seq<char>,
    Seq<char>,
    Seq<char>,
) {
    (
        r.id,
        r.plugin_id@,
        r.generation,
        r.kind,
        r.type_id@,
        r.display_name@,
        r.config_schema_json@,
        r.default_config_json@,
    )
}

/// The records of `recs` that belong to a generation, in order.
pub open spec fn records_of_generation(
    recs: Seq<CapabilityDescriptorRecord>,
    plugin_id: Seq<char>,
    generation: GenerationId,
) -> Seq<CapabilityDescriptorRecord>
    decreases recs.len(),
{
    if recs.len() == 0 {
        Seq::empty()
    } else {
        let r = records_of_generation(recs.drop_last(), plugin_id, generation);
        if recs.last().of_generation(plugin_id, generation) {
            r.push(recs.last())
        } else {
            r
        }
    }
}

/// The records of `recs` that do not belong to a generation, in order.
pub open spec fn records_not_of_generation(
    recs: Seq<CapabilityDescriptorRecord>,
    plugin_id: Seq<char>,
    generation: GenerationId,
) -> Seq<CapabilityDescriptorRecord>
    decreases recs.len(),
{
    if recs.len() == 0 {
        Seq::empty()
    } else {
        let r = records_not_of_generation(recs.drop_last(), plugin_id, generation);
        if recs.last().of_generation(plugin_id, generation) {
            r
        } else {
            r.push(recs.last())
        }
    }
}

/// All registered capabilities, by id.
#[derive(Debug)]
pub struct CapabilityRegistry {
    next_id: u64,
    records: Vec<CapabilityDescriptorRecord>,
}

impl CapabilityRegistry {
    /// The registered records, oldest first.
    pub closed spec fn records(&self) -> Seq<CapabilityDescriptorRecord> {
        self.records@
    }

    /// The last id handed out (ids start at 1).
    pub closed spec fn last_id(&self) -> u64 {
        self.next_id
    }

    /// Ids grow with registration, and no two records share one.
    pub closed spec fn wf(&self) -> bool {
        &&& forall|i: int|
            0 <= i < self.records@.len() ==> 0 < (#[trigger] self.records@[i]).id.0 <= self.next_id
        &&& forall|i: int, j: int|
            0 <= i < j < self.records@.len() ==> (#[trigger] self.records@[i]).id.0 < (
            #[trigger] self.records@[j]).id.0
    }

    pub fn new() -> (r: CapabilityRegistry)
        ensures
            r.wf(),
            r.records() == Seq::<CapabilityDescriptorRecord>::empty(),
            r.last_id() == 0,
    {
        CapabilityRegistry { next_id: 0, records: Vec::new() }
    }

    /// Registers the capabilities of a generation; the `i`-th gets id
    /// `last_id + 1 + i`. Returns the new records in order.
    pub fn register_generation(
        &mut self,
        plugin_id: &str,
        generation: GenerationId,
        inputs: Vec<CapabilityDescriptorInput>,
    ) -> (out: Vec<CapabilityDescriptorRecord>)
        requires
            old(self).wf(),
            old(self).last_id() + inputs@.len() <= u64::MAX,
        ensures
            final(self).wf(),
            out@.len() == inputs@.len(),
            forall|i: int|
                0 <= i < inputs@.len() ==> record_fields(#[trigger] out@[i]) == record_of(
                    (old(self).last_id() + 1 + i) as u64,
                    plugin_id@,
                    generation,
                    inputs@[i],
                ),
            final(self).records() == old(self).records() + out@,
            final(self).last_id() == old(self).last_id() + inputs@.len(),
    {
        let ghost old_records = self.records@;
        let ghost first = self.next_id;
        let mut out: Vec<CapabilityDescriptorRecord> = Vec::new();
        let mut i: usize = 0;
        let n = inputs.len();
        while i < n
            invariant
                0 <= i <= n,
                n == inputs@.len(),
                first + n <= u64::MAX,
                self.next_id == first + i,
                out@.len() == i,
                self.records@ == old_records + out@,
                forall|j: int|
                    0 <= j < i ==> record_fields(#[trigger] out@[j]) == record_of(
                        (first + 1 + j) as u64,
                        plugin_id@,
                        generation,
                        inputs@[j],
                    ),
                forall|j: int|
                    0 <= j < old_records.len() ==> 0 < (#[trigger] old_records[j]).id.0 <= first,
                forall|j: int, k: int|
                    0 <= j < k < old_records.len() ==> (#[trigger] old_records[j]).id.0 < (
                    #[trigger] old_records[k]).id.0,
            decreases n - i,
        {
            let id = CapabilityId(self.next_id + 1);
            self.next_id = self.next_id + 1;
            let input = &inputs[i];
            let record = CapabilityDescriptorRecord {
                id,
                plugin_id: String::from_str(plugin_id),
                generation,
                kind: input.kind,
                type_id: input.type_id.clone(),
                display_name: input.display_name.clone(),
                config_schema_json: input.config_schema_json.clone(),
                default_config_json: input.default_config_json.clone(),
            };
            let copy = record.duplicate();
            self.records.push(copy);
            out.push(record);
            i = i + 1;
            assert(self.records@ =~= old_records + out@);
        }
        proof {
            assert forall|a: int, b: int|
                0 <= a < b < self.records@.len() implies (#[trigger] self.records@[a]).id.0 < (
                #[trigger] self.records@[b]).id.0 by {
                if b >= old_records.len() {
                    assert(self.records@[b] == out@[b - old_records.len()]);
                    if a >= old_records.len() {
                        assert(self.records@[a] == out@[a - old_records.len()]);
                    } else {
                        assert(self.records@[a] == old_records[a]);
                    }
                }
            }
            assert forall|a: int| 0 <= a < self.records@.len() implies 0 < (
            #[trigger] self.records@[a]).id.0 <= self.next_id by {
                if a >= old_records.len() {
                    assert(self.records@[a] == out@[a - old_records.len()]);
                }
            }
        }
        out
    }

    /// Removes every record of a generation.
    pub fn remove_generation(&mut self, plugin_id: &str, generation: GenerationId)
        requires
            old(self).wf(),
        ensures
            final(self).wf(),
            final(self).records() == records_not_of_generation(
                old(self).records(),
                plugin_id@,
                generation,
            ),
            final(self).last_id() == old(self).last_id(),
            forall|r: CapabilityDescriptorRecord|
                #[trigger] final(self).records().contains(r) <==> (old(self).records().contains(r)
                    && !r.of_generation(plugin_id@, generation)),
    {
        proof {
            lemma_not_of_generation_members(self.records@, plugin_id@, generation);
        }
        let p = String::from_str(plugin_id);
        let ghost old_records = self.records@;
        let mut kept: Vec<CapabilityDescriptorRecord> = Vec::new();
        let mut i: usize = 0;
        assert(old_records.take(0) =~= Seq::<CapabilityDescriptorRecord>::empty());
        while i < self.records.len()
            invariant
                0 <= i <= self.records@.len(),
                self.records@ == old_records,
                p@ == plugin_id@,
                kept@ == records_not_of_generation(old_records.take(i as int), plugin_id@, generation),
            decreases self.records@.len() - i,
        {
            assert(old_records.take((i + 1) as int).drop_last() =~= old_records.take(i as int));
            let r = &self.records[i];
            if !(r.plugin_id == p && r.generation == generation) {
                kept.push(r.duplicate());
            }
            i = i + 1;
        }
        assert(old_records.take(old_records.len() as int) =~= old_records);
        proof {
            lemma_not_of_generation_sub(old_records, plugin_id@, generation, self.next_id);
        }
        self.records = kept;
    }

    /// The record with id `id`.
    pub fn get(&self, id: CapabilityId) -> (r: Option<CapabilityDescriptorRecord>)
        requires
            self.wf(),
        ensures
            forall|i: int|
                0 <= i < self.records().len() && (#[trigger] self.records()[i]).id == id ==> r
                    == Some(self.records()[i]),
            r is None <==> forall|i: int|
                0 <= i < self.records().len() ==> (#[trigger] self.records()[i]).id != id,
    {
        let mut i: usize = 0;
        while i < self.records.len()
            invariant
                0 <= i <= self.records@.len(),
                self.wf(),
                forall|j: int| 0 <= j < i ==> (#[trigger] self.records@[j]).id != id,
            decreases self.records@.len() - i,
        {
            if self.records[i].id == id {
                let r = self.records[i].duplicate();
                assert(self.records@[i as int] == r);
                proof {
                    self.lemma_ids_distinct();
                }
                return Some(r);
            }
            i = i + 1;
        }
        None
    }

    /// No two registered records share an id.
    pub proof fn lemma_ids_distinct(&self)
        requires
            self.wf(),
        ensures
            forall|i: int, j: int|
                0 <= i < self.records().len() && 0 <= j < self.records().len() && i != j ==> (
                #[trigger] self.records()[i]).id != (#[trigger] self.records()[j]).id,
    {
        assert forall|i: int, j: int|
            0 <= i < self.records().len() && 0 <= j < self.records().len() && i != j implies (
            #[trigger] self.records()[i]).id != (#[trigger] self.records()[j]).id by {
            if i < j {
                assert(self.records@[i].id.0 < self.records@[j].id.0);
            } else {
                assert(self.records@[j].id.0 < self.records@[i].id.0);
            }
        }
    }

    /// Every stored id is positive and at most the last id handed out.
    pub proof fn lemma_ids_bounded(&self)
        requires
            self.wf(),
        ensures
            forall|i: int|
                0 <= i < self.records().len() ==> 0 < (#[trigger] self.records()[i]).id.0
                    <= self.last_id(),
    {
    }

    /// A record of the capability `kind`/`type_id` of a generation.
    pub fn find(
        &self,
        plugin_id: &str,
        generation: GenerationId,
        kind: CapabilityKind,
        type_id: &str,
    ) -> (r: Option<CapabilityDescriptorRecord>)
        ensures
            match r {
                Some(rec) => self.records().contains(rec) && rec.is_capability(
                    plugin_id@,
                    generation,
                    kind,
                    type_id@,
                ),
                None => forall|i: int|
                    0 <= i < self.records().len() ==> !(#[trigger] self.records()[i]).is_capability(
                        plugin_id@,
                        generation,
                        kind,
                        type_id@,
                    ),
            },
    {
        let p = String::from_str(plugin_id);
        let t = String::from_str(type_id);
        let mut i: usize = 0;
        while i < self.records.len()
            invariant
                0 <= i <= self.records@.len(),
                p@ == plugin_id@,
                t@ == type_id@,
                forall|j: int|
                    0 <= j < i ==> !(#[trigger] self.records@[j]).is_capability(
                        plugin_id@,
                        generation,
                        kind,
                        type_id@,
                    ),
            decreases self.records@.len() - i,
        {
            let rec = &self.records[i];
            if rec.plugin_id == p && rec.generation == generation && rec.kind == kind && rec.type_id
                == t {
                let r = rec.duplicate();
                assert(self.records@[i as int] == r);
                return Some(r);
            }
            i = i + 1;
        }
        None
    }

    /// The records of a generation, oldest first.
    pub fn list_for_generation(&self, plugin_id: &str, generation: GenerationId) -> (r: Vec<
        CapabilityDescriptorRecord,
    >)
        ensures
            r@ == records_of_generation(self.records(), plugin_id@, generation),
    {
        let p = String::from_str(plugin_id);
        let mut out: Vec<CapabilityDescriptorRecord> = Vec::new();
        let mut i: usize = 0;
        assert(self.records@.take(0) =~= Seq::<CapabilityDescriptorRecord>::empty());
        while i < self.records.len()
            invariant
                0 <= i <= self.records@.len(),
                p@ == plugin_id@,
                out@ == records_of_generation(self.records@.take(i as int), plugin_id@, generation),
            decreases self.records@.len() - i,
        {
            assert(self.records@.take((i + 1) as int).drop_last() =~= self.records@.take(i as int));
            let rec = &self.records[i];
            if rec.plugin_id == p && rec.generation == generation {
                out.push(rec.duplicate());
            }
            i = i + 1;
        }
        assert(self.records@.take(self.records@.len() as int) =~= self.records@);
        out
    }
}

/// The records kept are exactly those not of the generation.
pub proof fn lemma_not_of_generation_members(
    recs: Seq<CapabilityDescriptorRecord>,
    plugin_id: Seq<char>,
    generation: GenerationId,
)
    ensures
        forall|r: CapabilityDescriptorRecord|
            #[trigger] records_not_of_generation(recs, plugin_id, generation).contains(r) <==> (
            recs.contains(r) && !r.of_generation(plugin_id, generation)),
    decreases recs.len(),
{
    if recs.len() > 0 {
        let d = recs.drop_last();
        lemma_not_of_generation_members(d, plugin_id, generation);
        let k0 = records_not_of_generation(d, plugin_id, generation);
        let k = records_not_of_generation(recs, plugin_id, generation);
        assert forall|r: CapabilityDescriptorRecord| k.contains(r) <==> (recs.contains(r)
            && !r.of_generation(plugin_id, generation)) by {
            if recs.contains(r) {
                let i = choose|i: int| 0 <= i < recs.len() && recs[i] == r;
                if i < recs.len() - 1 {
                    assert(d[i] == r);
                    assert(d.contains(r));
                }
            }
            if d.contains(r) {
                let i = choose|i: int| 0 <= i < d.len() && d[i] == r;
                assert(recs[i] == r);
            }
            if !recs.last().of_generation(plugin_id, generation) {
                assert(k == k0.push(recs.last()));
                if k.contains(r) {
                    let i = choose|i: int| 0 <= i < k.len() && k[i] == r;
                    if i < k0.len() {
                        assert(k0[i] == r);
                    }
                }
                if k0.contains(r) {
                    let i = choose|i: int| 0 <= i < k0.len() && k0[i] == r;
                    assert(k[i] == r);
                }
                assert(k[k0.len() as int] == recs.last());
                assert(recs[recs.len() - 1] == recs.last());
            } else {
                assert(recs[recs.len() - 1] == recs.last());
            }
        }
    } else {
        assert(records_not_of_generation(recs, plugin_id, generation) =~= Seq::<CapabilityDescriptorRecord>::empty());
    }
}

/// Keeping some of the records keeps them in order and keeps their ids.
pub proof fn lemma_not_of_generation_sub(
    recs: Seq<CapabilityDescriptorRecord>,
    plugin_id: Seq<char>,
    generation: GenerationId,
    last: u64,
)
    requires
        forall|i: int| 0 <= i < recs.len() ==> 0 < (#[trigger] recs[i]).id.0 <= last,
        forall|i: int, j: int|
            0 <= i < j < recs.len() ==> (#[trigger] recs[i]).id.0 < (#[trigger] recs[j]).id.0,
    ensures
        ({
            let k = records_not_of_generation(recs, plugin_id, generation);
            &&& forall|i: int| 0 <= i < k.len() ==> 0 < (#[trigger] k[i]).id.0 <= last
            &&& forall|i: int, j: int|
                0 <= i < j < k.len() ==> (#[trigger] k[i]).id.0 < (#[trigger] k[j]).id.0
            &&& forall|i: int| 0 <= i < k.len() ==> recs.contains(#[trigger] k[i])
            &&& (k.len() > 0 && recs.len() > 0 ==> k.last().id.0 <= recs.last().id.0)
        }),
    decreases recs.len(),
{
    if recs.len() > 0 {
        let d = recs.drop_last();
        lemma_not_of_generation_sub(d, plugin_id, generation, last);
        let k0 = records_not_of_generation(d, plugin_id, generation);
        let k = records_not_of_generation(recs, plugin_id, generation);
        assert forall|i: int| 0 <= i < k0.len() implies recs.contains(#[trigger] k0[i]) by {
            let w = choose|w: int| 0 <= w < d.len() && d[w] == k0[i];
            assert(recs[w] == k0[i]);
        }
        assert forall|i: int| 0 <= i < k0.len() implies (#[trigger] k0[i]).id.0 < recs.last().id.0 by {
            let w = choose|w: int| 0 <= w < d.len() && d[w] == k0[i];
            assert(recs[w] == d[w]);
        }
        if !recs.last().of_generation(plugin_id, generation) {
            assert(recs[recs.len() - 1] == recs.last());
        }
    }
}

/// Registering a generation and then removing it leaves exactly the records
/// of other generations that were there before.
pub proof fn law_register_then_remove(
    before: Seq<CapabilityDescriptorRecord>,
    added: Seq<CapabilityDescriptorRecord>,
    plugin_id: Seq<char>,
    generation: GenerationId,
)
    requires
        forall|i: int| 0 <= i < added.len() ==> (#[trigger] added[i]).of_generation(plugin_id, generation),
    ensures
        records_not_of_generation(before + added, plugin_id, generation)
            == records_not_of_generation(before, plugin_id, generation),
    decreases added.len(),
{
    if added.len() > 0 {
        let a = added.drop_last();
        assert((before + added).drop_last() =~= before + a);
        assert((before + added).last() == added.last());
        assert(added[added.len() - 1] == added.last());
        law_register_then_remove(before, a, plugin_id, generation);
    } else {
        assert(before + added =~= before);
    }
}

/// The records registered for a generation are exactly what listing that
/// generation gives, when the registry held none of it before.
pub proof fn law_register_then_list(
    before: Seq<CapabilityDescriptorRecord>,
    added: Seq<CapabilityDescriptorRecord>,
    plugin_id: Seq<char>,
    generation: GenerationId,
)
    requires
        forall|i: int| 0 <= i < added.len() ==> (#[trigger] added[i]).of_generation(plugin_id, generation),
        records_of_generation(before, plugin_id, generation) == Seq::<CapabilityDescriptorRecord>::empty(),
    ensures
        records_of_generation(before + added, plugin_id, generation) == added,
    decreases added.len(),
{
    if added.len() > 0 {
        let a = added.drop_last();
        assert((before + added).drop_last() =~= before + a);
        assert((before + added).last() == added.last());
        assert(added[added.len() - 1] == added.last());
        law_register_then_list(before, a, plugin_id, generation);
        assert(a.push(added.last()) =~= added);
    } else {
        assert(before + added =~= before);
    }
}

/// Ids are never reused: the ids a registration hands out (`last_id + 1`,
/// `last_id + 2`, ...) grow, and each exceeds every id stored before it.
/// Removing a generation keeps `last_id`, so this holds across removals too.
pub proof fn law_registered_ids_are_fresh(reg: &CapabilityRegistry, out: Seq<CapabilityDescriptorRecord>)
    requires
        reg.wf(),
        forall|i: int| 0 <= i < out.len() ==> (#[trigger] out[i]).id.0 == reg.last_id() + 1 + i,
    ensures
        forall|i: int, j: int|
            0 <= i < out.len() && 0 <= j < reg.records().len() ==> (#[trigger] reg.records()[j]).id.0
                < (#[trigger] out[i]).id.0,
        forall|i: int, k: int| 0 <= i < k < out.len() ==> (#[trigger] out[i]).id.0 < (#[trigger] out[k]).id.0,
{
    reg.lemma_ids_bounded();
}

/// Once a generation is removed, nothing of it is listed or found.
pub proof fn law_removed_generation_is_gone(
    recs: Seq<CapabilityDescriptorRecord>,
    plugin_id: Seq<char>,
    generation: GenerationId,
)
    ensures
        records_of_generation(records_not_of_generation(recs, plugin_id, generation), plugin_id, generation)
            == Seq::<CapabilityDescriptorRecord>::empty(),
        forall|i: int, kind: CapabilityKind, type_id: Seq<char>|
            0 <= i < records_not_of_generation(recs, plugin_id, generation).len() ==> !#[trigger] records_not_of_generation(recs, plugin_id, generation)[i].is_capability(
                plugin_id,
                generation,
                kind,
                type_id,
            ),
{
    let k = records_not_of_generation(recs, plugin_id, generation);
    lemma_not_of_generation_members(recs, plugin_id, generation);
    assert forall|i: int| 0 <= i < k.len() implies !(#[trigger] k[i]).of_generation(plugin_id, generation) by {
        assert(k.contains(k[i]));
    }
    lemma_none_of_generation(k, plugin_id, generation);
}

proof fn lemma_none_of_generation(
    recs: Seq<CapabilityDescriptorRecord>,
    plugin_id: Seq<char>,
    generation: GenerationId,
)
    requires
        forall|i: int| 0 <= i < recs.len() ==> !(#[trigger] recs[i]).of_generation(plugin_id, generation),
    ensures
        records_of_generation(recs, plugin_id, generation) == Seq::<CapabilityDescriptorRecord>::empty(),
    decreases recs.len(),
{
    if recs.len() > 0 {
        let d = recs.drop_last();
        assert forall|i: int| 0 <= i < d.len() implies !(#[trigger] d[i]).of_generation(plugin_id, generation) by {
            assert(d[i] == recs[i]);
        }
        lemma_none_of_generation(d, plugin_id, generation);
        assert(recs[recs.len() - 1] == recs.last());
    }
}

/// The records left after removing, in turn, each generation of `removals`
/// (plugin id and generation).
pub open spec fn after_removals(
    recs: Seq<CapabilityDescriptorRecord>,
    removals: Seq<(Seq<char>, GenerationId)>,
) -> Seq<CapabilityDescriptorRecord>
    decreases removals.len(),
{
    if removals.len() == 0 {
        recs
    } else {
        records_not_of_generation(
            after_removals(recs, removals.drop_last()),
            removals.last().0,
            removals.last().1,
        )
    }
}

/// A registered record stays, and so `get` finds it by its id, exactly as
/// long as none of the generations removed since is its own.
pub proof fn law_record_survives_removals(
    recs: Seq<CapabilityDescriptorRecord>,
    removals: Seq<(Seq<char>, GenerationId)>,
    r: CapabilityDescriptorRecord,
)
    ensures
        after_removals(recs, removals).contains(r) <==> (recs.contains(r) && forall|k: int|
            0 <= k < removals.len() ==> !r.of_generation(#[trigger] removals[k].0, removals[k].1)),
    decreases removals.len(),
{
    if removals.len() > 0 {
        let d = removals.drop_last();
        law_record_survives_removals(recs, d, r);
        let last = removals.last();
        lemma_not_of_generation_members(after_removals(recs, d), last.0, last.1);
        assert(removals[removals.len() - 1] == last);
        if recs.contains(r) && (forall|k: int|
            0 <= k < d.len() ==> !r.of_generation(#[trigger] d[k].0, d[k].1)) && !r.of_generation(last.0, last.1) {
            assert forall|k: int| 0 <= k < removals.len() implies !r.of_generation(#[trigger] removals[k].0, removals[k].1) by {
                if k < d.len() {
                    assert(removals[k] == d[k]);
                }
            }
        }
        if recs.contains(r) && (forall|k: int|
            0 <= k < removals.len() ==> !r.of_generation(#[trigger] removals[k].0, removals[k].1)) {
            assert forall|k: int| 0 <= k < d.len() implies !r.of_generation(#[trigger] d[k].0, d[k].1) by {
                assert(removals[k] == d[k]);
            }
        }
    }
}

} // verus!
