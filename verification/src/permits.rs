//! Chunk permits: which chunks may be loaded for which purposes, and the bookkeeping that maps
//! chunk positions and entities to permit entries.
use vstd::prelude::*;
use std::collections::HashMap;
use crate::bounding_box::ChunkPos;
use crate::jobs::{item_key, item_key_of, lemma_item_key_injective};

verus! {

broadcast use vstd::std_specs::hash::group_hash_axioms;

/// Flags of what a permit allows: rendering and collision.
#[derive(Copy, Clone, Debug, PartialEq, Eq, Hash, Structural)]
pub struct PermitFlags(pub u16);

impl PermitFlags {
    /// The flag of chunks that may be rendered.
    pub fn render() -> (r: PermitFlags)
        ensures
            r.0 == 1,
    {
        PermitFlags(1)
    }

    /// The flag of chunks that take part in collisions.
    pub fn collision() -> (r: PermitFlags)
        ensures
            r.0 == 2,
    {
        PermitFlags(2)
    }

    /// No flag set.
    pub fn empty() -> (r: PermitFlags)
        ensures
            r.0 == 0,
    {
        PermitFlags(0)
    }

    /// The flags set in either.
    pub fn union(self, other: PermitFlags) -> (r: PermitFlags)
        ensures
            r.0 == self.0 | other.0,
    {
        PermitFlags(self.0 | other.0)
    }

    /// `true` if every flag of `other` is set in `self`.
    pub fn contains(self, other: PermitFlags) -> (r: bool)
        ensures
            r == (self.0 & other.0 == other.0),
    {
        self.0 & other.0 == other.0
    }

    /// The names of the flags that are set.
    pub fn names(self) -> (r: Vec<&'static str>)
        ensures
            r@.len() == (if self.0 & 1 == 1 { 1int } else { 0int }) + (if self.0 & 2 == 2 { 1int } else { 0int }),
    {
        let mut out: Vec<&'static str> = Vec::new();
        if self.0 & 1 == 1 {
            out.push("RENDER");
        }
        if self.0 & 2 == 2 {
            out.push("COLLISION");
        }
        out
    }
}

/// The union of the bits of every set of flags in a sequence.
pub open spec fn flags_union(s: Seq<PermitFlags>) -> u16
    decreases s.len(),
{
    if s.len() == 0 {
        0
    } else {
        flags_union(s.drop_last()) | s.last().0
    }
}

/// The union of a sequence of flags holds each of them.
pub proof fn lemma_flags_union_contains(s: Seq<PermitFlags>, i: int)
    requires
        0 <= i < s.len(),
    ensures
        flags_union(s) & s[i].0 == s[i].0,
    decreases s.len(),
{
    let u = flags_union(s.drop_last());
    let last = s.last().0;
    if i == s.len() - 1 {
        assert((u | last) & last == last) by (bit_vector);
    } else {
        lemma_flags_union_contains(s.drop_last(), i);
        let x = s[i].0;
        assert(u & x == x ==> (u | last) & x == x) by (bit_vector);
    }
}

/// Identifier of a loadshare: an owner of load requests for chunks.
#[derive(Copy, Clone, Debug, PartialEq, Eq, Hash, Structural)]
pub struct LoadshareId(pub u32);

/// A value for each of some loadshares: at most one entry per loadshare, kept in the order the
/// loadshares were first inserted.
#[derive(Clone, Debug)]
pub struct LoadshareMap<T> {
    entries: Vec<(LoadshareId, T)>,
}

/// No loadshare has two entries.
pub open spec fn loadshares_distinct<T>(entries: Seq<(LoadshareId, T)>) -> bool {
    forall|i: int, j: int| 0 <= i < j < entries.len() ==> #[trigger] entries[i].0 != #[trigger] entries[j].0
}

/// The value of each loadshare that has an entry.
pub open spec fn loadshare_view<T>(entries: Seq<(LoadshareId, T)>) -> Map<LoadshareId, T> {
    Map::new(
        |id: LoadshareId| loadshare_position(entries, id) is Some,
        |id: LoadshareId| entries[loadshare_position(entries, id)->Some_0].1,
    )
}

/// The position of the entry of `id`, if there is one.
pub open spec fn loadshare_position<T>(entries: Seq<(LoadshareId, T)>, id: LoadshareId) -> Option<int> {
    if exists|i: int| 0 <= i < entries.len() && #[trigger] entries[i].0 == id {
        Some(choose|i: int| 0 <= i < entries.len() && #[trigger] entries[i].0 == id)
    } else {
        None
    }
}

impl<T> LoadshareMap<T> {
    pub closed spec fn spec_entries(&self) -> Seq<(LoadshareId, T)> {
        self.entries@
    }

    /// The entries, in the order their loadshares were first inserted.
    pub open spec fn entries_view(&self) -> Seq<(LoadshareId, T)> {
        self.spec_entries()
    }

    pub open spec fn wf(&self) -> bool {
        loadshares_distinct(self.entries_view())
    }

    /// The value of each loadshare that has one.
    pub open spec fn view(&self) -> Map<LoadshareId, T> {
        loadshare_view(self.entries_view())
    }

    /// No loadshare has a value.
    pub fn new() -> (r: LoadshareMap<T>)
        ensures
            r.wf(),
            r.entries_view() == Seq::<(LoadshareId, T)>::empty(),
    {
        LoadshareMap { entries: Vec::new() }
    }

    /// The number of loadshares with a value.
    pub fn len(&self) -> (r: usize)
        ensures
            r == self.entries_view().len(),
    {
        self.entries.len()
    }

    fn position(&self, id: LoadshareId) -> (r: Option<usize>)
        requires
            self.wf(),
        ensures
            r matches Some(k) ==> k < self.entries_view().len() && self.entries_view()[k as int].0 == id,
            r is None ==> forall|i: int| 0 <= i < self.entries_view().len() ==> #[trigger] self.entries_view()[i].0 != id,
    {
        let mut i: usize = 0;
        while i < self.entries.len()
            invariant
                0 <= i <= self.entries@.len(),
                forall|j: int| 0 <= j < i ==> #[trigger] self.entries@[j].0 != id,
            decreases self.entries@.len() - i,
        {
            if self.entries[i].0.0 == id.0 {
                return Some(i);
            }
            i = i + 1;
        }
        None
    }

    /// The value of a loadshare, if it has one.
    pub fn get(&self, id: LoadshareId) -> (r: Option<&T>)
        requires
            self.wf(),
        ensures
            r is Some <==> self@.contains_key(id),
            r matches Some(v) ==> *v == self@[id],
    {
        proof {
            lemma_loadshare_position(self.entries_view(), id);
        }
        match self.position(id) {
            Some(k) => Some(&self.entries[k].1),
            None => None,
        }
    }

    /// Give a loadshare a value, returning the one it had. A loadshare with a value keeps its
    /// place; a new one is added at the end.
    pub fn insert(&mut self, id: LoadshareId, value: T) -> (r: Option<T>)
        requires
            old(self).wf(),
        ensures
            final(self).wf(),
            final(self)@ == old(self)@.insert(id, value),
            r is Some <==> old(self)@.contains_key(id),
            r matches Some(v) ==> v == old(self)@[id],
    {
        let ghost before = self.entries@;
        proof {
            lemma_loadshare_position(before, id);
        }
        match self.position(id) {
            Some(k) => {
                let mut entry = (id, value);
                std::mem::swap(&mut entry, &mut self.entries[k]);
                proof {
                    assert(self.entries@ =~= before.update(k as int, (id, value)));
                    assert forall|i: int, j: int| 0 <= i < j < self.entries@.len() implies #[trigger] self.entries@[i].0
                        != #[trigger] self.entries@[j].0 by {
                        assert(before[i].0 != before[j].0);
                    }
                    lemma_loadshare_view_update(before, k as int, id, value);
                }
                Some(entry.1)
            },
            None => {
                self.entries.push((id, value));
                proof {
                    assert forall|i: int, j: int| 0 <= i < j < self.entries@.len() implies #[trigger] self.entries@[i].0
                        != #[trigger] self.entries@[j].0 by {
                        if j < before.len() {
                            assert(before[i].0 != before[j].0);
                        }
                    }
                    lemma_loadshare_view_push(before, id, value);
                }
                None
            },
        }
    }

    /// Take a loadshare's value away, returning it. The other entries keep their order.
    pub fn remove(&mut self, id: LoadshareId) -> (r: Option<T>)
        requires
            old(self).wf(),
        ensures
            final(self).wf(),
            final(self)@ == old(self)@.remove(id),
            r is Some <==> old(self)@.contains_key(id),
            r matches Some(v) ==> v == old(self)@[id],
    {
        let ghost before = self.entries@;
        proof {
            lemma_loadshare_position(before, id);
        }
        match self.position(id) {
            Some(k) => {
                let entry = self.entries.remove(k);
                proof {
                    assert(self.entries@ =~= before.remove(k as int));
                    assert forall|i: int, j: int| 0 <= i < j < self.entries@.len() implies #[trigger] self.entries@[i].0
                        != #[trigger] self.entries@[j].0 by {
                        if i < k {
                            if j < k {
                                assert(before[i].0 != before[j].0);
                            } else {
                                assert(before[i].0 != before[j + 1].0);
                            }
                        } else {
                            assert(before[i + 1].0 != before[j + 1].0);
                        }
                    }
                    lemma_loadshare_view_remove(before, k as int);
                }
                Some(entry.1)
            },
            None => {
                proof {
                    assert(self@ =~= old(self)@.remove(id));
                }
                None
            },
        }
    }
}

/// With distinct loadshares, the entry of a loadshare is the one entry that has it.
proof fn lemma_loadshare_position<T>(entries: Seq<(LoadshareId, T)>, id: LoadshareId)
    requires
        loadshares_distinct(entries),
    ensures
        forall|k: int| 0 <= k < entries.len() && entries[k].0 == id ==> loadshare_position(entries, id) == Some(k),
        (forall|k: int| 0 <= k < entries.len() ==> #[trigger] entries[k].0 != id) ==> loadshare_position(entries, id) is None,
{
    assert forall|k: int| 0 <= k < entries.len() && entries[k].0 == id implies loadshare_position(entries, id) == Some(k) by {
        let c = choose|i: int| 0 <= i < entries.len() && #[trigger] entries[i].0 == id;
        if c != k {
            if c < k {
                assert(entries[c].0 != entries[k].0);
            } else {
                assert(entries[k].0 != entries[c].0);
            }
        }
    }
}

proof fn lemma_loadshare_view_update<T>(entries: Seq<(LoadshareId, T)>, k: int, id: LoadshareId, value: T)
    requires
        loadshares_distinct(entries),
        loadshares_distinct(entries.update(k, (id, value))),
        0 <= k < entries.len(),
        entries[k].0 == id,
    ensures
        loadshare_view(entries.update(k, (id, value))) == loadshare_view(entries).insert(id, value),
{
    let after = entries.update(k, (id, value));
    assert forall|x: LoadshareId| true implies (#[trigger] loadshare_position(after, x) is Some == loadshare_position(entries, x) is Some)
        && (loadshare_position(after, x) matches Some(i) ==> (loadshare_position(entries, x) == Some(i))) by {
        lemma_loadshare_position(entries, x);
        lemma_loadshare_position(after, x);
        if exists|i: int| 0 <= i < entries.len() && #[trigger] entries[i].0 == x {
            let i = choose|i: int| 0 <= i < entries.len() && #[trigger] entries[i].0 == x;
            assert(after[i].0 == x);
        }
        if exists|i: int| 0 <= i < after.len() && #[trigger] after[i].0 == x {
            let i = choose|i: int| 0 <= i < after.len() && #[trigger] after[i].0 == x;
            assert(entries[i].0 == x);
        }
    }
    assert(loadshare_view(after) =~= loadshare_view(entries).insert(id, value)) by {
        lemma_loadshare_position(entries, id);
        lemma_loadshare_position(after, id);
        assert(after[k].0 == id);
        assert(loadshare_position(after, id) is Some);
    }
}

proof fn lemma_loadshare_view_push<T>(entries: Seq<(LoadshareId, T)>, id: LoadshareId, value: T)
    requires
        loadshares_distinct(entries),
        loadshares_distinct(entries.push((id, value))),
        forall|i: int| 0 <= i < entries.len() ==> #[trigger] entries[i].0 != id,
    ensures
        loadshare_view(entries.push((id, value))) == loadshare_view(entries).insert(id, value),
{
    let after = entries.push((id, value));
    assert forall|x: LoadshareId| x != id implies (#[trigger] loadshare_position(after, x) is Some == loadshare_position(entries, x) is Some)
        && (loadshare_position(after, x) matches Some(i) ==> (loadshare_position(entries, x) == Some(i))) by {
        lemma_loadshare_position(entries, x);
        lemma_loadshare_position(after, x);
        if exists|i: int| 0 <= i < entries.len() && #[trigger] entries[i].0 == x {
            let i = choose|i: int| 0 <= i < entries.len() && #[trigger] entries[i].0 == x;
            assert(after[i].0 == x);
        }
        if exists|i: int| 0 <= i < after.len() && #[trigger] after[i].0 == x {
            let i = choose|i: int| 0 <= i < after.len() && #[trigger] after[i].0 == x;
            assert(entries[i].0 == x);
        }
    }
    assert(loadshare_view(after) =~= loadshare_view(entries).insert(id, value)) by {
        lemma_loadshare_position(after, id);
        assert(after[entries.len() as int].0 == id);
        assert(loadshare_position(after, id) is Some);
    }
}

proof fn lemma_loadshare_view_remove<T>(entries: Seq<(LoadshareId, T)>, k: int)
    requires
        loadshares_distinct(entries),
        loadshares_distinct(entries.remove(k)),
        0 <= k < entries.len(),
    ensures
        loadshare_view(entries.remove(k)) == loadshare_view(entries).remove(entries[k].0),
{
    let id = entries[k].0;
    let after = entries.remove(k);
    assert forall|x: LoadshareId| x != id implies (#[trigger] loadshare_position(after, x) is Some == loadshare_position(entries, x) is Some)
        && (loadshare_position(after, x) matches Some(i) ==> after[i].1 == entries[loadshare_position(entries, x)->Some_0].1) by {
        lemma_loadshare_position(entries, x);
        lemma_loadshare_position(after, x);
        if exists|i: int| 0 <= i < entries.len() && #[trigger] entries[i].0 == x {
            let i = choose|i: int| 0 <= i < entries.len() && #[trigger] entries[i].0 == x;
            if i < k {
                assert(after[i].0 == x);
            } else {
                assert(i != k);
                assert(after[i - 1].0 == x);
            }
        }
        if exists|i: int| 0 <= i < after.len() && #[trigger] after[i].0 == x {
            let i = choose|i: int| 0 <= i < after.len() && #[trigger] after[i].0 == x;
            if i < k {
                assert(entries[i].0 == x);
            } else {
                assert(entries[i + 1].0 == x);
            }
        }
    }
    assert(loadshare_view(after) =~= loadshare_view(entries).remove(id)) by {
        lemma_loadshare_position(after, id);
        assert forall|i: int| 0 <= i < after.len() implies #[trigger] after[i].0 != id by {
            if i < k {
                assert(entries[i].0 != entries[k].0);
            } else {
                assert(entries[k].0 != entries[i + 1].0);
            }
        }
    }
}

/// A permit for a chunk: the flags each loadshare grants it, and their union as last computed.
#[derive(Clone, Debug)]
pub struct Permit {
    pub loadshares: LoadshareMap<PermitFlags>,
    pub cached_flags: PermitFlags,
}

/// The flags of the loadshares of a permit, in order.
pub open spec fn loadshare_flags(loadshares: Seq<(LoadshareId, PermitFlags)>) -> Seq<PermitFlags> {
    loadshares.map_values(|e: (LoadshareId, PermitFlags)| e.1)
}

impl Permit {
    /// Recompute the cached flags as the union of the flags of every loadshare, and return
    /// them. Should be called whenever a loadshare updates its permit flags.
    pub fn update_cached_flags(&mut self) -> (r: PermitFlags)
        ensures
            r.0 == flags_union(loadshare_flags(old(self).loadshares.entries_view())),
            final(self).cached_flags == r,
            final(self).loadshares.entries_view() == old(self).loadshares.entries_view(),
    {
        let mut cached = PermitFlags::empty();
        let mut i: usize = 0;
        while i < self.loadshares.entries.len()
            invariant
                0 <= i <= self.loadshares.entries@.len(),
                cached.0 == flags_union(loadshare_flags(self.loadshares.entries@.subrange(0, i as int))),
            decreases self.loadshares.entries@.len() - i,
        {
            let flags = self.loadshares.entries[i].1;
            proof {
                let a = loadshare_flags(self.loadshares.entries@.subrange(0, i + 1));
                assert(a.drop_last() =~= loadshare_flags(self.loadshares.entries@.subrange(0, i as int)));
            }
            cached = cached.union(flags);
            i = i + 1;
        }
        proof {
            assert(self.loadshares.entries@.subrange(0, self.loadshares.entries@.len() as int) =~= self.loadshares.entries@);
        }
        self.cached_flags = cached;
        cached
    }
}

/// An entity of the ECS world, by its bits.
#[derive(Copy, Clone, Debug, PartialEq, Eq, Hash, Structural)]
pub struct EntityId(pub u64);

/// A permit entry: the entity standing for a chunk, the chunk, and its permit.
#[derive(Clone, Debug)]
pub struct Entry {
    pub entity: EntityId,
    pub chunk: ChunkPos,
    pub permit: Permit,
}

/// The key by which a permit entry is looked up.
#[derive(Copy, Clone, Debug, PartialEq, Eq, Structural)]
pub enum ChunkPermitKey {
    Chunk(ChunkPos),
    Entity(EntityId),
}

/// Permit entries, found by chunk position or by entity.
pub struct ChunkEcsPermits {
    entity_keys: HashMap<u64, usize>,
    chunk_keys: HashMap<u128, usize>,
    data: Vec<Entry>,
}

/// The sequence with the element at `idx` replaced by the last one, and the last removed.
pub open spec fn swap_removed<T>(s: Seq<T>, idx: int) -> Seq<T> {
    s.update(idx, s.last()).drop_last()
}

impl ChunkEcsPermits {
    /// The entries, in storage order.
    pub closed spec fn spec_data(&self) -> Seq<Entry> {
        self.data@
    }

    /// The index of the entry of each entity.
    pub closed spec fn spec_entities(&self) -> Map<u64, usize> {
        self.entity_keys@
    }

    /// The index of the entry of each chunk, by [`item_key`].
    pub closed spec fn spec_chunks(&self) -> Map<u128, usize> {
        self.chunk_keys@
    }

    /// Every key leads to an entry that holds that key.
    pub open spec fn wf(&self) -> bool {
        &&& forall|e: u64| #[trigger] self.spec_entities().contains_key(e) ==> self.spec_entities()[e] < self.spec_data().len()
            && self.spec_data()[self.spec_entities()[e] as int].entity.0 == e
        &&& forall|c: ChunkPos| #[trigger] self.spec_chunks().contains_key(item_key(c)) ==> self.spec_chunks()[item_key(c)]
            < self.spec_data().len() && self.spec_data()[self.spec_chunks()[item_key(c)] as int].chunk == c
    }

    /// Every entry is the one its entity and its chunk lead to, so that entities and chunk
    /// positions correspond one to one.
    pub open spec fn one_to_one(&self) -> bool {
        &&& self.wf()
        &&& forall|i: int|
            0 <= i < self.spec_data().len() ==> self.spec_entities().contains_key(#[trigger] self.spec_data()[i].entity.0)
                && self.spec_entities()[self.spec_data()[i].entity.0] == i && self.spec_chunks().contains_key(
                item_key(self.spec_data()[i].chunk),
            ) && self.spec_chunks()[item_key(self.spec_data()[i].chunk)] == i
    }

    /// The entity of the entry of a chunk, if there is one.
    pub open spec fn spec_entity_of(&self, c: ChunkPos) -> Option<EntityId> {
        match self.spec_index(ChunkPermitKey::Chunk(c)) {
            Some(i) => Some(self.spec_data()[i as int].entity),
            None => None,
        }
    }

    /// The chunk of the entry of an entity, if there is one.
    pub open spec fn spec_chunk_of(&self, e: EntityId) -> Option<ChunkPos> {
        match self.spec_index(ChunkPermitKey::Entity(e)) {
            Some(i) => Some(self.spec_data()[i as int].chunk),
            None => None,
        }
    }

    /// The index of the entry found by a key, if any.
    pub open spec fn spec_index(&self, key: ChunkPermitKey) -> Option<usize> {
        match key {
            ChunkPermitKey::Chunk(c) => if self.spec_chunks().contains_key(item_key(c)) {
                Some(self.spec_chunks()[item_key(c)])
            } else {
                None
            },
            ChunkPermitKey::Entity(e) => if self.spec_entities().contains_key(e.0) {
                Some(self.spec_entities()[e.0])
            } else {
                None
            },
        }
    }

    /// No entries.
    pub fn new() -> (r: ChunkEcsPermits)
        ensures
            r.wf(),
            r.one_to_one(),
            r.spec_data().len() == 0,
            r.spec_entities() == Map::<u64, usize>::empty(),
            r.spec_chunks() == Map::<u128, usize>::empty(),
    {
        ChunkEcsPermits { entity_keys: HashMap::new(), chunk_keys: HashMap::new(), data: Vec::new() }
    }

    fn get_idx(&self, key: ChunkPermitKey) -> (r: Option<usize>)
        ensures
            r == self.spec_index(key),
    {
        match key {
            ChunkPermitKey::Chunk(cpos) => match self.chunk_keys.get(&item_key_of(cpos)) {
                Some(i) => Some(*i),
                None => None,
            },
            ChunkPermitKey::Entity(entity) => match self.entity_keys.get(&entity.0) {
                Some(i) => Some(*i),
                None => None,
            },
        }
    }

    /// Add an entry for a chunk and its entity. Both keys then lead to the new entry.
    pub fn insert(&mut self, entity: EntityId, chunk: ChunkPos, permit: Permit)
        requires
            old(self).wf(),
            old(self).spec_data().len() < usize::MAX,
        ensures
            final(self).wf(),
            final(self).spec_data() == old(self).spec_data().push(Entry { entity, chunk, permit }),
            final(self).spec_entities() == old(self).spec_entities().insert(entity.0, old(self).spec_data().len() as usize),
            final(self).spec_chunks() == old(self).spec_chunks().insert(item_key(chunk), old(self).spec_data().len() as usize),
            old(self).one_to_one() && old(self).spec_entity_of(chunk) is None && old(self).spec_chunk_of(entity) is None
                ==> final(self).one_to_one(),
    {
        let ghost before = *self;
        let idx = self.data.len();
        self.data.push(Entry { entity, chunk, permit });
        let _ = self.entity_keys.insert(entity.0, idx);
        let _ = self.chunk_keys.insert(item_key_of(chunk), idx);
        proof {
            assert forall|c: ChunkPos| #[trigger] self.spec_chunks().contains_key(item_key(c)) implies self.spec_chunks()[item_key(c)]
                < self.spec_data().len() && self.spec_data()[self.spec_chunks()[item_key(c)] as int].chunk == c by {
                lemma_item_key_injective(c, chunk);
                if c != chunk {
                    assert(before.spec_chunks().contains_key(item_key(c)));
                }
            }
            assert forall|e: u64| #[trigger] self.spec_entities().contains_key(e) implies self.spec_entities()[e] < self.spec_data().len()
                && self.spec_data()[self.spec_entities()[e] as int].entity.0 == e by {
                if e != entity.0 {
                    assert(before.spec_entities().contains_key(e));
                }
            }
            if before.one_to_one() && before.spec_entity_of(chunk) is None && before.spec_chunk_of(entity) is None {
                let n = before.spec_data().len();
                assert forall|i: int| 0 <= i < self.spec_data().len() implies self.spec_entities().contains_key(
                    #[trigger] self.spec_data()[i].entity.0,
                ) && self.spec_entities()[self.spec_data()[i].entity.0] == i && self.spec_chunks().contains_key(
                    item_key(self.spec_data()[i].chunk),
                ) && self.spec_chunks()[item_key(self.spec_data()[i].chunk)] == i by {
                    if i < n {
                        let d = before.spec_data()[i];
                        assert(self.spec_data()[i] == d);
                        assert(before.spec_entities().contains_key(d.entity.0));
                        assert(before.spec_chunks().contains_key(item_key(d.chunk)));
                        lemma_item_key_injective(d.chunk, chunk);
                    }
                }
            }
        }
    }

    /// Remove the entry found by a key, returning it. The last entry takes its place, and the
    /// keys of that moved entry are pointed at its new place.
    pub fn remove(&mut self, key: ChunkPermitKey) -> (r: Option<Entry>)
        requires
            old(self).wf(),
        ensures
            final(self).wf(),
            old(self).one_to_one() ==> final(self).one_to_one(),
            old(self).one_to_one() && r is Some ==> final(self).spec_entity_of(r->Some_0.chunk) is None
                && final(self).spec_chunk_of(r->Some_0.entity) is None,
            old(self).spec_index(key) is None ==> r is None && final(self).spec_data() == old(self).spec_data()
                && final(self).spec_entities() == old(self).spec_entities() && final(self).spec_chunks() == old(self).spec_chunks(),
            old(self).spec_index(key) matches Some(idx) ==> ({
                let removed = old(self).spec_data()[idx as int];
                let moved = old(self).spec_data().last();
                let ents = old(self).spec_entities().remove(removed.entity.0);
                let chunks = old(self).spec_chunks().remove(item_key(removed.chunk));
                &&& r == Some(removed)
                &&& final(self).spec_data() == swap_removed(old(self).spec_data(), idx as int)
                &&& final(self).spec_entities() == (if idx < old(self).spec_data().len() - 1 {
                    ents.insert(moved.entity.0, idx)
                } else {
                    ents
                })
                &&& final(self).spec_chunks() == (if idx < old(self).spec_data().len() - 1 {
                    chunks.insert(item_key(moved.chunk), idx)
                } else {
                    chunks
                })
            }),
    {
        let idx = match self.get_idx(key) {
            Some(i) => i,
            None => return None,
        };
        let ghost before = *self;
        proof {
            match key {
                ChunkPermitKey::Chunk(c) => {
                    assert(before.spec_chunks().contains_key(item_key(c)));
                },
                ChunkPermitKey::Entity(e) => {
                    assert(before.spec_entities().contains_key(e.0));
                },
            }
        }
        let removed_entry = self.data.swap_remove(idx);
        let _ = self.chunk_keys.remove(&item_key_of(removed_entry.chunk));
        let _ = self.entity_keys.remove(&removed_entry.entity.0);
        if idx < self.data.len() {
            let swapped_chunk = self.data[idx].chunk;
            let swapped_entity = self.data[idx].entity;
            let _ = self.chunk_keys.insert(item_key_of(swapped_chunk), idx);
            let _ = self.entity_keys.insert(swapped_entity.0, idx);
        }
        proof {
            let n = before.spec_data().len();
            assert(self.spec_data() =~= swap_removed(before.spec_data(), idx as int));
            let removed = before.spec_data()[idx as int];
            let moved = before.spec_data().last();
            assert forall|e: u64| #[trigger] self.spec_entities().contains_key(e) implies self.spec_entities()[e] < self.spec_data().len()
                && self.spec_data()[self.spec_entities()[e] as int].entity.0 == e by {
                if idx < n - 1 && e == moved.entity.0 {
                } else {
                    assert(before.spec_entities().contains_key(e));
                    let j = before.spec_entities()[e];
                    if j == n - 1 {
                        assert(before.spec_data()[j as int].entity.0 == e);
                    }
                }
            }
            assert forall|c: ChunkPos| #[trigger] self.spec_chunks().contains_key(item_key(c)) implies self.spec_chunks()[item_key(c)]
                < self.spec_data().len() && self.spec_data()[self.spec_chunks()[item_key(c)] as int].chunk == c by {
                lemma_item_key_injective(c, moved.chunk);
                lemma_item_key_injective(c, removed.chunk);
                if idx < n - 1 && c == moved.chunk {
                } else {
                    assert(before.spec_chunks().contains_key(item_key(c)));
                    let j = before.spec_chunks()[item_key(c)];
                    if j == n - 1 {
                        assert(before.spec_data()[j as int].chunk == c);
                    }
                }
            }
            if before.one_to_one() {
                assert forall|i: int| 0 <= i < self.spec_data().len() implies self.spec_entities().contains_key(
                    #[trigger] self.spec_data()[i].entity.0,
                ) && self.spec_entities()[self.spec_data()[i].entity.0] == i && self.spec_chunks().contains_key(
                    item_key(self.spec_data()[i].chunk),
                ) && self.spec_chunks()[item_key(self.spec_data()[i].chunk)] == i by {
                    if i == idx {
                        assert(self.spec_data()[i] == moved);
                    } else {
                        let d = before.spec_data()[i];
                        assert(self.spec_data()[i] == d);
                        assert(before.spec_entities()[d.entity.0] == i);
                        assert(before.spec_chunks()[item_key(d.chunk)] == i);
                        assert(before.spec_entities()[removed.entity.0] == idx);
                        assert(before.spec_chunks()[item_key(removed.chunk)] == idx);
                        assert(before.spec_entities()[moved.entity.0] == n - 1);
                        assert(before.spec_chunks()[item_key(moved.chunk)] == n - 1);
                        lemma_item_key_injective(d.chunk, removed.chunk);
                        lemma_item_key_injective(d.chunk, moved.chunk);
                    }
                }
                if idx < n - 1 {
                    assert(before.spec_entities()[removed.entity.0] == idx);
                    assert(before.spec_chunks()[item_key(removed.chunk)] == idx);
                    assert(before.spec_entities()[moved.entity.0] == n - 1);
                    assert(before.spec_chunks()[item_key(moved.chunk)] == n - 1);
                }
                assert(!self.spec_chunks().contains_key(item_key(removed.chunk)));
                assert(!self.spec_entities().contains_key(removed.entity.0));
            }
        }
        Some(removed_entry)
    }

    /// The entity of the entry of a chunk, if there is one.
    pub fn get_entity(&self, key: ChunkPos) -> (r: Option<EntityId>)
        requires
            self.wf(),
        ensures
            r == (match self.spec_index(ChunkPermitKey::Chunk(key)) {
                Some(i) => Some(self.spec_data()[i as int].entity),
                None => None,
            }),
    {
        match self.get_idx(ChunkPermitKey::Chunk(key)) {
            Some(idx) => {
                proof {
                    assert(self.spec_chunks().contains_key(item_key(key)));
                }
                Some(self.data[idx].entity)
            },
            None => None,
        }
    }

    /// The chunk of the entry of an entity, if there is one.
    pub fn get_chunk_pos(&self, key: EntityId) -> (r: Option<ChunkPos>)
        requires
            self.wf(),
        ensures
            r == (match self.spec_index(ChunkPermitKey::Entity(key)) {
                Some(i) => Some(self.spec_data()[i as int].chunk),
                None => None,
            }),
    {
        match self.get_idx(ChunkPermitKey::Entity(key)) {
            Some(idx) => {
                proof {
                    assert(self.spec_entities().contains_key(key.0));
                }
                Some(self.data[idx].chunk)
            },
            None => None,
        }
    }

    /// The permit of the entry found by a key, if there is one.
    pub fn get(&self, key: ChunkPermitKey) -> (r: Option<&Permit>)
        requires
            self.wf(),
        ensures
            r == (match self.spec_index(key) {
                Some(i) => Some(&self.spec_data()[i as int].permit),
                None => None,
            }),
    {
        match self.get_idx(key) {
            Some(idx) => {
                proof {
                    match key {
                        ChunkPermitKey::Chunk(c) => {
                            assert(self.spec_chunks().contains_key(item_key(c)));
                        },
                        ChunkPermitKey::Entity(e) => {
                            assert(self.spec_entities().contains_key(e.0));
                        },
                    }
                }
                Some(&self.data[idx].permit)
            },
            None => None,
        }
    }

    /// The number of entries.
    pub fn len(&self) -> (r: usize)
        ensures
            r == self.spec_data().len(),
    {
        self.data.len()
    }

    /// The entries an iteration over the permits visits: every entry but the first, in order
    /// (the iteration advances before reading).
    pub fn iter(&self) -> (r: Vec<&Entry>)
        ensures
            self.spec_data().len() == 0 ==> r@.len() == 0,
            self.spec_data().len() > 0 ==> r@.len() == self.spec_data().len() - 1,
            forall|i: int| 0 <= i < r@.len() ==> *#[trigger] r@[i] == self.spec_data()[i + 1],
    {
        let mut out: Vec<&Entry> = Vec::new();
        let n = self.data.len();
        // The iteration advances first, so the entry at index 0 is never visited.
        let mut current_idx: usize = 1;
        while current_idx < n
            invariant
                n == self.data@.len(),
                1 <= current_idx,
                (n == 0 && current_idx == 1) || current_idx <= n,
                out@.len() == current_idx - 1,
                forall|i: int| 0 <= i < out@.len() ==> *#[trigger] out@[i] == self.data@[i + 1],
            decreases n - current_idx,
        {
            out.push(&self.data[current_idx]);
            current_idx = current_idx + 1;
        }
        assert(n == 0 || current_idx == n);
        out
    }
}

/// In a one-to-one permit set, a chunk leads to an entity exactly when that entity leads back
/// to the chunk.
pub proof fn lemma_one_to_one_lookup(permits: ChunkEcsPermits, chunk: ChunkPos, entity: EntityId)
    requires
        permits.one_to_one(),
    ensures
        permits.spec_entity_of(chunk) == Some(entity) <==> permits.spec_chunk_of(entity) == Some(chunk),
{
    if permits.spec_entity_of(chunk) == Some(entity) {
        let i = permits.spec_chunks()[item_key(chunk)];
        assert(permits.spec_chunks().contains_key(item_key(chunk)));
        let d = permits.spec_data()[i as int];
        assert(permits.spec_entities().contains_key(d.entity.0));
    }
    if permits.spec_chunk_of(entity) == Some(chunk) {
        let j = permits.spec_entities()[entity.0];
        assert(permits.spec_entities().contains_key(entity.0));
        let d = permits.spec_data()[j as int];
        assert(permits.spec_chunks().contains_key(item_key(d.chunk)));
    }
}

/// After an insertion, both keys of the new entry lead to it.
pub proof fn lemma_insert_then_lookup(permits: ChunkEcsPermits, after: ChunkEcsPermits, entity: EntityId, chunk: ChunkPos, permit: Permit)
    requires
        after.spec_data() == permits.spec_data().push(Entry { entity, chunk, permit }),
        after.spec_entities() == permits.spec_entities().insert(entity.0, permits.spec_data().len() as usize),
        after.spec_chunks() == permits.spec_chunks().insert(item_key(chunk), permits.spec_data().len() as usize),
        permits.spec_data().len() < usize::MAX,
    ensures
        after.spec_index(ChunkPermitKey::Chunk(chunk)) == Some(permits.spec_data().len() as usize),
        after.spec_index(ChunkPermitKey::Entity(entity)) == Some(permits.spec_data().len() as usize),
        after.spec_data()[permits.spec_data().len() as int] == (Entry { entity, chunk, permit }),
{
}

} // verus!
