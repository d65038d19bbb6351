//! Chunk batches: sets of chunks that an observer owns, each with flags of what its chunks are
//! for, and the cache of which batches each chunk is in.
use vstd::prelude::*;
use std::collections::{HashMap, HashSet};
use crate::bounding_box::ChunkPos;
use crate::jobs::{item_key, item_key_of, lemma_item_key_injective};
use crate::permits::EntityId;
use vstd::std_specs::iter::IteratorSpec;

verus! {

broadcast use vstd::std_specs::hash::group_hash_axioms;

/// Flags of what the chunks of a batch are for: rendering and collision.
#[derive(Copy, Clone, Debug, PartialEq, Eq, Hash, Structural)]
pub struct BatchFlags(pub u16);

impl BatchFlags {
    /// The flag of batches whose chunks are rendered.
    pub fn render() -> (r: BatchFlags)
        ensures
            r.0 == 1,
    {
        BatchFlags(1)
    }

    /// The flag of batches whose chunks take part in collisions.
    pub fn collision() -> (r: BatchFlags)
        ensures
            r.0 == 2,
    {
        BatchFlags(2)
    }

    /// No flag set.
    pub fn empty() -> (r: BatchFlags)
        ensures
            r.0 == 0,
    {
        BatchFlags(0)
    }

    /// The flags set in either.
    pub fn union(self, other: BatchFlags) -> (r: BatchFlags)
        ensures
            r.0 == self.0 | other.0,
    {
        BatchFlags(self.0 | other.0)
    }

    /// `true` if every flag of `other` is set in `self`.
    pub fn contains(self, other: BatchFlags) -> (r: bool)
        ensures
            r == (self.0 & other.0 == other.0),
    {
        self.0 & other.0 == other.0
    }

    /// The names of the flags that are set, in the order `RENDER`, `COLLISION`.
    pub fn names(self) -> (r: Vec<&'static str>)
        ensures
            r@.len() == (if self.0 & 1 == 1 { 1int } else { 0int }) + (if self.0 & 2 == 2 { 1int } else { 0int }),
            self.0 & 1 == 1 ==> r@[0]@ == "RENDER"@,
            self.0 & 2 == 2 ==> r@.last()@ == "COLLISION"@,
    {
        let mut out: Vec<&'static str> = Vec::new();
        if self.0 & 1 == 1 {
            out.push("RENDER");
        }
        if self.0 & 2 == 2 {
            out.push("COLLISION");
        }
        out
    }
}

/// The union of the bits of every set of flags in a sequence.
pub open spec fn batch_flags_union(s: Seq<BatchFlags>) -> u16
    decreases s.len(),
{
    if s.len() == 0 {
        0
    } else {
        batch_flags_union(s.drop_last()) | s.last().0
    }
}

/// The batches a chunk is in, by entity bits, and the union of their flags as last computed.
pub(crate) struct BatchedChunk {
    pub(crate) in_batches: HashSet<u64>,
    pub(crate) cached_flags: BatchFlags,
}

impl BatchedChunk {
    /// A chunk in the given batches, with the given cached flags.
    pub(crate) fn new(batches: &[EntityId], flags: BatchFlags) -> (r: BatchedChunk)
        ensures
            r.in_batches@ == batches@.map_values(|e: EntityId| e.0).to_set(),
            r.cached_flags == flags,
    {
        let mut in_batches: HashSet<u64> = HashSet::new();
        let mut i: usize = 0;
        while i < batches.len()
            invariant
                0 <= i <= batches@.len(),
                in_batches@ == batches@.subrange(0, i as int).map_values(|e: EntityId| e.0).to_set(),
            decreases batches@.len() - i,
        {
            let _ = in_batches.insert(batches[i].0);
            proof {
                let before = batches@.subrange(0, i as int).map_values(|e: EntityId| e.0);
                let after = batches@.subrange(0, i + 1).map_values(|e: EntityId| e.0);
                assert(after =~= before.push(batches@[i as int].0));
                before.lemma_push_to_set_commute(batches@[i as int].0);
            }
            i = i + 1;
        }
        proof {
            assert(batches@.subrange(0, batches@.len() as int) =~= batches@);
        }
        BatchedChunk { in_batches, cached_flags: flags }
    }
}

/// Which batches each chunk is in, and the union of their flags as last computed. A chunk that
/// is in no batch has no entry.
pub struct CachedBatchMembership {
    chunks: HashMap<u128, BatchedChunk>,
}

impl CachedBatchMembership {
    /// The entries, by [`item_key`] of their chunk.
    closed spec fn spec_entries(&self) -> Map<u128, BatchedChunk> {
        self.chunks@
    }

    /// Each chunk that has an entry, with the batches it is in (by entity bits) and its cached
    /// flags.
    pub closed spec fn view(&self) -> Map<ChunkPos, (Set<u64>, BatchFlags)> {
        Map::new(
            |c: ChunkPos| self.spec_entries().contains_key(item_key(c)),
            |c: ChunkPos|
                (self.spec_entries()[item_key(c)].in_batches@, self.spec_entries()[item_key(c)].cached_flags),
        )
    }

    /// Every chunk that has an entry is in some batch.
    pub open spec fn wf(&self) -> bool {
        forall|c: ChunkPos| #[trigger] self@.contains_key(c) ==> !self@[c].0.is_empty()
    }

    /// No entries.
    pub fn new() -> (r: CachedBatchMembership)
        ensures
            r.wf(),
            r@ == Map::<ChunkPos, (Set<u64>, BatchFlags)>::empty(),
    {
        let r = CachedBatchMembership { chunks: HashMap::new() };
        assert(r@ =~= Map::<ChunkPos, (Set<u64>, BatchFlags)>::empty());
        r
    }

    /// Record that a chunk is in a batch. This clears the chunk's cached flags: they must be
    /// rebuilt (see [`update_cached_chunk_flags`]).
    pub fn add(&mut self, chunk: ChunkPos, batch: EntityId)
        requires
            old(self).wf(),
        ensures
            final(self).wf(),
            final(self)@ == old(self)@.insert(
                chunk,
                (
                    (if old(self)@.contains_key(chunk) {
                        old(self)@[chunk].0
                    } else {
                        Set::<u64>::empty()
                    }).insert(batch.0),
                    BatchFlags(0),
                ),
            ),
    {
        let ghost before = *self;
        let key = item_key_of(chunk);
        match self.chunks.remove(&key) {
            Some(mut batched) => {
                proof {
                    assert(before.spec_entries().contains_key(key));
                    assert(batched == before.spec_entries()[key]);
                }
                let _ = batched.in_batches.insert(batch.0);
                batched.cached_flags = BatchFlags::empty();
                let _ = self.chunks.insert(key, batched);
                proof {
                    assert(before@.contains_key(chunk));
                    assert(self.spec_entries()[key].in_batches@ == before@[chunk].0.insert(batch.0));
                }
            },
            None => {
                let only = [batch];
                let batched = BatchedChunk::new(&only, BatchFlags::empty());
                proof {
                    let s = only@.map_values(|e: EntityId| e.0);
                    assert(s.len() == 1);
                    assert(s[0] == batch.0);
                    assert(s.to_set() =~= Set::<u64>::empty().insert(batch.0));
                    assert(!before@.contains_key(chunk));
                }
                let _ = self.chunks.insert(key, batched);
            },
        }
        proof {
            assert forall|c: ChunkPos| c != chunk implies item_key(c) != key by {
                lemma_item_key_injective(c, chunk);
            }
            assert(self@ =~= before@.insert(
                chunk,
                (
                    (if before@.contains_key(chunk) {
                        before@[chunk].0
                    } else {
                        Set::<u64>::empty()
                    }).insert(batch.0),
                    BatchFlags(0),
                ),
            ));
            assert forall|c: ChunkPos| #[trigger] self@.contains_key(c) implies !self@[c].0.is_empty() by {
                if c == chunk {
                    assert(self@[c].0.contains(batch.0));
                } else {
                    assert(before@.contains_key(c));
                }
            }
        }
    }

    /// Record that a chunk is no longer in a batch; a chunk left in no batch loses its entry.
    /// This clears the chunk's cached flags: they must be rebuilt (see
    /// [`update_cached_chunk_flags`]).
    pub fn remove(&mut self, chunk: ChunkPos, batch: EntityId)
        requires
            old(self).wf(),
        ensures
            final(self).wf(),
            !old(self)@.contains_key(chunk) ==> final(self)@ == old(self)@,
            old(self)@.contains_key(chunk) ==> ({
                let rest = old(self)@[chunk].0.remove(batch.0);
                final(self)@ == if rest.is_empty() {
                    old(self)@.remove(chunk)
                } else {
                    old(self)@.insert(chunk, (rest, BatchFlags(0)))
                }
            }),
    {
        let ghost before = *self;
        let key = item_key_of(chunk);
        proof {
            assert forall|c: ChunkPos| c != chunk implies item_key(c) != key by {
                lemma_item_key_injective(c, chunk);
            }
        }
        match self.chunks.remove(&key) {
            Some(mut batched) => {
                let _ = batched.in_batches.remove(&batch.0);
                batched.cached_flags = BatchFlags::empty();
                if !batched.in_batches.is_empty() {
                    let _ = self.chunks.insert(key, batched);
                    proof {
                        assert(self@ =~= before@.insert(chunk, (before@[chunk].0.remove(batch.0), BatchFlags(0))));
                    }
                } else {
                    proof {
                        assert(self@ =~= before@.remove(chunk));
                    }
                }
            },
            None => {
                proof {
                    assert(self@ =~= before@);
                }
            },
        }
        proof {
            assert forall|c: ChunkPos| #[trigger] self@.contains_key(c) implies !self@[c].0.is_empty() by {
                if c != chunk {
                    assert(before@.contains_key(c));
                }
            }
        }
    }

    /// The batches a chunk is in (by entity bits), or `None` if it is in none.
    pub fn get(&self, chunk: ChunkPos) -> (r: Option<&HashSet<u64>>)
        ensures
            match r {
                Some(s) => self@.contains_key(chunk) && s@ == self@[chunk].0,
                None => !self@.contains_key(chunk),
            },
    {
        match self.chunks.get(&item_key_of(chunk)) {
            Some(batched) => Some(&batched.in_batches),
            None => None,
        }
    }

    /// `true` if the chunk is in some batch and its cached flags hold every flag of `flags`.
    pub fn has_flags(&self, chunk: ChunkPos, flags: BatchFlags) -> (r: bool)
        ensures
            r == (self@.contains_key(chunk) && self@[chunk].1.0 & flags.0 == flags.0),
    {
        match self.chunks.get(&item_key_of(chunk)) {
            Some(batched) => batched.cached_flags.contains(flags),
            None => false,
        }
    }

    /// Set the cached flags of a chunk that is in some batch; other chunks are left alone.
    fn set_cached_flags(&mut self, chunk: ChunkPos, flags: BatchFlags)
        requires
            old(self).wf(),
        ensures
            final(self).wf(),
            final(self)@ == if old(self)@.contains_key(chunk) {
                old(self)@.insert(chunk, (old(self)@[chunk].0, flags))
            } else {
                old(self)@
            },
    {
        let ghost before = *self;
        let key = item_key_of(chunk);
        proof {
            assert forall|c: ChunkPos| c != chunk implies item_key(c) != key by {
                lemma_item_key_injective(c, chunk);
            }
        }
        match self.chunks.remove(&key) {
            Some(mut batched) => {
                batched.cached_flags = flags;
                let _ = self.chunks.insert(key, batched);
                proof {
                    assert(self@ =~= before@.insert(chunk, (before@[chunk].0, flags)));
                }
            },
            None => {
                proof {
                    assert(self@ =~= before@);
                }
            },
        }
        proof {
            assert forall|c: ChunkPos| #[trigger] self@.contains_key(c) implies !self@[c].0.is_empty() by {
                assert(before@.contains_key(c));
            }
        }
    }
}

/// The membership after recording that `chunks` are in batch `e`: each of those chunks is in
/// `e` as well, with its cached flags cleared; other chunks keep their entries.
pub open spec fn membership_after_add(
    m: Map<ChunkPos, (Set<u64>, BatchFlags)>,
    chunks: Set<ChunkPos>,
    e: u64,
) -> Map<ChunkPos, (Set<u64>, BatchFlags)> {
    Map::new(
        |c: ChunkPos| m.contains_key(c) || chunks.contains(c),
        |c: ChunkPos|
            if chunks.contains(c) {
                (
                    (if m.contains_key(c) {
                        m[c].0
                    } else {
                        Set::<u64>::empty()
                    }).insert(e),
                    BatchFlags(0),
                )
            } else {
                m[c]
            },
    )
}

/// The membership after recording that `chunks` are no longer in batch `e`: each of those
/// chunks that has an entry loses `e` and its cached flags, and loses its entry if it is then
/// in no batch; other chunks keep their entries.
pub open spec fn membership_after_remove(
    m: Map<ChunkPos, (Set<u64>, BatchFlags)>,
    chunks: Set<ChunkPos>,
    e: u64,
) -> Map<ChunkPos, (Set<u64>, BatchFlags)> {
    Map::new(
        |c: ChunkPos| m.contains_key(c) && !(chunks.contains(c) && m[c].0.remove(e).is_empty()),
        |c: ChunkPos|
            if chunks.contains(c) {
                (m[c].0.remove(e), BatchFlags(0))
            } else {
                m[c]
            },
    )
}

/// The chunks of batch `e` among `batches`, none if it is not there.
pub open spec fn chunks_of(batches: Map<u64, Set<ChunkPos>>, e: u64) -> Set<ChunkPos> {
    if batches.contains_key(e) {
        batches[e]
    } else {
        Set::empty()
    }
}

/// `membership` records exactly which of `batches` (by entity bits) each chunk is in: a
/// chunk's entry holds a batch if and only if that batch holds the chunk, and every entry holds
/// some batch.
pub open spec fn records_batches(
    batches: Map<u64, Set<ChunkPos>>,
    membership: Map<ChunkPos, (Set<u64>, BatchFlags)>,
) -> bool {
    &&& forall|c: ChunkPos, b: u64|
        #![trigger membership[c].0.contains(b)]
        #![trigger batches[b].contains(c)]
        (membership.contains_key(c) && membership[c].0.contains(b)) == (batches.contains_key(b) && batches[b].contains(c))
    &&& forall|c: ChunkPos| #[trigger] membership.contains_key(c) ==> !membership[c].0.is_empty()
}

/// Adding chunks to a batch and recording them in the membership keeps the membership an
/// exact record of which batches each chunk is in.
pub proof fn lemma_adding_chunks_keeps_record(
    batches: Map<u64, Set<ChunkPos>>,
    membership: Map<ChunkPos, (Set<u64>, BatchFlags)>,
    e: u64,
    chunks: Set<ChunkPos>,
)
    requires
        records_batches(batches, membership),
    ensures
        records_batches(
            batches.insert(e, chunks_of(batches, e).union(chunks)),
            membership_after_add(membership, chunks, e),
        ),
{
    let b2 = batches.insert(e, chunks_of(batches, e).union(chunks));
    let m2 = membership_after_add(membership, chunks, e);
    assert forall|c: ChunkPos, b: u64| (m2.contains_key(c) && #[trigger] m2[c].0.contains(b)) == (b2.contains_key(b)
        && #[trigger] b2[b].contains(c)) by {
        if b != e {
            assert(b2.contains_key(b) == batches.contains_key(b));
            if batches.contains_key(b) && batches[b].contains(c) {
                assert(membership[c].0.contains(b));
            }
            if membership.contains_key(c) && membership[c].0.contains(b) {
                assert(batches[b].contains(c));
            }
        } else {
            if batches.contains_key(e) && batches[e].contains(c) {
                assert(membership[c].0.contains(e));
            }
            if membership.contains_key(c) && membership[c].0.contains(e) {
                assert(batches[e].contains(c));
            }
        }
    }
    assert forall|c: ChunkPos| #[trigger] m2.contains_key(c) implies !m2[c].0.is_empty() by {
        if chunks.contains(c) {
            assert(m2[c].0.contains(e));
        }
    }
}

/// Removing chunks from a batch and recording it in the membership keeps the membership an
/// exact record of which batches each chunk is in.
pub proof fn lemma_removing_chunks_keeps_record(
    batches: Map<u64, Set<ChunkPos>>,
    membership: Map<ChunkPos, (Set<u64>, BatchFlags)>,
    e: u64,
    chunks: Set<ChunkPos>,
)
    requires
        records_batches(batches, membership),
    ensures
        records_batches(
            batches.insert(e, chunks_of(batches, e).difference(chunks)),
            membership_after_remove(membership, chunks, e),
        ),
{
    let b2 = batches.insert(e, chunks_of(batches, e).difference(chunks));
    let m2 = membership_after_remove(membership, chunks, e);
    assert forall|c: ChunkPos, b: u64| (m2.contains_key(c) && #[trigger] m2[c].0.contains(b)) == (b2.contains_key(b)
        && #[trigger] b2[b].contains(c)) by {
        if membership.contains_key(c) && chunks.contains(c) && membership[c].0.remove(e).is_empty() {
            assert(!membership[c].0.remove(e).contains(b));
            if b != e && batches.contains_key(b) && batches[b].contains(c) {
                assert(membership[c].0.contains(b));
            }
        } else if b != e {
            assert(b2.contains_key(b) == batches.contains_key(b));
            if batches.contains_key(b) && batches[b].contains(c) {
                assert(membership[c].0.contains(b));
            }
            if membership.contains_key(c) && membership[c].0.contains(b) {
                assert(batches[b].contains(c));
            }
        } else {
            if batches.contains_key(e) && batches[e].contains(c) {
                assert(membership[c].0.contains(e));
            }
            if membership.contains_key(c) && membership[c].0.contains(e) {
                assert(batches[e].contains(c));
            }
        }
    }
    assert forall|c: ChunkPos| #[trigger] m2.contains_key(c) implies !m2[c].0.is_empty() by {
        if chunks.contains(c) {
            assert(!membership[c].0.remove(e).is_empty());
        }
    }
}

/// `flags` is the union of the flags of the batches in `batches`, as `batch_flags` gave them:
/// the batches, taken one at a time in some order, gave flags whose union it is.
pub open spec fn flags_of_batches<F: Fn(EntityId) -> BatchFlags>(batch_flags: F, batches: Set<u64>, flags: BatchFlags) -> bool {
    exists|order: Seq<u64>, given: Seq<BatchFlags>|
        #![trigger order.to_set(), batch_flags_union(given)]
        {
            &&& order.no_duplicates()
            &&& order.to_set() == batches
            &&& given.len() == order.len()
            &&& forall|i: int| 0 <= i < order.len() ==> call_ensures(batch_flags, (EntityId(order[i]),), #[trigger] given[i])
            &&& flags.0 == batch_flags_union(given)
        }
}

/// A batch of chunks, owned by an observer entity, with flags of what its chunks are for and
/// the tick it was last changed at.
pub struct ChunkBatch {
    owner: EntityId,
    flags: BatchFlags,
    chunks: HashMap<u128, ChunkPos>,
    tick: u64,
}

impl ChunkBatch {
    /// The chunks of the batch, by [`item_key`].
    closed spec fn spec_chunk_entries(&self) -> Map<u128, ChunkPos> {
        self.chunks@
    }

    /// The chunks of the batch.
    pub closed spec fn spec_chunks(&self) -> Set<ChunkPos> {
        Set::new(|c: ChunkPos| self.spec_chunk_entries().contains_key(item_key(c)))
    }

    pub closed spec fn spec_owner(&self) -> EntityId {
        self.owner
    }

    pub closed spec fn spec_flags(&self) -> BatchFlags {
        self.flags
    }

    pub closed spec fn spec_tick(&self) -> u64 {
        self.tick
    }

    /// Each chunk is stored under its own key.
    pub closed spec fn wf(&self) -> bool {
        forall|k: u128| #[trigger] self.spec_chunk_entries().contains_key(k) ==> item_key(self.spec_chunk_entries()[k]) == k
    }

    /// An empty batch owned by `owner`, at tick 0 (a placeholder until the batch is placed
    /// in the world).
    pub fn new(owner: EntityId, flags: BatchFlags) -> (r: ChunkBatch)
        ensures
            r.wf(),
            r.spec_owner() == owner,
            r.spec_flags() == flags,
            r.spec_tick() == 0,
            r.spec_chunks() == Set::<ChunkPos>::empty(),
    {
        let r = ChunkBatch { owner, flags, chunks: HashMap::new(), tick: 0 };
        assert(r.spec_chunks() =~= Set::<ChunkPos>::empty());
        r
    }

    /// The chunks are finite, and as many as their entries.
    proof fn lemma_chunks_len(&self)
        requires
            self.wf(),
        ensures
            self.spec_chunks().finite(),
            self.spec_chunks().len() == self.spec_chunk_entries().dom().len(),
    {
        let dom = self.spec_chunk_entries().dom();
        let f = |k: u128| self.spec_chunk_entries()[k];
        assert(dom.finite());
        assert(vstd::relations::injective_on(f, dom)) by {
            assert forall|a: u128, b: u128| dom.contains(a) && dom.contains(b) && #[trigger] f(a) == #[trigger] f(b) implies a == b by {
            }
        }
        assert(dom.map(f) =~= self.spec_chunks()) by {
            assert forall|c: ChunkPos| self.spec_chunks().contains(c) implies #[trigger] dom.map(f).contains(c) by {
                let k = item_key(c);
                assert(self.spec_chunk_entries().contains_key(k));
                lemma_item_key_injective(self.spec_chunk_entries()[k], c);
                assert(f(k) == c);
            }
        }
        vstd::set_lib::lemma_map_size(dom, self.spec_chunks(), f);
    }

    /// The number of chunks, truncated to 32 bits.
    pub fn num_chunks(&self) -> (r: u32)
        requires
            self.wf(),
        ensures
            r == self.spec_chunks().len() as u32,
    {
        proof {
            self.lemma_chunks_len();
        }
        self.chunks.len() as u32
    }

    /// The chunks of the batch, each once.
    pub fn chunks(&self) -> (r: Vec<ChunkPos>)
        requires
            self.wf(),
        ensures
            r@.no_duplicates(),
            r@.to_set() == self.spec_chunks(),
    {
        let mut out: Vec<ChunkPos> = Vec::new();
        let ghost keys = vstd::std_specs::hash::spec_keys_iter(&self.chunks).remaining();
        proof {
            assert(keys.unref().to_set() == self.spec_chunk_entries().dom());
            assert(keys.no_duplicates());
        }
        for k in it: self.chunks.keys()
            invariant
                self.wf(),
                it.seq() == keys,
                keys.unref().to_set() == self.spec_chunk_entries().dom(),
                keys.no_duplicates(),
                out@.len() == it.index(),
                forall|i: int| 0 <= i < it.index() ==> #[trigger] out@[i] == self.spec_chunk_entries()[*keys[i]],
        {
            proof {
                assert(keys.unref()[it.index()] == *keys[it.index()]);
                assert(keys.unref().to_set().contains(*keys[it.index()]));
            }
            let c = match self.chunks.get(k) {
                Some(c) => *c,
                None => ChunkPos::new(0, 0, 0),
            };
            out.push(c);
        }
        proof {
            let entries = self.spec_chunk_entries();
            assert forall|i: int| 0 <= i < keys.len() implies #[trigger] entries.contains_key(*keys[i]) by {
                assert(keys.unref()[i] == *keys[i]);
                assert(keys.unref().to_set().contains(*keys[i]));
            }
            assert forall|i: int, j: int| 0 <= i < out@.len() && 0 <= j < out@.len() && i != j implies out@[i] != out@[j] by {
                assert(entries.contains_key(*keys[i]));
                assert(entries.contains_key(*keys[j]));
                assert(keys[i] != keys[j]);
            }
            assert(out@.to_set() =~= self.spec_chunks()) by {
                assert forall|c: ChunkPos| self.spec_chunks().contains(c) implies out@.to_set().contains(c) by {
                    let k = item_key(c);
                    assert(keys.unref().to_set().contains(k));
                    let i = choose|i: int| 0 <= i < keys.unref().len() && keys.unref()[i] == k;
                    assert(*keys[i] == k);
                    lemma_item_key_injective(entries[k], c);
                    assert(out@[i] == c);
                }
                assert forall|c: ChunkPos| out@.to_set().contains(c) implies self.spec_chunks().contains(c) by {
                    let i = choose|i: int| 0 <= i < out@.len() && out@[i] == c;
                    assert(entries.contains_key(*keys[i]));
                }
            }
        }
        out
    }

    /// Add a chunk to the batch.
    fn insert_chunk(&mut self, chunk: ChunkPos)
        requires
            old(self).wf(),
        ensures
            final(self).wf(),
            final(self).spec_chunks() == old(self).spec_chunks().insert(chunk),
            final(self).spec_owner() == old(self).spec_owner(),
            final(self).spec_flags() == old(self).spec_flags(),
            final(self).spec_tick() == old(self).spec_tick(),
    {
        let ghost before = *self;
        let key = item_key_of(chunk);
        let _ = self.chunks.insert(key, chunk);
        proof {
            assert forall|c: ChunkPos| c != chunk implies item_key(c) != key by {
                lemma_item_key_injective(c, chunk);
            }
            assert(self.spec_chunks() =~= before.spec_chunks().insert(chunk));
        }
    }

    /// Remove a chunk from the batch.
    fn remove_chunk(&mut self, chunk: ChunkPos)
        requires
            old(self).wf(),
        ensures
            final(self).wf(),
            final(self).spec_chunks() == old(self).spec_chunks().remove(chunk),
            final(self).spec_owner() == old(self).spec_owner(),
            final(self).spec_flags() == old(self).spec_flags(),
            final(self).spec_tick() == old(self).spec_tick(),
    {
        let ghost before = *self;
        let key = item_key_of(chunk);
        let _ = self.chunks.remove(&key);
        proof {
            assert forall|c: ChunkPos| c != chunk implies item_key(c) != key by {
                lemma_item_key_injective(c, chunk);
            }
            assert(self.spec_chunks() =~= before.spec_chunks().remove(chunk));
        }
    }

    /// What the chunks of the batch are for.
    pub fn flags(&self) -> (r: BatchFlags)
        ensures
            r == self.spec_flags(),
    {
        self.flags
    }

    /// The tick the batch was last changed at.
    pub fn tick(&self) -> (r: u64)
        ensures
            r == self.spec_tick(),
    {
        self.tick
    }

    /// The observer entity that owns the batch.
    pub fn owner(&self) -> (r: EntityId)
        ensures
            r == self.spec_owner(),
    {
        self.owner
    }
}

/// Rebuild the cached flags of the given chunks: each chunk that is in some batch gets the
/// union of the flags of its batches, as `batch_flags` gives the flags of a batch; other
/// entries are left alone.
pub fn update_cached_chunk_flags<F: Fn(EntityId) -> BatchFlags>(
    membership: &mut CachedBatchMembership,
    chunks: &[ChunkPos],
    batch_flags: &F,
)
    requires
        old(membership).wf(),
        forall|e: EntityId| call_requires(*batch_flags, (e,)),
    ensures
        final(membership).wf(),
        final(membership)@.dom() == old(membership)@.dom(),
        forall|c: ChunkPos| #[trigger] old(membership)@.contains_key(c) ==> {
            &&& final(membership)@[c].0 == old(membership)@[c].0
            &&& !chunks@.contains(c) ==> final(membership)@[c].1 == old(membership)@[c].1
            &&& chunks@.contains(c) ==> flags_of_batches(*batch_flags, old(membership)@[c].0, final(membership)@[c].1)
        },
{
    let ghost m0 = membership@;
    let mut i: usize = 0;
    while i < chunks.len()
        invariant
            0 <= i <= chunks@.len(),
            membership.wf(),
            forall|e: EntityId| call_requires(*batch_flags, (e,)),
            membership@.dom() == m0.dom(),
            forall|c: ChunkPos| #[trigger] m0.contains_key(c) ==> {
                &&& membership@[c].0 == m0[c].0
                &&& !chunks@.subrange(0, i as int).contains(c) ==> membership@[c].1 == m0[c].1
                &&& chunks@.subrange(0, i as int).contains(c) ==> flags_of_batches(*batch_flags, m0[c].0, membership@[c].1)
            },
        decreases chunks@.len() - i,
    {
        let chunk = chunks[i];
        let rebuilt: Option<BatchFlags> = match membership.get(chunk) {
            None => None,
            Some(batches) => {
                let mut flags = BatchFlags::empty();
                let ghost order = vstd::std_specs::hash::spec_hash_keys_iter(batches).remaining().unref();
                let ghost mut given: Seq<BatchFlags> = Seq::empty();
                proof {
                    assert(order.to_set() == batches@);
                    assert(order.no_duplicates());
                }
                for b in it: batches.iter()
                    invariant
                        forall|e: EntityId| call_requires(*batch_flags, (e,)),
                        it.seq().unref() == order,
                        given.len() == it.index(),
                        forall|j: int| 0 <= j < it.index() ==> call_ensures(*batch_flags, (EntityId(order[j]),), #[trigger] given[j]),
                        flags.0 == batch_flags_union(given),
                {
                    let got = batch_flags(EntityId(*b));
                    proof {
                        assert(*b == order[it.index()]);
                        let before = given;
                        given = given.push(got);
                        assert(given.drop_last() =~= before);
                    }
                    flags = flags.union(got);
                }
                proof {
                    assert(flags_of_batches(*batch_flags, batches@, flags)) by {
                        assert(order.to_set() == batches@);
                        assert(batch_flags_union(given) == flags.0);
                    }
                }
                Some(flags)
            },
        };
        let ghost m_before = membership@;
        match rebuilt {
            Some(flags) => membership.set_cached_flags(chunk, flags),
            None => {},
        }
        proof {
            assert(chunks@.subrange(0, i + 1) =~= chunks@.subrange(0, i as int).push(chunk));
            assert forall|c: ChunkPos| #[trigger] m0.contains_key(c) implies {
                &&& membership@[c].0 == m0[c].0
                &&& !chunks@.subrange(0, i + 1).contains(c) ==> membership@[c].1 == m0[c].1
                &&& chunks@.subrange(0, i + 1).contains(c) ==> flags_of_batches(*batch_flags, m0[c].0, membership@[c].1)
            } by {
                if c != chunk {
                    if chunks@.subrange(0, i + 1).contains(c) {
                        let j = choose|j: int| 0 <= j < i + 1 && #[trigger] chunks@.subrange(0, i + 1)[j] == c;
                        assert(chunks@.subrange(0, i as int)[j] == c);
                    }
                } else {
                    assert(chunks@.subrange(0, i + 1)[i as int] == c);
                }
            }
        }
        i = i + 1;
    }
    proof {
        assert(chunks@.subrange(0, chunks@.len() as int) =~= chunks@);
    }
}

/// Add chunks to a batch (whose entity is `batch_entity`) at tick `tick`, and record in the
/// membership that they are in it. Nothing changes if `chunks` is empty. Returns `true` if
/// chunks were added: their cached flags are then cleared and must be rebuilt (see
/// [`update_cached_chunk_flags`]).
pub fn add_batch_chunks(
    batch: &mut ChunkBatch,
    batch_entity: EntityId,
    chunks: &[ChunkPos],
    tick: u64,
    membership: &mut CachedBatchMembership,
) -> (r: bool)
    requires
        old(batch).wf(),
        old(membership).wf(),
    ensures
        r == (chunks@.len() > 0),
        !r ==> *final(batch) == *old(batch) && *final(membership) == *old(membership),
        r ==> {
            &&& final(batch).wf()
            &&& final(membership).wf()
            &&& final(batch).spec_tick() == tick
            &&& final(batch).spec_owner() == old(batch).spec_owner()
            &&& final(batch).spec_flags() == old(batch).spec_flags()
            &&& final(batch).spec_chunks() == old(batch).spec_chunks().union(chunks@.to_set())
            &&& final(membership)@ == membership_after_add(old(membership)@, chunks@.to_set(), batch_entity.0)
        },
{
    if chunks.len() == 0 {
        return false;
    }
    batch.tick = tick;
    let ghost batch_start = *batch;
    proof {
        assert(batch.spec_chunk_entries() == old(batch).spec_chunk_entries());
    }
    let ghost m0 = membership@;
    let mut i: usize = 0;
    proof {
        assert(batch.spec_chunks().union(chunks@.subrange(0, 0).to_set()) =~= batch_start.spec_chunks());
        assert(membership_after_add(m0, chunks@.subrange(0, 0).to_set(), batch_entity.0) =~= m0);
    }
    while i < chunks.len()
        invariant
            0 <= i <= chunks@.len(),
            batch.wf(),
            membership.wf(),
            batch.spec_tick() == tick,
            batch.spec_owner() == batch_start.spec_owner(),
            batch.spec_flags() == batch_start.spec_flags(),
            batch.spec_chunks() == batch_start.spec_chunks().union(chunks@.subrange(0, i as int).to_set()),
            membership@ == membership_after_add(m0, chunks@.subrange(0, i as int).to_set(), batch_entity.0),
        decreases chunks@.len() - i,
    {
        let chunk = chunks[i];
        let ghost m_before = membership@;
        let ghost done = chunks@.subrange(0, i as int).to_set();
        membership.add(chunk, batch_entity);
        batch.insert_chunk(chunk);
        proof {
            let next = chunks@.subrange(0, i + 1);
            assert(next =~= chunks@.subrange(0, i as int).push(chunk));
            chunks@.subrange(0, i as int).lemma_push_to_set_commute(chunk);
            assert(next.to_set() == done.insert(chunk));
            assert(batch.spec_chunks() =~= batch_start.spec_chunks().union(next.to_set()));
            let after = membership_after_add(m0, next.to_set(), batch_entity.0);
            assert forall|c: ChunkPos| #[trigger] after.contains_key(c) implies membership@.contains_key(c) && membership@[c]
                == after[c] by {
                if c == chunk && done.contains(c) {
                    let prev = if m0.contains_key(c) { m0[c].0 } else { Set::<u64>::empty() };
                    assert(prev.insert(batch_entity.0).insert(batch_entity.0) =~= prev.insert(batch_entity.0));
                }
            }
            assert(membership@ =~= after);
        }
        i = i + 1;
    }
    proof {
        assert(chunks@.subrange(0, chunks@.len() as int) =~= chunks@);
    }
    true
}

/// Remove chunks from a batch (whose entity is `batch_entity`) at tick `tick`, and record in
/// the membership that they are no longer in it. Nothing changes if `chunks` is empty. Returns
/// `true` if chunks were removed: their cached flags are then cleared and must be rebuilt (see
/// [`update_cached_chunk_flags`]).
pub fn remove_batch_chunks(
    batch: &mut ChunkBatch,
    batch_entity: EntityId,
    chunks: &[ChunkPos],
    tick: u64,
    membership: &mut CachedBatchMembership,
) -> (r: bool)
    requires
        old(batch).wf(),
        old(membership).wf(),
    ensures
        r == (chunks@.len() > 0),
        !r ==> *final(batch) == *old(batch) && *final(membership) == *old(membership),
        r ==> {
            &&& final(batch).wf()
            &&& final(membership).wf()
            &&& final(batch).spec_tick() == tick
            &&& final(batch).spec_owner() == old(batch).spec_owner()
            &&& final(batch).spec_flags() == old(batch).spec_flags()
            &&& final(batch).spec_chunks() == old(batch).spec_chunks().difference(chunks@.to_set())
            &&& final(membership)@ == membership_after_remove(old(membership)@, chunks@.to_set(), batch_entity.0)
        },
{
    if chunks.len() == 0 {
        return false;
    }
    batch.tick = tick;
    let ghost batch_start = *batch;
    proof {
        assert(batch.spec_chunk_entries() == old(batch).spec_chunk_entries());
    }
    let ghost m0 = membership@;
    let mut i: usize = 0;
    proof {
        assert(batch.spec_chunks().difference(chunks@.subrange(0, 0).to_set()) =~= batch_start.spec_chunks());
        assert(membership_after_remove(m0, chunks@.subrange(0, 0).to_set(), batch_entity.0) =~= m0);
    }
    while i < chunks.len()
        invariant
            0 <= i <= chunks@.len(),
            batch.wf(),
            membership.wf(),
            batch.spec_tick() == tick,
            batch.spec_owner() == batch_start.spec_owner(),
            batch.spec_flags() == batch_start.spec_flags(),
            batch.spec_chunks() == batch_start.spec_chunks().difference(chunks@.subrange(0, i as int).to_set()),
            membership@ == membership_after_remove(m0, chunks@.subrange(0, i as int).to_set(), batch_entity.0),
        decreases chunks@.len() - i,
    {
        let chunk = chunks[i];
        let ghost done = chunks@.subrange(0, i as int).to_set();
        batch.remove_chunk(chunk);
        membership.remove(chunk, batch_entity);
        proof {
            let next = chunks@.subrange(0, i + 1);
            assert(next =~= chunks@.subrange(0, i as int).push(chunk));
            chunks@.subrange(0, i as int).lemma_push_to_set_commute(chunk);
            assert(next.to_set() == done.insert(chunk));
            assert(batch.spec_chunks() =~= batch_start.spec_chunks().difference(next.to_set()));
            let after = membership_after_remove(m0, next.to_set(), batch_entity.0);
            assert forall|c: ChunkPos| c == chunk && m0.contains_key(c) implies #[trigger] m0[c].0.remove(batch_entity.0).remove(
                batch_entity.0,
            ) =~= m0[c].0.remove(batch_entity.0) by {}
            assert(membership@ =~= after);
        }
        i = i + 1;
    }
    proof {
        assert(chunks@.subrange(0, chunks@.len() as int) =~= chunks@);
    }
    true
}

} // verus!
