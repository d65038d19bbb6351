//! Storage structures for per-voxel chunk data: dense, layered, hashmap-backed and indexed
//! (palette) storages. Every storage covers the positions of one chunk, `[0, 0, 0]..[16, 16, 16]`.
use vstd::prelude::*;
use crate::math::{IVec3, ivec3};
use crate::outside::{
    ValueIndexTable, value_index_table_new, value_index_table_insert,
    value_index_table_find, value_index_entries, hash_of, new_random_state,
};
use std::hash::{BuildHasher, Hash};
use std::collections::HashMap;
use vstd::laws_eq::obeys_concrete_eq;

verus! {

/// Error returned when a position or index is out of bounds.
#[derive(Copy, Clone, Debug, PartialEq, Eq, Structural)]
pub struct OutOfBounds;

/// Error returned when accessing voxel data of a chunk.
#[derive(Copy, Clone, Debug, PartialEq, Eq, Structural)]
pub enum ChunkAccessError {
    OutOfBounds,
    NotInitialized,
}

/// `pos` lies in the chunk, `[0, 0, 0]..[16, 16, 16]`.
pub open spec fn in_chunk(pos: IVec3) -> bool {
    &&& 0 <= pos.x < 16
    &&& 0 <= pos.y < 16
    &&& 0 <= pos.z < 16
}

/// The flattened index of a position in a chunk, with `x` the slowest and `z` the fastest axis.
pub open spec fn dense_index(x: int, y: int, z: int) -> int {
    x * 256 + y * 16 + z
}

pub open spec fn pos_index(pos: IVec3) -> int {
    dense_index(pos.x as int, pos.y as int, pos.z as int)
}

proof fn lemma_dense_index_bounds(x: int, y: int, z: int)
    requires
        0 <= x < 16,
        0 <= y < 16,
        0 <= z < 16,
    ensures
        0 <= dense_index(x, y, z) < 4096,
{
}

proof fn lemma_dense_index_injective(a: IVec3, b: IVec3)
    requires
        in_chunk(a),
        in_chunk(b),
        pos_index(a) == pos_index(b),
    ensures
        a == b,
{
}

/// Test if a position lies within a chunk.
pub fn chunk_contains(pos: IVec3) -> (r: bool)
    ensures
        r == in_chunk(pos),
{
    pos.x >= 0 && pos.y >= 0 && pos.z >= 0 && pos.x < 16 && pos.y < 16 && pos.z < 16
}

/// Convert a position to unsigned indices, failing if any component is negative.
pub fn try_ivec3_to_usize_arr(pos: IVec3) -> (r: Result<[usize; 3], OutOfBounds>)
    ensures
        r is Ok <==> (pos.x >= 0 && pos.y >= 0 && pos.z >= 0),
        r matches Ok(a) ==> a@[0] == pos.x && a@[1] == pos.y && a@[2] == pos.z,
{
    if pos.x < 0 || pos.y < 0 || pos.z < 0 {
        return Err(OutOfBounds);
    }
    Ok([pos.x as usize, pos.y as usize, pos.z as usize])
}

/// A dense array holding one value for every position of a chunk ("DCS" for short).
#[derive(Clone)]
pub struct DenseChunkStorage<T> {
    data: Vec<T>,
}

impl<T> DenseChunkStorage<T> {
    /// The values, indexed by [`dense_index`].
    pub open spec fn view(&self) -> Seq<T> {
        self.spec_data()@
    }

    pub closed spec fn spec_data(&self) -> Vec<T> {
        self.data
    }

    pub open spec fn wf(&self) -> bool {
        self.view().len() == 4096
    }

    /// The value at a position in the chunk.
    pub open spec fn spec_at(&self, pos: IVec3) -> T {
        self.view()[pos_index(pos)]
    }

    /// The number of values held (4096 for a well-formed storage).
    pub fn data_len(&self) -> (r: usize)
        ensures
            r == self.view().len(),
    {
        self.data.len()
    }

    /// Get the value at the given index triple `[x, y, z]`, or `None` if it is out of bounds.
    pub fn get_ref(&self, idx: [usize; 3]) -> (r: Option<&T>)
        requires
            self.wf(),
        ensures
            r is Some <==> (idx@[0] < 16 && idx@[1] < 16 && idx@[2] < 16),
            r matches Some(v) ==> *v == self.view()[dense_index(idx@[0] as int, idx@[1] as int, idx@[2] as int)],
    {
        let x = idx[0];
        let y = idx[1];
        let z = idx[2];
        if x >= 16 || y >= 16 || z >= 16 {
            return None;
        }
        proof {
            lemma_dense_index_bounds(x as int, y as int, z as int);
        }
        Some(&self.data[x * 256 + y * 16 + z])
    }

    /// Set the value at a position in the chunk. Fails, changing nothing, if the position is
    /// outside of the chunk.
    pub fn set(&mut self, pos: IVec3, data: T) -> (r: Result<(), ChunkAccessError>)
        requires
            old(self).wf(),
        ensures
            final(self).wf(),
            r is Ok <==> in_chunk(pos),
            r is Ok ==> final(self).view() == old(self).view().update(pos_index(pos), data),
            r is Err ==> r == Err::<(), ChunkAccessError>(ChunkAccessError::OutOfBounds) && final(self).view()
                == old(self).view(),
    {
        if !chunk_contains(pos) {
            return Err(ChunkAccessError::OutOfBounds);
        }
        proof {
            lemma_dense_index_bounds(pos.x as int, pos.y as int, pos.z as int);
        }
        let i = pos.x as usize * 256 + pos.y as usize * 16 + pos.z as usize;
        self.data.set(i, data);
        Ok(())
    }
}

impl<T: Copy> DenseChunkStorage<T> {
    /// A storage where every position holds `filling`.
    pub fn new(filling: T) -> (r: DenseChunkStorage<T>)
        ensures
            r.wf(),
            forall|i: int| 0 <= i < 4096 ==> r.view()[i] == filling,
    {
        let mut data: Vec<T> = Vec::with_capacity(4096);
        let mut i: usize = 0;
        while i < 4096
            invariant
                0 <= i <= 4096,
                data@.len() == i,
                forall|j: int| 0 <= j < i ==> data@[j] == filling,
            decreases 4096 - i,
        {
            data.push(filling);
            i = i + 1;
        }
        DenseChunkStorage { data }
    }

    /// Read the value at a position in the chunk. Fails if the position is outside of the chunk.
    pub fn get(&self, pos: IVec3) -> (r: Result<T, ChunkAccessError>)
        requires
            self.wf(),
        ensures
            r is Ok <==> in_chunk(pos),
            r matches Ok(v) ==> v == self.spec_at(pos),
            r is Err ==> r == Err::<T, ChunkAccessError>(ChunkAccessError::OutOfBounds),
    {
        if !chunk_contains(pos) {
            return Err(ChunkAccessError::OutOfBounds);
        }
        proof {
            lemma_dense_index_bounds(pos.x as int, pos.y as int, pos.z as int);
        }
        Ok(self.data[pos.x as usize * 256 + pos.y as usize * 16 + pos.z as usize])
    }
}

/// Writing a value to a dense storage and reading the same position gives the value back, and
/// every other position keeps its value.
pub proof fn lemma_dense_set_get<T>(before: Seq<T>, after: Seq<T>, pos: IVec3, data: T, other: IVec3)
    requires
        before.len() == 4096,
        in_chunk(pos),
        in_chunk(other),
        after == before.update(pos_index(pos), data),
    ensures
        after[pos_index(pos)] == data,
        other != pos ==> after[pos_index(other)] == before[pos_index(other)],
{
    lemma_dense_index_bounds(pos.x as int, pos.y as int, pos.z as int);
    if other != pos {
        if pos_index(other) == pos_index(pos) {
            lemma_dense_index_injective(other, pos);
        }
    }
}

/// The flattened index of `(x, z)` inside a layer of a [`LayeredChunkStorage`].
pub open spec fn layer_index(x: int, z: int) -> int {
    x * 16 + z
}

/// A chunk storage made of 16 optional horizontal layers ("LCS" for short). Layer `y` holds the
/// values of the positions with that `y`, indexed by [`layer_index`]; an absent layer holds no value.
#[derive(Clone)]
pub struct LayeredChunkStorage<T> {
    layers: Vec<Option<Vec<Option<T>>>>,
}

/// The layer at the given height is absent or holds nothing but `None`.
pub open spec fn layer_is_empty<T>(layer: Option<Vec<Option<T>>>) -> bool {
    match layer {
        None => true,
        Some(l) => forall|i: int| 0 <= i < l@.len() ==> l@[i] is None,
    }
}

/// The number of layers below height `n` that are present but hold nothing.
pub open spec fn count_clearable<T>(layers: Seq<Option<Vec<Option<T>>>>, n: nat) -> nat
    decreases n,
{
    if n == 0 {
        0
    } else {
        count_clearable(layers, (n - 1) as nat) + if layers[n - 1] is Some && layer_is_empty(layers[n - 1]) {
            1nat
        } else {
            0nat
        }
    }
}

impl<T> LayeredChunkStorage<T> {
    pub closed spec fn spec_layers(&self) -> Seq<Option<Vec<Option<T>>>> {
        self.layers@
    }

    /// The layers, from `y = 0` upwards.
    pub open spec fn layers_view(&self) -> Seq<Option<Vec<Option<T>>>> {
        self.spec_layers()
    }

    pub open spec fn wf(&self) -> bool {
        &&& self.layers_view().len() == 16
        &&& forall|y: int| 0 <= y < 16 ==> (#[trigger] self.layers_view()[y] matches Some(l) ==> l@.len() == 256)
    }

    /// The value stored at a position of the chunk.
    pub open spec fn spec_get(&self, pos: IVec3) -> Option<T> {
        match self.layers_view()[pos.y as int] {
            None => None,
            Some(l) => l@[layer_index(pos.x as int, pos.z as int)],
        }
    }

    /// A storage with no layers present.
    pub fn new() -> (r: LayeredChunkStorage<T>)
        ensures
            r.wf(),
            forall|y: int| 0 <= y < 16 ==> r.layers_view()[y] is None,
    {
        let mut layers: Vec<Option<Vec<Option<T>>>> = Vec::new();
        let mut i: usize = 0;
        while i < 16
            invariant
                0 <= i <= 16,
                layers@.len() == i,
                forall|j: int| 0 <= j < i ==> layers@[j] is None,
            decreases 16 - i,
        {
            layers.push(None);
            i = i + 1;
        }
        LayeredChunkStorage { layers }
    }

    /// The layer at height `idx`, or an error if there is no such height.
    pub fn get_layer(&self, idx: usize) -> (r: Result<&Option<Vec<Option<T>>>, OutOfBounds>)
        requires
            self.wf(),
        ensures
            r is Ok <==> idx < 16,
            r matches Ok(l) ==> *l == self.layers_view()[idx as int],
    {
        if idx >= self.layers.len() {
            return Err(OutOfBounds);
        }
        Ok(&self.layers[idx])
    }

    /// Replace the layer at height `idx` with `data`, a layer of 256 values indexed by [`layer_index`].
    pub fn insert_layer(&mut self, data: Vec<Option<T>>, idx: usize) -> (r: Result<(), OutOfBounds>)
        requires
            old(self).wf(),
            data@.len() == 256,
        ensures
            final(self).wf(),
            r is Ok <==> idx < 16,
            r is Ok ==> final(self).layers_view() == old(self).layers_view().update(idx as int, Some(data)),
            r is Err ==> final(self).layers_view() == old(self).layers_view(),
    {
        if idx >= self.layers.len() {
            return Err(OutOfBounds);
        }
        self.layers.set(idx, Some(data));
        Ok(())
    }

    /// Remove the layer at height `idx`.
    pub fn clear_layer(&mut self, idx: usize) -> (r: Result<(), OutOfBounds>)
        requires
            old(self).wf(),
        ensures
            final(self).wf(),
            r is Ok <==> idx < 16,
            r is Ok ==> final(self).layers_view() == old(self).layers_view().update(idx as int, None),
            r is Err ==> final(self).layers_view() == old(self).layers_view(),
    {
        if idx >= self.layers.len() {
            return Err(OutOfBounds);
        }
        self.layers.set(idx, None);
        Ok(())
    }

    /// Remove every present layer that holds nothing, returning how many were removed. The
    /// value at every position stays the same.
    pub fn clear_empty_layers(&mut self) -> (r: usize)
        requires
            old(self).wf(),
        ensures
            final(self).wf(),
            r == count_clearable(old(self).layers_view(), 16),
            forall|y: int| 0 <= y < 16 ==> (#[trigger] final(self).layers_view()[y]) == (if layer_is_empty(
                old(self).layers_view()[y]) { None } else { old(self).layers_view()[y] }),
    {
        let ghost orig = self.layers@;
        let mut cleared: usize = 0;
        let mut y: usize = 0;
        while y < 16
            invariant
                0 <= y <= 16,
                self.wf(),
                orig.len() == 16,
                forall|k: int| 0 <= k < 16 ==> (#[trigger] orig[k] matches Some(l) ==> l@.len() == 256),
                cleared == count_clearable(orig, y as nat),
                cleared <= y,
                forall|k: int| 0 <= k < y ==> self.layers@[k] == (if layer_is_empty(orig[k]) { None } else { orig[k] }),
                forall|k: int| y <= k < 16 ==> self.layers@[k] == orig[k],
            decreases 16 - y,
        {
            let mut should_clear = false;
            match &self.layers[y] {
                Some(layer) => {
                    should_clear = true;
                    let mut i: usize = 0;
                    while i < 256 && should_clear
                        invariant
                            0 <= i <= 256,
                            layer@.len() == 256,
                            should_clear == forall|j: int| 0 <= j < i ==> layer@[j] is None,
                        decreases 256 - i,
                    {
                        if layer[i].is_some() {
                            should_clear = false;
                        }
                        i = i + 1;
                    }
                },
                None => {},
            }
            if should_clear {
                cleared = cleared + 1;
                self.layers.set(y, None);
            }
            y = y + 1;
        }
        cleared
    }

    /// Test if a position lies within the chunk.
    pub fn contains(pos: IVec3) -> (r: bool)
        ensures
            r == in_chunk(pos),
    {
        chunk_contains(pos)
    }

    /// Set the value at a position, creating its layer if needed. Fails, changing nothing, if
    /// the position is outside of the chunk.
    pub fn set(&mut self, pos: IVec3, data: T) -> (r: Result<(), OutOfBounds>)
        requires
            old(self).wf(),
            0 <= pos.y < 16 ==> pos.x >= 0 && pos.z >= 0,
        ensures
            final(self).wf(),
            r is Ok <==> in_chunk(pos),
            r is Ok ==> forall|p: IVec3| in_chunk(p) ==> #[trigger] final(self).spec_get(p) == (if p == pos {
                Some(data)
            } else {
                old(self).spec_get(p)
            }),
            r is Err ==> final(self).layers_view() == old(self).layers_view(),
    {
        if pos.y < 0 || pos.y >= 16 || pos.x >= 16 || pos.z >= 16 {
            return Err(OutOfBounds);
        }
        let y = pos.y as usize;
        let x = pos.x as usize;
        let z = pos.z as usize;
        let ghost before = *self;
        let mut taken: Option<Vec<Option<T>>> = None;
        std::mem::swap(&mut taken, &mut self.layers[y]);
        let new_layer = match taken {
            Some(mut inner) => {
                inner.set(x * 16 + z, Some(data));
                inner
            },
            None => {
                let mut fresh: Vec<Option<T>> = Vec::new();
                let mut i: usize = 0;
                while i < 256
                    invariant
                        0 <= i <= 256,
                        fresh@.len() == i,
                        forall|j: int| 0 <= j < i ==> fresh@[j] is None,
                    decreases 256 - i,
                {
                    fresh.push(None);
                    i = i + 1;
                }
                fresh.set(x * 16 + z, Some(data));
                fresh
            },
        };
        self.layers.set(y, Some(new_layer));
        proof {
            assert forall|p: IVec3| in_chunk(p) implies #[trigger] self.spec_get(p) == (if p == pos {
                Some(data)
            } else {
                before.spec_get(p)
            }) by {
                if p.y == pos.y && p != pos {
                    assert(layer_index(p.x as int, p.z as int) != layer_index(pos.x as int, pos.z as int));
                }
            }
        }
        Ok(())
    }

    /// Remove the value at a position. Fails, changing nothing, if the position is outside of the chunk.
    pub fn clear(&mut self, pos: IVec3) -> (r: Result<(), OutOfBounds>)
        requires
            old(self).wf(),
            0 <= pos.y < 16 ==> pos.x >= 0 && pos.z >= 0,
        ensures
            final(self).wf(),
            r is Ok <==> in_chunk(pos),
            r is Ok ==> forall|p: IVec3| in_chunk(p) ==> #[trigger] final(self).spec_get(p) == (if p == pos {
                None
            } else {
                old(self).spec_get(p)
            }),
            r is Err ==> final(self).layers_view() == old(self).layers_view(),
            forall|y: int| 0 <= y < 16 ==> (#[trigger] final(self).layers_view()[y] is Some <==> old(self).layers_view()[y] is Some),
    {
        if pos.y < 0 || pos.y >= 16 || pos.x >= 16 || pos.z >= 16 {
            return Err(OutOfBounds);
        }
        let y = pos.y as usize;
        let x = pos.x as usize;
        let z = pos.z as usize;
        let ghost before = *self;
        let mut taken: Option<Vec<Option<T>>> = None;
        std::mem::swap(&mut taken, &mut self.layers[y]);
        match taken {
            Some(mut inner) => {
                inner.set(x * 16 + z, None);
                self.layers.set(y, Some(inner));
            },
            None => {},
        }
        proof {
            assert forall|p: IVec3| in_chunk(p) implies #[trigger] self.spec_get(p) == (if p == pos {
                None
            } else {
                before.spec_get(p)
            }) by {
                if p.y == pos.y && p != pos {
                    assert(layer_index(p.x as int, p.z as int) != layer_index(pos.x as int, pos.z as int));
                }
            }
        }
        Ok(())
    }
}

impl<T: Copy> LayeredChunkStorage<T> {
    /// Read the value at a position. Fails if the position is outside of the chunk.
    pub fn get(&self, pos: IVec3) -> (r: Result<Option<T>, OutOfBounds>)
        requires
            self.wf(),
            0 <= pos.y < 16 ==> pos.x >= 0 && pos.z >= 0,
        ensures
            r is Ok <==> in_chunk(pos),
            r matches Ok(v) ==> v == self.spec_get(pos),
    {
        if pos.y < 0 || pos.y >= 16 || pos.x >= 16 || pos.z >= 16 {
            return Err(OutOfBounds);
        }
        let y = pos.y as usize;
        match &self.layers[y] {
            None => Ok(None),
            Some(l) => Ok(l[pos.x as usize * 16 + pos.z as usize]),
        }
    }
}

/// The key under which a chunk position is stored in a [`HashmapChunkStorage`].
pub open spec fn hm_key(pos: IVec3) -> u64 {
    pos_index(pos) as u64
}

/// A chunk storage backed by a hash map, holding values for some positions only ("HMCS" for short).
#[derive(Clone)]
pub struct HashmapChunkStorage<T> {
    map: HashMap<u64, T>,
}

impl<T> HashmapChunkStorage<T> {
    pub closed spec fn spec_map(&self) -> Map<u64, T> {
        self.map@
    }

    /// The value stored at a position of the chunk, if any.
    pub open spec fn spec_get(&self, pos: IVec3) -> Option<T> {
        if in_chunk(pos) && self.spec_map().contains_key(hm_key(pos)) {
            Some(self.spec_map()[hm_key(pos)])
        } else {
            None
        }
    }

    /// An empty storage.
    pub fn new() -> (r: HashmapChunkStorage<T>)
        ensures
            forall|p: IVec3| #[trigger] r.spec_get(p) is None,
    {
        HashmapChunkStorage { map: HashMap::new() }
    }

    /// Test if a position lies within the chunk.
    pub fn contains(pos: IVec3) -> (r: bool)
        ensures
            r == in_chunk(pos),
    {
        chunk_contains(pos)
    }

    /// Store `data` at a position. Fails, changing nothing, if the position is outside of the chunk.
    pub fn set(&mut self, pos: IVec3, data: T) -> (r: Result<(), OutOfBounds>)
        ensures
            r is Ok <==> in_chunk(pos),
            forall|p: IVec3| #[trigger] final(self).spec_get(p) == (if p == pos && in_chunk(pos) {
                Some(data)
            } else {
                old(self).spec_get(p)
            }),
    {
        broadcast use vstd::std_specs::hash::group_hash_axioms;
        if !chunk_contains(pos) {
            return Err(OutOfBounds);
        }
        let key = (pos.x as u64) * 256 + (pos.y as u64) * 16 + pos.z as u64;
        let ghost before = *self;
        self.map.insert(key, data);
        proof {
            assert forall|p: IVec3| #[trigger] self.spec_get(p) == (if p == pos && in_chunk(pos) {
                Some(data)
            } else {
                before.spec_get(p)
            }) by {
                if in_chunk(p) && p != pos {
                    lemma_dense_index_bounds(p.x as int, p.y as int, p.z as int);
                    if hm_key(p) == hm_key(pos) {
                        lemma_dense_index_injective(p, pos);
                    }
                }
            }
        }
        Ok(())
    }

    /// Remove the value stored at a position, if any.
    pub fn clear(&mut self, pos: IVec3)
        ensures
            forall|p: IVec3| #[trigger] final(self).spec_get(p) == (if p == pos { None } else { old(self).spec_get(p) }),
    {
        broadcast use vstd::std_specs::hash::group_hash_axioms;
        if !chunk_contains(pos) {
            return;
        }
        let key = (pos.x as u64) * 256 + (pos.y as u64) * 16 + pos.z as u64;
        let ghost before = *self;
        self.map.remove(&key);
        proof {
            assert forall|p: IVec3| #[trigger] self.spec_get(p) == (if p == pos { None } else { before.spec_get(p) }) by {
                if in_chunk(p) && p != pos {
                    lemma_dense_index_bounds(p.x as int, p.y as int, p.z as int);
                    if hm_key(p) == hm_key(pos) {
                        lemma_dense_index_injective(p, pos);
                    }
                }
            }
        }
    }
}

impl<T: Copy> HashmapChunkStorage<T> {
    /// The value stored at a position, if any.
    pub fn get(&self, pos: IVec3) -> (r: Option<T>)
        ensures
            r == self.spec_get(pos),
    {
        broadcast use vstd::std_specs::hash::group_hash_axioms;
        if !chunk_contains(pos) {
            return None;
        }
        let key = (pos.x as u64) * 256 + (pos.y as u64) * 16 + pos.z as u64;
        match self.map.get(&key) {
            Some(v) => Some(*v),
            None => None,
        }
    }
}

/// The index stored for positions that hold no value in an [`IndexedChunkStorage`].
pub const EMPTY_VALUE: u16 = 0b1000_0000_0000_0000;

/// Some position with flattened index below `p` holds index `k`.
pub open spec fn referenced_below(indices: Seq<u16>, k: int, p: int) -> bool {
    exists|i: int| 0 <= i < p && #[trigger] indices[i] == k
}

/// An entry `e` of the index table points at a value equal to `data`, and carries `hash`.
pub open spec fn spec_entry_matches<T>(values: Seq<T>, data: T, hash: u64, e: (u64, usize)) -> bool {
    e.0 == hash && e.1 < values.len() && values[e.1 as int] == data
}

/// Test if an entry of the index table carries `hash` and points at a value equal to `data`.
pub fn index_entry_matches<T: PartialEq>(values: &Vec<T>, data: &T, hash: u64, e: &(u64, usize)) -> (r: bool)
    requires
        obeys_concrete_eq::<T>(),
    ensures
        r == spec_entry_matches(values@, *data, hash, *e),
{
    proof {
        reveal(obeys_concrete_eq);
    }
    e.0 == hash && e.1 < values.len() && values[e.1] == *data
}

/// A storage for duplicated voxel data ("ICS" for short): a dense storage of indices into a
/// vector of values, and a hash table mapping values to their indices. Reads are a lookup in
/// the index array; writes look the value up in the hash table and push it if it is new.
///
/// Clearing a position only removes its index: the value stays in the vector until
/// [`IndexedChunkStorage::optimize`] drops every value that no position refers to.
pub struct IndexedChunkStorage<T, S = ahash::RandomState> {
    indices: DenseChunkStorage<u16>,
    values: Vec<T>,
    idx_table: ValueIndexTable,
    random_state: S,
}

impl<T: Eq + Hash, S: BuildHasher> IndexedChunkStorage<T, S> {
    pub closed spec fn spec_indices(&self) -> Seq<u16> {
        self.indices.view()
    }

    pub closed spec fn spec_values(&self) -> Seq<T> {
        self.values@
    }

    /// The stored values, in the order they were first written.
    pub open spec fn values_view(&self) -> Seq<T> {
        self.spec_values()
    }

    /// The index of the value at every position, [`EMPTY_VALUE`] where there is none.
    pub open spec fn indices_view(&self) -> Seq<u16> {
        self.spec_indices()
    }

    pub open spec fn wf(&self) -> bool {
        &&& self.indices_view().len() == 4096
        &&& self.values_view().len() <= EMPTY_VALUE
        &&& forall|i: int| 0 <= i < 4096 ==> (#[trigger] self.indices_view()[i] == EMPTY_VALUE
            || self.indices_view()[i] < self.values_view().len())
    }

    /// The `(hash, index)` entries of the hash table: the index of a stored value, with the hash
    /// it was entered under.
    pub closed spec fn index_entries(&self) -> Set<(u64, usize)> {
        value_index_entries(self.idx_table)
    }

    /// Some entry of the hash table carries `hash` and points at a stored value equal to `data`.
    pub open spec fn has_entry_for(&self, data: T, hash: u64) -> bool {
        exists|e: (u64, usize)|
            #[trigger] self.index_entries().contains(e) && spec_entry_matches(self.values_view(), data, hash, e)
    }

    /// The value stored at a position of the chunk, if any.
    pub open spec fn spec_get(&self, pos: IVec3) -> Option<T> {
        let i = self.indices_view()[pos_index(pos)];
        if i == EMPTY_VALUE {
            None
        } else {
            Some(self.values_view()[i as int])
        }
    }

    fn internal_new(random_state: S) -> (r: Self)
        ensures
            r.wf(),
            r.values_view().len() == 0,
            forall|p: IVec3| in_chunk(p) ==> #[trigger] r.spec_get(p) is None,
    {
        let r = IndexedChunkStorage {
            indices: DenseChunkStorage::new(EMPTY_VALUE),
            values: Vec::new(),
            idx_table: value_index_table_new(),
            random_state,
        };
        proof {
            assert forall|p: IVec3| in_chunk(p) implies #[trigger] r.spec_get(p) is None by {
                lemma_dense_index_bounds(p.x as int, p.y as int, p.z as int);
            }
        }
        r
    }

    /// An empty storage using the given hasher builder.
    pub fn with_random_state(random_state: S) -> (r: Self)
        ensures
            r.wf(),
            r.values_view().len() == 0,
            forall|p: IVec3| in_chunk(p) ==> #[trigger] r.spec_get(p) is None,
    {
        Self::internal_new(random_state)
    }

    /// A storage where every position holds `filling`, using the given hasher builder. The
    /// filling is not entered in the hash table.
    pub fn filled_with_random_state(filling: T, random_state: S) -> (r: Self)
        ensures
            r.wf(),
            r.values_view() == seq![filling],
            forall|p: IVec3| in_chunk(p) ==> #[trigger] r.spec_get(p) == Some(filling),
    {
        let mut new = Self::internal_new(random_state);
        // all indices point to the first value in the value vector
        new.indices = DenseChunkStorage::new(0);
        let mut values: Vec<T> = Vec::new();
        values.push(filling);
        new.values = values;
        proof {
            assert forall|p: IVec3| in_chunk(p) implies #[trigger] new.spec_get(p) == Some(filling) by {
                lemma_dense_index_bounds(p.x as int, p.y as int, p.z as int);
            }
        }
        new
    }

    /// The stored values, including those no position refers to any more.
    pub fn values(&self) -> (r: &[T])
        ensures
            r@ == self.values_view(),
    {
        self.values.as_slice()
    }

    /// The number of stored values, including those no position refers to any more.
    pub fn values_len(&self) -> (r: usize)
        ensures
            r == self.values_view().len(),
    {
        self.values.len()
    }

    /// Test if a position lies within the chunk.
    pub fn contains_pos(pos: IVec3) -> (r: bool)
        ensures
            r == in_chunk(pos),
    {
        chunk_contains(pos)
    }

    /// Test if `value` is among the stored values.
    pub fn contains_value(&self, value: &T) -> (r: bool)
        requires
            obeys_concrete_eq::<T>(),
        ensures
            r == self.values_view().contains(*value),
    {
        proof {
            reveal(obeys_concrete_eq);
        }
        let mut i: usize = 0;
        while i < self.values.len()
            invariant
                0 <= i <= self.values@.len(),
                obeys_concrete_eq::<T>(),
                forall|j: int| 0 <= j < i ==> self.values@[j] != *value,
            decreases self.values@.len() - i,
        {
            proof {
                reveal(obeys_concrete_eq);
            }
            if self.values[i] == *value {
                return true;
            }
            i = i + 1;
        }
        false
    }

    fn get_idx(&self, pos: IVec3) -> (r: Option<usize>)
        requires
            self.wf(),
            in_chunk(pos),
        ensures
            r is None <==> self.indices_view()[pos_index(pos)] == EMPTY_VALUE,
            r matches Some(i) ==> i == self.indices_view()[pos_index(pos)] && i < self.values_view().len(),
    {
        proof {
            lemma_dense_index_bounds(pos.x as int, pos.y as int, pos.z as int);
        }
        let idx = match self.indices.get(pos) {
            Ok(i) => i,
            Err(_) => EMPTY_VALUE,
        };
        if idx != EMPTY_VALUE {
            Some(idx as usize)
        } else {
            None
        }
    }

    fn set_idx(&mut self, pos: IVec3, idx: usize)
        requires
            old(self).wf(),
            in_chunk(pos),
            idx < old(self).values_view().len(),
        ensures
            final(self).wf(),
            final(self).values_view() == old(self).values_view(),
            final(self).indices_view() == old(self).indices_view().update(pos_index(pos), idx as u16),
            final(self).index_entries() == old(self).index_entries(),
    {
        proof {
            lemma_dense_index_bounds(pos.x as int, pos.y as int, pos.z as int);
        }
        let _ = self.indices.set(pos, idx as u16);
    }

    /// The index of a stored value equal to `data` that the hash table holds under `hash`, if any.
    fn get_existing_index_for_data(&self, data: &T, hash: u64) -> (r: Option<usize>)
        requires
            obeys_concrete_eq::<T>(),
        ensures
            r is Some <==> self.has_entry_for(*data, hash),
            r matches Some(i) ==> i < self.values_view().len() && self.values_view()[i as int] == *data,
    {
        let r = value_index_table_find(&self.idx_table, hash, &self.values, data);
        proof {
            if let Some(i) = r {
                assert(self.index_entries().contains((hash, i)));
            }
            if self.has_entry_for(*data, hash) {
                let e = choose|e: (u64, usize)|
                    #[trigger] self.index_entries().contains(e) && spec_entry_matches(self.values_view(), *data, hash, e);
                assert(value_index_entries(self.idx_table).contains(e));
            }
        }
        r
    }

    fn insert_new_unique_value(&mut self, pos: IVec3, data: T, hash: u64)
        requires
            old(self).wf(),
            in_chunk(pos),
            old(self).values_view().len() < EMPTY_VALUE,
        ensures
            final(self).wf(),
            final(self).values_view() == old(self).values_view().push(data),
            final(self).indices_view() == old(self).indices_view().update(
                pos_index(pos),
                old(self).values_view().len() as u16,
            ),
            final(self).index_entries() == old(self).index_entries().insert(
                (hash, old(self).values_view().len() as usize),
            ),
    {
        let idx = self.values.len();
        self.values.push(data);
        self.set_idx(pos, idx);
        value_index_table_insert(&mut self.idx_table, hash, idx);
    }

    /// Store `data` at a position, looking it up in the hash table under `hash`, its hash by the
    /// storage's hasher builder. Fails, changing nothing, if the position is outside of the
    /// chunk. If an entry under `hash` points at a stored value equal to `data`, that value's
    /// index is reused: the stored values and the table stay as they are, and `Some(data)` comes
    /// back. Otherwise `data` is pushed as a new value and entered in the table under `hash`, and
    /// `None` comes back. Either way the table then has an entry for `data` under `hash`, so
    /// storing `data` again under `hash` pushes nothing.
    pub fn set_with_hash(&mut self, pos: IVec3, data: T, hash: u64) -> (r: Result<Option<T>, OutOfBounds>)
        requires
            old(self).wf(),
            obeys_concrete_eq::<T>(),
            old(self).values_view().len() < EMPTY_VALUE,
        ensures
            final(self).wf(),
            r is Ok <==> in_chunk(pos),
            r is Err ==> *final(self) == *old(self),
            r is Ok ==> forall|p: IVec3| in_chunk(p) ==> #[trigger] final(self).spec_get(p) == (if p == pos {
                Some(data)
            } else {
                old(self).spec_get(p)
            }),
            r matches Ok(x) ==> (x is Some <==> old(self).has_entry_for(data, hash)),
            r matches Ok(Some(d)) ==> d == data && final(self).values_view() == old(self).values_view()
                && final(self).index_entries() == old(self).index_entries(),
            r matches Ok(None) ==> final(self).values_view() == old(self).values_view().push(data)
                && final(self).index_entries() == old(self).index_entries().insert(
                (hash, old(self).values_view().len() as usize),
            ),
            r is Ok ==> final(self).has_entry_for(data, hash),
            forall|d: T, h: u64| #[trigger] old(self).has_entry_for(d, h) ==> final(self).has_entry_for(d, h),
    {
        if !Self::contains_pos(pos) {
            return Err(OutOfBounds);
        }
        let ghost before = *self;
        match self.get_existing_index_for_data(&data, hash) {
            Some(existing_index) => {
                self.set_idx(pos, existing_index);
                proof {
                    self.lemma_update_view(before, pos, existing_index as u16);
                    assert(self.index_entries() == before.index_entries());
                    let e = choose|e: (u64, usize)|
                        #[trigger] before.index_entries().contains(e) && spec_entry_matches(before.values_view(), data, hash, e);
                    assert(self.index_entries().contains(e));
                }
                return Ok(Some(data));
            },
            None => {
                self.insert_new_unique_value(pos, data, hash);
                proof {
                    self.lemma_update_view(before, pos, before.values_view().len() as u16);
                    let e = (hash, before.values_view().len() as usize);
                    assert(self.index_entries().contains(e));
                    assert(spec_entry_matches(self.values_view(), data, hash, e));
                    assert forall|d: T, h: u64| #[trigger] before.has_entry_for(d, h) implies self.has_entry_for(d, h) by {
                        let e = choose|e: (u64, usize)|
                            #[trigger] before.index_entries().contains(e) && spec_entry_matches(before.values_view(), d, h, e);
                        assert(self.index_entries().contains(e));
                        assert(spec_entry_matches(self.values_view(), d, h, e));
                    }
                }
            },
        }
        Ok(None)
    }

    /// Store `data` at a position: [`IndexedChunkStorage::set_with_hash`] with the hash of `data`
    /// by the storage's hasher builder. Fails, changing nothing, if the position is outside of
    /// the chunk. Returns `Some(data)` when an equal value was already stored (its index is
    /// reused), and `None` when `data` was pushed as a new value.
    pub fn set(&mut self, pos: IVec3, data: T) -> (r: Result<Option<T>, OutOfBounds>)
        requires
            old(self).wf(),
            obeys_concrete_eq::<T>(),
            old(self).values_view().len() < EMPTY_VALUE,
        ensures
            final(self).wf(),
            r is Ok <==> in_chunk(pos),
            r is Err ==> *final(self) == *old(self),
            r is Ok ==> forall|p: IVec3| in_chunk(p) ==> #[trigger] final(self).spec_get(p) == (if p == pos {
                Some(data)
            } else {
                old(self).spec_get(p)
            }),
            r matches Ok(Some(d)) ==> d == data && final(self).values_view() == old(self).values_view()
                && old(self).values_view().contains(data),
            r matches Ok(None) ==> final(self).values_view() == old(self).values_view().push(data),
    {
        let hash = hash_of(&self.random_state, &data);
        let r = self.set_with_hash(pos, data, hash);
        proof {
            if r matches Ok(Some(_)) {
                let e = choose|e: (u64, usize)|
                    #[trigger] old(self).index_entries().contains(e) && spec_entry_matches(old(self).values_view(), data, hash, e);
                assert(old(self).values_view()[e.1 as int] == data);
            }
        }
        r
    }

    proof fn lemma_update_view(&self, before: Self, pos: IVec3, idx: u16)
        requires
            in_chunk(pos),
            before.wf(),
            self.wf(),
            self.indices_view() == before.indices_view().update(pos_index(pos), idx),
            before.values_view().is_prefix_of(self.values_view()),
            idx < self.values_view().len(),
        ensures
            forall|p: IVec3| in_chunk(p) ==> #[trigger] self.spec_get(p) == (if p == pos {
                Some(self.values_view()[idx as int])
            } else {
                before.spec_get(p)
            }),
    {
        assert forall|p: IVec3| in_chunk(p) implies #[trigger] self.spec_get(p) == (if p == pos {
            Some(self.values_view()[idx as int])
        } else {
            before.spec_get(p)
        }) by {
            lemma_dense_index_bounds(p.x as int, p.y as int, p.z as int);
            lemma_dense_index_bounds(pos.x as int, pos.y as int, pos.z as int);
            if p != pos && pos_index(p) == pos_index(pos) {
                lemma_dense_index_injective(p, pos);
            }
        }
    }

    /// Remove the value at a position (the value itself stays stored). Fails, changing nothing,
    /// if the position is outside of the chunk.
    pub fn clear(&mut self, pos: IVec3) -> (r: Result<(), OutOfBounds>)
        requires
            old(self).wf(),
        ensures
            final(self).wf(),
            r is Ok <==> in_chunk(pos),
            final(self).values_view() == old(self).values_view(),
            final(self).index_entries() == old(self).index_entries(),
            r is Err ==> *final(self) == *old(self),
            r is Ok ==> forall|p: IVec3| in_chunk(p) ==> #[trigger] final(self).spec_get(p) == (if p == pos {
                None
            } else {
                old(self).spec_get(p)
            }),
    {
        if !Self::contains_pos(pos) {
            return Err(OutOfBounds);
        }
        let ghost before = *self;
        proof {
            lemma_dense_index_bounds(pos.x as int, pos.y as int, pos.z as int);
        }
        let _ = self.indices.set(pos, EMPTY_VALUE);
        proof {
            assert forall|p: IVec3| in_chunk(p) implies #[trigger] self.spec_get(p) == (if p == pos {
                None
            } else {
                before.spec_get(p)
            }) by {
                lemma_dense_index_bounds(p.x as int, p.y as int, p.z as int);
                if p != pos && pos_index(p) == pos_index(pos) {
                    lemma_dense_index_injective(p, pos);
                }
            }
        }
        Ok(())
    }

    /// Store `data` at every one of `positions`: [`IndexedChunkStorage::set_many_with_hash`] with
    /// the hash of `data` by the storage's hasher builder. Fails, changing nothing, if any of the
    /// positions is outside of the chunk. On success the stored values either stay as they are,
    /// already holding `data`, or get `data` pushed once.
    pub fn set_many(&mut self, positions: &[IVec3], data: T) -> (r: Result<(), OutOfBounds>)
        requires
            old(self).wf(),
            obeys_concrete_eq::<T>(),
            old(self).values_view().len() < EMPTY_VALUE,
        ensures
            final(self).wf(),
            r is Ok <==> forall|i: int| 0 <= i < positions@.len() ==> in_chunk(#[trigger] positions@[i]),
            r is Err ==> *final(self) == *old(self),
            r is Ok ==> forall|p: IVec3| in_chunk(p) ==> #[trigger] final(self).spec_get(p) == (if positions@.contains(p) {
                Some(data)
            } else {
                old(self).spec_get(p)
            }),
            r is Ok ==> (final(self).values_view() == old(self).values_view() && old(self).values_view().contains(data))
                || final(self).values_view() == old(self).values_view().push(data),
    {
        let hash = hash_of(&self.random_state, &data);
        let r = self.set_many_with_hash(positions, data, hash);
        proof {
            if r is Ok && old(self).has_entry_for(data, hash) {
                let e = choose|e: (u64, usize)|
                    #[trigger] old(self).index_entries().contains(e) && spec_entry_matches(old(self).values_view(), data, hash, e);
                assert(old(self).values_view()[e.1 as int] == data);
            }
        }
        r
    }

    /// Store `data` at every one of `positions`, looking it up in the hash table under `hash`, its
    /// hash by the storage's hasher builder. Fails, changing nothing, if any of the positions is
    /// outside of the chunk. Otherwise, as in [`IndexedChunkStorage::set_with_hash`], an entry
    /// under `hash` pointing at a stored value equal to `data` has its index reused, and without
    /// one `data` is pushed once and entered under `hash`.
    pub fn set_many_with_hash(&mut self, positions: &[IVec3], data: T, hash: u64) -> (r: Result<(), OutOfBounds>)
        requires
            old(self).wf(),
            obeys_concrete_eq::<T>(),
            old(self).values_view().len() < EMPTY_VALUE,
        ensures
            final(self).wf(),
            r is Ok <==> forall|i: int| 0 <= i < positions@.len() ==> in_chunk(#[trigger] positions@[i]),
            r is Err ==> *final(self) == *old(self),
            r is Ok ==> forall|p: IVec3| in_chunk(p) ==> #[trigger] final(self).spec_get(p) == (if positions@.contains(p) {
                Some(data)
            } else {
                old(self).spec_get(p)
            }),
            r is Ok && old(self).has_entry_for(data, hash) ==> final(self).values_view() == old(self).values_view()
                && final(self).index_entries() == old(self).index_entries(),
            r is Ok && !old(self).has_entry_for(data, hash) ==> final(self).values_view() == old(
                self,
            ).values_view().push(data) && final(self).index_entries() == old(self).index_entries().insert(
                (hash, old(self).values_view().len() as usize),
            ),
            r is Ok ==> final(self).has_entry_for(data, hash),
            forall|d: T, h: u64| #[trigger] old(self).has_entry_for(d, h) ==> final(self).has_entry_for(d, h),
    {
        let mut k: usize = 0;
        while k < positions.len()
            invariant
                0 <= k <= positions@.len(),
                old(self).wf(),
                *self == *old(self),
                forall|i: int| 0 <= i < k ==> in_chunk(#[trigger] positions@[i]),
            decreases positions@.len() - k,
        {
            if !Self::contains_pos(positions[k]) {
                return Err(OutOfBounds);
            }
            k = k + 1;
        }
        let ghost before = *self;
        let idx = match self.get_existing_index_for_data(&data, hash) {
            Some(i) => i,
            None => {
                let i = self.values.len();
                self.values.push(data);
                value_index_table_insert(&mut self.idx_table, hash, i);
                i
            },
        };
        assert(self.values_view()[idx as int] == data);
        proof {
            if before.has_entry_for(data, hash) {
                let e = choose|e: (u64, usize)|
                    #[trigger] before.index_entries().contains(e) && spec_entry_matches(before.values_view(), data, hash, e);
                assert(self.index_entries().contains(e));
            } else {
                let e = (hash, before.values_view().len() as usize);
                assert(self.index_entries().contains(e));
                assert(spec_entry_matches(self.values_view(), data, hash, e));
            }
            assert(self.has_entry_for(data, hash));
            assert forall|d: T, h: u64| #[trigger] before.has_entry_for(d, h) implies self.has_entry_for(d, h) by {
                let e = choose|e: (u64, usize)|
                    #[trigger] before.index_entries().contains(e) && spec_entry_matches(before.values_view(), d, h, e);
                assert(self.index_entries().contains(e));
                assert(spec_entry_matches(self.values_view(), d, h, e));
            }
        }
        let ghost after_lookup = *self;
        assert(before.values_view().is_prefix_of(self.values_view()));
        let mut j: usize = 0;
        while j < positions.len()
            invariant
                0 <= j <= positions@.len(),
                self.wf(),
                before.wf(),
                idx < self.values_view().len(),
                self.values_view()[idx as int] == data,
                before.values_view().is_prefix_of(self.values_view()),
                self.values_view() == after_lookup.values_view(),
                self.index_entries() == after_lookup.index_entries(),
                forall|i: int| 0 <= i < positions@.len() ==> in_chunk(#[trigger] positions@[i]),
                forall|p: IVec3| in_chunk(p) ==> #[trigger] self.spec_get(p) == (if positions@.subrange(0, j as int).contains(p) {
                    Some(data)
                } else {
                    before.spec_get(p)
                }),
            decreases positions@.len() - j,
        {
            let ghost mid = *self;
            let pos = positions[j];
            self.set_idx(pos, idx);
            proof {
                self.lemma_update_view(mid, pos, idx as u16);
                assert forall|p: IVec3| in_chunk(p) implies #[trigger] self.spec_get(p) == (if positions@.subrange(0, j + 1).contains(p) {
                    Some(data)
                } else {
                    before.spec_get(p)
                }) by {
                    if positions@.subrange(0, j as int).contains(p) {
                        let k = choose|k: int| 0 <= k < j && #[trigger] positions@.subrange(0, j as int)[k] == p;
                        assert(positions@.subrange(0, j + 1)[k] == p);
                    }
                    if p == pos {
                        assert(positions@.subrange(0, j + 1)[j as int] == p);
                    }
                    if positions@.subrange(0, j + 1).contains(p) && p != pos {
                        let k = choose|k: int| 0 <= k < j + 1 && #[trigger] positions@.subrange(0, j + 1)[k] == p;
                        assert(positions@.subrange(0, j as int)[k] == p);
                    }
                }
            }
            j = j + 1;
        }
        assert(positions@.subrange(0, positions@.len() as int) =~= positions@);
        Ok(())
    }

    /// The value stored at a position, if any. Fails if the position is outside of the chunk.
    pub fn get(&self, pos: IVec3) -> (r: Result<Option<&T>, OutOfBounds>)
        requires
            self.wf(),
        ensures
            r is Ok <==> in_chunk(pos),
            r matches Ok(v) ==> (match v {
                None => self.spec_get(pos) is None,
                Some(v) => self.spec_get(pos) == Some(*v),
            }),
    {
        if !Self::contains_pos(pos) {
            return Err(OutOfBounds);
        }
        match self.get_idx(pos) {
            None => Ok(None),
            Some(idx) => Ok(Some(&self.values[idx])),
        }
    }

    /// Drop every stored value that no position refers to, keeping the value at every position.
    /// Values keep the order in which positions first refer to them, scanning `x`, then `y`,
    /// then `z`. Returns the number of values dropped.
    pub fn optimize(&mut self) -> (r: usize)
        requires
            old(self).wf(),
        ensures
            final(self).wf(),
            forall|p: IVec3| in_chunk(p) ==> #[trigger] final(self).spec_get(p) == old(self).spec_get(p),
            final(self).values_view().len() + r == old(self).values_view().len(),
            forall|k: int| 0 <= k < final(self).values_view().len() ==> #[trigger] referenced_below(
                final(self).indices_view(),
                k,
                4096,
            ),
            forall|i: int, j: int|
                0 <= i < 4096 && 0 <= j < 4096 && old(self).indices_view()[i] != EMPTY_VALUE && old(self).indices_view()[j]
                    != EMPTY_VALUE ==> (old(self).indices_view()[i] == old(self).indices_view()[j] <==> final(self).indices_view()[i]
                    == final(self).indices_view()[j]),
            forall|i: int|
                0 <= i < 4096 && #[trigger] final(self).indices_view()[i] != EMPTY_VALUE && final(self).indices_view()[i] > 0
                    ==> referenced_below(final(self).indices_view(), final(self).indices_view()[i] - 1, i),
    {
        let old_len = self.values.len();
        let ghost old_indices = self.indices_view();
        let ghost old_values = self.values_view();
        // remap[k]: the new index of old value k, EMPTY_VALUE if no position refers to it yet
        let mut remap: Vec<u16> = Vec::new();
        let mut k: usize = 0;
        while k < old_len
            invariant
                0 <= k <= old_len,
                remap@.len() == k,
                forall|j: int| 0 <= j < k ==> remap@[j] == EMPTY_VALUE,
            decreases old_len - k,
        {
            remap.push(EMPTY_VALUE);
            k = k + 1;
        }
        // order[n]: the old index of new value n
        let mut order: Vec<usize> = Vec::new();
        let mut new_indices: DenseChunkStorage<u16> = DenseChunkStorage::new(EMPTY_VALUE);
        let ghost mut used: Set<int> = Set::empty();
        let mut p: usize = 0;
        while p < 4096
            invariant
                0 <= p <= 4096,
                self.wf(),
                self.indices_view() == old_indices,
                self.values_view() == old_values,
                old_len == old_values.len(),
                old_len <= EMPTY_VALUE,
                remap@.len() == old_len,
                new_indices.wf(),
                used.finite(),
                used.len() == order@.len(),
                forall|j: int| #[trigger] used.contains(j) ==> 0 <= j < old_len,
                forall|j: int| 0 <= j < old_len ==> (#[trigger] used.contains(j) <==> remap@[j] != EMPTY_VALUE),
                forall|j: int| 0 <= j < old_len && #[trigger] remap@[j] != EMPTY_VALUE ==> (remap@[j] as int)
                    < order@.len() && order@[remap@[j] as int] == j,
                forall|n: int| 0 <= n < order@.len() ==> (#[trigger] order@[n]) < old_len && remap@[order@[n] as int]
                    == n,
                order@.len() <= old_len,
                forall|i: int| 0 <= i < p && old_indices[i] != EMPTY_VALUE ==> #[trigger] remap@[old_indices[i] as int]
                    != EMPTY_VALUE,
                forall|i: int| 0 <= i < p ==> (#[trigger] new_indices.view()[i]) == (if old_indices[i] == EMPTY_VALUE {
                    EMPTY_VALUE
                } else {
                    remap@[old_indices[i] as int]
                }),
                forall|i: int| p <= i < 4096 ==> #[trigger] new_indices.view()[i] == EMPTY_VALUE,
                forall|n: int| 0 <= n < order@.len() ==> #[trigger] referenced_below(new_indices.view(), n, p as int),
                forall|i: int|
                    0 <= i < p && #[trigger] new_indices.view()[i] != EMPTY_VALUE && new_indices.view()[i] > 0
                        ==> referenced_below(new_indices.view(), new_indices.view()[i] - 1, i),
            decreases 4096 - p,
        {
            let idx = self.indices.data[p];
            let ghost prev_view = new_indices.view();
            let ghost prev_order = order@;
            if idx != EMPTY_VALUE {
                let j = idx as usize;
                assert(j < old_len);
                if remap[j] == EMPTY_VALUE {
                    proof {
                        vstd::set_lib::lemma_int_range(0, old_len as int);
                        assert(!used.contains(j as int));
                        assert(used.insert(j as int).subset_of(vstd::set_lib::set_int_range(0, old_len as int)));
                        vstd::set_lib::lemma_len_subset(used.insert(j as int), vstd::set_lib::set_int_range(0, old_len as int));
                        used = used.insert(j as int);
                    }
                    remap.set(j, order.len() as u16);
                    order.push(j);
                }
                let n = remap[j];
                proof {
                    if n > 0 {
                        assert(referenced_below(prev_view, n - 1, p as int));
                    }
                }
                new_indices.data.set(p, n);
                proof {
                    assert(new_indices.view() == prev_view.update(p as int, n));
                    assert forall|i: int|
                        0 <= i < p + 1 && #[trigger] new_indices.view()[i] != EMPTY_VALUE && new_indices.view()[i] > 0
                            implies referenced_below(new_indices.view(), new_indices.view()[i] - 1, i) by {
                        let v = new_indices.view()[i];
                        if i < p {
                            assert(referenced_below(prev_view, v - 1, i));
                            let w = choose|w: int| 0 <= w < i && #[trigger] prev_view[w] == v - 1;
                            assert(new_indices.view()[w] == v - 1);
                        } else {
                            assert(referenced_below(prev_view, n - 1, p as int));
                            let w = choose|w: int| 0 <= w < p && #[trigger] prev_view[w] == n - 1;
                            assert(new_indices.view()[w] == n - 1);
                        }
                    }
                    assert forall|m: int| 0 <= m < order@.len() implies #[trigger] referenced_below(new_indices.view(), m, p + 1) by {
                        if m < prev_order.len() {
                            assert(referenced_below(prev_view, m, p as int));
                            let w = choose|w: int| 0 <= w < p && #[trigger] prev_view[w] == m;
                            assert(new_indices.view()[w] == m);
                        } else {
                            assert(new_indices.view()[p as int] == m);
                        }
                    }
                }
            } else {
                proof {
                    assert forall|m: int| 0 <= m < order@.len() implies #[trigger] referenced_below(new_indices.view(), m, p + 1) by {
                        assert(referenced_below(prev_view, m, p as int));
                        let w = choose|w: int| 0 <= w < p && #[trigger] prev_view[w] == m;
                        assert(new_indices.view()[w] == m);
                    }
                }
            }
            p = p + 1;
        }
        proof {
            assert forall|a: int, b: int| 0 <= a < b < order@.len() implies order@[a] != order@[b] by {
                assert(remap@[order@[a] as int] == a);
                assert(remap@[order@[b] as int] == b);
            }
        }
        // Move the referenced values, in their new order, out of the old vector.
        let mut taken: Vec<T> = Vec::new();
        std::mem::swap(&mut taken, &mut self.values);
        let mut slots: Vec<Option<T>> = Vec::new();
        let ghost taken_orig = taken@;
        while taken.len() > 0
            invariant
                taken_orig == old_values,
                taken@ == taken_orig.subrange(0, taken@.len() as int),
                slots@.len() + taken@.len() == taken_orig.len(),
                forall|m: int| 0 <= m < slots@.len() ==> #[trigger] slots@[m] == Some(taken_orig[taken_orig.len() - 1 - m]),
            decreases taken@.len(),
        {
            let v = taken.pop().unwrap();
            slots.push(Some(v));
        }
        let mut new_values: Vec<T> = Vec::new();
        let mut n: usize = 0;
        while n < order.len()
            invariant
                0 <= n <= order@.len(),
                old_len == old_values.len(),
                slots@.len() == old_len,
                new_values@.len() == n,
                forall|m: int| 0 <= m < order@.len() ==> (#[trigger] order@[m]) < old_len,
                forall|a: int, b: int| 0 <= a < b < order@.len() ==> order@[a] != order@[b],
                forall|m: int| 0 <= m < n ==> #[trigger] new_values@[m] == old_values[order@[m] as int],
                forall|m: int| n <= m < order@.len() ==> #[trigger] slots@[old_len - 1 - order@[m]] == Some(
                    old_values[order@[m] as int],
                ),
            decreases order@.len() - n,
        {
            let o = order[n];
            assert(o < old_len);
            let s = old_len - 1 - o;
            let mut slot: Option<T> = None;
            let ghost prev_slots = slots@;
            std::mem::swap(&mut slot, &mut slots[s]);
            proof {
                assert(slot == Some(old_values[order@[n as int] as int]));
                assert forall|m: int| n + 1 <= m < order@.len() implies #[trigger] slots@[old_len - 1 - order@[m]] == Some(
                    old_values[order@[m] as int]) by {
                    assert(order@[m] != order@[n as int]);
                    assert(slots@[old_len - 1 - order@[m]] == prev_slots[old_len - 1 - order@[m]]);
                }
            }
            new_values.push(slot.unwrap());
            n = n + 1;
        }
        let mut table = value_index_table_new();
        let mut m: usize = 0;
        while m < new_values.len()
            invariant
                0 <= m <= new_values@.len(),
            decreases new_values@.len() - m,
        {
            let hash = hash_of(&self.random_state, &new_values[m]);
            value_index_table_insert(&mut table, hash, m);
            m = m + 1;
        }
        let new_len = new_values.len();
        self.indices = new_indices;
        self.values = new_values;
        self.idx_table = table;
        proof {
            assert forall|i: int| 0 <= i < 4096 implies (#[trigger] self.indices_view()[i] == EMPTY_VALUE
                || self.indices_view()[i] < self.values_view().len()) by {
                if old_indices[i] != EMPTY_VALUE {
                    assert(remap@[old_indices[i] as int] != EMPTY_VALUE);
                }
            }
            assert forall|q: IVec3| in_chunk(q) implies #[trigger] self.spec_get(q) == old_values_get(old_indices, old_values, q) by {
                lemma_dense_index_bounds(q.x as int, q.y as int, q.z as int);
                let i = pos_index(q);
                if old_indices[i] != EMPTY_VALUE {
                    let j = old_indices[i] as int;
                    assert(remap@[j] != EMPTY_VALUE);
                    assert(order@[remap@[j] as int] == j);
                }
            }
        }
        old_len - new_len
    }
}

/// The value at `pos` in an indexed storage with the given indices and values.
pub open spec fn old_values_get<T>(indices: Seq<u16>, values: Seq<T>, pos: IVec3) -> Option<T> {
    let i = indices[pos_index(pos)];
    if i == EMPTY_VALUE {
        None
    } else {
        Some(values[i as int])
    }
}

impl<T: Eq + Hash> IndexedChunkStorage<T, ahash::RandomState> {
    /// An empty storage with a randomly seeded hasher builder.
    pub fn new() -> (r: Self)
        ensures
            r.wf(),
            r.values_view().len() == 0,
            forall|p: IVec3| in_chunk(p) ==> #[trigger] r.spec_get(p) is None,
    {
        Self::internal_new(new_random_state())
    }

    /// A storage where every position holds `value`, with a randomly seeded hasher builder.
    pub fn filled(value: T) -> (r: Self)
        ensures
            r.wf(),
            r.values_view() == seq![value],
            forall|p: IVec3| in_chunk(p) ==> #[trigger] r.spec_get(p) == Some(value),
    {
        Self::filled_with_random_state(value, new_random_state())
    }
}

/// Writing a value to an indexed storage and then reading the same position gives the value
/// back; every other position of the chunk keeps its value; clearing a position makes it read
/// as empty.
pub proof fn lemma_indexed_set_get<T: Eq + Hash, S: BuildHasher>(
    before: IndexedChunkStorage<T, S>,
    after: IndexedChunkStorage<T, S>,
    pos: IVec3,
    data: T,
    other: IVec3,
)
    requires
        in_chunk(pos),
        in_chunk(other),
        forall|p: IVec3| in_chunk(p) ==> #[trigger] after.spec_get(p) == (if p == pos {
            Some(data)
        } else {
            before.spec_get(p)
        }),
    ensures
        after.spec_get(pos) == Some(data),
        other != pos ==> after.spec_get(other) == before.spec_get(other),
{
    assert(after.spec_get(pos) == Some(data));
    assert(after.spec_get(other) == (if other == pos { Some(data) } else { before.spec_get(other) }));
}

} // verus!
