//! A chunk voxel container that only allocates its dense storage once something is written.
use vstd::prelude::*;
use crate::math::IVec3;
use crate::storage::{ChunkAccessError, DenseChunkStorage, in_chunk, pos_index, chunk_contains};

verus! {

/// A chunk's voxel data: a dense storage, or nothing yet.
#[derive(Clone)]
pub enum RawChunkVoxelContainer<T> {
    Filled(Box<DenseChunkStorage<T>>),
    Empty,
}

impl<T: Copy> RawChunkVoxelContainer<T> {
    pub open spec fn wf(&self) -> bool {
        match self {
            RawChunkVoxelContainer::Filled(b) => b.wf(),
            RawChunkVoxelContainer::Empty => true,
        }
    }

    /// The value at every position (by [`pos_index`]) when an empty container stands for a
    /// chunk filled with `default`.
    pub open spec fn auto_view(&self, default: T) -> Seq<T> {
        match self {
            RawChunkVoxelContainer::Filled(b) => b.view(),
            RawChunkVoxelContainer::Empty => Seq::new(4096, |i: int| default),
        }
    }

    /// A container holding the given storage.
    pub fn filled(data: DenseChunkStorage<T>) -> (r: RawChunkVoxelContainer<T>)
        ensures
            r == RawChunkVoxelContainer::Filled(Box::new(data)),
    {
        RawChunkVoxelContainer::Filled(Box::new(data))
    }

    /// A container holding nothing.
    pub fn empty() -> (r: RawChunkVoxelContainer<T>)
        ensures
            r is Empty,
    {
        RawChunkVoxelContainer::Empty
    }

    /// Replace whatever the container holds with the given storage.
    pub fn fill(&mut self, data: DenseChunkStorage<T>)
        ensures
            *final(self) == RawChunkVoxelContainer::Filled(Box::new(data)),
    {
        *self = RawChunkVoxelContainer::Filled(Box::new(data));
    }

    /// Write to the held storage; an empty container is not initialized.
    pub fn internal_set(&mut self, pos: IVec3, data: T) -> (r: Result<(), ChunkAccessError>)
        requires
            old(self).wf(),
        ensures
            final(self).wf(),
            (*old(self)) is Empty ==> r == Err::<(), ChunkAccessError>(ChunkAccessError::NotInitialized) && *final(self)
                == *old(self),
            (*old(self)) is Filled ==> (r is Ok <==> in_chunk(pos)) && (*final(self)) is Filled,
            (*old(self)) is Filled && r is Ok ==> forall|d: T| #[trigger] final(self).auto_view(d) == old(self).auto_view(d).update(
                pos_index(pos),
                data,
            ),
            (*old(self)) is Filled && r is Err ==> r == Err::<(), ChunkAccessError>(ChunkAccessError::OutOfBounds)
                && forall|d: T| #[trigger] final(self).auto_view(d) == old(self).auto_view(d),
    {
        let mut taken = RawChunkVoxelContainer::Empty;
        std::mem::swap(self, &mut taken);
        match taken {
            RawChunkVoxelContainer::Empty => Err(ChunkAccessError::NotInitialized),
            RawChunkVoxelContainer::Filled(b) => {
                let mut storage = *b;
                let r = storage.set(pos, data);
                *self = RawChunkVoxelContainer::Filled(Box::new(storage));
                r
            },
        }
    }

    /// Read from the held storage; an empty container is not initialized.
    pub fn internal_get(&self, pos: IVec3) -> (r: Result<T, ChunkAccessError>)
        requires
            self.wf(),
        ensures
            self is Empty ==> r == Err::<T, ChunkAccessError>(ChunkAccessError::NotInitialized),
            self is Filled ==> (r is Ok <==> in_chunk(pos)),
            self is Filled && !in_chunk(pos) ==> r == Err::<T, ChunkAccessError>(ChunkAccessError::OutOfBounds),
            self is Filled ==> (r matches Ok(v) ==> forall|d: T| v == #[trigger] self.auto_view(d)[pos_index(pos)]),
    {
        match self {
            RawChunkVoxelContainer::Empty => Err(ChunkAccessError::NotInitialized),
            RawChunkVoxelContainer::Filled(b) => b.get(pos),
        }
    }

    /// Read a position as if an empty container held `default` everywhere. Positions outside
    /// of the chunk are out of bounds.
    pub fn auto_get(&self, default: T, pos: IVec3) -> (r: Result<T, ChunkAccessError>)
        requires
            self.wf(),
        ensures
            r is Ok <==> in_chunk(pos),
            r is Err ==> r == Err::<T, ChunkAccessError>(ChunkAccessError::OutOfBounds),
            r matches Ok(v) ==> v == self.auto_view(default)[pos_index(pos)],
    {
        if !chunk_contains(pos) {
            return Err(ChunkAccessError::OutOfBounds);
        }
        match self {
            RawChunkVoxelContainer::Empty => Ok(default),
            RawChunkVoxelContainer::Filled(storage) => storage.get(pos),
        }
    }

    /// Write a position, first filling an empty container with a storage holding `default`
    /// everywhere. Positions outside of the chunk are out of bounds, and then nothing changes.
    pub fn auto_set(&mut self, default: T, pos: IVec3, data: T) -> (r: Result<(), ChunkAccessError>)
        requires
            old(self).wf(),
        ensures
            final(self).wf(),
            r is Ok <==> in_chunk(pos),
            r is Err ==> r == Err::<(), ChunkAccessError>(ChunkAccessError::OutOfBounds) && *final(self) == *old(self),
            r is Ok ==> (*final(self)) is Filled && final(self).auto_view(default) == old(self).auto_view(default).update(
                pos_index(pos),
                data,
            ),
    {
        if !chunk_contains(pos) {
            return Err(ChunkAccessError::OutOfBounds);
        }
        let mut taken = RawChunkVoxelContainer::Empty;
        std::mem::swap(self, &mut taken);
        match taken {
            RawChunkVoxelContainer::Empty => {
                let mut storage = DenseChunkStorage::new(default);
                let r = storage.set(pos, data);
                match r {
                    Ok(()) => {
                        proof {
                            assert(old(self).auto_view(default).update(pos_index(pos), data) =~= storage.view());
                        }
                        *self = RawChunkVoxelContainer::Filled(Box::new(storage));
                        Ok(())
                    },
                    Err(e) => Err(e),
                }
            },
            RawChunkVoxelContainer::Filled(b) => {
                let mut storage = *b;
                let r = storage.set(pos, data);
                *self = RawChunkVoxelContainer::Filled(Box::new(storage));
                r
            },
        }
    }
}

/// Through the auto access, reading a position gives back what was last written there, and
/// writing one position leaves every other position as it was.
pub proof fn lemma_auto_write_then_read<T>(before: Seq<T>, pos: IVec3, data: T, other: IVec3)
    requires
        before.len() == 4096,
        in_chunk(pos),
        in_chunk(other),
    ensures
        before.update(pos_index(pos), data)[pos_index(pos)] == data,
        other != pos ==> before.update(pos_index(pos), data)[pos_index(other)] == before[pos_index(other)],
{
    crate::storage::lemma_dense_set_get(before, before.update(pos_index(pos), data), pos, data, other);
}

} // verus!
