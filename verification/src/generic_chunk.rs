//! Read access to chunk-like data, and a mock chunk that is a plain 3D array of blocks.
use vstd::prelude::*;
use crate::math::{IVec3, UVec3, ivec3, uvec3};
use crate::block::{BlockVariantId, BlockVoxel, CvoBlock, FullBlock, MbWriteBehaviour, Microblock, subdiv_write_mb, sd_index};
use crate::bounding_box::BoundingBox;
use crate::storage::{DenseChunkStorage, in_chunk, pos_index, chunk_contains};

verus! {

/// `pos` lies in a chunk at microblock resolution, `[0, 0, 0]..[64, 64, 64]`.
pub open spec fn in_chunk_mb(pos: IVec3) -> bool {
    &&& 0 <= pos.x < 64
    &&& 0 <= pos.y < 64
    &&& 0 <= pos.z < 64
}

/// The full-block position containing a microblock position of a chunk.
pub open spec fn mb_block_pos(mb: IVec3) -> IVec3 {
    IVec3 { x: (mb.x / 4) as i32, y: (mb.y / 4) as i32, z: (mb.z / 4) as i32 }
}

/// The position of a microblock inside its full block.
pub open spec fn mb_sub_pos(mb: IVec3) -> UVec3 {
    UVec3 { x: (mb.x % 4) as u32, y: (mb.y % 4) as u32, z: (mb.z % 4) as u32 }
}

/// Implemented by error types that can represent an "out-of-bounds" error.
pub trait OutOfBoundsError {
    spec fn spec_is_out_of_bounds(&self) -> bool;

    /// Returns `true` if this error represents an out-of-bounds error.
    fn is_out_of_bounds(&self) -> (r: bool)
        ensures
            r == self.spec_is_out_of_bounds(),
    ;
}

/// Generalizes read access to a chunk, so that data can play the role of a chunk without
/// actually being one (e.g. a mock chunk in tests).
pub trait GenericChunkReadAccess {
    /// The error returned by getters. Must be able to represent an out-of-bounds error.
    type Error: OutOfBoundsError;

    spec fn spec_get(&self, ls_pos: IVec3) -> Result<Option<BlockVariantId>, Self::Error>;

    spec fn spec_get_mb(&self, mb_pos: IVec3) -> Result<BlockVariantId, Self::Error>;

    /// Get a full-block from the chunk, `None` if the block at the position is not a
    /// full-block. Positions outside of the chunk (16x16x16) are rejected with an out-of-bounds error.
    fn get(&self, ls_pos: IVec3) -> (r: Result<Option<BlockVariantId>, Self::Error>)
        ensures
            r == self.spec_get(ls_pos),
            !in_chunk(ls_pos) ==> (r matches Err(e) && e.spec_is_out_of_bounds()),
    ;

    /// Get a microblock from the chunk. Positions outside of the subdivided chunk (64x64x64)
    /// are rejected with an out-of-bounds error.
    fn get_mb(&self, mb_pos: IVec3) -> (r: Result<BlockVariantId, Self::Error>)
        ensures
            r == self.spec_get_mb(mb_pos),
            !in_chunk_mb(mb_pos) ==> (r matches Err(e) && e.spec_is_out_of_bounds()),
    ;
}

/// Error returned by accesses to chunk data.
#[derive(Copy, Clone, Debug, PartialEq, Eq, Structural)]
pub enum ChunkDataError {
    /// The position was outside of the chunk.
    OutOfBounds,
    /// The block at the position was not a full block.
    NonFullBlock,
}

impl OutOfBoundsError for ChunkDataError {
    open spec fn spec_is_out_of_bounds(&self) -> bool {
        *self == ChunkDataError::OutOfBounds
    }

    fn is_out_of_bounds(&self) -> (r: bool) {
        match self {
            ChunkDataError::OutOfBounds => true,
            ChunkDataError::NonFullBlock => false,
        }
    }
}

/// A mock chunk that behaves like a regular chunk but can be trivially initialized and has no
/// relationship to a chunk manager: a 3D array of blocks.
#[derive(Clone)]
pub struct MockChunk {
    data: DenseChunkStorage<BlockVoxel>,
}

impl MockChunk {
    pub closed spec fn spec_data(&self) -> DenseChunkStorage<BlockVoxel> {
        self.data
    }

    /// The block at a position of the chunk.
    pub open spec fn spec_block(&self, pos: IVec3) -> BlockVoxel {
        self.spec_data().view()[pos_index(pos)]
    }

    pub open spec fn wf(&self) -> bool {
        self.spec_data().wf()
    }

    /// A mock chunk filled with void blocks.
    pub fn new() -> (r: MockChunk)
        ensures
            r.wf(),
            forall|p: IVec3| in_chunk(p) ==> #[trigger] r.spec_block(p) == BlockVoxel::Full(FullBlock { rotation: None, id: BlockVariantId(0) }),
    {
        let r = MockChunk { data: DenseChunkStorage::new(BlockVoxel::new_full(BlockVariantId::void())) };
        proof {
            assert forall|p: IVec3| in_chunk(p) implies #[trigger] r.spec_block(p) == BlockVoxel::Full(FullBlock { rotation: None, id: BlockVariantId(0) }) by {
                assert(0 <= pos_index(p) < 4096);
            }
        }
        r
    }

    /// Set the block at a position to a full block of the given variant. Fails, changing
    /// nothing, if the position is outside of the chunk.
    pub fn set(&mut self, ls_pos: IVec3, data: BlockVariantId) -> (r: Result<(), ChunkDataError>)
        requires
            old(self).wf(),
        ensures
            final(self).wf(),
            r is Ok <==> in_chunk(ls_pos),
            r is Err ==> r == Err::<(), ChunkDataError>(ChunkDataError::OutOfBounds) && *final(self) == *old(self),
            r is Ok ==> forall|p: IVec3| in_chunk(p) ==> #[trigger] final(self).spec_block(p) == (if p == ls_pos {
                BlockVoxel::Full(FullBlock { rotation: None, id: data })
            } else {
                old(self).spec_block(p)
            }),
    {
        if !chunk_contains(ls_pos) {
            return Err(ChunkDataError::OutOfBounds);
        }
        let ghost before = *self;
        let _ = self.data.set(ls_pos, BlockVoxel::new_full(data));
        proof {
            assert forall|p: IVec3| in_chunk(p) implies #[trigger] self.spec_block(p) == (if p == ls_pos {
                BlockVoxel::Full(FullBlock { rotation: None, id: data })
            } else {
                before.spec_block(p)
            }) by {
                crate::storage::lemma_dense_set_get(before.spec_data().view(), self.spec_data().view(), ls_pos, BlockVoxel::Full(FullBlock { rotation: None, id: data }), p);
            }
        }
        Ok(())
    }

    /// Set the microblock at a microblock position to the given variant, subdividing the
    /// block there if it is a full block. Fails, changing nothing, if the position is outside
    /// of the chunk.
    pub fn set_mb(&mut self, mb_pos: IVec3, data: BlockVariantId) -> (r: Result<(), ChunkDataError>)
        requires
            old(self).wf(),
        ensures
            final(self).wf(),
            r is Ok <==> in_chunk_mb(mb_pos),
            r is Err ==> r == Err::<(), ChunkDataError>(ChunkDataError::OutOfBounds) && *final(self) == *old(self),
            r is Ok ==> forall|q: IVec3| in_chunk_mb(q) ==> #[trigger] final(self).spec_get_mb_id(q) == (if q == mb_pos {
                data
            } else {
                old(self).spec_get_mb_id(q)
            }),
            r is Ok ==> final(self).spec_block(mb_block_pos(mb_pos)) is Subdivided,
            r is Ok ==> forall|p: IVec3| in_chunk(p) && p != mb_block_pos(mb_pos) ==> #[trigger] final(self).spec_block(p)
                == old(self).spec_block(p),
    {
        if !(mb_pos.x >= 0 && mb_pos.y >= 0 && mb_pos.z >= 0 && mb_pos.x < 64 && mb_pos.y < 64 && mb_pos.z < 64) {
            return Err(ChunkDataError::OutOfBounds);
        }
        let pos = ivec3(mb_pos.x / 4, mb_pos.y / 4, mb_pos.z / 4);
        let sd = uvec3((mb_pos.x % 4) as u32, (mb_pos.y % 4) as u32, (mb_pos.z % 4) as u32);
        let ghost before = *self;
        proof {
            assert(0 <= pos_index(pos) < 4096);
        }
        let current = match self.data.get(pos) {
            Ok(b) => b,
            Err(_) => BlockVoxel::new_full(BlockVariantId::void()),
        };
        let cvo = match &current {
            BlockVoxel::Full(b) => CvoBlock::Full(*b),
            BlockVoxel::Subdivided(s) => CvoBlock::Subdivided(s),
        };
        let written = subdiv_write_mb(&cvo, true, sd, Microblock::new(data), MbWriteBehaviour::Ignore, Microblock::new(BlockVariantId::void()));
        match written {
            Some(v) => {
                let _ = self.data.set(pos, v);
            },
            None => {},
        }
        proof {
            assert forall|q: IVec3| in_chunk_mb(q) implies #[trigger] self.spec_get_mb_id(q) == (if q == mb_pos {
                data
            } else {
                before.spec_get_mb_id(q)
            }) by {
                let qp = mb_block_pos(q);
                assert(pos == mb_block_pos(mb_pos));
                assert(sd == mb_sub_pos(mb_pos));
                assert(current == before.spec_block(pos));
                assert(written is Some);
                crate::storage::lemma_dense_set_get(before.spec_data().view(), self.spec_data().view(), pos, written.unwrap(), qp);
                if qp == pos {
                    let v = written.unwrap()->Subdivided_0;
                    let i = sd_index(mb_sub_pos(q));
                    assert(0 <= i < 64);
                    assert(v.spec_micro(i) == v.spec_micro(i));
                    assert(self.spec_block(qp) == written.unwrap());
                    assert(self.spec_get_mb_id(q) == v.ids@[i]);
                    if q != mb_pos {
                        assert(sd_index(mb_sub_pos(q)) != sd_index(mb_sub_pos(mb_pos)));
                        assert(v.spec_micro(i).id == v.ids@[i]);
                        match current {
                            BlockVoxel::Full(b) => {
                                assert(cvo == CvoBlock::Full(b));
                                assert(v.spec_micro(i) == Microblock { rotation: b.rotation, id: b.id });
                            },
                            BlockVoxel::Subdivided(sb) => {
                                assert(cvo == CvoBlock::Subdivided(&sb));
                                assert(v.spec_micro(i) == sb.spec_micro(i));
                            },
                        }
                        assert(before.spec_get_mb_id(q) == v.ids@[i]);
                    } else {
                        assert(v.spec_micro(sd_index(sd)).id == data);
                    }
                }
            }
            crate::storage::lemma_dense_set_get(before.spec_data().view(), self.spec_data().view(), pos, written.unwrap(), pos);
            assert forall|p: IVec3| in_chunk(p) && p != mb_block_pos(mb_pos) implies #[trigger] self.spec_block(p)
                == before.spec_block(p) by {
                crate::storage::lemma_dense_set_get(before.spec_data().view(), self.spec_data().view(), pos, written.unwrap(), p);
            }
        }
        Ok(())
    }

    /// A write of a microblock at `mb_pos` takes effect: the block there is subdivided already, or
    /// is a full block of one of the `subdividable` variants.
    pub open spec fn spec_mb_writable(&self, mb_pos: IVec3, subdividable: Seq<BlockVariantId>) -> bool {
        match self.spec_block(mb_block_pos(mb_pos)) {
            BlockVoxel::Full(b) => subdividable.contains(b.id),
            BlockVoxel::Subdivided(_) => true,
        }
    }

    /// Write a microblock the way a subdividing access that ignores writes into
    /// non-subdividable blocks ([`MbWriteBehaviour::Ignore`]) does: a full block of one of the
    /// `subdividable` variants is subdivided first, a subdivided block gets the microblock set,
    /// and a write into a full block of any other variant changes nothing. Fails, changing
    /// nothing, if the position is outside of the chunk.
    pub fn set_mb_ignoring(&mut self, mb_pos: IVec3, data: BlockVariantId, subdividable: &Vec<BlockVariantId>) -> (r: Result<
        (),
        ChunkDataError,
    >)
        requires
            old(self).wf(),
        ensures
            final(self).wf(),
            r is Ok <==> in_chunk_mb(mb_pos),
            r is Err ==> r == Err::<(), ChunkDataError>(ChunkDataError::OutOfBounds) && *final(self) == *old(self),
            r is Ok && !old(self).spec_mb_writable(mb_pos, subdividable@) ==> *final(self) == *old(self),
            r is Ok && old(self).spec_mb_writable(mb_pos, subdividable@) ==> forall|q: IVec3|
                in_chunk_mb(q) ==> #[trigger] final(self).spec_get_mb_id(q) == (if q == mb_pos {
                    data
                } else {
                    old(self).spec_get_mb_id(q)
                }),
            r is Ok && old(self).spec_mb_writable(mb_pos, subdividable@) ==> final(self).spec_block(mb_block_pos(mb_pos)) is Subdivided,
            r is Ok ==> forall|p: IVec3| in_chunk(p) && p != mb_block_pos(mb_pos) ==> #[trigger] final(self).spec_block(p)
                == old(self).spec_block(p),
    {
        if !(mb_pos.x >= 0 && mb_pos.y >= 0 && mb_pos.z >= 0 && mb_pos.x < 64 && mb_pos.y < 64 && mb_pos.z < 64) {
            return Err(ChunkDataError::OutOfBounds);
        }
        let pos = ivec3(mb_pos.x / 4, mb_pos.y / 4, mb_pos.z / 4);
        proof {
            assert(0 <= pos_index(pos) < 4096);
            assert(pos == mb_block_pos(mb_pos));
        }
        let writable = match self.data.get(pos) {
            Ok(BlockVoxel::Full(b)) => {
                let mut found = false;
                let mut i: usize = 0;
                while i < subdividable.len()
                    invariant
                        0 <= i <= subdividable@.len(),
                        found == exists|j: int| 0 <= j < i && subdividable@[j] == b.id,
                    decreases subdividable@.len() - i,
                {
                    if subdividable[i].0 == b.id.0 {
                        found = true;
                    }
                    i = i + 1;
                }
                found
            },
            Ok(BlockVoxel::Subdivided(_)) => true,
            Err(_) => true,
        };
        if writable {
            self.set_mb(mb_pos, data)
        } else {
            Ok(())
        }
    }

    /// The variant of the microblock at a microblock position of the chunk.
    pub open spec fn spec_get_mb_id(&self, mb_pos: IVec3) -> BlockVariantId {
        self.spec_block(mb_block_pos(mb_pos)).spec_micro_id(mb_sub_pos(mb_pos))
    }

    /// Fill every position of a region of the chunk with full blocks of the given variant.
    /// Fails, changing nothing, if the region is not inside the chunk.
    pub fn fill_region(&mut self, region: BoundingBox, data: BlockVariantId) -> (r: Result<(), ChunkDataError>)
        requires
            old(self).wf(),
        ensures
            final(self).wf(),
            r is Ok <==> (region.min.x >= 0 && region.min.y >= 0 && region.min.z >= 0 && region.max.x <= 16
                && region.max.y <= 16 && region.max.z <= 16),
            r is Err ==> *final(self) == *old(self),
            r is Ok ==> forall|p: IVec3| in_chunk(p) ==> #[trigger] final(self).spec_block(p) == (if region.spec_contains(p) {
                BlockVoxel::Full(FullBlock { rotation: None, id: data })
            } else {
                old(self).spec_block(p)
            }),
    {
        if !(region.min.x >= 0 && region.min.y >= 0 && region.min.z >= 0 && region.max.x <= 16 && region.max.y <= 16
            && region.max.z <= 16) {
            return Err(ChunkDataError::OutOfBounds);
        }
        let ghost before = *self;
        let filled = BlockVoxel::Full(FullBlock { rotation: None, id: data });
        let mut x = region.min.x;
        while x < region.max.x
            invariant
                self.wf(),
                0 <= region.min.x <= x,
                x <= region.max.x || region.max.x <= region.min.x,
                region.max.x <= 16,
                region.min.y >= 0 && region.max.y <= 16,
                region.min.z >= 0 && region.max.z <= 16,
                filled == BlockVoxel::Full(FullBlock { rotation: None, id: data }),
                forall|p: IVec3| in_chunk(p) ==> #[trigger] self.spec_block(p) == (if region.spec_contains(p) && p.x < x {
                    filled
                } else {
                    before.spec_block(p)
                }),
            decreases region.max.x - x,
        {
            let mut y = region.min.y;
            while y < region.max.y
                invariant
                    self.wf(),
                    0 <= region.min.x <= x < region.max.x <= 16,
                    0 <= region.min.y <= y,
                    y <= region.max.y || region.max.y <= region.min.y,
                    region.max.y <= 16,
                    region.min.z >= 0 && region.max.z <= 16,
                    filled == BlockVoxel::Full(FullBlock { rotation: None, id: data }),
                    forall|p: IVec3| in_chunk(p) ==> #[trigger] self.spec_block(p) == (if region.spec_contains(p) && (p.x < x
                        || (p.x == x && p.y < y)) {
                        filled
                    } else {
                        before.spec_block(p)
                    }),
                decreases region.max.y - y,
            {
                let mut z = region.min.z;
                while z < region.max.z
                    invariant
                        self.wf(),
                        0 <= region.min.x <= x < region.max.x <= 16,
                        0 <= region.min.y <= y < region.max.y <= 16,
                        0 <= region.min.z <= z,
                        z <= region.max.z || region.max.z <= region.min.z,
                        region.max.z <= 16,
                        filled == BlockVoxel::Full(FullBlock { rotation: None, id: data }),
                        forall|p: IVec3| in_chunk(p) ==> #[trigger] self.spec_block(p) == (if region.spec_contains(p) && (p.x
                            < x || (p.x == x && p.y < y) || (p.x == x && p.y == y && p.z < z)) {
                            filled
                        } else {
                            before.spec_block(p)
                        }),
                    decreases region.max.z - z,
                {
                    let _ = self.set(ivec3(x, y, z), data);
                    z = z + 1;
                }
                y = y + 1;
            }
            x = x + 1;
        }
        Ok(())
    }
}

impl GenericChunkReadAccess for MockChunk {
    type Error = ChunkDataError;

    open spec fn spec_get(&self, ls_pos: IVec3) -> Result<Option<BlockVariantId>, ChunkDataError> {
        if !in_chunk(ls_pos) || !self.wf() {
            Err(ChunkDataError::OutOfBounds)
        } else {
            match self.spec_block(ls_pos) {
                BlockVoxel::Full(b) => Ok(Some(b.id)),
                BlockVoxel::Subdivided(_) => Ok(None),
            }
        }
    }

    open spec fn spec_get_mb(&self, mb_pos: IVec3) -> Result<BlockVariantId, ChunkDataError> {
        if !in_chunk_mb(mb_pos) || !self.wf() {
            Err(ChunkDataError::OutOfBounds)
        } else {
            Ok(self.spec_get_mb_id(mb_pos))
        }
    }

    fn get(&self, ls_pos: IVec3) -> (r: Result<Option<BlockVariantId>, ChunkDataError>) {
        if !chunk_contains(ls_pos) || self.data.data_len() != 4096 {
            return Err(ChunkDataError::OutOfBounds);
        }
        match self.data.get(ls_pos) {
            Ok(BlockVoxel::Full(b)) => Ok(Some(b.id)),
            Ok(BlockVoxel::Subdivided(_)) => Ok(None),
            Err(_) => Err(ChunkDataError::OutOfBounds),
        }
    }

    fn get_mb(&self, mb_pos: IVec3) -> (r: Result<BlockVariantId, ChunkDataError>) {
        if !(mb_pos.x >= 0 && mb_pos.y >= 0 && mb_pos.z >= 0 && mb_pos.x < 64 && mb_pos.y < 64 && mb_pos.z < 64)
            || self.data.data_len() != 4096 {
            return Err(ChunkDataError::OutOfBounds);
        }
        let pos = ivec3(mb_pos.x / 4, mb_pos.y / 4, mb_pos.z / 4);
        let sd = uvec3((mb_pos.x % 4) as u32, (mb_pos.y % 4) as u32, (mb_pos.z % 4) as u32);
        match self.data.get(pos) {
            Ok(BlockVoxel::Full(b)) => Ok(b.id),
            Ok(BlockVoxel::Subdivided(s)) => {
                let i = (sd.x * 16 + sd.y * 4 + sd.z) as usize;
                Ok(s.ids[i])
            },
            Err(_) => Err(ChunkDataError::OutOfBounds),
        }
    }
}

} // verus!
