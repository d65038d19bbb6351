//! Blocks: full blocks, microblocks, and blocks subdivided into 4x4x4 microblocks.
use vstd::prelude::*;
use crate::math::UVec3;
use crate::face::Face;
use crate::storage::OutOfBounds;

verus! {

/// The identifier of a block variant in the block variant registry.
#[derive(Copy, Clone, Debug, PartialEq, Eq, Hash, Structural)]
pub struct BlockVariantId(pub u32);

impl BlockVariantId {
    /// Build an identifier from its raw value.
    pub fn new(raw: u32) -> (r: BlockVariantId)
        ensures
            r == BlockVariantId(raw),
    {
        BlockVariantId(raw)
    }

    /// The "void" block variant: the default block of a chunk.
    pub fn void() -> (r: BlockVariantId)
        ensures
            r == BlockVariantId(0),
    {
        BlockVariantId(0)
    }

    /// The raw value of this identifier.
    pub fn as_u32(self) -> (r: u32)
        ensures
            r == self.0,
    {
        self.0
    }
}


/// The rotation of a block model: the faces its front and top point to.
#[derive(Copy, Clone, Debug, PartialEq, Eq, Hash, Structural)]
pub struct BlockModelRotation {
    pub front: Face,
    pub top: Face,
}

/// A block that is not subdivided.
#[derive(Copy, Clone, Debug, PartialEq, Eq, Hash, Structural)]
pub struct FullBlock {
    pub rotation: Option<BlockModelRotation>,
    pub id: BlockVariantId,
}

impl FullBlock {
    /// A full block of the given variant, without rotation.
    pub fn new(id: BlockVariantId) -> (r: FullBlock)
        ensures
            r == (FullBlock { rotation: None, id }),
    {
        FullBlock { rotation: None, id }
    }
}

/// One of the 64 microblocks of a subdivided block.
#[derive(Copy, Clone, Debug, PartialEq, Eq, Hash, Structural)]
pub struct Microblock {
    pub rotation: Option<BlockModelRotation>,
    pub id: BlockVariantId,
}

impl Microblock {
    /// A microblock of the given variant, without rotation.
    pub fn new(id: BlockVariantId) -> (r: Microblock)
        ensures
            r == (Microblock { rotation: None, id }),
    {
        Microblock { rotation: None, id }
    }

    /// The full block with the same variant and rotation.
    pub fn as_full_block(&self) -> (r: FullBlock)
        ensures
            r == (FullBlock { rotation: self.rotation, id: self.id }),
    {
        FullBlock { rotation: self.rotation, id: self.id }
    }
}

/// The number of subdivisions of a block along each axis.
pub const SUBDIVISIONS: i32 = 4;
/// The base-2 logarithm of [`SUBDIVISIONS`].
pub const SUBDIVISIONS_LOG2: u32 = 2;
/// [`SUBDIVISIONS`] as a `usize`.
pub const SUBDIVISIONS_USIZE: usize = 4;

/// The flattened index of a microblock position inside a subdivided block.
pub open spec fn sd_index(pos: UVec3) -> int {
    pos.x * 16 + pos.y * 4 + pos.z
}

/// `pos` is a microblock position inside a subdivided block.
pub open spec fn sd_contains(pos: UVec3) -> bool {
    pos.x < 4 && pos.y < 4 && pos.z < 4
}

/// A block subdivided into 4x4x4 microblocks, each with its own variant and rotation.
#[derive(Copy, Clone, Debug, PartialEq, Eq, Hash)]
pub struct SubdividedBlock {
    pub rotations: [Option<BlockModelRotation>; 64],
    pub ids: [BlockVariantId; 64],
}

impl SubdividedBlock {
    /// The microblock at a position, by index.
    pub open spec fn spec_micro(self, i: int) -> Microblock {
        Microblock { rotation: self.rotations@[i], id: self.ids@[i] }
    }

    /// A subdivided block where every microblock is `microblock`.
    pub fn new(microblock: Microblock) -> (r: SubdividedBlock)
        ensures
            forall|i: int| 0 <= i < 64 ==> #[trigger] r.spec_micro(i) == microblock,
    {
        let r = SubdividedBlock { rotations: [microblock.rotation; 64], ids: [microblock.id; 64] };
        assert forall|i: int| 0 <= i < 64 implies #[trigger] r.spec_micro(i) == microblock by {
            assert(r.rotations@[i] == microblock.rotation);
            assert(r.ids@[i] == microblock.id);
        }
        r
    }

    /// Test if a position lies within a subdivided block.
    pub fn contains(pos: UVec3) -> (r: bool)
        ensures
            r == sd_contains(pos),
    {
        pos.x < 4 && pos.y < 4 && pos.z < 4
    }

    /// Every microblock holds the same variant and rotation.
    pub open spec fn spec_is_equichromatic(self) -> bool {
        forall|i: int| 0 <= i < 64 ==> #[trigger] self.spec_micro(i) == self.spec_micro(0)
    }

    /// Test if all microblocks are the same in this block (i.e., it's basically a full block).
    pub fn is_equichromatic(&self) -> (r: bool)
        ensures
            r == self.spec_is_equichromatic(),
    {
        let first_id = self.ids[0];
        let first_rot = self.rotations[0];
        let mut i: usize = 1;
        while i < 64
            invariant
                1 <= i <= 64,
                first_id == self.ids@[0],
                first_rot == self.rotations@[0],
                forall|j: int| 0 <= j < i ==> #[trigger] self.spec_micro(j) == self.spec_micro(0),
            decreases 64 - i,
        {
            if self.ids[i] != first_id || self.rotations[i] != first_rot {
                assert(self.spec_micro(i as int) != self.spec_micro(0));
                return false;
            }
            i = i + 1;
        }
        true
    }

    /// Try to "merge" all the microblocks into a full block. Returns `None` if the microblocks
    /// were not all identical.
    pub fn coalesce(&self) -> (r: Option<FullBlock>)
        ensures
            r is Some <==> self.spec_is_equichromatic(),
            r matches Some(b) ==> b == (FullBlock { rotation: self.rotations@[0], id: self.ids@[0] }),
    {
        if self.is_equichromatic() {
            Some(FullBlock { rotation: self.rotations[0], id: self.ids[0] })
        } else {
            None
        }
    }

    /// Get the microblock at the given position. Fails if the position is out of bounds.
    pub fn get(&self, pos: UVec3) -> (r: Result<Microblock, OutOfBounds>)
        ensures
            r is Ok <==> sd_contains(pos),
            r matches Ok(m) ==> m == self.spec_micro(sd_index(pos)),
    {
        if !Self::contains(pos) {
            return Err(OutOfBounds);
        }
        let i = (pos.x * 16 + pos.y * 4 + pos.z) as usize;
        Ok(Microblock { rotation: self.rotations[i], id: self.ids[i] })
    }

    /// Set the microblock at the given position, returning the one it replaces. Fails, changing
    /// nothing, if the position is out of bounds.
    pub fn set(&mut self, pos: UVec3, mblock: Microblock) -> (r: Result<Microblock, OutOfBounds>)
        ensures
            r is Ok <==> sd_contains(pos),
            r is Err ==> *final(self) == *old(self),
            r matches Ok(m) ==> m == old(self).spec_micro(sd_index(pos)),
            r is Ok ==> forall|i: int| 0 <= i < 64 ==> #[trigger] final(self).spec_micro(i) == (if i == sd_index(pos) {
                mblock
            } else {
                old(self).spec_micro(i)
            }),
    {
        if !Self::contains(pos) {
            return Err(OutOfBounds);
        }
        let i = (pos.x * 16 + pos.y * 4 + pos.z) as usize;
        let old_micro = Microblock { rotation: self.rotations[i], id: self.ids[i] };
        self.rotations[i] = mblock.rotation;
        self.ids[i] = mblock.id;
        Ok(old_micro)
    }
}

/// A block in a chunk: either a full block or a subdivided one.
#[derive(Copy, Clone, Debug, PartialEq, Eq, Hash)]
pub enum BlockVoxel {
    Full(FullBlock),
    Subdivided(SubdividedBlock),
}

impl BlockVoxel {
    /// A full block of the given variant, without rotation.
    pub fn new_full(block: BlockVariantId) -> (r: BlockVoxel)
        ensures
            r == BlockVoxel::Full(FullBlock { rotation: None, id: block }),
    {
        BlockVoxel::Full(FullBlock { rotation: None, id: block })
    }

    /// The variant of the microblock at a microblock position inside this block: the block's own
    /// variant for a full block.
    pub open spec fn spec_micro_id(self, pos: UVec3) -> BlockVariantId {
        match self {
            BlockVoxel::Full(b) => b.id,
            BlockVoxel::Subdivided(s) => s.ids@[sd_index(pos)],
        }
    }
}

/// The block read from a chunk: a full block, or a reference to a subdivided one.
#[derive(Copy, Clone, Debug, PartialEq, Eq)]
pub enum CvoBlock<'a> {
    Full(FullBlock),
    Subdivided(&'a SubdividedBlock),
}

impl<'a> CvoBlock<'a> {
    /// The microblock at a position inside this block: for a full block, a microblock with the
    /// block's variant and rotation. Fails if the position is out of bounds.
    pub fn get_microblock(&self, pos: UVec3) -> (r: Result<Microblock, OutOfBounds>)
        ensures
            r is Ok <==> sd_contains(pos),
            r matches Ok(m) ==> m == (match *self {
                CvoBlock::Full(b) => Microblock { rotation: b.rotation, id: b.id },
                CvoBlock::Subdivided(s) => s.spec_micro(sd_index(pos)),
            }),
    {
        if SubdividedBlock::contains(pos) {
            Ok(match self {
                CvoBlock::Full(block) => Microblock { rotation: block.rotation, id: block.id },
                CvoBlock::Subdivided(block) => match block.get(pos) {
                    Ok(m) => m,
                    Err(_) => Microblock::new(BlockVariantId::void()),
                },
            })
        } else {
            Err(OutOfBounds)
        }
    }
}

/// The result of reading a block from a chunk.
#[derive(Copy, Clone, Debug, PartialEq, Eq)]
pub struct ChunkVoxelOutput<'a> {
    pub block: CvoBlock<'a>,
}

impl<'a> ChunkVoxelOutput<'a> {
    /// The output for a block: full blocks are copied, subdivided blocks are borrowed.
    pub fn new(block: &'a BlockVoxel) -> (r: ChunkVoxelOutput<'a>)
        ensures
            r.block == (match *block {
                BlockVoxel::Full(b) => CvoBlock::Full(b),
                BlockVoxel::Subdivided(s) => CvoBlock::Subdivided(&s),
            }),
    {
        match block {
            BlockVoxel::Full(b) => ChunkVoxelOutput { block: CvoBlock::Full(*b) },
            BlockVoxel::Subdivided(subdiv) => ChunkVoxelOutput { block: CvoBlock::Subdivided(subdiv) },
        }
    }
}

/// The data written to a block of a chunk.
#[derive(Copy, Clone, Debug)]
pub struct ChunkVoxelInput {
    pub block: BlockVoxel,
}

impl ChunkVoxelInput {
    pub fn new(block: BlockVoxel) -> (r: ChunkVoxelInput)
        ensures
            r.block == block,
    {
        ChunkVoxelInput { block }
    }
}

/// The result of reading a microblock position: the full block there, or the microblock.
#[derive(Copy, Clone, PartialEq, Eq, Hash, Debug, Structural)]
pub enum SubdivReadAccessOutput {
    Full(FullBlock),
    Micro(Microblock),
}

/// Dictates what will happen when writing a microblock to a position occupied by a
/// non-subdividable full block.
#[derive(Copy, Clone, Debug, PartialEq, Eq, Hash, Structural)]
pub enum MbWriteBehaviour {
    /// The full block will be entirely replaced with a subdivided block filled with a default
    /// value, with one of its microblocks set to the provided microblock.
    Replace,
    /// The write is ignored completely.
    Ignore,
}

/// What reading a microblock of `block` at `pos_sd` (a position inside the block) gives: the
/// full block itself, or the microblock of the subdivided block.
pub fn subdiv_read_mb(block: &CvoBlock, pos_sd: UVec3) -> (r: SubdivReadAccessOutput)
    requires
        sd_contains(pos_sd),
    ensures
        r == (match *block {
            CvoBlock::Full(b) => SubdivReadAccessOutput::Full(b),
            CvoBlock::Subdivided(s) => SubdivReadAccessOutput::Micro(s.spec_micro(sd_index(pos_sd))),
        }),
{
    match block {
        CvoBlock::Full(b) => SubdivReadAccessOutput::Full(*b),
        CvoBlock::Subdivided(s) => match s.get(pos_sd) {
            Ok(m) => SubdivReadAccessOutput::Micro(m),
            Err(_) => SubdivReadAccessOutput::Micro(Microblock::new(BlockVariantId::void())),
        },
    }
}

/// The block to write when setting the microblock at `pos_sd` inside `current`, or `None` when
/// the write is ignored:
/// - a subdividable full block becomes a subdivided block filled with it, with the microblock set;
/// - a subdivided block gets the microblock set;
/// - a non-subdividable full block is ignored, or (with [`MbWriteBehaviour::Replace`]) replaced by a
///   subdivided block filled with `default`, with the microblock set.
pub fn subdiv_write_mb(
    current: &CvoBlock,
    subdividable: bool,
    pos_sd: UVec3,
    microblock: Microblock,
    behaviour: MbWriteBehaviour,
    default: Microblock,
) -> (r: Option<BlockVoxel>)
    requires
        sd_contains(pos_sd),
    ensures
        r is None <==> (current is Full && !subdividable && behaviour == MbWriteBehaviour::Ignore),
        r matches Some(v) ==> v is Subdivided && forall|i: int| 0 <= i < 64 ==> #[trigger] v->Subdivided_0.spec_micro(i) == (if i
            == sd_index(pos_sd) {
            microblock
        } else {
            match *current {
                CvoBlock::Full(b) => if subdividable {
                    Microblock { rotation: b.rotation, id: b.id }
                } else {
                    default
                },
                CvoBlock::Subdivided(s) => s.spec_micro(i),
            }
        }),
{
    match current {
        CvoBlock::Full(full) => {
            if subdividable {
                let filling = Microblock { rotation: full.rotation, id: full.id };
                let mut subdiv = SubdividedBlock::new(filling);
                let _ = subdiv.set(pos_sd, microblock);
                Some(BlockVoxel::Subdivided(subdiv))
            } else {
                match behaviour {
                    MbWriteBehaviour::Ignore => None,
                    MbWriteBehaviour::Replace => {
                        let mut subdiv = SubdividedBlock::new(default);
                        let _ = subdiv.set(pos_sd, microblock);
                        Some(BlockVoxel::Subdivided(subdiv))
                    },
                }
            }
        },
        CvoBlock::Subdivided(s) => {
            let mut subdiv = **s;
            let _ = subdiv.set(pos_sd, microblock);
            Some(BlockVoxel::Subdivided(subdiv))
        },
    }
}

} // verus!
