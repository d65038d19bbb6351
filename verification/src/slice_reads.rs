//! Reading the blocks of a chunk slice and the blocks just above it, which may lie in a
//! neighboring chunk.
use vstd::prelude::*;
use crate::math::{IVec2, IVec3};
use crate::face::Face;
use crate::block::BlockVariantId;
use crate::generic_chunk::GenericChunkReadAccess;
use crate::neighbors::{Neighbors, NeighborReadError, is_in_bounds_3d};
use crate::storage::in_chunk;
use crate::transformations::{spec_project_to_3d, div_2_pow_n, pow2i};
use crate::greedy::{
    ChunkQuadSlice, CqsError, in_slice, in_slice_mb, BlockRenderInfo, is_microblock_quad, quad_for_microblock,
    SliceQuadData, slice_cell, slice_block, rem4,
};
use crate::quad::DataQuad;

verus! {

/// A read of the chunk, with its error reported as the slice reports it.
pub open spec fn chunk_read<T, E>(r: Result<T, E>) -> Result<T, CqsError> {
    match r {
        Ok(v) => Ok(v),
        Err(_) => Err(CqsError::HandleError),
    }
}

/// A read of the neighboring chunks, with its error reported as the slice reports it.
pub open spec fn neighbor_read<T, E>(r: Result<T, NeighborReadError<E>>) -> Result<T, CqsError> {
    match r {
        Ok(v) => Ok(v),
        Err(_) => Err(CqsError::NeighborAccessError),
    }
}

/// `pos` lies within one block of the chunk, `[-1, -1, -1]..[17, 17, 17]`.
pub open spec fn near_chunk(pos: IVec3) -> bool {
    pos.spec_within(IVec3 { x: -1i32, y: -1i32, z: -1i32 }, IVec3 { x: 17, y: 17, z: 17 })
}

/// The block holding a microblock position (floor division by 4).
pub open spec fn mb_block(pos_mb: IVec3) -> IVec3 {
    IVec3 { x: (pos_mb.x / 4) as i32, y: (pos_mb.y / 4) as i32, z: (pos_mb.z / 4) as i32 }
}

/// What reading a full block at a position in or around the chunk gives: the chunk's block
/// inside the chunk, the neighbors' block within one block of it, an error elsewhere.
pub open spec fn spec_auto_neighboring_get<C: GenericChunkReadAccess, H: GenericChunkReadAccess>(
    chunk: C,
    neighbors: Neighbors<H>,
    pos: IVec3,
) -> Result<Option<BlockVariantId>, CqsError> {
    if in_chunk(pos) {
        chunk_read(chunk.spec_get(pos))
    } else if near_chunk(pos) {
        neighbor_read(neighbors.spec_get_3d(pos))
    } else {
        Err(CqsError::OutOfBounds)
    }
}

/// What reading a microblock at a position in or around the chunk gives, by the block that
/// holds it: the chunk's microblock inside the chunk, the neighbors' within one block of it, an
/// error elsewhere.
pub open spec fn spec_auto_neighboring_get_mb<C: GenericChunkReadAccess, H: GenericChunkReadAccess>(
    chunk: C,
    neighbors: Neighbors<H>,
    pos_mb: IVec3,
) -> Result<BlockVariantId, CqsError> {
    if in_chunk(mb_block(pos_mb)) {
        chunk_read(chunk.spec_get_mb(pos_mb))
    } else if near_chunk(mb_block(pos_mb)) {
        neighbor_read(neighbors.spec_get_3d_mb(pos_mb))
    } else {
        Err(CqsError::OutOfBounds)
    }
}

/// The position one step off `pos` along the normal of `face`.
pub open spec fn above(pos: IVec3, face: Face) -> IVec3 {
    IVec3 {
        x: (pos.x + face.spec_normal().x) as i32,
        y: (pos.y + face.spec_normal().y) as i32,
        z: (pos.z + face.spec_normal().z) as i32,
    }
}

/// What reading the microblock at a micro-facespace position of a slice gives.
pub open spec fn slice_mb_read<C: GenericChunkReadAccess>(chunk: C, cqs: ChunkQuadSlice, pos_mb: IVec2) -> Result<
    BlockVariantId,
    CqsError,
> {
    if !in_slice_mb(pos_mb) {
        Err(CqsError::OutOfBounds)
    } else {
        chunk_read(chunk.spec_get_mb(spec_project_to_3d(pos_mb, cqs.face, cqs.mag)))
    }
}

/// What reading the microblock one step above a micro-facespace position of a slice gives; the
/// position is checked against the slice's block bounds.
pub open spec fn slice_mb_above_read<C: GenericChunkReadAccess, H: GenericChunkReadAccess>(
    chunk: C,
    neighbors: Neighbors<H>,
    cqs: ChunkQuadSlice,
    pos_mb: IVec2,
) -> Result<BlockVariantId, CqsError> {
    if !in_slice(pos_mb) {
        Err(CqsError::OutOfBounds)
    } else {
        spec_auto_neighboring_get_mb(chunk, neighbors, above(spec_project_to_3d(pos_mb, cqs.face, cqs.mag), cqs.face))
    }
}

/// What reading the full block at a facespace position of a slice gives.
pub open spec fn slice_block_read<C: GenericChunkReadAccess>(chunk: C, cqs: ChunkQuadSlice, pos: IVec2) -> Result<
    Option<BlockVariantId>,
    CqsError,
> {
    if !in_slice(pos) {
        Err(CqsError::OutOfBounds)
    } else {
        chunk_read(chunk.spec_get(spec_project_to_3d(pos, cqs.face, (cqs.mag as int / 4) as i32)))
    }
}

/// What reading the full block one step above a facespace position of a slice gives.
pub open spec fn slice_block_above_read<C: GenericChunkReadAccess, H: GenericChunkReadAccess>(
    chunk: C,
    neighbors: Neighbors<H>,
    cqs: ChunkQuadSlice,
    pos: IVec2,
) -> Result<Option<BlockVariantId>, CqsError> {
    if !in_slice(pos) {
        Err(CqsError::OutOfBounds)
    } else {
        spec_auto_neighboring_get(
            chunk,
            neighbors,
            above(spec_project_to_3d(pos, cqs.face, (cqs.mag as int / 4) as i32), cqs.face),
        )
    }
}

/// The slice lies on the outer layer of microblocks of its blocks, on its face's side.
pub open spec fn at_block_edge(cqs: ChunkQuadSlice) -> bool {
    rem4(cqs.mag + (if cqs.face.spec_axis_direction() > 0 { 0int } else { -1int })) == 3
}

/// `r` is what reading the quad of the microblock at `pos_mb` can give: the error of the first
/// read that fails, or the quad of the microblock as `render_info` was seen to show it and the
/// microblock above it.
pub open spec fn is_quad_read<C: GenericChunkReadAccess, H: GenericChunkReadAccess, F: Fn(BlockVariantId, Face) -> BlockRenderInfo>(
    chunk: C,
    neighbors: Neighbors<H>,
    cqs: ChunkQuadSlice,
    render_info: F,
    pos_mb: IVec2,
    r: Result<Option<DataQuad>, CqsError>,
) -> bool {
    match slice_mb_read(chunk, cqs, pos_mb) {
        Err(e) => r == Err::<Option<DataQuad>, CqsError>(e),
        Ok(microblock) => match slice_mb_above_read(chunk, neighbors, cqs, pos_mb) {
            Err(e) => r == Err::<Option<DataQuad>, CqsError>(e),
            Ok(microblock_above) => r matches Ok(q) && exists|info: BlockRenderInfo, info_above: BlockRenderInfo|
                call_ensures(render_info, (microblock, cqs.face), info) && call_ensures(
                    render_info,
                    (microblock_above, cqs.face),
                    info_above,
                ) && #[trigger] is_microblock_quad(info, info_above, q),
        },
    }
}

/// `r` is what deciding whether the mesher skips the block at `cs` can give: the error of the
/// first read that fails; `true` for a full block that `render_info` was seen to show without a
/// model; otherwise, on a slice at its blocks' edge, `true` for a full block above that was seen
/// to be opaque; `false` else.
pub open spec fn is_block_skip_read<C: GenericChunkReadAccess, H: GenericChunkReadAccess, F: Fn(BlockVariantId, Face) -> BlockRenderInfo>(
    chunk: C,
    neighbors: Neighbors<H>,
    cqs: ChunkQuadSlice,
    render_info: F,
    cs: IVec2,
    r: Result<bool, CqsError>,
) -> bool {
    match slice_block_read(chunk, cqs, cs) {
        Err(e) => r == Err::<bool, CqsError>(e),
        Ok(block) => {
            ||| (block matches Some(id) && exists|info: BlockRenderInfo|
                call_ensures(render_info, (id, cqs.face), info) && #[trigger] info.face_texture is None) && r == Ok::<
                bool,
                CqsError,
            >(true)
            ||| (block matches Some(id) ==> exists|info: BlockRenderInfo|
                call_ensures(render_info, (id, cqs.face), info) && #[trigger] info.face_texture is Some) && (if !at_block_edge(
                cqs,
            ) {
                r == Ok::<bool, CqsError>(false)
            } else {
                match slice_block_above_read(chunk, neighbors, cqs, cs) {
                    Err(e) => r == Err::<bool, CqsError>(e),
                    Ok(block_above) => {
                        ||| (block_above matches Some(a) && exists|info: BlockRenderInfo|
                            call_ensures(render_info, (a, cqs.face), info) && #[trigger] info.is_opaque) && r == Ok::<
                            bool,
                            CqsError,
                        >(true)
                        ||| (block_above matches Some(a) ==> exists|info: BlockRenderInfo|
                            call_ensures(render_info, (a, cqs.face), info) && !#[trigger] info.is_opaque) && r == Ok::<
                            bool,
                            CqsError,
                        >(false)
                    },
                }
            })
        },
    }
}

/// The block position with index `j` of a slice (the inverse of [`slice_block`]).
pub open spec fn block_at_index(j: int) -> IVec2 {
    IVec2 { x: (j / 16) as i32, y: (j % 16) as i32 }
}

/// The microblock position with index `i` of a slice (the inverse of [`slice_cell`]).
pub open spec fn cell_at_index(i: int) -> IVec2 {
    IVec2 { x: (i / 64) as i32, y: (i % 64) as i32 }
}

/// `data` holds what reading every microblock's quad and every block's skip decision of the
/// slice can give.
pub open spec fn is_slice_read<C: GenericChunkReadAccess, H: GenericChunkReadAccess, F: Fn(BlockVariantId, Face) -> BlockRenderInfo>(
    chunk: C,
    neighbors: Neighbors<H>,
    cqs: ChunkQuadSlice,
    render_info: F,
    data: SliceQuadData,
) -> bool {
    &&& data.wf()
    &&& forall|j: int|
        0 <= j < 256 ==> is_block_skip_read(chunk, neighbors, cqs, render_info, block_at_index(j), #[trigger] data.skipped_blocks@[j])
    &&& forall|i: int|
        0 <= i < 4096 ==> is_quad_read(chunk, neighbors, cqs, render_info, cell_at_index(i), #[trigger] data.quads@[i])
}

/// The index of a slice position and the position of a slice index undo each other.
pub proof fn lemma_slice_indices(p: IVec2, cs: IVec2, i: int, j: int)
    ensures
        in_slice_mb(p) ==> 0 <= slice_cell(p) < 4096 && cell_at_index(slice_cell(p)) == p,
        in_slice(cs) ==> 0 <= slice_block(cs) < 256 && block_at_index(slice_block(cs)) == cs,
        0 <= i < 4096 ==> in_slice_mb(cell_at_index(i)) && slice_cell(cell_at_index(i)) == i,
        0 <= j < 256 ==> in_slice(block_at_index(j)) && slice_block(block_at_index(j)) == j,
{
    if in_slice_mb(p) {
        let k = p.x * 64 + p.y;
        assert(k / 64 == p.x && k % 64 == p.y) by (nonlinear_arith)
            requires k == p.x * 64 + p.y, 0 <= p.y < 64, 0 <= p.x;
    }
    if in_slice(cs) {
        let k = cs.x * 16 + cs.y;
        assert(k / 16 == cs.x && k % 16 == cs.y) by (nonlinear_arith)
            requires k == cs.x * 16 + cs.y, 0 <= cs.y < 16, 0 <= cs.x;
    }
    if 0 <= i < 4096 {
        assert(0 <= i / 64 < 64 && (i / 64) * 64 + i % 64 == i) by (nonlinear_arith)
            requires 0 <= i < 4096;
    }
    if 0 <= j < 256 {
        assert(0 <= j / 16 < 16 && (j / 16) * 16 + j % 16 == j) by (nonlinear_arith)
            requires 0 <= j < 256;
    }
}

impl ChunkQuadSlice {
    /// Read the full block at a localspace position of the chunk (`None` if it is subdivided).
    pub fn get_3d<C: GenericChunkReadAccess>(&self, chunk: &C, pos: IVec3) -> (r: Result<Option<BlockVariantId>, CqsError>)
        ensures
            r == chunk_read(chunk.spec_get(pos)),
    {
        match chunk.get(pos) {
            Ok(v) => Ok(v),
            Err(_) => Err(CqsError::HandleError),
        }
    }

    /// Read the microblock at a microblock localspace position of the chunk.
    pub fn get_mb_3d<C: GenericChunkReadAccess>(&self, chunk: &C, pos_mb: IVec3) -> (r: Result<BlockVariantId, CqsError>)
        ensures
            r == chunk_read(chunk.spec_get_mb(pos_mb)),
    {
        match chunk.get_mb(pos_mb) {
            Ok(v) => Ok(v),
            Err(_) => Err(CqsError::HandleError),
        }
    }

    /// Read a full block at a localspace position that may exceed the chunk's bounds by one
    /// block in any component; the block then comes from a neighboring chunk.
    pub fn auto_neighboring_get<C: GenericChunkReadAccess, H: GenericChunkReadAccess>(
        &self,
        chunk: &C,
        neighbors: &Neighbors<H>,
        pos: IVec3,
    ) -> (r: Result<Option<BlockVariantId>, CqsError>)
        requires
            neighbors.wf(),
        ensures
            r == spec_auto_neighboring_get(*chunk, *neighbors, pos),
    {
        if Self::contains_3d(pos) && !is_in_bounds_3d(pos) {
            self.get_3d(chunk, pos)
        } else if !Self::contains_3d(pos) && is_in_bounds_3d(pos) {
            match neighbors.get_3d(pos) {
                Ok(v) => Ok(v),
                Err(_) => Err(CqsError::NeighborAccessError),
            }
        } else {
            Err(CqsError::OutOfBounds)
        }
    }

    /// Read a microblock at a microblock localspace position whose block may exceed the
    /// chunk's bounds by one in any component; the microblock then comes from a neighboring chunk.
    pub fn auto_neighboring_get_mb<C: GenericChunkReadAccess, H: GenericChunkReadAccess>(
        &self,
        chunk: &C,
        neighbors: &Neighbors<H>,
        pos_mb: IVec3,
    ) -> (r: Result<BlockVariantId, CqsError>)
        requires
            neighbors.wf(),
        ensures
            r == spec_auto_neighboring_get_mb(*chunk, *neighbors, pos_mb),
    {
        proof {
            reveal_with_fuel(pow2i, 3);
        }
        let pos = IVec3 { x: div_2_pow_n(pos_mb.x, 2), y: div_2_pow_n(pos_mb.y, 2), z: div_2_pow_n(pos_mb.z, 2) };
        assert(pos == mb_block(pos_mb));
        if Self::contains_3d(pos) && !is_in_bounds_3d(pos) {
            self.get_mb_3d(chunk, pos_mb)
        } else if !Self::contains_3d(pos) && is_in_bounds_3d(pos) {
            match neighbors.get_3d_mb(pos_mb) {
                Ok(v) => Ok(v),
                Err(_) => Err(CqsError::NeighborAccessError),
            }
        } else {
            Err(CqsError::OutOfBounds)
        }
    }

    /// Read the full block at a facespace position of the slice.
    pub fn get<C: GenericChunkReadAccess>(&self, chunk: &C, pos: IVec2) -> (r: Result<Option<BlockVariantId>, CqsError>)
        ensures
            r == (if !in_slice(pos) {
                Err(CqsError::OutOfBounds)
            } else {
                chunk_read(chunk.spec_get(spec_project_to_3d(pos, self.face, (self.mag as int / 4) as i32)))
            }),
    {
        if !Self::contains(pos) {
            return Err(CqsError::OutOfBounds);
        }
        let pos3d = self.pos_3d(pos);
        self.get_3d(chunk, pos3d)
    }

    /// Read the microblock at a micro-facespace position of the slice.
    pub fn get_mb<C: GenericChunkReadAccess>(&self, chunk: &C, pos_mb: IVec2) -> (r: Result<BlockVariantId, CqsError>)
        ensures
            r == slice_mb_read(*chunk, *self, pos_mb),
    {
        if !Self::contains_mb(pos_mb) {
            return Err(CqsError::OutOfBounds);
        }
        let pos_mb_3d = self.pos_3d_mb(pos_mb);
        self.get_mb_3d(chunk, pos_mb_3d)
    }

    /// Read the full block one step above a facespace position of the slice (along the face's
    /// normal), from a neighboring chunk if that step leaves the chunk.
    pub fn get_above<C: GenericChunkReadAccess, H: GenericChunkReadAccess>(
        &self,
        chunk: &C,
        neighbors: &Neighbors<H>,
        pos: IVec2,
    ) -> (r: Result<Option<BlockVariantId>, CqsError>)
        requires
            neighbors.wf(),
        ensures
            r == (if !in_slice(pos) {
                Err(CqsError::OutOfBounds)
            } else {
                spec_auto_neighboring_get(
                    *chunk,
                    *neighbors,
                    above(spec_project_to_3d(pos, self.face, (self.mag as int / 4) as i32), self.face),
                )
            }),
    {
        if !Self::contains(pos) {
            return Err(CqsError::OutOfBounds);
        }
        let p = self.pos_3d(pos);
        let n = self.face.normal();
        let pos_above = p.add(n);
        self.auto_neighboring_get(chunk, neighbors, pos_above)
    }

    /// Read the microblock one step above a micro-facespace position of the slice (along the
    /// face's normal), from a neighboring chunk if that step leaves the chunk. The position is
    /// checked against the slice's block bounds, `[0, 0]..[16, 16]`.
    pub fn get_mb_above<C: GenericChunkReadAccess, H: GenericChunkReadAccess>(
        &self,
        chunk: &C,
        neighbors: &Neighbors<H>,
        mb_pos: IVec2,
    ) -> (r: Result<BlockVariantId, CqsError>)
        requires
            neighbors.wf(),
            i32::MIN < self.mag < i32::MAX,
        ensures
            r == slice_mb_above_read(*chunk, *neighbors, *self, mb_pos),
    {
        if !Self::contains(mb_pos) {
            return Err(CqsError::OutOfBounds);
        }
        let p = self.pos_3d_mb(mb_pos);
        let n = self.face.normal();
        let pos_mb_above = p.add(n);
        self.auto_neighboring_get_mb(chunk, neighbors, pos_mb_above)
    }

    /// The quad of the microblock at a micro-facespace position: `None` if the microblock is
    /// transparent, if the microblock above it is opaque, or if it has no model; otherwise a
    /// 1x1 quad with the texture of its model's face on this slice's side. `render_info` tells
    /// how a block variant looks from the side of a face, as the block variant registry does.
    /// The microblock is read first, then the one above it; the first read that fails gives
    /// the error.
    pub fn get_quad_mb<C: GenericChunkReadAccess, H: GenericChunkReadAccess, F: Fn(BlockVariantId, Face) -> BlockRenderInfo>(
        &self,
        chunk: &C,
        neighbors: &Neighbors<H>,
        pos_mb: IVec2,
        render_info: &F,
    ) -> (r: Result<Option<DataQuad>, CqsError>)
        requires
            neighbors.wf(),
            i32::MIN < self.mag < i32::MAX,
            forall|id: BlockVariantId, face: Face| call_requires(*render_info, (id, face)),
        ensures
            is_quad_read(*chunk, *neighbors, *self, *render_info, pos_mb, r),
    {
        let microblock = match self.get_mb(chunk, pos_mb) {
            Ok(m) => m,
            Err(e) => return Err(e),
        };
        let microblock_above = match self.get_mb_above(chunk, neighbors, pos_mb) {
            Ok(m) => m,
            Err(e) => return Err(e),
        };
        let info = render_info(microblock, self.face);
        let info_above = render_info(microblock_above, self.face);
        let q = quad_for_microblock(info, info_above);
        Ok(q)
    }

    /// Decide whether the mesher skips the block at `cs`: a full block without a model is
    /// skipped; otherwise, when the slice lies at its blocks' edge, a block under an opaque full
    /// block is skipped. The block is read first, and the block above it only when that is
    /// needed; the first read that fails gives the error.
    pub fn read_block_skipped<C: GenericChunkReadAccess, H: GenericChunkReadAccess, F: Fn(BlockVariantId, Face) -> BlockRenderInfo>(
        &self,
        chunk: &C,
        neighbors: &Neighbors<H>,
        cs: IVec2,
        render_info: &F,
    ) -> (r: Result<bool, CqsError>)
        requires
            neighbors.wf(),
            self.mag > i32::MIN,
            forall|id: BlockVariantId, face: Face| call_requires(*render_info, (id, face)),
        ensures
            is_block_skip_read(*chunk, *neighbors, *self, *render_info, cs, r),
    {
        let block = match self.get(chunk, cs) {
            Ok(b) => b,
            Err(e) => return Err(e),
        };
        match block {
            Some(id) => {
                let info = render_info(id, self.face);
                if info.face_texture.is_none() {
                    return Ok(true);
                }
            },
            None => {},
        }
        if self.mag_at_block_edge() {
            let block_above = match self.get_above(chunk, neighbors, cs) {
                Ok(b) => b,
                Err(e) => return Err(e),
            };
            match block_above {
                Some(a) => {
                    let info = render_info(a, self.face);
                    if info.is_opaque {
                        return Ok(true);
                    }
                },
                None => {},
            }
        }
        Ok(false)
    }

    /// Read the whole slice for the mesher: the quad of every microblock and whether each block
    /// is skipped, each as its reads gave it.
    pub fn read_slice<C: GenericChunkReadAccess, H: GenericChunkReadAccess, F: Fn(BlockVariantId, Face) -> BlockRenderInfo>(
        &self,
        chunk: &C,
        neighbors: &Neighbors<H>,
        render_info: &F,
    ) -> (r: SliceQuadData)
        requires
            neighbors.wf(),
            i32::MIN < self.mag < i32::MAX,
            forall|id: BlockVariantId, face: Face| call_requires(*render_info, (id, face)),
        ensures
            is_slice_read(*chunk, *neighbors, *self, *render_info, r),
    {
        let mut skipped_blocks: Vec<Result<bool, CqsError>> = Vec::new();
        let mut j: usize = 0;
        while j < 256
            invariant
                0 <= j <= 256,
                skipped_blocks@.len() == j,
                neighbors.wf(),
                i32::MIN < self.mag < i32::MAX,
                forall|id: BlockVariantId, face: Face| call_requires(*render_info, (id, face)),
                forall|k: int|
                    0 <= k < j ==> is_block_skip_read(*chunk, *neighbors, *self, *render_info, block_at_index(k), #[trigger] skipped_blocks@[k]),
            decreases 256 - j,
        {
            let cs = IVec2 { x: (j / 16) as i32, y: (j % 16) as i32 };
            let r = self.read_block_skipped(chunk, neighbors, cs, render_info);
            skipped_blocks.push(r);
            j = j + 1;
        }
        let mut quads: Vec<Result<Option<DataQuad>, CqsError>> = Vec::new();
        let mut i: usize = 0;
        while i < 4096
            invariant
                0 <= i <= 4096,
                quads@.len() == i,
                neighbors.wf(),
                i32::MIN < self.mag < i32::MAX,
                forall|id: BlockVariantId, face: Face| call_requires(*render_info, (id, face)),
                forall|k: int|
                    0 <= k < i ==> is_quad_read(*chunk, *neighbors, *self, *render_info, cell_at_index(k), #[trigger] quads@[k]),
                forall|k: int|
                    0 <= k < i ==> (#[trigger] quads@[k] matches Ok(Some(d)) ==> d.quad.spec_x() == 1 && d.quad.spec_y() == 1),
            decreases 4096 - i,
        {
            let p = IVec2 { x: (i / 64) as i32, y: (i % 64) as i32 };
            let r = self.get_quad_mb(chunk, neighbors, p, render_info);
            quads.push(r);
            i = i + 1;
        }
        SliceQuadData { quads, skipped_blocks }
    }
}

} // verus!
