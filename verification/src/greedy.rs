//! Greedy meshing: merging the visible microblock faces of a chunk slice into as few quads as
//! possible, with a mask of the microblocks already covered.
use vstd::prelude::*;
use crate::math::{IVec2, IVec3, ivec2};
use crate::face::Face;
use crate::storage::OutOfBounds;
use crate::transformations::{ivec_project_to_3d, spec_project_to_3d, ivec_project_to_2d, spec_project_to_2d, rem_2_pow_n, div_2_pow_n, pow2i};
use crate::quad::{DataQuad, FaceTexture, IsometrizedQuad, PositionedQuad, Quad, QuadIsometry};
use crate::gpu::GpuQuadBitfields;
use crate::face::{faces, lemma_face_index_roundtrip};
use crate::block::BlockVariantId;
use crate::generic_chunk::GenericChunkReadAccess;
use crate::neighbors::Neighbors;
use crate::mesh_state::MesherError;
use crate::slice_reads::is_slice_read;

verus! {

/// `p` is a microblock position of a chunk slice, `[0, 0]..[64, 64]`.
pub open spec fn in_slice_mb(p: IVec2) -> bool {
    0 <= p.x < 64 && 0 <= p.y < 64
}

/// `p` is a block position of a chunk slice, `[0, 0]..[16, 16]`.
pub open spec fn in_slice(p: IVec2) -> bool {
    0 <= p.x < 16 && 0 <= p.y < 16
}

/// The index of a microblock position of a slice in row-major order (by x, then y).
pub open spec fn slice_cell(p: IVec2) -> int {
    p.x * 64 + p.y
}

/// The index of a block position of a slice (by x, then y).
pub open spec fn slice_block(p: IVec2) -> int {
    p.x * 16 + p.y
}

/// The block of a slice that holds a microblock position.
pub open spec fn block_of(p: IVec2) -> IVec2 {
    IVec2 { x: (p.x / 4) as i32, y: (p.y / 4) as i32 }
}

proof fn lemma_slice_cell(p: IVec2, q: IVec2)
    requires
        in_slice_mb(p),
        in_slice_mb(q),
    ensures
        0 <= slice_cell(p) < 4096,
        slice_cell(p) == slice_cell(q) ==> p == q,
{
}

fn slice_cell_index(p: IVec2) -> (r: usize)
    requires
        in_slice_mb(p),
    ensures
        r == slice_cell(p),
        r < 4096,
{
    (p.x * 64 + p.y) as usize
}

/// The microblocks of a chunk slice that are already covered by a quad.
#[derive(Clone, Debug)]
pub struct ChunkSliceMask {
    microblocks: Vec<bool>,
}

impl ChunkSliceMask {
    /// The mask flag of every microblock, by [`slice_cell`].
    pub closed spec fn view(&self) -> Seq<bool> {
        self.microblocks@
    }

    pub open spec fn wf(&self) -> bool {
        self.view().len() == 4096
    }

    /// `true` if the microblock at `p` is masked.
    pub open spec fn spec_masked(&self, p: IVec2) -> bool {
        self.view()[slice_cell(p)]
    }

    /// A mask with nothing masked.
    pub fn new() -> (r: ChunkSliceMask)
        ensures
            r.wf(),
            forall|p: IVec2| in_slice_mb(p) ==> !#[trigger] r.spec_masked(p),
    {
        let mut microblocks: Vec<bool> = Vec::new();
        let mut i: usize = 0;
        while i < 4096
            invariant
                i <= 4096,
                microblocks@.len() == i,
                forall|k: int| 0 <= k < i ==> !#[trigger] microblocks@[k],
            decreases 4096 - i,
        {
            microblocks.push(false);
            i = i + 1;
        }
        let r = ChunkSliceMask { microblocks };
        proof {
            assert forall|p: IVec2| in_slice_mb(p) implies !#[trigger] r.spec_masked(p) by {
                lemma_slice_cell(p, p);
            }
        }
        r
    }

    /// `true` if the block position lies in the slice.
    pub fn contains(ls_pos: IVec2) -> (r: bool)
        ensures
            r == in_slice(ls_pos),
    {
        0 <= ls_pos.x && 0 <= ls_pos.y && ls_pos.x < 16 && ls_pos.y < 16
    }

    /// `true` if the microblock position lies in the slice.
    pub fn contains_mb(mb_pos: IVec2) -> (r: bool)
        ensures
            r == in_slice_mb(mb_pos),
    {
        let fx = div_2_pow_n(mb_pos.x, 2);
        let fy = div_2_pow_n(mb_pos.y, 2);
        proof {
            reveal_with_fuel(pow2i, 3);
            assert(pow2i(2) == 4);
            let x = mb_pos.x as int;
            let y = mb_pos.y as int;
            assert((0 <= x / 4 < 16) == (0 <= x < 64)) by (nonlinear_arith);
            assert((0 <= y / 4 < 16) == (0 <= y < 64)) by (nonlinear_arith);
        }
        Self::contains(ivec2(fx, fy))
    }

    /// Mask every microblock of the blocks in the inclusive block region between `pos1` and
    /// `pos2`. Fails, masking nothing, if either position lies outside of the slice.
    pub fn mask_region_inclusive(&mut self, pos1: IVec2, pos2: IVec2) -> (r: bool)
        requires
            old(self).wf(),
        ensures
            final(self).wf(),
            r == (in_slice(pos1) && in_slice(pos2)),
            !r ==> final(self).view() == old(self).view(),
            r ==> forall|p: IVec2| #![trigger final(self).spec_masked(p)] in_slice_mb(p) ==> final(self).spec_masked(p) == (
            old(self).spec_masked(p) || (4 * min_i32(pos1.x, pos2.x) <= p.x < 4 * (max_i32(pos1.x, pos2.x) + 1) && 4
                * min_i32(pos1.y, pos2.y) <= p.y < 4 * (max_i32(pos1.y, pos2.y) + 1))),
    {
        if !Self::contains(pos1) || !Self::contains(pos2) {
            return false;
        }
        let min = pos1.min(pos2);
        let max = pos1.max(pos2);
        self.mask_cells(ivec2(min.x * 4, min.y * 4), ivec2((max.x + 1) * 4 - 1, (max.y + 1) * 4 - 1));
        true
    }

    /// Mask every microblock in the inclusive region between `pos1` and `pos2`. Fails, masking
    /// nothing, if either position lies outside of the slice.
    pub fn mask_mb_region_inclusive(&mut self, pos1: IVec2, pos2: IVec2) -> (r: bool)
        requires
            old(self).wf(),
        ensures
            final(self).wf(),
            r == (in_slice_mb(pos1) && in_slice_mb(pos2)),
            !r ==> final(self).view() == old(self).view(),
            r ==> forall|p: IVec2| #![trigger final(self).spec_masked(p)] in_slice_mb(p) ==> final(self).spec_masked(p) == (
            old(self).spec_masked(p) || (min_i32(pos1.x, pos2.x) <= p.x <= max_i32(pos1.x, pos2.x) && min_i32(
                pos1.y,
                pos2.y,
            ) <= p.y <= max_i32(pos1.y, pos2.y))),
    {
        if !Self::contains_mb(pos1) || !Self::contains_mb(pos2) {
            return false;
        }
        let min = pos1.min(pos2);
        let max = pos1.max(pos2);
        self.mask_cells(min, max);
        true
    }

    /// Mask every microblock of the inclusive rectangle `min..=max`.
    fn mask_cells(&mut self, min: IVec2, max: IVec2)
        requires
            old(self).wf(),
            in_slice_mb(min),
            in_slice_mb(max),
            min.x <= max.x,
            min.y <= max.y,
        ensures
            final(self).wf(),
            forall|p: IVec2| #![trigger final(self).spec_masked(p)] in_slice_mb(p) ==> final(self).spec_masked(p) == (
            old(self).spec_masked(p) || (min.x <= p.x <= max.x && min.y <= p.y <= max.y)),
    {
        let ghost before = self.view();
        let mut x = min.x;
        while x <= max.x
            invariant
                self.wf(),
                min.x <= x <= max.x + 1,
                in_slice_mb(min),
                in_slice_mb(max),
                min.y <= max.y,
                forall|p: IVec2| #![trigger self.spec_masked(p)] in_slice_mb(p) ==> self.spec_masked(p) == (
                before[slice_cell(p)] || (min.x <= p.x < x && min.y <= p.y <= max.y)),
            decreases max.x + 1 - x,
        {
            let mut y = min.y;
            while y <= max.y
                invariant
                    self.wf(),
                    min.x <= x <= max.x,
                    min.y <= y <= max.y + 1,
                    in_slice_mb(min),
                    in_slice_mb(max),
                    forall|p: IVec2| #![trigger self.spec_masked(p)] in_slice_mb(p) ==> self.spec_masked(p) == (
                    before[slice_cell(p)] || (min.x <= p.x < x && min.y <= p.y <= max.y) || (p.x == x && min.y
                        <= p.y < y)),
                decreases max.y + 1 - y,
            {
                let p = ivec2(x, y);
                let idx = slice_cell_index(p);
                let ghost prev = *self;
                self.microblocks.set(idx, true);
                proof {
                    assert forall|q: IVec2| #![trigger self.spec_masked(q)] in_slice_mb(q) implies self.spec_masked(q) == (
                    before[slice_cell(q)] || (min.x <= q.x < x && min.y <= q.y <= max.y) || (q.x == x && min.y
                        <= q.y < y + 1)) by {
                        lemma_slice_cell(p, q);
                        lemma_slice_cell(q, q);
                        assert(prev.spec_masked(q) == (before[slice_cell(q)] || (min.x <= q.x < x && min.y <= q.y
                            <= max.y) || (q.x == x && min.y <= q.y < y)));
                    }
                }
                y = y + 1;
            }
            x = x + 1;
        }
    }

    /// `true` if the microblock at `pos` is masked.
    pub fn is_masked_mb(&self, pos: IVec2) -> (r: bool)
        requires
            self.wf(),
            in_slice_mb(pos),
        ensures
            r == self.spec_masked(pos),
    {
        self.microblocks[slice_cell_index(pos)]
    }

    /// `true` if every microblock of the block at `pos` is masked.
    pub fn is_masked(&self, pos: IVec2) -> (r: bool)
        requires
            self.wf(),
            in_slice(pos),
        ensures
            r == forall|p: IVec2| #![trigger self.spec_masked(p)] block_of(p) == pos && in_slice_mb(p) ==> self.spec_masked(p),
    {
        let mut x: i32 = 0;
        while x < 4
            invariant
                self.wf(),
                in_slice(pos),
                0 <= x <= 4,
                forall|p: IVec2| #![trigger self.spec_masked(p)]
                    block_of(p) == pos && in_slice_mb(p) && p.x < 4 * pos.x + x ==> self.spec_masked(p),
            decreases 4 - x,
        {
            let mut y: i32 = 0;
            while y < 4
                invariant
                    self.wf(),
                    in_slice(pos),
                    0 <= x < 4,
                    0 <= y <= 4,
                    forall|p: IVec2| #![trigger self.spec_masked(p)]
                        block_of(p) == pos && in_slice_mb(p) && (p.x < 4 * pos.x + x || (p.x == 4 * pos.x + x && p.y < 4
                            * pos.y + y)) ==> self.spec_masked(p),
                decreases 4 - y,
            {
                let p = ivec2(x + pos.x * 4, y + pos.y * 4);
                if !self.is_masked_mb(p) {
                    assert(block_of(p) == pos);
                    return false;
                }
                y = y + 1;
            }
            x = x + 1;
        }
        true
    }
}

pub open spec fn min_i32(a: i32, b: i32) -> i32 {
    if a <= b {
        a
    } else {
        b
    }
}

pub open spec fn max_i32(a: i32, b: i32) -> i32 {
    if a >= b {
        a
    } else {
        b
    }
}

/// Error from reading a chunk slice.
#[derive(Copy, Clone, Debug, PartialEq, Eq, Structural)]
pub enum CqsError {
    /// Reading a neighboring chunk failed.
    NeighborAccessError,
    /// Reading the chunk failed.
    HandleError,
    /// Position was out of bounds.
    OutOfBounds,
    /// Attempted to access a microblock in a subdivided block with an out-of-bounds position.
    SubdivBlockAccessOutOfBounds,
}

/// A slice of a chunk: the plane of microblocks at magnitude `mag` along the axis of `face`.
#[derive(Copy, Clone, Debug, PartialEq, Eq, Structural)]
pub struct ChunkQuadSlice {
    pub face: Face,
    pub mag: i32,
}

/// The euclidean remainder of `x` by 4.
pub open spec fn rem4(x: int) -> int {
    x % 4
}

impl ChunkQuadSlice {
    /// A slice at the given face and magnitude. The bounds check on the magnitude can never
    /// fail (it requires the magnitude to be both negative and above 64), so this always
    /// succeeds.
    pub fn new(face: Face, magnitude: i32) -> (r: Result<ChunkQuadSlice, OutOfBounds>)
        ensures
            r == Ok::<ChunkQuadSlice, OutOfBounds>(ChunkQuadSlice { face, mag: magnitude }),
    {
        if 0 > magnitude && magnitude > 64 {
            return Err(OutOfBounds);
        }
        Ok(ChunkQuadSlice { face, mag: magnitude })
    }

    /// Move the slice to another face and magnitude. The bounds check can never fail (it
    /// requires the magnitude to be both negative and above 16), so this always succeeds.
    pub fn reposition(&mut self, face: Face, magnitude: i32) -> (r: Result<(), OutOfBounds>)
        ensures
            r is Ok,
            *final(self) == (ChunkQuadSlice { face, mag: magnitude }),
    {
        if 0 > magnitude && magnitude > 16 {
            return Err(OutOfBounds);
        }
        self.face = face;
        self.mag = magnitude;
        Ok(())
    }

    /// `true` if the slice lies on the outer layer of microblocks of its blocks, on the side
    /// its face points to.
    pub fn mag_at_block_edge(&self) -> (r: bool)
        requires
            self.face.spec_axis_direction() < 0 ==> self.mag > i32::MIN,
        ensures
            r == (rem4(self.mag + (if self.face.spec_axis_direction() > 0 { 0int } else { -1int })) == 3),
    {
        let d = self.face.axis_direction();
        let clamped: i32 = if d < -1 {
            -1
        } else if d > 0 {
            0
        } else {
            d
        };
        let r = rem_2_pow_n(self.mag + clamped, 2);
        proof {
            reveal_with_fuel(pow2i, 3);
        }
        r == 3
    }

    /// `true` if the block position lies in the slice.
    pub fn contains(pos: IVec2) -> (r: bool)
        ensures
            r == in_slice(pos),
    {
        pos.x < 16 && pos.y < 16 && pos.x >= 0 && pos.y >= 0
    }

    /// `true` if the microblock position lies in the slice.
    pub fn contains_mb(pos: IVec2) -> (r: bool)
        ensures
            r == in_slice_mb(pos),
    {
        ChunkSliceMask::contains_mb(pos)
    }

    /// `true` if the position lies in the chunk, `[0, 0, 0]..[16, 16, 16]`.
    pub fn contains_3d(pos: IVec3) -> (r: bool)
        ensures
            r == (0 <= pos.x < 16 && 0 <= pos.y < 16 && 0 <= pos.z < 16),
    {
        pos.x < 16 && pos.y < 16 && pos.z < 16 && pos.x >= 0 && pos.y >= 0 && pos.z >= 0
    }

    /// Give a positioned quad the orientation of this slice.
    pub fn isometrize(&self, quad: PositionedQuad) -> (r: IsometrizedQuad)
        ensures
            r.quad == quad,
            r.isometry.spec_face() == self.face,
            r.isometry.spec_magnitude() == self.mag,
            r.isometry.spec_pos() == quad.pos,
    {
        let iso = QuadIsometry::new(quad.pos(), self.mag, self.face);
        IsometrizedQuad::new(iso, quad)
    }

    /// Transform a position from micro-facespace to micro-localspace.
    pub fn pos_3d_mb(&self, pos: IVec2) -> (r: IVec3)
        ensures
            r == spec_project_to_3d(pos, self.face, self.mag),
    {
        ivec_project_to_3d(pos, self.face, self.mag)
    }

    /// Transform a position from facespace to localspace (the block of the slice's magnitude).
    pub fn pos_3d(&self, pos: IVec2) -> (r: IVec3)
        ensures
            r == spec_project_to_3d(pos, self.face, (self.mag as int / 4) as i32),
    {
        let m = div_2_pow_n(self.mag, 2);
        proof {
            reveal_with_fuel(pow2i, 3);
        }
        ivec_project_to_3d(pos, self.face, m)
    }

    /// Transform a position into the subdivided space of a block (the slice's magnitude within
    /// its block).
    pub fn pos_3d_sd(&self, pos: IVec2) -> (r: IVec3)
        ensures
            r == spec_project_to_3d(pos, self.face, rem4(self.mag as int) as i32),
    {
        let m = rem_2_pow_n(self.mag, 2);
        proof {
            reveal_with_fuel(pow2i, 3);
        }
        ivec_project_to_3d(pos, self.face, m)
    }

    /// Transform a position from localspace to facespace.
    pub fn pos_2d(&self, pos: IVec3) -> (r: IVec2)
        ensures
            r == spec_project_to_2d(pos, self.face),
    {
        ivec_project_to_2d(pos, self.face)
    }
}

/// How a block looks to the mesher: its transparency and, if it has a model, the texture of
/// the model's face on the slice's side.
#[derive(Copy, Clone, Debug, PartialEq, Eq, Structural)]
pub struct BlockRenderInfo {
    pub is_transparent: bool,
    pub is_opaque: bool,
    pub face_texture: Option<FaceTexture>,
}

/// `q` is the quad of a microblock that looks like `microblock`, under a microblock that looks
/// like `above`: none if the microblock is transparent, if the one above is opaque, or if it has
/// no model; otherwise a 1x1 quad with the model's face texture.
pub open spec fn is_microblock_quad(microblock: BlockRenderInfo, above: BlockRenderInfo, q: Option<DataQuad>) -> bool {
    if microblock.is_transparent || above.is_opaque || microblock.face_texture is None {
        q is None
    } else {
        q matches Some(d) && d.texture == microblock.face_texture->0 && d.quad.spec_x() == 1 && d.quad.spec_y() == 1
    }
}

/// The quad of a microblock of a slice: none if the microblock is transparent, if the
/// microblock above it is opaque, or if it has no model; otherwise a 1x1 quad with the model's
/// face texture.
pub fn quad_for_microblock(microblock: BlockRenderInfo, above: BlockRenderInfo) -> (r: Option<DataQuad>)
    ensures
        is_microblock_quad(microblock, above, r),
{
    if microblock.is_transparent || above.is_opaque {
        return None;
    }
    match microblock.face_texture {
        None => None,
        Some(texture) => Some(DataQuad::new(Quad::one(), texture)),
    }
}

/// What the greedy mesher reads of one chunk slice: the quad of every microblock position (by
/// [`slice_cell`], `None` where no face is visible) and whether it skips each block (by
/// [`slice_block`]), each as the read gave it, an error where the read failed. The mesher
/// consumes these in the order it visits them and stops at the first error it meets.
#[derive(Clone, Debug)]
pub struct SliceQuadData {
    pub quads: Vec<Result<Option<DataQuad>, CqsError>>,
    pub skipped_blocks: Vec<Result<bool, CqsError>>,
}

impl SliceQuadData {
    /// The sizes match the slice, and every quad is a 1x1 quad.
    pub open spec fn wf(&self) -> bool {
        &&& self.quads@.len() == 4096
        &&& self.skipped_blocks@.len() == 256
        &&& forall|i: int|
            0 <= i < 4096 ==> (#[trigger] self.quads@[i] matches Ok(Some(d)) ==> d.quad.spec_x() == 1 && d.quad.spec_y()
                == 1)
    }

    /// The quad at a microblock position (`None` where its read failed).
    pub open spec fn cell(&self, p: IVec2) -> Option<DataQuad> {
        match self.quads@[slice_cell(p)] {
            Ok(q) => q,
            Err(_) => None,
        }
    }

    /// `true` if the block holding a microblock position is skipped (or its read failed).
    pub open spec fn skipped(&self, p: IVec2) -> bool {
        match self.skipped_blocks@[slice_block(block_of(p))] {
            Ok(b) => b,
            Err(_) => true,
        }
    }

    /// Some read of the slice failed with `e`.
    pub open spec fn has_error(&self, e: CqsError) -> bool {
        ||| exists|i: int| 0 <= i < 4096 && #[trigger] self.quads@[i] == Err::<Option<DataQuad>, CqsError>(e)
        ||| exists|j: int| 0 <= j < 256 && #[trigger] self.skipped_blocks@[j] == Err::<bool, CqsError>(e)
    }

    /// No read of the slice failed.
    pub open spec fn all_read(&self) -> bool {
        &&& forall|i: int| 0 <= i < 4096 ==> #[trigger] self.quads@[i] is Ok
        &&& forall|j: int| 0 <= j < 256 ==> #[trigger] self.skipped_blocks@[j] is Ok
    }
}

/// The quad lies in the slice.
pub open spec fn quad_in_slice(q: PositionedQuad) -> bool {
    &&& q.wf()
    &&& in_slice_mb(q.pos)
    &&& in_slice_mb(q.spec_max())
}

/// Every microblock the quad covers shows a face with the quad's texture.
pub open spec fn quad_homogeneous(data: SliceQuadData, q: PositionedQuad) -> bool {
    forall|p: IVec2| #[trigger] q.covers(p) ==> (data.cell(p) matches Some(d) && d.texture == q.dataquad.texture)
}

/// No microblock is covered by both quads.
pub open spec fn quads_disjoint(a: PositionedQuad, b: PositionedQuad) -> bool {
    forall|p: IVec2| !(#[trigger] a.covers(p) && b.covers(p))
}

/// The quads mesh the slice: each lies in the slice on the slice's plane, covers only faces
/// with its texture, no two overlap, and every visible microblock of a block that is not
/// skipped is covered.
pub open spec fn slice_meshed(data: SliceQuadData, cqs: ChunkQuadSlice, quads: Seq<IsometrizedQuad>) -> bool {
    &&& forall|k: int| 0 <= k < quads.len() ==> #[trigger] quad_in_slice(quads[k].quad)
    &&& forall|k: int| 0 <= k < quads.len() ==> #[trigger] quad_homogeneous(data, quads[k].quad)
    &&& forall|k: int|
        0 <= k < quads.len() ==> (#[trigger] quads[k]).isometry.spec_face() == cqs.face
            && quads[k].isometry.spec_magnitude() == cqs.mag && quads[k].isometry.spec_pos() == quads[k].quad.pos
    &&& forall|j: int, k: int| 0 <= j < quads.len() && 0 <= k < quads.len() && j != k ==> quads_disjoint(#[trigger] quads[j].quad, #[trigger] quads[k].quad)
    &&& forall|p: IVec2|
        in_slice_mb(p) && #[trigger] data.cell(p) is Some && !data.skipped(p) ==> exists|k: int|
            0 <= k < quads.len() && #[trigger] quads[k].quad.covers(p)
}

/// Every visible microblock of a slice in a block that is not skipped is covered by exactly
/// one quad of a meshed slice.
pub proof fn lemma_meshed_slice_covers_once(data: SliceQuadData, cqs: ChunkQuadSlice, quads: Seq<IsometrizedQuad>, p: IVec2)
    requires
        slice_meshed(data, cqs, quads),
        in_slice_mb(p),
        data.cell(p) is Some,
        !data.skipped(p),
    ensures
        exists|k: int| 0 <= k < quads.len() && #[trigger] quads[k].quad.covers(p),
        forall|j: int, k: int|
            0 <= j < quads.len() && 0 <= k < quads.len() && #[trigger] quads[j].quad.covers(p) && #[trigger] quads[k].quad.covers(p) ==> j == k,
{
    assert forall|j: int, k: int|
        0 <= j < quads.len() && 0 <= k < quads.len() && #[trigger] quads[j].quad.covers(p) && #[trigger] quads[k].quad.covers(p) implies j == k by {
        if j != k {
            assert(quads_disjoint(quads[j].quad, quads[k].quad));
        }
    }
}

/// A meshed slice has at most one quad per microblock position: no more than 4096 quads.
pub proof fn lemma_meshed_slice_quad_count(data: SliceQuadData, cqs: ChunkQuadSlice, quads: Seq<IsometrizedQuad>)
    requires
        slice_meshed(data, cqs, quads),
    ensures
        quads.len() <= 4096,
{
    let n = quads.len() as int;
    let dom = vstd::set_lib::set_int_range(0, n);
    let f = |k: int| slice_cell(quads[k].quad.pos);
    vstd::set_lib::lemma_int_range(0, n);
    vstd::set_lib::lemma_int_range(0, 4096);
    assert forall|a: int, b: int| dom.contains(a) && dom.contains(b) && #[trigger] f(a) == #[trigger] f(b) implies a == b by {
        assert(quad_in_slice(quads[a].quad));
        assert(quad_in_slice(quads[b].quad));
        lemma_slice_cell(quads[a].quad.pos, quads[b].quad.pos);
        assert(quads[a].quad.covers(quads[a].quad.pos));
        assert(quads[b].quad.covers(quads[a].quad.pos));
        if a != b {
            assert(quads_disjoint(quads[a].quad, quads[b].quad));
        }
    }
    vstd::set_lib::lemma_map_size(dom, dom.map(f), f);
    assert(dom.map(f).subset_of(vstd::set_lib::set_int_range(0, 4096))) by {
        assert forall|i: int| #[trigger] dom.map(f).contains(i) implies vstd::set_lib::set_int_range(0, 4096).contains(i) by {
            let k = choose|k: int| dom.contains(k) && f(k) == i;
            assert(quad_in_slice(quads[k].quad));
            lemma_slice_cell(quads[k].quad.pos, quads[k].quad.pos);
        }
    }
    vstd::set_lib::lemma_len_subset(dom.map(f), vstd::set_lib::set_int_range(0, 4096));
}

/// The microblock `p` cannot join a quad with texture `t`: it is masked, or has no face with
/// that texture.
#[verifier::opaque]
pub open spec fn mask_or_other_texture(data: SliceQuadData, mask: ChunkSliceMask, p: IVec2, t: FaceTexture) -> bool {
    mask.spec_masked(p) || !(data.cell(p) matches Some(m) && m.texture == t)
}

/// A 1x1 data quad of the slice that is not the same as the 1x1 quad being widened has another
/// texture.
proof fn widen_stop_other_texture(
    fpos: IVec2,
    quad: PositionedQuad,
    data: SliceQuadData,
    candidate_pos: IVec2,
    candidate: DataQuad,
    widen_by: int,
)
    requires
        data.wf(),
        in_slice_mb(candidate_pos),
        data.quads@[slice_cell(candidate_pos)] == Ok::<Option<DataQuad>, CqsError>(Some(candidate)),
        quad.dataquad.quad.spec_x() == 1,
        quad.dataquad.quad.spec_y() == 1,
        !candidate.same_as(quad.dataquad),
    ensures
        !(data.cell(candidate_pos) matches Some(m) && m.texture == quad.dataquad.texture),
{
    assert(0 <= slice_cell(candidate_pos) < 4096);
    candidate.quad.lemma_same_dims(quad.dataquad.quad);
}

/// Try to extend the quad at `fpos` along x, over unmasked microblocks with the same quad. Fails,
/// leaving the quad as it was, at the first read it meets that failed.
fn widen_quad(fpos: IVec2, quad: &mut PositionedQuad, data: &SliceQuadData, mask: &ChunkSliceMask) -> (r: Result<
    (),
    CqsError,
>)
    requires
        in_slice_mb(fpos),
        data.wf(),
        mask.wf(),
        old(quad).pos == fpos,
        old(quad).dataquad.quad.wf(),
        old(quad).dataquad.quad.spec_x() == 1,
        old(quad).dataquad.quad.spec_y() == 1,
    ensures
        final(quad).pos == fpos,
        final(quad).dataquad.texture == old(quad).dataquad.texture,
        final(quad).dataquad.data == old(quad).dataquad.data,
        final(quad).dataquad.quad.spec_y() == 1,
        final(quad).wf(),
        1 <= final(quad).dataquad.quad.spec_x() <= 64 - fpos.x,
        forall|p: IVec2|
            p.y == fpos.y && fpos.x < p.x < fpos.x + final(quad).dataquad.quad.spec_x() ==> !#[trigger] mask.spec_masked(p)
                && (data.cell(p) matches Some(m) && m.texture == old(quad).dataquad.texture),
        r is Ok && fpos.x + final(quad).dataquad.quad.spec_x() < 64 ==> mask_or_other_texture(
            *data,
            *mask,
            IVec2 { x: (fpos.x + final(quad).dataquad.quad.spec_x()) as i32, y: fpos.y },
            old(quad).dataquad.texture,
        ),
        r matches Err(e) ==> data.has_error(e) && *final(quad) == *old(quad),
{
    let limit = 64 - fpos.x;
    let mut widen_by: i32 = 0;
    let mut dx: i32 = 1;
    let mut stop = false;
    while dx < limit && !stop
        invariant
            in_slice_mb(fpos),
            data.wf(),
            mask.wf(),
            limit == 64 - fpos.x,
            1 <= dx <= limit,
            0 <= widen_by < dx,
            !stop ==> widen_by == dx - 1,
            stop ==> widen_by + 1 < limit && mask_or_other_texture(
                *data,
                *mask,
                IVec2 { x: (fpos.x + widen_by + 1) as i32, y: fpos.y },
                quad.dataquad.texture,
            ),
            quad.dataquad.quad.spec_x() == 1,
            quad.dataquad.quad.spec_y() == 1,
            *quad == *old(quad),
            old(quad).pos == fpos,
            old(quad).dataquad.quad.wf(),
            forall|p: IVec2|
                p.y == fpos.y && fpos.x < p.x <= fpos.x + widen_by ==> !#[trigger] mask.spec_masked(p) && (data.cell(
                    p,
                ) matches Some(m) && m.same_as(quad.dataquad)),
        decreases (limit - dx) * 2 + (if stop { 0int } else { 1int }),
    {
        let candidate_pos = ivec2(fpos.x + dx, fpos.y);
        if mask.is_masked_mb(candidate_pos) {
            proof {
                assert(candidate_pos == IVec2 { x: (fpos.x + widen_by + 1) as i32, y: fpos.y });
                reveal(mask_or_other_texture);
            }
            stop = true;
        } else {
            let ci = slice_cell_index(candidate_pos);
            let candidate = data.quads[ci];
            match candidate {
                Err(e) => {
                    proof {
                        assert(data.quads@[ci as int] == Err::<Option<DataQuad>, CqsError>(e));
                    }
                    return Err(e);
                },
                Ok(Some(merge_candidate)) => {
                    if merge_candidate.same(&quad.dataquad) {
                        proof {
                            assert forall|p: IVec2|
                                p.y == fpos.y && fpos.x < p.x <= fpos.x + dx implies !#[trigger] mask.spec_masked(p)
                                    && (data.cell(p) matches Some(m) && m.same_as(quad.dataquad)) by {
                                if p.x == fpos.x + dx {
                                    assert(p == candidate_pos);
                                }
                            }
                        }
                        widen_by = dx;
                        dx = dx + 1;
                    } else {
                        proof {
                            widen_stop_other_texture(fpos, *quad, *data, candidate_pos, merge_candidate, widen_by as int);
                            assert(candidate_pos == IVec2 { x: (fpos.x + widen_by + 1) as i32, y: fpos.y });
                            reveal(mask_or_other_texture);
                        }
                        stop = true;
                    }
                },
                Ok(None) => {
                    proof {
                        assert(candidate_pos == IVec2 { x: (fpos.x + widen_by + 1) as i32, y: fpos.y });
                        assert(data.cell(candidate_pos) is None);
                        reveal(mask_or_other_texture);
                    }
                    stop = true;
                },
            }
        }
    }
    let _ = quad.widen(widen_by);
    Ok(())
}

/// Try to extend the quad at `fpos` along y, one full row of its width at a time, over
/// unmasked microblocks with the quad's texture. Fails, leaving the quad as it was, at the first
/// read it meets that failed.
fn heighten_quad(fpos: IVec2, quad: &mut PositionedQuad, data: &SliceQuadData, mask: &ChunkSliceMask) -> (r: Result<
    (),
    CqsError,
>)
    requires
        in_slice_mb(fpos),
        data.wf(),
        mask.wf(),
        old(quad).pos == fpos,
        old(quad).wf(),
        old(quad).dataquad.quad.spec_y() == 1,
        1 <= old(quad).dataquad.quad.spec_x() <= 64 - fpos.x,
    ensures
        final(quad).pos == fpos,
        final(quad).dataquad.texture == old(quad).dataquad.texture,
        final(quad).dataquad.data == old(quad).dataquad.data,
        final(quad).dataquad.quad.spec_x() == old(quad).dataquad.quad.spec_x(),
        final(quad).wf(),
        1 <= final(quad).dataquad.quad.spec_y() <= 64 - fpos.y,
        forall|p: IVec2|
            fpos.y < p.y < fpos.y + final(quad).dataquad.quad.spec_y() && fpos.x <= p.x < fpos.x
                + old(quad).dataquad.quad.spec_x() ==> !#[trigger] mask.spec_masked(p) && (data.cell(p) matches Some(
                m) && m.texture == old(quad).dataquad.texture),
        r is Ok && fpos.y + final(quad).dataquad.quad.spec_y() < 64 ==> exists|x: int|
            fpos.x <= x < fpos.x + old(quad).dataquad.quad.spec_x() && #[trigger] mask_or_other_texture(
                *data,
                *mask,
                IVec2 { x: x as i32, y: (fpos.y + final(quad).dataquad.quad.spec_y()) as i32 },
                old(quad).dataquad.texture,
            ),
        r matches Err(e) ==> data.has_error(e) && *final(quad) == *old(quad),
{
    let limit = 64 - fpos.y;
    let min_x = quad.min().x;
    let max_x = quad.max().x;
    let mut heighten_by: i32 = 0;
    let mut dy: i32 = 1;
    let mut stop = false;
    while dy < limit && !stop
        invariant
            in_slice_mb(fpos),
            data.wf(),
            mask.wf(),
            limit == 64 - fpos.y,
            min_x == fpos.x,
            max_x == fpos.x + quad.dataquad.quad.spec_x() - 1,
            max_x < 64,
            1 <= dy <= limit,
            0 <= heighten_by < dy,
            !stop ==> heighten_by == dy - 1,
            stop ==> heighten_by + 1 < limit && exists|x: int|
                min_x <= x <= max_x && #[trigger] mask_or_other_texture(
                    *data,
                    *mask,
                    IVec2 { x: x as i32, y: (fpos.y + heighten_by + 1) as i32 },
                    quad.dataquad.texture,
                ),
            *quad == *old(quad),
            old(quad).pos == fpos,
            old(quad).wf(),
            old(quad).dataquad.quad.spec_y() == 1,
            1 <= old(quad).dataquad.quad.spec_x() <= 64 - fpos.x,
            forall|p: IVec2|
                fpos.y < p.y <= fpos.y + heighten_by && min_x <= p.x <= max_x ==> !#[trigger] mask.spec_masked(p) && (
                data.cell(p) matches Some(m) && m.texture == quad.dataquad.texture),
        decreases (limit - dy) * 2 + (if stop { 0int } else { 1int }),
    {
        // Sweep the width of the quad: if any microblock of this row can't be merged, the quad
        // can't grow any further.
        let y = dy + fpos.y;
        let mut hx = min_x;
        let mut row_ok = true;
        while hx <= max_x && row_ok
            invariant
                in_slice_mb(fpos),
                data.wf(),
                mask.wf(),
                min_x == fpos.x,
                max_x < 64,
                min_x <= hx <= max_x + 1,
                0 <= y < 64,
                row_ok ==> forall|p: IVec2|
                    p.y == y && min_x <= p.x < hx ==> !#[trigger] mask.spec_masked(p) && (data.cell(p) matches Some(m)
                        && m.texture == quad.dataquad.texture),
                !row_ok ==> hx <= max_x && mask_or_other_texture(*data, *mask, IVec2 { x: hx, y }, quad.dataquad.texture),
                *quad == *old(quad),
                old(quad).pos == fpos,
                old(quad).wf(),
                old(quad).dataquad.quad.spec_y() == 1,
                1 <= old(quad).dataquad.quad.spec_x() <= 64 - fpos.x,
            decreases (max_x + 1 - hx) * 2 + (if row_ok { 1int } else { 0int }),
        {
            let candidate_pos = ivec2(hx, y);
            if mask.is_masked_mb(candidate_pos) {
                proof {
                    reveal(mask_or_other_texture);
                }
                row_ok = false;
            } else {
                let ci = slice_cell_index(candidate_pos);
                match data.quads[ci] {
                    Err(e) => {
                        proof {
                            assert(data.quads@[ci as int] == Err::<Option<DataQuad>, CqsError>(e));
                        }
                        return Err(e);
                    },
                    Ok(Some(candidate)) => {
                        proof {
                            assert(data.cell(candidate_pos) == Some(candidate));
                        }
                        if candidate.texture != quad.dataquad.texture {
                            proof {
                                assert(data.cell(candidate_pos) == Some(candidate));
                                reveal(mask_or_other_texture);
                            }
                            row_ok = false;
                        } else {
                            proof {
                                assert forall|p: IVec2|
                                    p.y == y && min_x <= p.x < hx + 1 implies !#[trigger] mask.spec_masked(p) && (data.cell(
                                        p,
                                    ) matches Some(m) && m.texture == quad.dataquad.texture) by {
                                    if p.x == hx {
                                        assert(p == candidate_pos);
                                    }
                                }
                            }
                            hx = hx + 1;
                        }
                    },
                    Ok(None) => {
                        proof {
                            assert(data.cell(candidate_pos) is None);
                            reveal(mask_or_other_texture);
                        }
                        row_ok = false;
                    },
                }
            }
        }
        proof {
            if !row_ok {
                assert(mask_or_other_texture(
                    *data,
                    *mask,
                    IVec2 { x: ((hx as int) as i32), y: (fpos.y + heighten_by + 1) as i32 },
                    quad.dataquad.texture,
                ));
            }
        }
        if row_ok {
            proof {
                assert forall|p: IVec2|
                    fpos.y < p.y <= fpos.y + dy && min_x <= p.x <= max_x implies !#[trigger] mask.spec_masked(p) && (
                    data.cell(p) matches Some(m) && m.texture == quad.dataquad.texture) by {
                    if p.y == y {
                        assert(p.x < hx);
                    } else {
                        assert(p.y <= fpos.y + heighten_by);
                    }
                }
            }
            heighten_by = dy;
            dy = dy + 1;
        } else {
            stop = true;
        }
    }
    let _ = quad.heighten(heighten_by);
    Ok(())
}

/// The rank of the block holding a microblock position, in the order the mesher visits blocks.
pub open spec fn block_rank(p: IVec2) -> int {
    (p.x / 4) * 16 + p.y / 4
}

/// The rank of a microblock position within its block, in the order the mesher visits them.
pub open spec fn sub_rank(p: IVec2) -> int {
    (p.x % 4) * 4 + p.y % 4
}

/// The microblock position with the given block rank and rank within the block.
pub open spec fn cell_at(b: int, s: int) -> IVec2 {
    IVec2 { x: ((b / 16) * 4 + s / 4) as i32, y: ((b % 16) * 4 + s % 4) as i32 }
}

proof fn lemma_cell_at(b: int, s: int)
    requires
        0 <= b < 256,
        0 <= s < 16,
    ensures
        in_slice_mb(cell_at(b, s)),
        block_rank(cell_at(b, s)) == b,
        sub_rank(cell_at(b, s)) == s,
        block_of(cell_at(b, s)) == (IVec2 { x: (b / 16) as i32, y: (b % 16) as i32 }),
{
    let x = (b / 16) * 4 + s / 4;
    let y = (b % 16) * 4 + s % 4;
    assert(0 <= b / 16 < 16 && 0 <= b % 16 < 16 && 0 <= s / 4 < 4 && 0 <= s % 4 < 4) by (nonlinear_arith)
        requires 0 <= b < 256, 0 <= s < 16;
    assert(x / 4 == b / 16 && x % 4 == s / 4) by (nonlinear_arith)
        requires x == (b / 16) * 4 + s / 4, 0 <= s / 4 < 4, 0 <= b / 16;
    assert(y / 4 == b % 16 && y % 4 == s % 4) by (nonlinear_arith)
        requires y == (b % 16) * 4 + s % 4, 0 <= s % 4 < 4, 0 <= b % 16;
    assert((b / 16) * 16 + b % 16 == b) by (nonlinear_arith)
        requires 0 <= b;
    assert((s / 4) * 4 + s % 4 == s) by (nonlinear_arith)
        requires 0 <= s;
}

proof fn lemma_cell_ranks(p: IVec2)
    requires
        in_slice_mb(p),
    ensures
        0 <= block_rank(p) < 256,
        0 <= sub_rank(p) < 16,
        p == cell_at(block_rank(p), sub_rank(p)),
{
    let x = p.x as int;
    let y = p.y as int;
    assert(0 <= x / 4 < 16 && 0 <= y / 4 < 16 && 0 <= x % 4 < 4 && 0 <= y % 4 < 4) by (nonlinear_arith)
        requires 0 <= x < 64, 0 <= y < 64;
    let b = (x / 4) * 16 + y / 4;
    let s = (x % 4) * 4 + y % 4;
    assert(b / 16 == x / 4 && b % 16 == y / 4) by (nonlinear_arith)
        requires b == (x / 4) * 16 + y / 4, 0 <= y / 4 < 16, 0 <= x / 4;
    assert(s / 4 == x % 4 && s % 4 == y % 4) by (nonlinear_arith)
        requires s == (x % 4) * 4 + y % 4, 0 <= y % 4 < 4, 0 <= x % 4;
    assert((x / 4) * 4 + x % 4 == x && (y / 4) * 4 + y % 4 == y) by (nonlinear_arith)
        requires 0 <= x, 0 <= y;
}

/// The quads built so far and the mask agree: every quad lies in the slice on the slice's
/// plane and covers only faces with its texture, no two overlap, and the mask holds exactly the
/// microblocks they cover.
pub open spec fn mesh_progress(data: SliceQuadData, cqs: ChunkQuadSlice, quads: Seq<IsometrizedQuad>, mask: ChunkSliceMask) -> bool {
    &&& forall|k: int| 0 <= k < quads.len() ==> #[trigger] quad_in_slice(quads[k].quad)
    &&& forall|k: int| 0 <= k < quads.len() ==> #[trigger] quad_homogeneous(data, quads[k].quad)
    &&& forall|k: int|
        0 <= k < quads.len() ==> (#[trigger] quads[k]).isometry.spec_face() == cqs.face
            && quads[k].isometry.spec_magnitude() == cqs.mag && quads[k].isometry.spec_pos() == quads[k].quad.pos
    &&& forall|j: int, k: int| 0 <= j < quads.len() && 0 <= k < quads.len() && j != k ==> quads_disjoint(#[trigger] quads[j].quad, #[trigger] quads[k].quad)
    &&& forall|p: IVec2|
        in_slice_mb(p) ==> (#[trigger] mask.spec_masked(p) <==> exists|k: int|
            0 <= k < quads.len() && #[trigger] quads[k].quad.covers(p))
}

proof fn lemma_add_quad(
    data: SliceQuadData,
    cqs: ChunkQuadSlice,
    quads: Seq<IsometrizedQuad>,
    mask: ChunkSliceMask,
    new_mask: ChunkSliceMask,
    q: IsometrizedQuad,
)
    requires
        mesh_progress(data, cqs, quads, mask),
        quad_in_slice(q.quad),
        quad_homogeneous(data, q.quad),
        q.isometry.spec_face() == cqs.face,
        q.isometry.spec_magnitude() == cqs.mag,
        q.isometry.spec_pos() == q.quad.pos,
        forall|p: IVec2| #[trigger] q.quad.covers(p) ==> !mask.spec_masked(p),
        forall|p: IVec2| in_slice_mb(p) ==> (#[trigger] new_mask.spec_masked(p) == (mask.spec_masked(p) || q.quad.covers(p))),
    ensures
        mesh_progress(data, cqs, quads.push(q), new_mask),
{
    let nq = quads.push(q);
    let n = quads.len() as int;
    assert forall|k: int| 0 <= k < nq.len() implies #[trigger] quad_in_slice(nq[k].quad) by {
        if k < n {
            assert(nq[k] == quads[k]);
        }
    }
    assert forall|k: int| 0 <= k < nq.len() implies #[trigger] quad_homogeneous(data, nq[k].quad) by {
        if k < n {
            assert(nq[k] == quads[k]);
        }
    }
    assert forall|k: int| 0 <= k < nq.len() implies (#[trigger] nq[k]).isometry.spec_face() == cqs.face
        && nq[k].isometry.spec_magnitude() == cqs.mag && nq[k].isometry.spec_pos() == nq[k].quad.pos by {
        if k < n {
            assert(nq[k] == quads[k]);
        }
    }
    assert forall|j: int, k: int| 0 <= j < nq.len() && 0 <= k < nq.len() && j != k implies quads_disjoint(
        #[trigger] nq[j].quad,
        #[trigger] nq[k].quad,
    ) by {
        if j < n && k < n {
            assert(quads_disjoint(quads[j].quad, quads[k].quad));
        } else {
            let old_k = if j < n { j } else { k };
            assert forall|p: IVec2| !(#[trigger] nq[j].quad.covers(p) && nq[k].quad.covers(p)) by {
                if nq[j].quad.covers(p) && nq[k].quad.covers(p) {
                    assert(q.quad.covers(p));
                    assert(quads[old_k].quad.covers(p));
                    assert(quad_in_slice(quads[old_k].quad));
                    assert(in_slice_mb(p));
                    assert(mask.spec_masked(p));
                }
            }
        }
    }
    assert forall|p: IVec2| in_slice_mb(p) implies (#[trigger] new_mask.spec_masked(p) <==> exists|k: int|
        0 <= k < nq.len() && #[trigger] nq[k].quad.covers(p)) by {
        if new_mask.spec_masked(p) {
            if q.quad.covers(p) {
                assert(nq[n].quad.covers(p));
            } else {
                assert(mask.spec_masked(p));
                let k = choose|k: int| 0 <= k < quads.len() && #[trigger] quads[k].quad.covers(p);
                assert(nq[k].quad.covers(p));
            }
        }
        if exists|k: int| 0 <= k < nq.len() && #[trigger] nq[k].quad.covers(p) {
            let k = choose|k: int| 0 <= k < nq.len() && #[trigger] nq[k].quad.covers(p);
            if k < n {
                assert(quads[k].quad.covers(p));
                assert(mask.spec_masked(p));
            }
        }
    }
}

/// Some quad before the `k`-th one covers `p`.
pub open spec fn covered_before(quads: Seq<IsometrizedQuad>, k: int, p: IVec2) -> bool {
    exists|j: int| 0 <= j < k && #[trigger] quads[j].quad.covers(p)
}

/// `p` cannot join a quad with texture `t` built after the first `k` quads: it lies outside the
/// slice, one of those quads covers it, or it has no face with that texture.
pub open spec fn growth_blocked(data: SliceQuadData, quads: Seq<IsometrizedQuad>, k: int, p: IVec2, t: FaceTexture) -> bool {
    !in_slice_mb(p) || covered_before(quads, k, p) || !(data.cell(p) matches Some(m) && m.texture == t)
}

/// `p` comes before `s` in the order the mesher visits microblocks: block by block, then within
/// the block.
pub open spec fn visited_before(p: IVec2, s: IVec2) -> bool {
    block_rank(p) < block_rank(s) || (block_rank(p) == block_rank(s) && sub_rank(p) < sub_rank(s))
}

/// The `k`-th quad is the one the greedy mesher builds after the first `k`: it starts at the
/// first microblock, in visiting order, that has a face, lies in a block that is not skipped
/// and that no earlier quad covers, and takes that face's texture and vertex data; from there
/// it is as wide as it can be along x, and then as high as it can be along y at that width.
pub open spec fn greedy_choice(data: SliceQuadData, quads: Seq<IsometrizedQuad>, k: int) -> bool {
    let q = quads[k].quad;
    let s = q.pos;
    let t = q.dataquad.texture;
    let w = q.dataquad.quad.spec_x() as int;
    let h = q.dataquad.quad.spec_y() as int;
    &&& data.cell(s) matches Some(d) && d.texture == t && d.data == q.dataquad.data
    &&& !data.skipped(s)
    &&& forall|p: IVec2|
        in_slice_mb(p) && visited_before(p, s) && #[trigger] data.cell(p) is Some && !data.skipped(p) ==> covered_before(
            quads,
            k,
            p,
        )
    &&& growth_blocked(data, quads, k, IVec2 { x: (s.x + w) as i32, y: s.y }, t)
    &&& exists|x: int|
        s.x <= x < s.x + w && #[trigger] growth_blocked(data, quads, k, IVec2 { x: x as i32, y: (s.y + h) as i32 }, t)
}

/// Appending a quad leaves the choices of the quads before it as they were.
proof fn lemma_greedy_push(data: SliceQuadData, quads: Seq<IsometrizedQuad>, q: IsometrizedQuad, k: int)
    requires
        0 <= k < quads.len(),
        greedy_choice(data, quads, k),
    ensures
        greedy_choice(data, quads.push(q), k),
{
    let nq = quads.push(q);
    assert(nq[k] == quads[k]);
    assert forall|p: IVec2| covered_before(quads, k, p) implies covered_before(nq, k, p) by {
        let j = choose|j: int| 0 <= j < k && #[trigger] quads[j].quad.covers(p);
        assert(nq[j] == quads[j]);
    }
    assert forall|p: IVec2| covered_before(nq, k, p) implies covered_before(quads, k, p) by {
        let j = choose|j: int| 0 <= j < k && #[trigger] nq[j].quad.covers(p);
        assert(nq[j] == quads[j]);
    }
    let qk = quads[k].quad;
    let x = choose|x: int|
        qk.pos.x <= x < qk.pos.x + qk.dataquad.quad.spec_x() && #[trigger] growth_blocked(
            data,
            quads,
            k,
            IVec2 { x: x as i32, y: (qk.pos.y + qk.dataquad.quad.spec_y()) as i32 },
            qk.dataquad.texture,
        );
    assert(growth_blocked(
        data,
        nq,
        k,
        IVec2 { x: x as i32, y: (qk.pos.y + qk.dataquad.quad.spec_y()) as i32 },
        qk.dataquad.texture,
    ));
}

/// The quad built at the unmasked microblock `fpos`, visited as microblock `s` of block `b`, is
/// the greedy choice after the quads built before it.
proof fn lemma_greedy_new(
    data: SliceQuadData,
    cqs: ChunkQuadSlice,
    quads: Seq<IsometrizedQuad>,
    mask: ChunkSliceMask,
    q: IsometrizedQuad,
    b: int,
    s: int,
)
    requires
        mesh_progress(data, cqs, quads, mask),
        0 <= b < 256,
        0 <= s < 16,
        q.quad.pos == cell_at(b, s),
        data.cell(q.quad.pos) matches Some(d) && d.texture == q.quad.dataquad.texture && d.data == q.quad.dataquad.data,
        !data.skipped(q.quad.pos),
        forall|p: IVec2|
            in_slice_mb(p) && (block_rank(p) < b || (block_rank(p) == b && sub_rank(p) < s)) && #[trigger] data.cell(p) is Some
                && !data.skipped(p) ==> mask.spec_masked(p),
        1 <= q.quad.dataquad.quad.spec_x() <= 64 - q.quad.pos.x,
        1 <= q.quad.dataquad.quad.spec_y() <= 64 - q.quad.pos.y,
        q.quad.pos.x + q.quad.dataquad.quad.spec_x() < 64 ==> mask_or_other_texture(
            data,
            mask,
            IVec2 { x: (q.quad.pos.x + q.quad.dataquad.quad.spec_x()) as i32, y: q.quad.pos.y },
            q.quad.dataquad.texture,
        ),
        q.quad.pos.y + q.quad.dataquad.quad.spec_y() < 64 ==> exists|x: int|
            q.quad.pos.x <= x < q.quad.pos.x + q.quad.dataquad.quad.spec_x() && #[trigger] mask_or_other_texture(
                data,
                mask,
                IVec2 { x: x as i32, y: (q.quad.pos.y + q.quad.dataquad.quad.spec_y()) as i32 },
                q.quad.dataquad.texture,
            ),
    ensures
        greedy_choice(data, quads.push(q), quads.len() as int),
{
    reveal(mask_or_other_texture);
    let nq = quads.push(q);
    let n = quads.len() as int;
    let fpos = q.quad.pos;
    let t = q.quad.dataquad.texture;
    let w = q.quad.dataquad.quad.spec_x() as int;
    let h = q.quad.dataquad.quad.spec_y() as int;
    lemma_cell_at(b, s);
    assert(nq[n] == q);
    assert forall|p: IVec2| in_slice_mb(p) && mask.spec_masked(p) implies covered_before(nq, n, p) by {
        let j = choose|j: int| 0 <= j < quads.len() && #[trigger] quads[j].quad.covers(p);
        assert(nq[j] == quads[j]);
    }
    assert forall|p: IVec2|
        in_slice_mb(p) && visited_before(p, fpos) && #[trigger] data.cell(p) is Some && !data.skipped(p) implies covered_before(
        nq,
        n,
        p,
    ) by {
        assert(mask.spec_masked(p));
    }
    let right = IVec2 { x: (fpos.x + w) as i32, y: fpos.y };
    if in_slice_mb(right) && (data.cell(right) matches Some(m) && m.texture == t) {
        assert(mask.spec_masked(right));
    }
    assert(growth_blocked(data, nq, n, right, t));
    let y_above = fpos.y + h;
    if y_above < 64 {
        let x = choose|x: int|
            fpos.x <= x < fpos.x + w && #[trigger] mask_or_other_texture(
                data,
                mask,
                IVec2 { x: x as i32, y: (fpos.y + h) as i32 },
                t,
            );
        let above = IVec2 { x: x as i32, y: (fpos.y + h) as i32 };
        if in_slice_mb(above) && (data.cell(above) matches Some(m) && m.texture == t) {
            assert(mask.spec_masked(above));
        }
        assert(growth_blocked(data, nq, n, above, t));
    } else {
        let above = IVec2 { x: fpos.x, y: (fpos.y + h) as i32 };
        assert(growth_blocked(data, nq, n, above, t));
        assert(fpos.x <= fpos.x < fpos.x + w);
        assert(growth_blocked(data, nq, n, IVec2 { x: (fpos.x as int) as i32, y: (fpos.y + h) as i32 }, t));
    }
}

/// A quad in the slice covers its own starting microblock.
proof fn lemma_covers_start(q: PositionedQuad)
    requires
        quad_in_slice(q),
    ensures
        q.covers(q.pos),
{
}

/// With the same first `k` quads, the `k`-th greedy choices of two meshings of a slice agree.
proof fn lemma_greedy_step(data: SliceQuadData, cqs: ChunkQuadSlice, a: Seq<IsometrizedQuad>, b: Seq<IsometrizedQuad>, k: int)
    requires
        data.wf(),
        slice_meshed(data, cqs, a),
        slice_meshed(data, cqs, b),
        0 <= k < a.len(),
        k < b.len(),
        greedy_choice(data, a, k),
        greedy_choice(data, b, k),
        forall|j: int| 0 <= j < k ==> a[j] == b[j],
    ensures
        a[k] == b[k],
{
    let qa = a[k].quad;
    let qb = b[k].quad;
    let sa = qa.pos;
    let sb = qb.pos;
    assert(quad_in_slice(qa));
    assert(quad_in_slice(qb));
    assert forall|p: IVec2| covered_before(a, k, p) == covered_before(b, k, p) by {
        if covered_before(a, k, p) {
            let j = choose|j: int| 0 <= j < k && #[trigger] a[j].quad.covers(p);
            assert(b[j] == a[j]);
        }
        if covered_before(b, k, p) {
            let j = choose|j: int| 0 <= j < k && #[trigger] b[j].quad.covers(p);
            assert(b[j] == a[j]);
        }
    }
    // A microblock one of the `k`-th quads covers is not covered by an earlier quad.
    assert forall|p: IVec2| qa.covers(p) implies !covered_before(a, k, p) by {
        if covered_before(a, k, p) {
            let j = choose|j: int| 0 <= j < k && #[trigger] a[j].quad.covers(p);
            assert(quads_disjoint(a[j].quad, a[k].quad));
        }
    }
    assert forall|p: IVec2| qb.covers(p) implies !covered_before(b, k, p) by {
        if covered_before(b, k, p) {
            let j = choose|j: int| 0 <= j < k && #[trigger] b[j].quad.covers(p);
            assert(quads_disjoint(b[j].quad, b[k].quad));
        }
    }
    lemma_covers_start(qa);
    lemma_covers_start(qb);
    // The starts agree: neither comes before the other.
    lemma_cell_ranks(sa);
    lemma_cell_ranks(sb);
    if visited_before(sa, sb) {
        assert(data.cell(sa) is Some);
        assert(covered_before(b, k, sa));
        assert(false);
    }
    if visited_before(sb, sa) {
        assert(data.cell(sb) is Some);
        assert(covered_before(a, k, sb));
        assert(false);
    }
    assert(sa == sb);
    let t = qa.dataquad.texture;
    assert(qb.dataquad.texture == t);
    assert(qb.dataquad.data == qa.dataquad.data);
    assert(quad_homogeneous(data, a[k].quad));
    assert(quad_homogeneous(data, b[k].quad));
    let wa = qa.dataquad.quad.spec_x() as int;
    let wb = qb.dataquad.quad.spec_x() as int;
    let ha = qa.dataquad.quad.spec_y() as int;
    let hb = qb.dataquad.quad.spec_y() as int;
    // The widths agree: the microblock just right of the narrower quad could have joined it.
    if wa < wb {
        let r = IVec2 { x: (sa.x + wa) as i32, y: sa.y };
        assert(qb.covers(r));
        assert(data.cell(r) matches Some(d) && d.texture == t);
        assert(!covered_before(b, k, r));
        assert(in_slice_mb(r));
        assert(!growth_blocked(data, a, k, r, t));
        assert(false);
    }
    if wb < wa {
        let r = IVec2 { x: (sb.x + wb) as i32, y: sb.y };
        assert(qa.covers(r));
        assert(data.cell(r) matches Some(d) && d.texture == t);
        assert(!covered_before(a, k, r));
        assert(in_slice_mb(r));
        assert(!growth_blocked(data, b, k, r, t));
        assert(false);
    }
    // The heights agree: the row just above the lower quad could have joined it.
    if ha < hb {
        let x = choose|x: int|
            sa.x <= x < sa.x + wa && #[trigger] growth_blocked(data, a, k, IVec2 { x: x as i32, y: (sa.y + ha) as i32 }, t);
        let r = IVec2 { x: x as i32, y: (sa.y + ha) as i32 };
        assert(qb.covers(r));
        assert(false);
    }
    if hb < ha {
        let x = choose|x: int|
            sb.x <= x < sb.x + wb && #[trigger] growth_blocked(data, b, k, IVec2 { x: x as i32, y: (sb.y + hb) as i32 }, t);
        let r = IVec2 { x: x as i32, y: (sb.y + hb) as i32 };
        assert(qa.covers(r));
        assert(false);
    }
    qa.dataquad.quad.lemma_same_dims(qb.dataquad.quad);
    assert(qa == qb);
    a[k].isometry.lemma_same_parts(b[k].isometry);
}

proof fn lemma_greedy_prefix(
    data: SliceQuadData,
    cqs: ChunkQuadSlice,
    a: Seq<IsometrizedQuad>,
    b: Seq<IsometrizedQuad>,
    n: int,
)
    requires
        data.wf(),
        slice_meshed(data, cqs, a),
        slice_meshed(data, cqs, b),
        forall|k: int| 0 <= k < a.len() ==> #[trigger] greedy_choice(data, a, k),
        forall|k: int| 0 <= k < b.len() ==> #[trigger] greedy_choice(data, b, k),
        0 <= n <= a.len(),
        n <= b.len(),
    ensures
        forall|j: int| 0 <= j < n ==> a[j] == b[j],
    decreases n,
{
    if n > 0 {
        lemma_greedy_prefix(data, cqs, a, b, n - 1);
        lemma_greedy_step(data, cqs, a, b, n - 1);
    }
}

/// The greedy meshing of a slice is the only meshing that covers every visible microblock of a
/// block that is not skipped and makes the greedy choice at every step: two such sequences of
/// quads are equal.
pub proof fn lemma_greedy_meshing_is_unique(
    data: SliceQuadData,
    cqs: ChunkQuadSlice,
    a: Seq<IsometrizedQuad>,
    b: Seq<IsometrizedQuad>,
)
    requires
        data.wf(),
        slice_meshed(data, cqs, a),
        slice_meshed(data, cqs, b),
        forall|k: int| 0 <= k < a.len() ==> #[trigger] greedy_choice(data, a, k),
        forall|k: int| 0 <= k < b.len() ==> #[trigger] greedy_choice(data, b, k),
    ensures
        a == b,
{
    let n = if a.len() <= b.len() { a.len() as int } else { b.len() as int };
    lemma_greedy_prefix(data, cqs, a, b, n);
    if a.len() > n {
        let s = a[n].quad.pos;
        assert(greedy_choice(data, a, n));
        assert(quad_in_slice(a[n].quad));
        lemma_covers_start(a[n].quad);
        assert(data.cell(s) is Some);
        let j = choose|j: int| 0 <= j < b.len() && #[trigger] b[j].quad.covers(s);
        assert(a[j] == b[j]);
        assert(quads_disjoint(a[j].quad, a[n].quad));
        assert(false);
    }
    if b.len() > n {
        let s = b[n].quad.pos;
        assert(greedy_choice(data, b, n));
        assert(quad_in_slice(b[n].quad));
        lemma_covers_start(b[n].quad);
        assert(data.cell(s) is Some);
        let j = choose|j: int| 0 <= j < a.len() && #[trigger] a[j].quad.covers(s);
        assert(a[j] == b[j]);
        assert(quads_disjoint(b[j].quad, b[n].quad));
        assert(false);
    }
    assert(a =~= b);
}

/// A quad started at the unmasked microblock `fpos`, widened and then heightened over unmasked
/// microblocks with its texture, covers only such microblocks.
proof fn lemma_grown_quad_fits(
    data: SliceQuadData,
    mask: ChunkSliceMask,
    fpos: IVec2,
    start: DataQuad,
    widened: PositionedQuad,
    current: PositionedQuad,
)
    requires
        in_slice_mb(fpos),
        !mask.spec_masked(fpos),
        data.cell(fpos) == Some(start),
        current.wf(),
        1 <= widened.dataquad.quad.spec_x() <= 64 - fpos.x,
        1 <= current.dataquad.quad.spec_y() <= 64 - fpos.y,
        widened.pos == fpos,
        widened.dataquad.texture == start.texture,
        widened.dataquad.quad.spec_y() == 1,
        forall|p: IVec2|
            p.y == fpos.y && fpos.x < p.x < fpos.x + widened.dataquad.quad.spec_x() ==> !#[trigger] mask.spec_masked(p)
                && (data.cell(p) matches Some(m) && m.texture == start.texture),
        current.pos == fpos,
        current.dataquad.texture == widened.dataquad.texture,
        current.dataquad.quad.spec_x() == widened.dataquad.quad.spec_x(),
        forall|p: IVec2|
            fpos.y < p.y < fpos.y + current.dataquad.quad.spec_y() && fpos.x <= p.x < fpos.x + widened.dataquad.quad.spec_x()
                ==> !#[trigger] mask.spec_masked(p) && (data.cell(p) matches Some(m) && m.texture == widened.dataquad.texture),
    ensures
        forall|p: IVec2| #[trigger] current.covers(p) ==> !mask.spec_masked(p) && (data.cell(p) matches Some(m) && m.texture
            == current.dataquad.texture),
{
    assert forall|p: IVec2| #[trigger] current.covers(p) implies !mask.spec_masked(p) && (data.cell(p) matches Some(m)
        && m.texture == current.dataquad.texture) by {
        if p.y == fpos.y {
            if p.x == fpos.x {
                assert(p == fpos);
            }
        }
    }
}

/// The greedy mesher: builds the quads of a chunk slice by slice into a scratch buffer.
#[derive(Clone, Debug)]
pub struct GreedyMesher {
    quad_buffer_scratch: Vec<IsometrizedQuad>,
}

/// The fields of a quad for the GPU, in integer form: the texture, the bitfield word, the
/// minimum and maximum (inclusive) microblock positions on the face plane and the magnitude of
/// the face (one past the slice for faces pointing along their axis).
#[derive(Copy, Clone, Debug, PartialEq, Eq, Structural)]
pub struct GpuQuadFields {
    pub texture_id: u32,
    pub bitfields: GpuQuadBitfields,
    pub min_2d: IVec2,
    pub max_2d: IVec2,
    pub magnitude: i32,
}

/// The GPU fields of an isometrized quad.
pub open spec fn spec_gpu_fields(q: IsometrizedQuad, bitfields: GpuQuadBitfields) -> GpuQuadFields {
    GpuQuadFields {
        texture_id: q.quad.dataquad.texture.id.0,
        bitfields,
        min_2d: q.quad.pos,
        max_2d: q.quad.spec_max(),
        magnitude: (if q.isometry.spec_face().spec_axis_direction() > 0 {
            q.isometry.spec_magnitude() + 1
        } else {
            q.isometry.spec_magnitude() as int
        }) as i32,
    }
}

/// The position in the index buffer of vertex index `j` of quad `i`.
pub open spec fn quad_index_slot(i: int, j: int) -> int {
    6 * i + j
}

/// The vertex indices of the two triangles of a quad.
pub open spec fn quad_vertex_index(j: int) -> int {
    if j == 0 {
        0
    } else if j == 1 {
        1
    } else if j == 2 {
        2
    } else if j == 3 {
        2
    } else if j == 4 {
        1
    } else {
        3
    }
}

impl GreedyMesher {
    /// The quads built so far.
    pub closed spec fn spec_scratch(&self) -> Seq<IsometrizedQuad> {
        self.quad_buffer_scratch@
    }

    /// A mesher with no quads.
    pub fn new() -> (r: GreedyMesher)
        ensures
            r.spec_scratch().len() == 0,
    {
        GreedyMesher { quad_buffer_scratch: Vec::new() }
    }

    /// Build the quads of one slice and append them to the scratch buffer. Blocks are visited
    /// in order, and each unmasked visible microblock of a block that is not skipped starts a
    /// quad that is first widened along x, then heightened along y as far as the faces agree.
    /// The reads of the slice are consumed in that order; the first failed read met stops the
    /// mesher with its error, leaving the quads built so far in the scratch buffer.
    #[verifier::spinoff_prover]
    pub fn calculate_slice_quads(&mut self, cqs: &ChunkQuadSlice, data: &SliceQuadData) -> (r: Result<(), CqsError>)
        requires
            data.wf(),
        ensures
            final(self).spec_scratch().len() >= old(self).spec_scratch().len(),
            final(self).spec_scratch().subrange(0, old(self).spec_scratch().len() as int) == old(self).spec_scratch(),
            r matches Err(e) ==> data.has_error(e),
            data.all_read() ==> r is Ok,
            r is Ok ==> forall|j: int| 0 <= j < 256 ==> #[trigger] data.skipped_blocks@[j] is Ok,
            r is Ok ==> forall|p: IVec2| in_slice_mb(p) && !data.skipped(p) ==> #[trigger] data.quads@[slice_cell(p)] is Ok,
            r is Ok ==> slice_meshed(
                *data,
                *cqs,
                final(self).spec_scratch().subrange(old(self).spec_scratch().len() as int, final(self).spec_scratch().len() as int),
            ),
            r is Ok ==> forall|k: int|
                0 <= k < final(self).spec_scratch().len() - old(self).spec_scratch().len() ==> #[trigger] greedy_choice(
                    *data,
                    final(self).spec_scratch().subrange(old(self).spec_scratch().len() as int, final(self).spec_scratch().len() as int),
                    k,
                ),
    {
        let ghost start = self.quad_buffer_scratch@.len() as int;
        let ghost before = self.quad_buffer_scratch@;
        let mut mask = ChunkSliceMask::new();
        proof {
            let built = self.quad_buffer_scratch@.subrange(start, self.quad_buffer_scratch@.len() as int);
            assert(built.len() == 0);
        }
        let mut b: usize = 0;
        while b < 256
            invariant
                data.wf(),
                mask.wf(),
                0 <= b <= 256,
                before == old(self).quad_buffer_scratch@,
                start == before.len(),
                self.quad_buffer_scratch@.len() >= start,
                self.quad_buffer_scratch@.subrange(0, start) == before,
                mesh_progress(*data, *cqs, self.quad_buffer_scratch@.subrange(start, self.quad_buffer_scratch@.len() as int), mask),
                forall|p: IVec2|
                    in_slice_mb(p) && block_rank(p) < b && #[trigger] data.cell(p) is Some && !data.skipped(p)
                        ==> mask.spec_masked(p),
                forall|k: int|
                    0 <= k < self.quad_buffer_scratch@.len() - start ==> #[trigger] greedy_choice(
                        *data,
                        self.quad_buffer_scratch@.subrange(start, self.quad_buffer_scratch@.len() as int),
                        k,
                    ),
                forall|j: int| 0 <= j < b ==> #[trigger] data.skipped_blocks@[j] is Ok,
                forall|p: IVec2|
                    in_slice_mb(p) && block_rank(p) < b && !data.skipped(p) ==> #[trigger] data.quads@[slice_cell(p)] is Ok,
            decreases 256 - b,
        {
            let cs = ivec2((b / 16) as i32, (b % 16) as i32);
            proof {
                assert forall|p: IVec2| in_slice_mb(p) implies (block_rank(p) == b) == (block_of(p) == cs) by {
                    lemma_cell_ranks(p);
                    lemma_cell_at(block_rank(p), sub_rank(p));
                }
            }
            let skip = match data.skipped_blocks[b] {
                Ok(v) => v,
                Err(e) => {
                    proof {
                        assert(data.skipped_blocks@[b as int] == Err::<bool, CqsError>(e));
                    }
                    return Err(e);
                },
            };
            if skip {
                // A full block without a model, or hidden under an opaque block.
            } else if mask.is_masked(cs) {
                // Every microblock of this block is already covered.
                proof {
                    assert forall|p: IVec2|
                        in_slice_mb(p) && block_rank(p) < b + 1 && !data.skipped(p) implies #[trigger] data.quads@[slice_cell(
                            p,
                        )] is Ok by {
                        lemma_cell_ranks(p);
                        if block_rank(p) == b {
                            assert(block_of(p) == cs);
                            assert(mask.spec_masked(p));
                            let built = self.quad_buffer_scratch@.subrange(start, self.quad_buffer_scratch@.len() as int);
                            let k = choose|k: int| 0 <= k < built.len() && #[trigger] built[k].quad.covers(p);
                            assert(quad_homogeneous(*data, built[k].quad));
                            assert(data.cell(p) is Some);
                        }
                    }
                }
            } else {
                let mut s: usize = 0;
                while s < 16
                    invariant
                        data.wf(),
                        mask.wf(),
                        0 <= b < 256,
                        0 <= s <= 16,
                        cs == (IVec2 { x: (b / 16) as i32, y: (b % 16) as i32 }),
                        before == old(self).quad_buffer_scratch@,
                        start == before.len(),
                        self.quad_buffer_scratch@.len() >= start,
                        self.quad_buffer_scratch@.subrange(0, start) == before,
                        mesh_progress(*data, *cqs, self.quad_buffer_scratch@.subrange(start, self.quad_buffer_scratch@.len() as int), mask),
                        forall|p: IVec2|
                            in_slice_mb(p) && (block_rank(p) < b || (block_rank(p) == b && sub_rank(p) < s))
                                && #[trigger] data.cell(p) is Some && !data.skipped(p) ==> mask.spec_masked(p),
                        data.skipped_blocks@[b as int] == Ok::<bool, CqsError>(false),
                        forall|k: int|
                            0 <= k < self.quad_buffer_scratch@.len() - start ==> #[trigger] greedy_choice(
                                *data,
                                self.quad_buffer_scratch@.subrange(start, self.quad_buffer_scratch@.len() as int),
                                k,
                            ),
                        forall|j: int| 0 <= j < b ==> #[trigger] data.skipped_blocks@[j] is Ok,
                        forall|p: IVec2|
                            in_slice_mb(p) && (block_rank(p) < b || (block_rank(p) == b && sub_rank(p) < s))
                                && !data.skipped(p) ==> #[trigger] data.quads@[slice_cell(p)] is Ok,
                    decreases 16 - s,
                {
                    let fpos = ivec2(cs.x * 4 + (s / 4) as i32, cs.y * 4 + (s % 4) as i32);
                    proof {
                        lemma_cell_at(b as int, s as int);
                        assert(fpos == cell_at(b as int, s as int));
                    }
                    if !mask.is_masked_mb(fpos) {
                        let ci = slice_cell_index(fpos);
                        match data.quads[ci] {
                            Err(e) => {
                                proof {
                                    assert(data.quads@[ci as int] == Err::<Option<DataQuad>, CqsError>(e));
                                }
                                return Err(e);
                            },
                            Ok(Some(dataquad)) => {
                                let ghost old_mask = mask;
                                let ghost built = self.quad_buffer_scratch@.subrange(start, self.quad_buffer_scratch@.len() as int);
                                assert(data.cell(fpos) == Some(dataquad));
                                let mut current = PositionedQuad::new(fpos, dataquad);
                                match widen_quad(fpos, &mut current, data, &mask) {
                                    Ok(()) => {},
                                    Err(e) => return Err(e),
                                }
                                let ghost widened = current;
                                match heighten_quad(fpos, &mut current, data, &mask) {
                                    Ok(()) => {},
                                    Err(e) => return Err(e),
                                }
                                proof {
                                    lemma_grown_quad_fits(*data, mask, fpos, dataquad, widened, current);
                                }
                                let min = current.min();
                                let max = current.max();
                                let masked = mask.mask_mb_region_inclusive(min, max);
                                let isoquad = cqs.isometrize(current);
                                let ghost pre = self.quad_buffer_scratch@;
                                assert(pre.subrange(start, pre.len() as int) == built);
                                self.quad_buffer_scratch.push(isoquad);
                                proof {
                                    assert(self.quad_buffer_scratch@ == pre.push(isoquad));
                                    lemma_add_quad(*data, *cqs, built, old_mask, mask, isoquad);
                                    assert(self.quad_buffer_scratch@.subrange(start, self.quad_buffer_scratch@.len() as int)
                                        =~= built.push(isoquad));
                                    assert(self.quad_buffer_scratch@.subrange(0, start) =~= before);
                                    assert(current.covers(fpos));
                                    assert(block_of(fpos) == cs);
                                    assert(slice_block(cs) == b) by (nonlinear_arith)
                                        requires
                                            cs == (IVec2 { x: (b / 16) as i32, y: (b % 16) as i32 }),
                                            0 <= b < 256,
                                    ;
                                    assert(!data.skipped(fpos));
                                    lemma_greedy_new(*data, *cqs, built, old_mask, isoquad, b as int, s as int);
                                    assert forall|k: int|
                                        0 <= k < self.quad_buffer_scratch@.len() - start implies #[trigger] greedy_choice(
                                        *data,
                                        self.quad_buffer_scratch@.subrange(start, self.quad_buffer_scratch@.len() as int),
                                        k,
                                    ) by {
                                        if k < built.len() {
                                            lemma_greedy_push(*data, built, isoquad, k);
                                        }
                                    }
                                }
                            },
                            Ok(None) => {},
                        }
                    }
                    proof {
                        assert forall|p: IVec2|
                            in_slice_mb(p) && (block_rank(p) < b || (block_rank(p) == b && sub_rank(p) < s + 1))
                                && #[trigger] data.cell(p) is Some && !data.skipped(p) implies mask.spec_masked(p) by {
                            if block_rank(p) == b && sub_rank(p) == s {
                                lemma_cell_ranks(p);
                                assert(p == fpos);
                            }
                        }
                        if mask.spec_masked(fpos) {
                            let built = self.quad_buffer_scratch@.subrange(start, self.quad_buffer_scratch@.len() as int);
                            let k = choose|k: int| 0 <= k < built.len() && #[trigger] built[k].quad.covers(fpos);
                            assert(quad_homogeneous(*data, built[k].quad));
                            assert(data.cell(fpos) is Some);
                        }
                        assert(data.quads@[slice_cell(fpos)] is Ok);
                        assert forall|p: IVec2|
                            in_slice_mb(p) && (block_rank(p) < b || (block_rank(p) == b && sub_rank(p) < s + 1))
                                && !data.skipped(p) implies #[trigger] data.quads@[slice_cell(p)] is Ok by {
                            if block_rank(p) == b && sub_rank(p) == s {
                                lemma_cell_ranks(p);
                                assert(p == fpos);
                            }
                        }
                    }
                    s = s + 1;
                }
                proof {
                    assert forall|p: IVec2|
                        in_slice_mb(p) && block_rank(p) < b + 1 && #[trigger] data.cell(p) is Some && !data.skipped(p)
                            implies mask.spec_masked(p) by {
                        lemma_cell_ranks(p);
                    }
                    assert forall|p: IVec2|
                        in_slice_mb(p) && block_rank(p) < b + 1 && !data.skipped(p) implies #[trigger] data.quads@[slice_cell(
                            p,
                        )] is Ok by {
                        lemma_cell_ranks(p);
                    }
                }
            }
            proof {
                assert(data.skipped_blocks@[b as int] is Ok);
                assert(slice_block(cs) == b) by (nonlinear_arith)
                    requires
                        cs == (IVec2 { x: (b / 16) as i32, y: (b % 16) as i32 }),
                        0 <= b < 256,
                ;
                assert forall|p: IVec2|
                    in_slice_mb(p) && block_rank(p) < b + 1 && #[trigger] data.cell(p) is Some && !data.skipped(p)
                        implies mask.spec_masked(p) by {
                    lemma_cell_ranks(p);
                    if block_rank(p) == b {
                        assert(block_of(p) == cs);
                    }
                }
                assert forall|p: IVec2|
                    in_slice_mb(p) && block_rank(p) < b + 1 && !data.skipped(p) implies #[trigger] data.quads@[slice_cell(
                        p,
                    )] is Ok by {
                    lemma_cell_ranks(p);
                    if block_rank(p) == b && skip {
                        assert(block_of(p) == cs);
                        assert(data.skipped(p));
                    }
                }
            }
            b = b + 1;
        }
        proof {
            let built = self.quad_buffer_scratch@.subrange(start, self.quad_buffer_scratch@.len() as int);
            assert forall|p: IVec2| in_slice_mb(p) && #[trigger] data.cell(p) is Some && !data.skipped(p) implies exists|k: int|
                0 <= k < built.len() && #[trigger] built[k].quad.covers(p) by {
                lemma_cell_ranks(p);
                assert(mask.spec_masked(p));
            }
            assert forall|p: IVec2| in_slice_mb(p) && !data.skipped(p) implies #[trigger] data.quads@[slice_cell(p)] is Ok by {
                lemma_cell_ranks(p);
            }
        }
        Ok(())
    }
}

/// `indices` and `fields` are the GPU form of `quads`: two triangles per quad in the index
/// buffer, four vertices apart, and the GPU fields of each quad, in order.
pub open spec fn is_drained_mesh(quads: Seq<IsometrizedQuad>, indices: Seq<u32>, fields: Seq<GpuQuadFields>) -> bool {
    &&& indices.len() == 6 * quads.len()
    &&& forall|i: int, j: int|
        0 <= i < quads.len() && 0 <= j < 6 ==> #[trigger] indices[quad_index_slot(i, j)] == quad_vertex_index(j) + 4 * i
    &&& fields.len() == quads.len()
    &&& forall|i: int| 0 <= i < quads.len() ==> #[trigger] fields[i] == spec_gpu_fields(quads[i], fields[i].bitfields)
    &&& forall|i: int|
        0 <= i < quads.len() ==> (#[trigger] fields[i]).bitfields.spec_value() == (0u32 | ((
        quads[i].quad.dataquad.texture.rotation.spec_inner() as u32) << 0u32)) | ((
        quads[i].isometry.spec_face().spec_as_usize() as u32) << 2u32)
}

/// The slice the mesher reads at step `k` of a chunk: face `k / 64` (in the order of
/// [`faces`]) at magnitude `k % 64`.
pub open spec fn build_slice(k: int) -> ChunkQuadSlice {
    ChunkQuadSlice { face: Face::spec_from_usize(k / 64), mag: (k % 64) as i32 }
}

/// `meshes` are the greedy meshes of the 384 slices of a chunk, each of the slice's reads in
/// `datas`, which are what reading the slices can give.
pub open spec fn is_chunk_meshing<C: GenericChunkReadAccess, H: GenericChunkReadAccess, F: Fn(BlockVariantId, Face) -> BlockRenderInfo>(
    chunk: C,
    neighbors: Neighbors<H>,
    render_info: F,
    datas: Seq<SliceQuadData>,
    meshes: Seq<Seq<IsometrizedQuad>>,
) -> bool {
    &&& datas.len() == meshes.len()
    &&& forall|k: int| 0 <= k < datas.len() ==> is_slice_read(chunk, neighbors, build_slice(k), render_info, #[trigger] datas[k])
    &&& forall|k: int| 0 <= k < datas.len() ==> slice_meshed(datas[k], build_slice(k), #[trigger] meshes[k])
    &&& forall|k: int, q: int| 0 <= k < datas.len() && 0 <= q < meshes[k].len() ==> #[trigger] greedy_choice(datas[k], meshes[k], q)
}

impl GreedyMesher {
    /// Take every quad out of the scratch buffer: the index buffer (two triangles per quad,
    /// four vertices apart) and the GPU fields of each quad, in order.
    pub fn drain_quads(&mut self) -> (r: (Vec<u32>, Vec<GpuQuadFields>))
        requires
            old(self).spec_scratch().len() * 4 + 4 <= u32::MAX,
            forall|k: int| 0 <= k < old(self).spec_scratch().len() ==> (#[trigger] old(self).spec_scratch()[k]).quad.wf(),
            forall|k: int|
                0 <= k < old(self).spec_scratch().len() ==> (#[trigger] old(self).spec_scratch()[k]).isometry.spec_magnitude()
                    < i32::MAX,
        ensures
            final(self).spec_scratch().len() == 0,
            is_drained_mesh(old(self).spec_scratch(), r.0@, r.1@),
    {
        let n = self.quad_buffer_scratch.len();
        let mut indices: Vec<u32> = Vec::new();
        let mut quads: Vec<GpuQuadFields> = Vec::new();
        let mut current_idx: u32 = 0;
        let mut i: usize = 0;
        while i < n
            invariant
                n == self.quad_buffer_scratch@.len(),
                n * 4 + 4 <= u32::MAX,
                0 <= i <= n,
                current_idx == 4 * i,
                forall|k: int| 0 <= k < n ==> (#[trigger] self.quad_buffer_scratch@[k]).quad.wf(),
                forall|k: int| 0 <= k < n ==> (#[trigger] self.quad_buffer_scratch@[k]).isometry.spec_magnitude() < i32::MAX,
                indices@.len() == 6 * i,
                forall|a: int, j: int|
                    0 <= a < i && 0 <= j < 6 ==> #[trigger] indices@[quad_index_slot(a, j)] == quad_vertex_index(j) + 4 * a,
                quads@.len() == i,
                forall|a: int| 0 <= a < i ==> #[trigger] quads@[a] == spec_gpu_fields(self.quad_buffer_scratch@[a], quads@[a].bitfields),
                forall|a: int|
                    0 <= a < i ==> (#[trigger] quads@[a]).bitfields.spec_value() == (0u32 | ((
                    self.quad_buffer_scratch@[a].quad.dataquad.texture.rotation.spec_inner() as u32) << 0u32)) | ((
                    self.quad_buffer_scratch@[a].isometry.spec_face().spec_as_usize() as u32) << 2u32),
            decreases n - i,
        {
            let quad = self.quad_buffer_scratch[i];
            let ghost before_len = indices@.len();
            indices.push(current_idx);
            indices.push(1 + current_idx);
            indices.push(2 + current_idx);
            indices.push(2 + current_idx);
            indices.push(1 + current_idx);
            indices.push(3 + current_idx);
            proof {
                assert forall|a: int, j: int| 0 <= a < i + 1 && 0 <= j < 6 implies #[trigger] indices@[quad_index_slot(a, j)]
                    == quad_vertex_index(j) + 4 * a by {
                    if a < i {
                        assert(quad_index_slot(a, j) < 6 * i) by (nonlinear_arith)
                            requires a < i, 0 <= j < 6, quad_index_slot(a, j) == 6 * a + j;
                    } else {
                        assert(quad_index_slot(a, j) == 6 * i + j);
                    }
                }
            }
            current_idx = current_idx + 4;
            let face = quad.isometry.face();
            let bitfields = GpuQuadBitfields::new().with_rotation(quad.quad.dataquad.texture.rotation).with_face(face);
            let magnitude = if face.axis_direction() > 0 {
                quad.isometry.magnitude() + 1
            } else {
                quad.isometry.magnitude()
            };
            let fields = GpuQuadFields {
                texture_id: quad.quad.dataquad.texture.id.as_u32(),
                bitfields,
                min_2d: quad.min_2d(),
                max_2d: quad.max_2d(),
                magnitude,
            };
            quads.push(fields);
            i = i + 1;
        }
        self.quad_buffer_scratch.clear();
        (indices, quads)
    }

    /// Build the mesh of a chunk: every slice of every face (faces in the order of [`faces`],
    /// magnitudes `0..64`) is read and meshed into the scratch buffer, which is then drained.
    /// `render_info` tells how a block variant looks from the side of a face. The first failed
    /// read the mesher meets stops it with that error, leaving the quads built so far in the
    /// scratch buffer. The scratch buffer must leave room for the most quads a chunk can add
    /// (4096 per slice) with every vertex index still fitting in `u32`.
    pub fn build<C: GenericChunkReadAccess, H: GenericChunkReadAccess, F: Fn(BlockVariantId, Face) -> BlockRenderInfo>(
        &mut self,
        chunk: &C,
        neighbors: &Neighbors<H>,
        render_info: &F,
    ) -> (r: Result<(Vec<u32>, Vec<GpuQuadFields>), MesherError>)
        requires
            neighbors.wf(),
            forall|id: BlockVariantId, face: Face| call_requires(*render_info, (id, face)),
            (old(self).spec_scratch().len() + 4096 * 384) * 4 + 4 <= u32::MAX,
            forall|k: int| 0 <= k < old(self).spec_scratch().len() ==> (#[trigger] old(self).spec_scratch()[k]).quad.wf(),
            forall|k: int|
                0 <= k < old(self).spec_scratch().len() ==> (#[trigger] old(self).spec_scratch()[k]).isometry.spec_magnitude()
                    < i32::MAX,
        ensures
            r matches Err(e) ==> (e matches MesherError::CqsError(ce) && exists|k: int, data: SliceQuadData|
                0 <= k < 384 && #[trigger] is_slice_read(*chunk, *neighbors, build_slice(k), *render_info, data) && data.has_error(ce)),
            r matches Ok(mesh) ==> final(self).spec_scratch().len() == 0 && exists|datas: Seq<SliceQuadData>, meshes: Seq<Seq<IsometrizedQuad>>|
                datas.len() == 384 && #[trigger] is_chunk_meshing(*chunk, *neighbors, *render_info, datas, meshes) && is_drained_mesh(
                    old(self).spec_scratch() + meshes.flatten(),
                    mesh.0@,
                    mesh.1@,
                ),
    {
        let ghost old0 = self.quad_buffer_scratch@;
        let ghost mut datas: Seq<SliceQuadData> = Seq::empty();
        let ghost mut meshes: Seq<Seq<IsometrizedQuad>> = Seq::empty();
        let fs = faces();
        let mut cqs = ChunkQuadSlice::new(Face::North, 0).unwrap();
        let mut fi: usize = 0;
        while fi < 6
            invariant
                0 <= fi <= 6,
                neighbors.wf(),
                forall|id: BlockVariantId, face: Face| call_requires(*render_info, (id, face)),
                forall|i: int| 0 <= i < 6 ==> (#[trigger] fs@[i]).spec_as_usize() == i,
                old0 == old(self).quad_buffer_scratch@,
                (old0.len() + 4096 * 384) * 4 + 4 <= u32::MAX,
                datas.len() == fi * 64,
                is_chunk_meshing(*chunk, *neighbors, *render_info, datas, meshes),
                self.quad_buffer_scratch@ == old0 + meshes.flatten(),
                self.quad_buffer_scratch@.len() <= old0.len() + 4096 * datas.len(),
                forall|k: int| 0 <= k < self.quad_buffer_scratch@.len() ==> (#[trigger] self.quad_buffer_scratch@[k]).quad.wf(),
                forall|k: int|
                    0 <= k < self.quad_buffer_scratch@.len() ==> (#[trigger] self.quad_buffer_scratch@[k]).isometry.spec_magnitude()
                        < i32::MAX,
            decreases 6 - fi,
        {
            let face = fs[fi];
            let mut layer: i32 = 0;
            while layer < 64
                invariant
                    0 <= fi < 6,
                    0 <= layer <= 64,
                    face == fs@[fi as int],
                    neighbors.wf(),
                    forall|id: BlockVariantId, face: Face| call_requires(*render_info, (id, face)),
                    forall|i: int| 0 <= i < 6 ==> (#[trigger] fs@[i]).spec_as_usize() == i,
                    old0 == old(self).quad_buffer_scratch@,
                    (old0.len() + 4096 * 384) * 4 + 4 <= u32::MAX,
                    datas.len() == fi * 64 + layer,
                    is_chunk_meshing(*chunk, *neighbors, *render_info, datas, meshes),
                    self.quad_buffer_scratch@ == old0 + meshes.flatten(),
                    self.quad_buffer_scratch@.len() <= old0.len() + 4096 * datas.len(),
                    forall|k: int| 0 <= k < self.quad_buffer_scratch@.len() ==> (#[trigger] self.quad_buffer_scratch@[k]).quad.wf(),
                    forall|k: int|
                        0 <= k < self.quad_buffer_scratch@.len() ==> (#[trigger] self.quad_buffer_scratch@[k]).isometry.spec_magnitude()
                            < i32::MAX,
                decreases 64 - layer,
            {
                cqs.reposition(face, layer).unwrap();
                let ghost k = fi * 64 + layer;
                proof {
                    lemma_face_index_roundtrip(face);
                    assert(k / 64 == fi && k % 64 == layer) by (nonlinear_arith)
                        requires k == fi * 64 + layer, 0 <= layer < 64, 0 <= fi;
                    assert(cqs == build_slice(k));
                }
                let data = cqs.read_slice(chunk, neighbors, render_info);
                let ghost before = self.quad_buffer_scratch@;
                match self.calculate_slice_quads(&cqs, &data) {
                    Ok(()) => {},
                    Err(e) => {
                        proof {
                            assert(0 <= k < 384);
                            assert(data.has_error(e));
                        }
                        return Err(MesherError::CqsError(e));
                    },
                }
                proof {
                    let mesh = self.quad_buffer_scratch@.subrange(before.len() as int, self.quad_buffer_scratch@.len() as int);
                    lemma_meshed_slice_quad_count(data, cqs, mesh);
                    assert(self.quad_buffer_scratch@ =~= before + mesh);
                    let old_meshes = meshes;
                    let old_datas = datas;
                    datas = datas.push(data);
                    meshes = meshes.push(mesh);
                    old_meshes.lemma_flatten_push(mesh);
                    assert(self.quad_buffer_scratch@ =~= old0 + meshes.flatten());
                    assert forall|j: int| 0 <= j < datas.len() implies is_slice_read(*chunk, *neighbors, build_slice(j), *render_info, #[trigger] datas[j]) by {
                        if j < old_datas.len() {
                            assert(datas[j] == old_datas[j]);
                        }
                    }
                    assert forall|j: int| 0 <= j < datas.len() implies slice_meshed(datas[j], build_slice(j), #[trigger] meshes[j]) by {
                        if j < old_datas.len() {
                            assert(datas[j] == old_datas[j]);
                            assert(meshes[j] == old_meshes[j]);
                        }
                    }
                    assert forall|j: int, q: int| 0 <= j < datas.len() && 0 <= q < meshes[j].len() implies #[trigger] greedy_choice(datas[j], meshes[j], q) by {
                        if j < old_datas.len() {
                            assert(datas[j] == old_datas[j]);
                            assert(meshes[j] == old_meshes[j]);
                        }
                    }
                    assert forall|q: int| 0 <= q < self.quad_buffer_scratch@.len() implies (#[trigger] self.quad_buffer_scratch@[q]).quad.wf()
                        && self.quad_buffer_scratch@[q].isometry.spec_magnitude() < i32::MAX by {
                        if q >= before.len() {
                            let m = q - before.len();
                            assert(self.quad_buffer_scratch@[q] == mesh[m]);
                            assert(quad_in_slice(mesh[m].quad));
                            assert(mesh[m].isometry.spec_magnitude() == cqs.mag);
                        } else {
                            assert(self.quad_buffer_scratch@[q] == before[q]);
                        }
                    }
                }
                layer = layer + 1;
            }
            fi = fi + 1;
        }
        proof {
            assert(self.quad_buffer_scratch@.len() * 4 + 4 <= u32::MAX);
        }
        let mesh = self.drain_quads();
        Ok(mesh)
    }
}

} // verus!
