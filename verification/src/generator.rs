//! World generation: filling a chunk with blocks and microblocks from a noise field that is
//! sampled elsewhere.
use vstd::prelude::*;
use crate::math::{IVec3, ivec3};
use crate::block::{BlockVariantId, BlockVoxel, FullBlock};
use crate::bounding_box::ChunkPos;
use crate::storage::in_chunk;
use crate::generic_chunk::{MockChunk, in_chunk_mb, mb_block_pos};
use crate::visibility::fill_cell;

verus! {

/// The generators a chunk can be generated with.
#[derive(Copy, Clone, Debug, PartialEq, Eq, Structural)]
pub enum GeneratorChoice {
    Default,
}

/// The block variants the default generator places.
#[derive(Copy, Clone, Debug, PartialEq, Eq, Structural)]
pub struct GeneratorPalette {
    pub void: BlockVariantId,
    pub debug: BlockVariantId,
    pub stone: BlockVariantId,
    pub water: BlockVariantId,
}

/// The default generator: chunks below the origin layer are water; other chunks get a debug
/// block at their origin and stone microblocks wherever the noise field is solid.
#[derive(Copy, Clone, Debug)]
pub struct Generator {
    pub palette: GeneratorPalette,
}

/// `q` lies in the first block of a chunk, `[0, 0, 0]..[4, 4, 4]` in microblocks.
pub open spec fn in_first_block(q: IVec3) -> bool {
    q.x < 4 && q.y < 4 && q.z < 4
}

/// The microblock position of a chunk with flattened index `k` (x slowest, z fastest).
pub open spec fn mb_pos_of_index(k: int) -> IVec3 {
    IVec3 { x: (k / 4096) as i32, y: ((k / 64) % 64) as i32, z: (k % 64) as i32 }
}

proof fn lemma_mb_pos_of_index(k: int)
    requires
        0 <= k < 262144,
    ensures
        in_chunk_mb(mb_pos_of_index(k)),
        fill_cell(mb_pos_of_index(k)) == k,
{
    assert(0 <= k / 4096 < 64 && 0 <= (k / 64) % 64 < 64 && 0 <= k % 64 < 64) by (nonlinear_arith)
        requires 0 <= k < 262144;
    assert((k / 4096) * 4096 + ((k / 64) % 64) * 64 + k % 64 == k) by (nonlinear_arith)
        requires 0 <= k;
}

proof fn lemma_index_of_mb_pos(q: IVec3)
    requires
        in_chunk_mb(q),
    ensures
        0 <= fill_cell(q) < 262144,
        mb_pos_of_index(fill_cell(q)) == q,
{
    let k = fill_cell(q);
    assert(k / 4096 == q.x && (k / 64) % 64 == q.y && k % 64 == q.z) by (nonlinear_arith)
        requires k == q.x * 4096 + q.y * 64 + q.z, 0 <= q.x < 64, 0 <= q.y < 64, 0 <= q.z < 64;
}

impl Generator {
    pub fn new(palette: GeneratorPalette) -> (r: Generator)
        ensures
            r.palette == palette,
    {
        Generator { palette }
    }

    /// Generate the chunk at `cs_pos` into `chunk`. `solid` holds, for every microblock position
    /// of the chunk (by [`fill_cell`]), whether the noise field is above the threshold there, and
    /// `subdividable` the block variants that the block registry allows to subdivide.
    /// Chunks below the origin layer become water; other chunks get the debug block at their
    /// origin block and a stone microblock at every solid position outside of it, except where a
    /// full block of a variant that cannot be subdivided stands: such blocks are left alone.
    pub fn write_to_chunk(&self, cs_pos: ChunkPos, solid: &Vec<bool>, subdividable: &Vec<BlockVariantId>, chunk: &mut MockChunk)
        requires
            old(chunk).wf(),
            solid@.len() == 262144,
        ensures
            final(chunk).wf(),
            cs_pos.0.y < 0 ==> forall|p: IVec3| in_chunk(p) ==> #[trigger] final(chunk).spec_block(p) == BlockVoxel::Full(
                FullBlock { rotation: None, id: self.palette.water },
            ),
            cs_pos.0.y >= 0 ==> forall|q: IVec3| in_chunk_mb(q) ==> #[trigger] final(chunk).spec_get_mb_id(q) == (if in_first_block(q) {
                self.palette.debug
            } else if solid@[fill_cell(q)] && old(chunk).spec_mb_writable(q, subdividable@) {
                self.palette.stone
            } else {
                old(chunk).spec_get_mb_id(q)
            }),
    {
        if cs_pos.0.y < 0 {
            let mut x: i32 = 0;
            while x < 16
                invariant
                    chunk.wf(),
                    0 <= x <= 16,
                    forall|p: IVec3| in_chunk(p) && p.x < x ==> #[trigger] chunk.spec_block(p) == BlockVoxel::Full(
                        FullBlock { rotation: None, id: self.palette.water },
                    ),
                decreases 16 - x,
            {
                let mut y: i32 = 0;
                while y < 16
                    invariant
                        chunk.wf(),
                        0 <= x < 16,
                        0 <= y <= 16,
                        forall|p: IVec3| in_chunk(p) && (p.x < x || (p.x == x && p.y < y)) ==> #[trigger] chunk.spec_block(p)
                            == BlockVoxel::Full(FullBlock { rotation: None, id: self.palette.water }),
                    decreases 16 - y,
                {
                    let mut z: i32 = 0;
                    while z < 16
                        invariant
                            chunk.wf(),
                            0 <= x < 16,
                            0 <= y < 16,
                            0 <= z <= 16,
                            forall|p: IVec3| in_chunk(p) && (p.x < x || (p.x == x && p.y < y) || (p.x == x && p.y == y && p.z < z))
                                ==> #[trigger] chunk.spec_block(p) == BlockVoxel::Full(FullBlock { rotation: None, id: self.palette.water }),
                        decreases 16 - z,
                    {
                        let _ = chunk.set(ivec3(x, y, z), self.palette.water);
                        z = z + 1;
                    }
                    y = y + 1;
                }
                x = x + 1;
            }
            return;
        }
        let ghost initial = *chunk;
        let _ = chunk.set(ivec3(0, 0, 0), self.palette.debug);
        proof {
            assert forall|q: IVec3| in_chunk_mb(q) implies #[trigger] chunk.spec_get_mb_id(q) == (if in_first_block(q) {
                self.palette.debug
            } else {
                initial.spec_get_mb_id(q)
            }) by {
                let b = mb_block_pos(q);
                assert(in_chunk(b));
                if in_first_block(q) {
                    assert(b == ivec3_spec(0, 0, 0));
                } else {
                    assert(b != ivec3_spec(0, 0, 0));
                }
            }
            assert forall|q: IVec3| in_chunk_mb(q) && !in_first_block(q) implies #[trigger] chunk.spec_mb_writable(
                q,
                subdividable@,
            ) == initial.spec_mb_writable(q, subdividable@) by {
                let b = mb_block_pos(q);
                assert(in_chunk(b));
                assert(b != ivec3_spec(0, 0, 0));
            }
        }
        let mut k: usize = 0;
        while k < 262144
            invariant
                chunk.wf(),
                0 <= k <= 262144,
                solid@.len() == 262144,
                forall|q: IVec3| in_chunk_mb(q) ==> #[trigger] chunk.spec_get_mb_id(q) == (if in_first_block(q) {
                    self.palette.debug
                } else if fill_cell(q) < k && solid@[fill_cell(q)] && initial.spec_mb_writable(q, subdividable@) {
                    self.palette.stone
                } else {
                    initial.spec_get_mb_id(q)
                }),
                forall|q: IVec3| in_chunk_mb(q) && !in_first_block(q) ==> #[trigger] chunk.spec_mb_writable(q, subdividable@)
                    == initial.spec_mb_writable(q, subdividable@),
            decreases 262144 - k,
        {
            let x = (k / 4096) as i32;
            let y = ((k / 64) % 64) as i32;
            let z = (k % 64) as i32;
            let q = ivec3(x, y, z);
            proof {
                lemma_mb_pos_of_index(k as int);
                assert(q == mb_pos_of_index(k as int));
            }
            if !(x < 4 && y < 4 && z < 4) && solid[k] {
                let ghost before = *chunk;
                let _ = chunk.set_mb_ignoring(q, self.palette.stone, subdividable);
                proof {
                    assert(!in_first_block(q));
                    assert(before.spec_mb_writable(q, subdividable@) == initial.spec_mb_writable(q, subdividable@));
                    assert forall|p: IVec3| in_chunk_mb(p) implies #[trigger] chunk.spec_get_mb_id(p) == (if in_first_block(p) {
                        self.palette.debug
                    } else if fill_cell(p) < k + 1 && solid@[fill_cell(p)] && initial.spec_mb_writable(p, subdividable@) {
                        self.palette.stone
                    } else {
                        initial.spec_get_mb_id(p)
                    }) by {
                        lemma_index_of_mb_pos(p);
                        assert(before.spec_get_mb_id(p) == (if in_first_block(p) {
                            self.palette.debug
                        } else if fill_cell(p) < k && solid@[fill_cell(p)] && initial.spec_mb_writable(p, subdividable@) {
                            self.palette.stone
                        } else {
                            initial.spec_get_mb_id(p)
                        }));
                    }
                    assert forall|p: IVec3| in_chunk_mb(p) && !in_first_block(p) implies #[trigger] chunk.spec_mb_writable(
                        p,
                        subdividable@,
                    ) == initial.spec_mb_writable(p, subdividable@) by {
                        assert(before.spec_mb_writable(p, subdividable@) == initial.spec_mb_writable(p, subdividable@));
                        let bp = mb_block_pos(p);
                        assert(in_chunk(bp));
                        if bp == mb_block_pos(q) {
                            assert(before.spec_mb_writable(q, subdividable@) ==> chunk.spec_block(bp) is Subdivided);
                        }
                    }
                }
            } else {
                proof {
                    assert forall|p: IVec3| in_chunk_mb(p) implies #[trigger] chunk.spec_get_mb_id(p) == (if in_first_block(p) {
                        self.palette.debug
                    } else if fill_cell(p) < k + 1 && solid@[fill_cell(p)] && initial.spec_mb_writable(p, subdividable@) {
                        self.palette.stone
                    } else {
                        initial.spec_get_mb_id(p)
                    }) by {
                        lemma_index_of_mb_pos(p);
                    }
                }
            }
            k = k + 1;
        }
        proof {
            assert forall|q: IVec3| in_chunk_mb(q) implies #[trigger] chunk.spec_get_mb_id(q) == (if in_first_block(q) {
                self.palette.debug
            } else if solid@[fill_cell(q)] && initial.spec_mb_writable(q, subdividable@) {
                self.palette.stone
            } else {
                initial.spec_get_mb_id(q)
            }) by {
                lemma_index_of_mb_pos(q);
            }
        }
    }
}

pub open spec fn ivec3_spec(x: i32, y: i32, z: i32) -> IVec3 {
    IVec3 { x, y, z }
}

} // verus!
