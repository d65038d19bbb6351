use voxel_engine::block::BlockVariantId;
use voxel_engine::face::Face;
use voxel_engine::generic_chunk::MockChunk;
use voxel_engine::greedy::{BlockRenderInfo, ChunkQuadSlice, CqsError, GreedyMesher};
use voxel_engine::mesh_state::MesherError;
use voxel_engine::quad::{FaceTexture, TextureId};
use voxel_engine::math::{ivec2, ivec3};
use voxel_engine::neighbors::NeighborsBuilder;

fn id(v: u32) -> BlockVariantId {
    BlockVariantId::new(v)
}

#[test]
fn slice_reads_the_chunk_and_the_block_above() {
    let mut chunk = MockChunk::new();
    chunk.set(ivec3(2, 5, 3), id(4)).unwrap();
    chunk.set(ivec3(2, 6, 3), id(7)).unwrap();
    let neighbors = NeighborsBuilder::<MockChunk>::new(id(9)).build();
    // the top face projects (x, y) to (x, mag, y)
    let cqs = ChunkQuadSlice::new(Face::Top, 5 * 4).unwrap();
    assert_eq!(Ok(Some(id(4))), cqs.get(&chunk, ivec2(2, 3)));
    assert_eq!(Ok(id(4)), cqs.get_mb(&chunk, ivec2(8, 12)));
    assert_eq!(Ok(Some(id(7))), cqs.get_above(&chunk, &neighbors, ivec2(2, 3)));
    assert_eq!(Err(CqsError::OutOfBounds), cqs.get(&chunk, ivec2(16, 0)));
    assert_eq!(Err(CqsError::OutOfBounds), cqs.get_mb(&chunk, ivec2(64, 0)));
}

#[test]
fn slice_reads_above_the_chunk_from_the_neighbor() {
    let chunk = MockChunk::new();
    let mut above = MockChunk::new();
    above.set(ivec3(1, 0, 1), id(3)).unwrap();
    let mut builder = NeighborsBuilder::<MockChunk>::new(id(9));
    builder.set_neighbor(ivec3(0, 1, 0), above).unwrap();
    let neighbors = builder.build();
    let cqs = ChunkQuadSlice::new(Face::Top, 63).unwrap();
    // the microblock above (4, 63, 4) is (4, 64, 4), in the neighbor above
    assert_eq!(Ok(id(3)), cqs.get_mb_above(&chunk, &neighbors, ivec2(4, 4)));
    // an absent neighbor reads as the default block
    let cqs = ChunkQuadSlice::new(Face::Bottom, 0).unwrap();
    assert_eq!(Ok(id(9)), cqs.get_mb_above(&chunk, &neighbors, ivec2(4, 4)));
    // positions are checked against the slice's block bounds
    assert_eq!(Err(CqsError::OutOfBounds), cqs.get_mb_above(&chunk, &neighbors, ivec2(16, 4)));
}

#[test]
fn auto_neighboring_reads() {
    let mut chunk = MockChunk::new();
    chunk.set(ivec3(0, 0, 0), id(2)).unwrap();
    let neighbors = NeighborsBuilder::<MockChunk>::new(id(9)).build();
    let cqs = ChunkQuadSlice::new(Face::North, 0).unwrap();
    assert_eq!(Ok(Some(id(2))), cqs.auto_neighboring_get(&chunk, &neighbors, ivec3(0, 0, 0)));
    assert_eq!(Ok(Some(id(9))), cqs.auto_neighboring_get(&chunk, &neighbors, ivec3(-1, 0, 0)));
    assert_eq!(Err(CqsError::OutOfBounds), cqs.auto_neighboring_get(&chunk, &neighbors, ivec3(-2, 0, 0)));
    assert_eq!(Ok(id(2)), cqs.auto_neighboring_get_mb(&chunk, &neighbors, ivec3(3, 3, 3)));
    assert_eq!(Ok(id(9)), cqs.auto_neighboring_get_mb(&chunk, &neighbors, ivec3(-1, 3, 3)));
    assert_eq!(Err(CqsError::OutOfBounds), cqs.auto_neighboring_get_mb(&chunk, &neighbors, ivec3(-5, 3, 3)));
    assert_eq!(Ok(Some(id(0))), cqs.get_3d(&chunk, ivec3(1, 0, 0)));
    assert_eq!(Err(CqsError::HandleError), cqs.get_3d(&chunk, ivec3(16, 0, 0)));
    assert_eq!(Err(CqsError::HandleError), cqs.get_mb_3d(&chunk, ivec3(64, 0, 0)));
}

fn looks(id: BlockVariantId, face: Face) -> BlockRenderInfo {
    // variant 0 is air, variant 1 is glass-like (no model), other variants show their id on
    // every face but the top, which shows 100
    match id.as_u32() {
        0 => BlockRenderInfo { is_transparent: true, is_opaque: false, face_texture: None },
        1 => BlockRenderInfo { is_transparent: false, is_opaque: false, face_texture: None },
        v => {
            let shown = if face == Face::Top { 100 } else { v };
            BlockRenderInfo {
                is_transparent: false,
                is_opaque: true,
                face_texture: Some(FaceTexture::new(TextureId::new(shown))),
            }
        }
    }
}

#[test]
fn microblock_quads_follow_the_block_and_the_one_above() {
    let mut chunk = MockChunk::new();
    chunk.set(ivec3(2, 5, 3), id(4)).unwrap();
    chunk.set(ivec3(3, 5, 3), id(4)).unwrap();
    chunk.set(ivec3(3, 6, 3), id(5)).unwrap();
    chunk.set(ivec3(1, 5, 3), id(1)).unwrap();
    let neighbors = NeighborsBuilder::<MockChunk>::new(id(9)).build();
    // the top face slice through the top microblocks of y = 5
    let cqs = ChunkQuadSlice::new(Face::Top, 5 * 4 + 3).unwrap();
    let quad = cqs.get_quad_mb(&chunk, &neighbors, ivec2(8, 12), &looks).unwrap().unwrap();
    assert_eq!(100, quad.texture.id.as_u32());
    assert_eq!((1, 1), (quad.quad.x(), quad.quad.y()));
    // covered by an opaque block above
    assert_eq!(Ok(None), cqs.get_quad_mb(&chunk, &neighbors, ivec2(12, 12), &looks));
    // air, and a block without a model
    assert_eq!(Ok(None), cqs.get_quad_mb(&chunk, &neighbors, ivec2(0, 12), &looks));
    assert_eq!(Ok(None), cqs.get_quad_mb(&chunk, &neighbors, ivec2(4, 12), &looks));
    // the slice position is checked at microblock resolution, the one above at block resolution
    assert_eq!(Err(CqsError::OutOfBounds), cqs.get_quad_mb(&chunk, &neighbors, ivec2(64, 0), &looks));
    assert_eq!(Err(CqsError::OutOfBounds), cqs.get_quad_mb(&chunk, &neighbors, ivec2(16, 0), &looks));
}

#[test]
fn blocks_are_skipped_without_a_model_or_under_an_opaque_block() {
    let mut chunk = MockChunk::new();
    chunk.set(ivec3(2, 5, 3), id(4)).unwrap();
    chunk.set(ivec3(2, 6, 3), id(5)).unwrap();
    chunk.set(ivec3(7, 5, 7), id(4)).unwrap();
    let neighbors = NeighborsBuilder::<MockChunk>::new(id(0)).build();
    // the top face slice through the top microblocks of y = 5 lies at its blocks' edge
    let cqs = ChunkQuadSlice::new(Face::Top, 5 * 4 + 3).unwrap();
    // air has no model
    assert_eq!(Ok(true), cqs.read_block_skipped(&chunk, &neighbors, ivec2(0, 0), &looks));
    // covered by an opaque block
    assert_eq!(Ok(true), cqs.read_block_skipped(&chunk, &neighbors, ivec2(2, 3), &looks));
    assert_eq!(Ok(false), cqs.read_block_skipped(&chunk, &neighbors, ivec2(7, 7), &looks));
    assert_eq!(Err(CqsError::OutOfBounds), cqs.read_block_skipped(&chunk, &neighbors, ivec2(16, 0), &looks));
    // below the blocks' edge, the block above does not matter
    let inner = ChunkQuadSlice::new(Face::Top, 5 * 4 + 1).unwrap();
    assert_eq!(Ok(false), inner.read_block_skipped(&chunk, &neighbors, ivec2(2, 3), &looks));

    let data = cqs.read_slice(&chunk, &neighbors, &looks);
    assert_eq!(Ok(true), data.skipped_blocks[0]);
    assert_eq!(Ok(false), data.skipped_blocks[7 * 16 + 7]);
    assert_eq!(cqs.get_quad_mb(&chunk, &neighbors, ivec2(8, 12), &looks), data.quads[8 * 64 + 12]);
}

#[test]
fn meshing_an_empty_chunk_gives_an_empty_mesh() {
    let chunk = MockChunk::new();
    let neighbors = NeighborsBuilder::<MockChunk>::new(id(0)).build();
    let mut mesher = GreedyMesher::new();
    let (indices, quads) = mesher.build(&chunk, &neighbors, &looks).unwrap();
    assert!(indices.is_empty());
    assert!(quads.is_empty());
}

#[test]
fn meshing_reads_above_microblocks_at_block_resolution() {
    // A visible block away from the slices' first blocks: its microblocks lie past position
    // 16 of the slice, where reading the microblock above fails.
    let mut chunk = MockChunk::new();
    chunk.set(ivec3(8, 8, 8), id(4)).unwrap();
    let neighbors = NeighborsBuilder::<MockChunk>::new(id(0)).build();
    let mut mesher = GreedyMesher::new();
    assert_eq!(
        Err(MesherError::CqsError(CqsError::OutOfBounds)),
        mesher.build(&chunk, &neighbors, &looks)
    );
}
