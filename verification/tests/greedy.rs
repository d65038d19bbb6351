use voxel_engine::face::Face;
use voxel_engine::greedy::{
    quad_for_microblock, BlockRenderInfo, ChunkQuadSlice, ChunkSliceMask, CqsError, GreedyMesher,
    SliceQuadData,
};
use voxel_engine::math::{ivec2, ivec3};
use voxel_engine::quad::{FaceTexture, TextureId};

#[test]
fn mask_logic() {
    let mut mask = ChunkSliceMask::new();

    assert!(mask.mask_mb_region_inclusive(ivec2(2, 3), ivec2(13, 9)));
    assert!(!mask.is_masked(ivec2(0, 1)));
    assert!(mask.is_masked(ivec2(1, 1)));
    assert!(mask.is_masked(ivec2(2, 1)));
    assert!(!mask.is_masked(ivec2(3, 1)));

    assert!(mask.is_masked_mb(ivec2(2, 3)));
    assert!(mask.is_masked_mb(ivec2(9, 6)));
}

#[test]
fn mask_single_microblock() {
    let mut mask = ChunkSliceMask::new();
    assert!(mask.mask_mb_region_inclusive(ivec2(8, 8), ivec2(8, 8)));

    assert!(mask.is_masked_mb(ivec2(8, 8)));
    assert!(!mask.is_masked_mb(ivec2(8, 9)));
    assert!(!mask.is_masked_mb(ivec2(9, 9)));
    assert!(!mask.is_masked_mb(ivec2(9, 8)));
}

#[test]
fn mask_block_region_and_bounds() {
    let mut mask = ChunkSliceMask::new();
    assert!(!mask.mask_region_inclusive(ivec2(0, 0), ivec2(16, 0)));
    assert!(!mask.is_masked_mb(ivec2(0, 0)));
    assert!(mask.mask_region_inclusive(ivec2(2, 1), ivec2(1, 2)));
    assert!(mask.is_masked(ivec2(1, 1)));
    assert!(mask.is_masked(ivec2(2, 2)));
    assert!(mask.is_masked_mb(ivec2(4, 4)));
    assert!(mask.is_masked_mb(ivec2(11, 11)));
    assert!(!mask.is_masked_mb(ivec2(12, 11)));
    assert!(!mask.is_masked(ivec2(3, 2)));
    assert!(!mask.mask_mb_region_inclusive(ivec2(-1, 0), ivec2(3, 3)));
    assert!(ChunkSliceMask::contains_mb(ivec2(63, 0)));
    assert!(!ChunkSliceMask::contains_mb(ivec2(64, 0)));
    assert!(!ChunkSliceMask::contains_mb(ivec2(-1, 0)));
}

fn texture(id: u32) -> FaceTexture {
    FaceTexture::new(TextureId::new(id))
}

fn visible(id: u32) -> BlockRenderInfo {
    BlockRenderInfo { is_transparent: false, is_opaque: true, face_texture: Some(texture(id)) }
}

fn air() -> BlockRenderInfo {
    BlockRenderInfo { is_transparent: true, is_opaque: false, face_texture: None }
}

fn empty_slice() -> SliceQuadData {
    SliceQuadData { quads: vec![Ok(None); 4096], skipped_blocks: vec![Ok(false); 256] }
}

fn cell(x: usize, y: usize) -> usize {
    x * 64 + y
}

#[test]
fn microblock_quads() {
    assert!(quad_for_microblock(air(), air()).is_none());
    assert!(quad_for_microblock(visible(3), visible(4)).is_none());
    let q = quad_for_microblock(visible(3), air()).unwrap();
    assert_eq!(texture(3), q.texture);
    let no_model = BlockRenderInfo { is_transparent: false, is_opaque: true, face_texture: None };
    assert!(quad_for_microblock(no_model, air()).is_none());
}

#[test]
fn greedy_merges_a_rectangle_into_one_quad() {
    let mut data = empty_slice();
    for x in 2..7 {
        for y in 1..4 {
            data.quads[cell(x, y)] = Ok(quad_for_microblock(visible(7), air()));
        }
    }
    let cqs = ChunkQuadSlice::new(Face::Top, 5).unwrap();
    let mut mesher = GreedyMesher::new();
    mesher.calculate_slice_quads(&cqs, &data).unwrap();
    let (indices, quads) = mesher.drain_quads();
    assert_eq!(1, quads.len());
    assert_eq!(ivec2(2, 1), quads[0].min_2d);
    assert_eq!(ivec2(6, 3), quads[0].max_2d);
    assert_eq!(7, quads[0].texture_id);
    // Top points along its axis, so the face sits one past the slice.
    assert_eq!(6, quads[0].magnitude);
    assert_eq!(vec![0, 1, 2, 2, 1, 3], indices);
}

#[test]
fn greedy_splits_different_textures_and_covers_everything_once() {
    let mut data = empty_slice();
    for x in 0..8 {
        for y in 0..2 {
            data.quads[cell(x, y)] = Ok(quad_for_microblock(visible(if x < 3 { 1 } else { 2 }), air()));
        }
    }
    let cqs = ChunkQuadSlice::new(Face::South, 0).unwrap();
    let mut mesher = GreedyMesher::new();
    mesher.calculate_slice_quads(&cqs, &data).unwrap();
    let (indices, quads) = mesher.drain_quads();
    assert_eq!(2, quads.len());
    assert_eq!(12, indices.len());
    assert_eq!(vec![0, 1, 2, 2, 1, 3, 4, 5, 6, 6, 5, 7], indices);
    let mut covered = vec![0; 4096];
    for q in &quads {
        for x in q.min_2d.x..=q.max_2d.x {
            for y in q.min_2d.y..=q.max_2d.y {
                covered[cell(x as usize, y as usize)] += 1;
                let expected = if x < 3 { 1 } else { 2 };
                assert_eq!(expected, q.texture_id);
            }
        }
        // South points against its axis, so the face sits at the slice.
        assert_eq!(0, q.magnitude);
    }
    for x in 0..64 {
        for y in 0..64 {
            let want = if matches!(data.quads[cell(x, y)], Ok(Some(_))) { 1 } else { 0 };
            assert_eq!(want, covered[cell(x, y)]);
        }
    }
}

#[test]
fn greedy_skips_skipped_blocks() {
    let mut data = empty_slice();
    // One microblock in block (0, 0), which is skipped.
    data.quads[cell(1, 1)] = Ok(quad_for_microblock(visible(1), air()));
    data.skipped_blocks[0] = Ok(true);
    let cqs = ChunkQuadSlice::new(Face::North, 3).unwrap();
    let mut mesher = GreedyMesher::new();
    mesher.calculate_slice_quads(&cqs, &data).unwrap();
    let (_, quads) = mesher.drain_quads();
    assert_eq!(0, quads.len());
}

#[test]
fn greedy_stops_at_the_first_failed_read_it_meets() {
    let cqs = ChunkQuadSlice::new(Face::North, 3).unwrap();

    // A failed read of a microblock in a block that is meshed stops the mesher.
    let mut data = empty_slice();
    data.quads[cell(1, 1)] = Err(CqsError::NeighborAccessError);
    let mut mesher = GreedyMesher::new();
    assert_eq!(Err(CqsError::NeighborAccessError), mesher.calculate_slice_quads(&cqs, &data));

    // A failed read of whether a block is skipped stops it too.
    let mut data = empty_slice();
    data.skipped_blocks[3] = Err(CqsError::HandleError);
    assert_eq!(Err(CqsError::HandleError), mesher.calculate_slice_quads(&cqs, &data));

    // A failed read in a skipped block that no quad grows into is never consumed.
    let mut data = empty_slice();
    data.skipped_blocks[0] = Ok(true);
    data.quads[cell(1, 1)] = Err(CqsError::OutOfBounds);
    assert_eq!(Ok(()), mesher.calculate_slice_quads(&cqs, &data));

    // A quad that grows into a failed read stops the mesher: the quad at (0, 4) widens along x
    // into (1, 4), whose read failed.
    let mut data = empty_slice();
    data.quads[cell(0, 4)] = Ok(quad_for_microblock(visible(1), air()));
    data.quads[cell(1, 4)] = Err(CqsError::OutOfBounds);
    data.skipped_blocks[1] = Ok(false);
    assert_eq!(Err(CqsError::OutOfBounds), mesher.calculate_slice_quads(&cqs, &data));
}

#[test]
fn slice_positions() {
    let mut cqs = ChunkQuadSlice::new(Face::North, 7).unwrap();
    // North is the +X face: the magnitude is along x, and the 2D position maps to (z, y).
    assert_eq!(ivec3(7, 2, 1), cqs.pos_3d_mb(ivec2(1, 2)));
    assert_eq!(ivec3(1, 2, 1), cqs.pos_3d(ivec2(1, 2)));
    assert_eq!(ivec3(3, 2, 1), cqs.pos_3d_sd(ivec2(1, 2)));
    assert_eq!(ivec2(1, 2), cqs.pos_2d(ivec3(7, 2, 1)));
    assert!(cqs.mag_at_block_edge());
    cqs.reposition(Face::South, 4).unwrap();
    assert!(cqs.mag_at_block_edge());
    cqs.reposition(Face::South, 3).unwrap();
    assert!(!cqs.mag_at_block_edge());
    cqs.reposition(Face::South, 0).unwrap();
    // South looks at the magnitude one below: -1 is the last microblock of the block below.
    assert!(cqs.mag_at_block_edge());
    assert!(ChunkQuadSlice::contains(ivec2(15, 0)));
    assert!(!ChunkQuadSlice::contains(ivec2(16, 0)));
    assert!(ChunkQuadSlice::contains_3d(ivec3(0, 15, 3)));
    assert!(!ChunkQuadSlice::contains_3d(ivec3(0, 16, 3)));
}
