use voxel_engine::block::{BlockVariantId, FullBlock, Microblock};
use voxel_engine::bounding_box::{chunk_bounding_box, BoundingBox};
use voxel_engine::face::Face;
use voxel_engine::generic_chunk::MockChunk;
use voxel_engine::math::{ivec2, ivec3, ivec4, IVec4};
use voxel_engine::neighbors::{NeighborSelection, NeighborsBuilder};
use voxel_engine::quad::{DataQuad, FaceTexture, FaceTextureRotation, PositionedQuad, Quad, QuadVertex, TextureId};
use voxel_engine::storage::{try_ivec3_to_usize_arr, IndexedChunkStorage, OutOfBounds};
use voxel_engine::transformations::{
    fb_worldspace_to_fb_localspace, mb_localspace_to_fb_localspace, mb_worldspace_to_chunkspace,
    mb_worldspace_to_mb_localspace,
};

#[test]
fn worldspace_positions_split_into_chunks_and_local_positions() {
    assert_eq!(ivec3(15, 0, 1), fb_worldspace_to_fb_localspace(ivec3(-1, 16, 33)));
    assert_eq!(ivec3(-1, 0, 1), mb_worldspace_to_chunkspace(ivec3(-1, 63, 64)));
    assert_eq!(ivec3(63, 63, 0), mb_worldspace_to_mb_localspace(ivec3(-1, 63, 64)));
    assert_eq!(ivec3(0, 15, -1), mb_localspace_to_fb_localspace(ivec3(3, 63, -1)));
    assert_eq!(ivec2(-1, 2), mb_localspace_to_fb_localspace(ivec2(-4, 11)));
}

#[test]
fn boxes_and_vectors() {
    assert!(chunk_bounding_box().is_chunk());
    let bb = BoundingBox::new(ivec3(2, 0, -1), ivec3(0, 3, 1));
    assert!(!bb.is_chunk());
    assert_eq!(2 * 3 * 2, bb.volume());
    assert_eq!(IVec4 { x: 1, y: 2, z: 3, w: 4 }, ivec4(1, 2, 3, 4));
}

#[test]
fn positions_become_array_indices() {
    assert_eq!(Ok([1, 2, 3]), try_ivec3_to_usize_arr(ivec3(1, 2, 3)));
    assert_eq!(Err(OutOfBounds), try_ivec3_to_usize_arr(ivec3(1, -2, 3)));
}

#[test]
fn face_neighbor_selection() {
    let faces = NeighborSelection::all_faces();
    assert_eq!(6, faces.num_selected());
    for face in [Face::Top, Face::Bottom, Face::North, Face::South, Face::East, Face::West] {
        assert_eq!(Ok(true), faces.get(face.normal()));
    }
    assert_eq!(Ok(false), faces.get(ivec3(1, 1, 0)));

    let mut builder = NeighborsBuilder::<MockChunk>::new(BlockVariantId::new(0));
    builder.set_neighbor(ivec3(0, 1, 0), MockChunk::new()).unwrap();
    let neighbors = builder.build();
    assert!(neighbors.has_all(NeighborSelection::empty()));
    assert!(!neighbors.has_all(faces));
    let mut top_only = NeighborSelection::empty();
    top_only.set(ivec3(0, 1, 0), true).unwrap();
    assert!(neighbors.has_all(top_only));
}

#[test]
fn microblocks_and_textures() {
    let mb = Microblock::new(BlockVariantId::new(4));
    assert_eq!(FullBlock::new(BlockVariantId::new(4)), mb.as_full_block());
    let t = FaceTexture::new_rotated(TextureId::new(3), FaceTextureRotation::new(6));
    assert_eq!(3, t.id.as_u32());
    assert_eq!(2, t.rotation.inner());
}

#[test]
fn vertex_data_of_a_positioned_quad() {
    let mut quad = PositionedQuad::new(ivec2(2, 3), DataQuad::new(Quad::one(), FaceTexture::new(TextureId::new(0))));
    quad.widen(2).unwrap();
    let (pos, _) = quad.get_vertex_mut(QuadVertex::Three);
    let expected = quad.vertex_pos(QuadVertex::Three);
    assert_eq!(expected, pos);
}

#[test]
fn indexed_storage_with_a_given_hasher() {
    let mut storage = IndexedChunkStorage::<u32>::with_random_state(ahash::RandomState::new());
    assert_eq!(None, storage.get(ivec3(0, 0, 0)).unwrap());
    storage.set(ivec3(0, 0, 0), 9).unwrap();
    assert_eq!(Some(&9), storage.get(ivec3(0, 0, 0)).unwrap());
}
