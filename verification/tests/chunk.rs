use voxel_engine::block::BlockVariantId;
use voxel_engine::bounding_box::{BoundingBox, ChunkPos};
use voxel_engine::containers::RawChunkVoxelContainer;
use voxel_engine::generator::{Generator, GeneratorPalette};
use voxel_engine::generic_chunk::{ChunkDataError, GenericChunkReadAccess, MockChunk};
use voxel_engine::math::ivec3;
use voxel_engine::mesh_state::{ChunkMeshData, ChunkMeshState, ChunkMeshTimestate, MesherError};
use voxel_engine::storage::{ChunkAccessError, DenseChunkStorage};

fn palette() -> GeneratorPalette {
    GeneratorPalette {
        void: BlockVariantId::new(0),
        debug: BlockVariantId::new(1),
        stone: BlockVariantId::new(2),
        water: BlockVariantId::new(3),
    }
}

fn mb_index(x: usize, y: usize, z: usize) -> usize {
    x * 4096 + y * 64 + z
}

#[test]
fn generator_fills_low_chunks_with_water() {
    let generator = Generator::new(palette());
    let mut chunk = MockChunk::new();
    let solid = vec![true; 262144];
    generator.write_to_chunk(ChunkPos::new(0, -1, 0), &solid, &vec![BlockVariantId::new(0)], &mut chunk);
    assert_eq!(Ok(Some(BlockVariantId::new(3))), chunk.get(ivec3(0, 0, 0)));
    assert_eq!(Ok(Some(BlockVariantId::new(3))), chunk.get(ivec3(15, 15, 15)));
}

#[test]
fn generator_places_debug_block_and_stone() {
    let generator = Generator::new(palette());
    let mut chunk = MockChunk::new();
    let mut solid = vec![false; 262144];
    solid[mb_index(0, 0, 0)] = true;
    solid[mb_index(10, 20, 30)] = true;
    generator.write_to_chunk(ChunkPos::new(0, 0, 0), &solid, &vec![BlockVariantId::new(0)], &mut chunk);
    assert_eq!(Ok(BlockVariantId::new(1)), chunk.get_mb(ivec3(0, 0, 0)));
    assert_eq!(Ok(BlockVariantId::new(1)), chunk.get_mb(ivec3(3, 3, 3)));
    assert_eq!(Ok(BlockVariantId::new(2)), chunk.get_mb(ivec3(10, 20, 30)));
    assert_eq!(Ok(BlockVariantId::new(0)), chunk.get_mb(ivec3(10, 20, 31)));
    assert_eq!(Ok(BlockVariantId::new(0)), chunk.get_mb(ivec3(63, 63, 63)));
}

#[test]
fn generator_leaves_non_subdividable_blocks_alone() {
    let generator = Generator::new(palette());
    let mut chunk = MockChunk::new();
    // a full block of variant 5, which cannot be subdivided, at block (2, 5, 7)
    chunk.set(ivec3(2, 5, 7), BlockVariantId::new(5)).unwrap();
    let mut solid = vec![false; 262144];
    solid[mb_index(10, 20, 30)] = true;
    solid[mb_index(40, 40, 40)] = true;
    generator.write_to_chunk(ChunkPos::new(0, 0, 0), &solid, &vec![BlockVariantId::new(0)], &mut chunk);
    assert_eq!(Ok(Some(BlockVariantId::new(5))), chunk.get(ivec3(2, 5, 7)));
    assert_eq!(Ok(BlockVariantId::new(5)), chunk.get_mb(ivec3(10, 20, 30)));
    assert_eq!(Ok(BlockVariantId::new(2)), chunk.get_mb(ivec3(40, 40, 40)));
}

#[test]
fn mock_chunk_set_mb_ignoring_skips_non_subdividable_blocks() {
    let mut chunk = MockChunk::new();
    chunk.set(ivec3(1, 1, 1), BlockVariantId::new(5)).unwrap();
    let subdividable = vec![BlockVariantId::new(0)];
    assert!(chunk.set_mb_ignoring(ivec3(5, 5, 5), BlockVariantId::new(9), &subdividable).is_ok());
    assert_eq!(Ok(BlockVariantId::new(5)), chunk.get_mb(ivec3(5, 5, 5)));
    assert_eq!(Ok(Some(BlockVariantId::new(5))), chunk.get(ivec3(1, 1, 1)));
    assert!(chunk.set_mb_ignoring(ivec3(9, 5, 5), BlockVariantId::new(9), &subdividable).is_ok());
    assert_eq!(Ok(BlockVariantId::new(9)), chunk.get_mb(ivec3(9, 5, 5)));
    assert_eq!(Ok(BlockVariantId::new(0)), chunk.get_mb(ivec3(8, 5, 5)));
    assert_eq!(
        Err(ChunkDataError::OutOfBounds),
        chunk.set_mb_ignoring(ivec3(64, 0, 0), BlockVariantId::new(9), &subdividable)
    );
}

#[test]
fn mock_chunk_set_and_fill_region() {
    let mut chunk = MockChunk::new();
    assert!(chunk.set(ivec3(1, 2, 3), BlockVariantId::new(7)).is_ok());
    assert_eq!(Err(ChunkDataError::OutOfBounds), chunk.set(ivec3(16, 2, 3), BlockVariantId::new(7)));
    assert_eq!(Ok(Some(BlockVariantId::new(7))), chunk.get(ivec3(1, 2, 3)));
    assert_eq!(Ok(BlockVariantId::new(7)), chunk.get_mb(ivec3(4, 8, 12)));
    assert!(chunk.fill_region(BoundingBox::new(ivec3(0, 0, 0), ivec3(2, 2, 2)), BlockVariantId::new(8)).is_ok());
    assert_eq!(Ok(Some(BlockVariantId::new(8))), chunk.get(ivec3(1, 1, 1)));
    assert_eq!(Ok(Some(BlockVariantId::new(0))), chunk.get(ivec3(2, 2, 2)));
    assert!(chunk.get(ivec3(-1, 0, 0)).is_err());
}

#[test]
fn mock_chunk_set_mb_subdivides() {
    let mut chunk = MockChunk::new();
    assert!(chunk.set_mb(ivec3(5, 5, 5), BlockVariantId::new(9)).is_ok());
    assert_eq!(Ok(BlockVariantId::new(9)), chunk.get_mb(ivec3(5, 5, 5)));
    assert_eq!(Ok(BlockVariantId::new(0)), chunk.get_mb(ivec3(4, 4, 4)));
    assert_eq!(Ok(None), chunk.get(ivec3(1, 1, 1)));
    assert!(chunk.set_mb(ivec3(64, 0, 0), BlockVariantId::new(9)).is_err());
}

#[test]
fn raw_container_access() {
    let mut empty = RawChunkVoxelContainer::<u8>::empty();
    assert_eq!(Err(ChunkAccessError::NotInitialized), empty.internal_get(ivec3(0, 0, 0)));
    assert_eq!(Ok(4), empty.auto_get(4, ivec3(0, 0, 0)));
    assert!(empty.auto_set(4, ivec3(1, 1, 1), 9).is_ok());
    assert_eq!(Ok(9), empty.internal_get(ivec3(1, 1, 1)));
    assert_eq!(Ok(4), empty.internal_get(ivec3(0, 0, 0)));
    assert_eq!(Err(ChunkAccessError::OutOfBounds), empty.auto_get(4, ivec3(16, 0, 0)));

    let mut filled = RawChunkVoxelContainer::filled(DenseChunkStorage::new(1u8));
    assert!(filled.internal_set(ivec3(2, 2, 2), 3).is_ok());
    assert_eq!(Ok(3), filled.internal_get(ivec3(2, 2, 2)));
    assert!(filled.internal_set(ivec3(2, 2, 16), 3).is_err());
}

#[test]
fn mesh_data_status() {
    let empty = ChunkMeshData::empty();
    assert!(empty.is_empty());
    assert_eq!(ChunkMeshState::Empty, empty.status());
    let filled = ChunkMeshData { index_buffer_data: vec![1], quad_buffer_data: vec![2] };
    assert_eq!(ChunkMeshState::Filled, filled.status());
    let half = ChunkMeshData { index_buffer_data: vec![1], quad_buffer_data: vec![] };
    assert_eq!(ChunkMeshState::Empty, half.status());
    assert_eq!(ChunkMeshState::Absent, ChunkMeshTimestate::absent(4).status);
    assert!(matches!(MesherError::custom(String::from("x")), MesherError::CustomError(_)));
}
