use voxel_engine::face::Face;
use voxel_engine::math::{ivec3, IVec3};
use voxel_engine::occlusion::{ivec3_to_cmo_idx, BlockOcclusion, ChunkOcclusionMap};

#[test]
fn divisible_by_u32_size() {
    let v = ChunkOcclusionMap::BUFFER_SIZE;
    assert!(v % std::mem::size_of::<u32>() == 0);
}

#[test]
fn test_chunk_occlusion_map() {
    let mut com = ChunkOcclusionMap::new();

    com.set(ivec3(-1, -1, -1), BlockOcclusion::new(&[Face::South])).unwrap();
    assert!(com.set(ivec3(-2, -1, -1), BlockOcclusion::new(&[Face::South])).is_err());

    com.set(ivec3(16, 16, 16), BlockOcclusion::new(&[Face::North])).unwrap();
    assert!(com.set(ivec3(16, 16, 17), BlockOcclusion::new(&[Face::North])).is_err());

    com.set(ivec3(12, 7, 5), BlockOcclusion::new(&[Face::East])).unwrap();

    assert_eq!(BlockOcclusion::new(&[Face::South]), com.get(ivec3(-1, -1, -1)).unwrap());
    assert_eq!(BlockOcclusion::new(&[Face::North]), com.get(ivec3(16, 16, 16)).unwrap());
    assert_eq!(BlockOcclusion::new(&[Face::East]), com.get(ivec3(12, 7, 5)).unwrap());
}

#[test]
fn test_shader_logic() {
    let mut com = ChunkOcclusionMap::new();
    com.set(ivec3(5, 5, 3), BlockOcclusion::new(&[Face::North])).unwrap();
    com.set(ivec3(-1, 15, 6), BlockOcclusion::new(&[Face::East, Face::West, Face::Bottom])).unwrap();
    com.set(ivec3(0, 5, 0), BlockOcclusion::new(&[Face::West])).unwrap();
    com.set(ivec3(10, 2, 14), BlockOcclusion::new(&[Face::South])).unwrap();

    let buffer = com.as_buffer();
    let f = |pos: IVec3, occ: BlockOcclusion| {
        let whole_idx = ivec3_to_cmo_idx(pos).unwrap();
        let idx = whole_idx / std::mem::size_of::<u32>();
        let value_in_shader = u32::from_le_bytes(buffer[idx]);

        let subidx = (whole_idx as u32) % (std::mem::size_of::<u32>() as u32);
        let mask = (u8::MAX as u32) << (subidx * u8::BITS);

        let normalized_value = (value_in_shader & mask) >> (subidx * u8::BITS);

        if occ.as_byte() as u32 != normalized_value {
            panic!("{:#032b} != {:#032b}", occ.as_byte() as u32, normalized_value);
        }
    };

    f(ivec3(5, 5, 3), BlockOcclusion::new(&[Face::North]));
    f(ivec3(-1, 15, 6), BlockOcclusion::new(&[Face::East, Face::West, Face::Bottom]));
    f(ivec3(0, 5, 0), BlockOcclusion::new(&[Face::West]));
    f(ivec3(10, 2, 14), BlockOcclusion::new(&[Face::South]));
}

#[test]
fn occlusion_bits_and_bytes() {
    // Bits follow the face indices (top 0, bottom 1, north 2, east 3, south 4, west 5).
    assert_eq!(0b000100, BlockOcclusion::new(&[Face::North]).as_byte());
    assert_eq!(0b101010, BlockOcclusion::new(&[Face::East, Face::West, Face::Bottom]).as_byte());
    assert_eq!(0, BlockOcclusion::empty().as_byte());
    assert_eq!(0b111111, BlockOcclusion::filled().as_byte());
    // Only the six face bits survive a conversion from a byte.
    assert_eq!(0b111111, BlockOcclusion::from_byte(0xff).as_byte());
    assert_eq!(BlockOcclusion::new(&[Face::South]), BlockOcclusion::from_byte(BlockOcclusion::new(&[Face::South]).as_byte()));
}

#[test]
fn occlusion_test_uses_the_face_index_as_mask() {
    let occ = BlockOcclusion::new(&[Face::Bottom, Face::North]);
    // The byte is 0b000110. Bottom has index 1, which is the top bit's mask: no match.
    assert!(!occ.is_occluded(Face::Bottom));
    // North has index 2, the bottom bit's mask: a match.
    assert!(occ.is_occluded(Face::North));
    // West has index 5 = 0b101, which shares the north bit with a north-only byte.
    assert!(BlockOcclusion::new(&[Face::North]).is_occluded(Face::West));
    // Top has index 0, which shares no bit with any byte.
    assert!(!BlockOcclusion::filled().is_occluded(Face::Top));
}

#[test]
fn cmo_index_bounds() {
    assert_eq!(Ok(0), ivec3_to_cmo_idx(ivec3(-1, -1, -1)));
    assert_eq!(Ok(5831), ivec3_to_cmo_idx(ivec3(16, 16, 16)));
    assert_eq!(Ok(1 + 18 + 324), ivec3_to_cmo_idx(ivec3(0, 0, 0)));
    assert!(ivec3_to_cmo_idx(ivec3(17, 0, 0)).is_err());
    assert!(ivec3_to_cmo_idx(ivec3(0, -2, 0)).is_err());
    assert_eq!(1458, ChunkOcclusionMap::new().as_buffer().len());
}

#[test]
fn filled_and_empty_equal_new_of_all_and_no_faces() {
    let all = [Face::Top, Face::Bottom, Face::North, Face::East, Face::South, Face::West];
    assert_eq!(BlockOcclusion::filled(), BlockOcclusion::new(&all));
    assert_eq!(BlockOcclusion::empty(), BlockOcclusion::new(&[]));
    assert_eq!(BlockOcclusion::filled(), BlockOcclusion::from_byte(BlockOcclusion::filled().as_byte()));
    assert_ne!(BlockOcclusion::filled(), BlockOcclusion::empty());
}
