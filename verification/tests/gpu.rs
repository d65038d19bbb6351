use voxel_engine::face::Face;
use voxel_engine::gpu::{round_up, GpuQuadBitfields, VfvdError, VoxelFaceVertexData};
use voxel_engine::math::{ivec3, uvec2};
use voxel_engine::quad::FaceTextureRotation;

#[test]
fn round_up_to_multiples() {
    assert_eq!(0, round_up(4, 0));
    assert_eq!(4, round_up(4, 1));
    assert_eq!(4, round_up(4, 4));
    assert_eq!(8, round_up(4, 5));
    assert_eq!(96, round_up(32, 65));
}

#[test]
fn bitfields_roundtrip_face() {
    let b = GpuQuadBitfields::new().with_face(Face::South);
    assert_eq!(Face::South, b.get_face());
    // the face bits are or-ed in: adding the top face (index 0) changes nothing
    let b = b.with_face(Face::Top);
    assert_eq!(Face::South, b.get_face());
    assert_eq!(Face::East, GpuQuadBitfields::new().with_face(Face::East).get_face());
    assert_eq!(0, GpuQuadBitfields::new().value());
    let r = GpuQuadBitfields::new().with_rotation(FaceTextureRotation::new(3));
    assert_eq!(3, r.value());
    let f = GpuQuadBitfields::new().with_flip_x(true).with_flip_y(true);
    assert_eq!(0b110_0000, f.value());
    // a `false` flip leaves a set bit as it is
    assert_eq!(0b110_0000, f.with_flip_x(false).value());
    assert_eq!(0b100_0000, GpuQuadBitfields::new().with_flip_x(false).with_flip_y(true).value());
}

fn vertex(face: Face, x: i32, y: i32, z: i32, tx: u32, ty: u32, corner: u32) -> VoxelFaceVertexData {
    VoxelFaceVertexData { face, vxl_pos: ivec3(x, y, z), texture_pos: uvec2(tx, ty), corner }
}

#[test]
fn pack_exact_word() {
    // face North (2) << 26 | 1 << 22 | 2 << 18 | 3 << 14 | 4 << 8 | 5 << 2 | 1
    let expected: u32 = (2 << 26) | (1 << 22) | (2 << 18) | (3 << 14) | (4 << 8) | (5 << 2) | 1;
    assert_eq!(Ok(expected), vertex(Face::North, 1, 2, 3, 4, 5, 1).pack());
}

#[test]
fn pack_errors_in_order() {
    assert_eq!(Err(VfvdError::VxlXOob), vertex(Face::Top, -1, -1, 0, 0, 0, 0).pack());
    assert_eq!(Err(VfvdError::VxlYOob), vertex(Face::Top, 0, 17, 0, 0, 0, 0).pack());
    assert_eq!(Err(VfvdError::VxlZOob), vertex(Face::Top, 0, 0, -3, 0, 0, 0).pack());
    assert_eq!(Err(VfvdError::TexAtlasXOob), vertex(Face::Top, 0, 0, 0, 65, 70, 9).pack());
    assert_eq!(Err(VfvdError::TexAtlasYOob), vertex(Face::Top, 0, 0, 0, 63, 64, 9).pack());
    assert_eq!(Err(VfvdError::InvalidCornerId), vertex(Face::Top, 15, 15, 15, 63, 63, 4).pack());
    assert!(vertex(Face::Top, 15, 15, 15, 63, 63, 3).pack().is_ok());
    // a field's width bounds its values: 16 does not fit 4 bits, nor 64 6 bits
    assert_eq!(Err(VfvdError::VxlXOob), vertex(Face::Top, 16, 0, 0, 0, 0, 0).pack());
    assert_eq!(Err(VfvdError::VxlZOob), vertex(Face::Top, 0, 0, 16, 0, 0, 0).pack());
    assert_eq!(Err(VfvdError::TexAtlasXOob), vertex(Face::Top, 0, 0, 0, 64, 0, 0).pack());
    assert_eq!("Invalid corner ID", VfvdError::InvalidCornerId.message());
}
