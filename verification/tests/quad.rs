use voxel_engine::face::Face;
use voxel_engine::math::{ivec2, ivec3, uvec2};
use voxel_engine::quad::{DataQuad, FaceTexture, IsometrizedQuad, PositionedQuad, Quad, QuadError, QuadIsometry, QuadVertex, TextureId};

#[test]
fn test_resizing() {
    let mut quad = PositionedQuad::new(ivec2(0, 0), DataQuad::new(Quad::one(), FaceTexture::new(TextureId::new(0))));

    assert_eq!(ivec2(0, 0), quad.min());
    assert_eq!(ivec2(0, 0), quad.max());
    assert_eq!(ivec2(0, 0), quad.pos());

    quad.widen(1).unwrap();

    assert_eq!(ivec2(0, 0), quad.min());
    assert_eq!(ivec2(1, 0), quad.max());
    assert_eq!(ivec2(0, 0), quad.pos());

    quad.heighten(2).unwrap();

    assert_eq!(ivec2(0, 0), quad.min());
    assert_eq!(ivec2(1, 2), quad.max());
    assert_eq!(ivec2(0, 0), quad.pos());
}

#[test]
fn quad_dimensions() {
    assert_eq!(Err(QuadError::InvalidDimensions), Quad::new(uvec2(0, 3)));
    let q = Quad::new(uvec2(2, 3)).unwrap();
    assert_eq!(ivec2(2, 3), q.dims());
    assert_eq!(Err(QuadError::InvalidDimensions), q.widened(-2));
    assert_eq!(ivec2(1, 3), q.widened(-1).unwrap().dims());
    assert_eq!(ivec2(2, 7), q.heightened(4).unwrap().dims());
    assert_eq!(Err(QuadError::InvalidDimensions), q.heightened(-5));
}

#[test]
fn quad_vertices_and_topology() {
    let data = DataQuad::new(Quad::new(uvec2(3, 2)).unwrap(), FaceTexture::new(TextureId::new(4)));
    let quad = PositionedQuad::new(ivec2(1, 1), data);
    assert_eq!(ivec2(1, 2), quad.vertex_pos(QuadVertex::Zero));
    assert_eq!(ivec2(3, 2), quad.vertex_pos(QuadVertex::One));
    assert_eq!(ivec2(1, 1), quad.vertex_pos(QuadVertex::Two));
    assert_eq!(ivec2(3, 1), quad.vertex_pos(QuadVertex::Three));
    assert_eq!(Some(QuadVertex::Two), QuadVertex::from_usize(2));
    assert_eq!(None, QuadVertex::from_usize(4));
    assert_eq!(3, QuadVertex::Three.as_usize());

    let iso = IsometrizedQuad::new(QuadIsometry::new(ivec2(1, 1), 9, Face::Top), quad);
    assert_eq!(ivec3(1, 9, 1), iso.min());
    assert_eq!(ivec3(3, 9, 2), iso.max());
    assert_eq!(ivec3(3, 9, 2), iso.vertex_position_3d(QuadVertex::One));
    let top = iso.topology().map(|v| v.as_usize());
    assert_eq!([0, 1, 2, 1, 3, 2], top);
    let iso = IsometrizedQuad::new(QuadIsometry::new(ivec2(1, 1), 9, Face::North), quad);
    let north = iso.topology().map(|v| v.as_usize());
    assert_eq!([0, 2, 1, 1, 2, 3], north);
    assert_eq!(ivec3(9, 1, 1), QuadIsometry::new(ivec2(1, 1), 9, Face::North).pos_3d());
}
