//! Quads: rectangles of voxel faces with a texture, placed on a 2D face plane, oriented in 3D,
//! and packed for the GPU.
use vstd::prelude::*;
use crate::math::{IVec2, IVec3, UVec2, ivec2};
use crate::face::Face;
use crate::transformations::{ivec_project_to_3d, spec_project_to_3d};

verus! {

/// Error from building or resizing a quad.
#[derive(Copy, Clone, Debug, PartialEq, Eq, Structural)]
pub enum QuadError {
    /// Quad dimensions were invalid: width and height must both be greater than 0.
    InvalidDimensions,
}

impl QuadError {
    /// A description of the error.
    pub fn message(&self) -> (r: &'static str)
        ensures
            r@ == "Quad dimensions were invalid, width and height must both be greater than 0"@,
    {
        "Quad dimensions were invalid, width and height must both be greater than 0"
    }
}

/// Identifier of a texture in the texture registry.
#[derive(Copy, Clone, Debug, PartialEq, Eq, Hash, Structural)]
pub struct TextureId(pub u32);

impl TextureId {
    /// The identifier with the given raw value.
    pub fn new(raw: u32) -> (r: TextureId)
        ensures
            r.0 == raw,
    {
        TextureId(raw)
    }

    /// The raw value of the identifier.
    pub fn as_u32(self) -> (r: u32)
        ensures
            r == self.0,
    {
        self.0
    }
}

/// Rotation of a face texture, in quarter turns (`0..4`).
#[derive(Copy, Clone, Debug, PartialEq, Eq, Hash, Structural)]
pub struct FaceTextureRotation(u8);

impl FaceTextureRotation {
    pub closed spec fn spec_inner(self) -> u8 {
        self.0
    }

    /// The rotation by the given number of quarter turns (modulo 4).
    pub fn new(quarter_turns: u8) -> (r: FaceTextureRotation)
        ensures
            r.spec_inner() == quarter_turns % 4,
    {
        FaceTextureRotation(quarter_turns % 4)
    }

    /// The number of quarter turns, in `0..4`.
    pub fn inner(self) -> (r: u8)
        ensures
            r == self.spec_inner(),
    {
        self.0
    }

    pub open spec fn wf(self) -> bool {
        self.spec_inner() < 4
    }
}

/// The texture shown on a face of a block, with its rotation.
#[derive(Copy, Clone, Debug, PartialEq, Eq, Hash, Structural)]
pub struct FaceTexture {
    pub id: TextureId,
    pub rotation: FaceTextureRotation,
}

impl FaceTexture {
    /// The unrotated face texture with the given id.
    pub fn new(id: TextureId) -> (r: FaceTexture)
        ensures
            r.id == id,
            r.rotation.spec_inner() == 0,
    {
        FaceTexture { id, rotation: FaceTextureRotation::new(0) }
    }

    /// The face texture with the given id and rotation.
    pub fn new_rotated(id: TextureId, rotation: FaceTextureRotation) -> (r: FaceTexture)
        ensures
            r.id == id,
            r.rotation == rotation,
    {
        FaceTexture { id, rotation }
    }
}

/// The dimensions of a quad, both at least 1.
#[derive(Copy, Clone, Debug, PartialEq, Eq, Hash, Structural)]
pub struct Quad {
    x: u32,
    y: u32,
}

impl Quad {
    /// Width.
    pub closed spec fn spec_x(self) -> u32 {
        self.x
    }

    /// Height.
    pub closed spec fn spec_y(self) -> u32 {
        self.y
    }

    /// Both dimensions are at least 1.
    pub open spec fn wf(self) -> bool {
        self.spec_x() > 0 && self.spec_y() > 0
    }

    /// A quad is its two dimensions: quads with the same width and height are equal.
    pub proof fn lemma_same_dims(self, other: Quad)
        ensures
            self.spec_x() == other.spec_x() && self.spec_y() == other.spec_y() ==> self == other,
    {
    }

    /// The 1x1 quad.
    pub fn one() -> (r: Quad)
        ensures
            r.wf(),
            r.spec_x() == 1 && r.spec_y() == 1,
    {
        Quad { x: 1, y: 1 }
    }

    /// A quad with the given dimensions; both must be greater than 0.
    pub fn new(dims: UVec2) -> (r: Result<Quad, QuadError>)
        ensures
            r is Err <==> (dims.x == 0 || dims.y == 0),
            r matches Ok(q) ==> q.wf() && q.spec_x() == dims.x && q.spec_y() == dims.y,
    {
        if dims.x == 0 || dims.y == 0 {
            return Err(QuadError::InvalidDimensions);
        }
        Ok(Quad { x: dims.x, y: dims.y })
    }

    /// The quad with its width changed by `by`; fails if the new width is not positive.
    pub fn widened(self, by: i32) -> (r: Result<Quad, QuadError>)
        requires
            self.wf(),
            self.spec_x() <= i32::MAX,
            i32::MIN <= self.spec_x() + by <= i32::MAX,
        ensures
            r is Err <==> self.spec_x() + by <= 0,
            r matches Ok(q) ==> q.wf() && q.spec_x() == self.spec_x() + by && q.spec_y() == self.spec_y(),
    {
        let new_x = self.x as i32 + by;
        assert(new_x == self.spec_x() + by);
        if new_x <= 0 {
            return Err(QuadError::InvalidDimensions);
        }
        Ok(Quad { x: new_x as u32, y: self.y })
    }

    /// The quad with its height changed by `by`; fails if the new height is not positive.
    pub fn heightened(self, by: i32) -> (r: Result<Quad, QuadError>)
        requires
            self.wf(),
            self.spec_y() <= i32::MAX,
            i32::MIN <= self.spec_y() + by <= i32::MAX,
        ensures
            r is Err <==> self.spec_y() + by <= 0,
            r matches Ok(q) ==> q.wf() && q.spec_y() == self.spec_y() + by && q.spec_x() == self.spec_x(),
    {
        let new_y = self.y as i32 + by;
        assert(new_y == self.spec_y() + by);
        if new_y <= 0 {
            return Err(QuadError::InvalidDimensions);
        }
        Ok(Quad { x: self.x, y: new_y as u32 })
    }

    /// The width as a signed integer.
    pub fn x(self) -> (r: i32)
        requires
            self.spec_x() <= i32::MAX,
        ensures
            r == self.spec_x(),
    {
        self.x as i32
    }

    /// The height as a signed integer.
    pub fn y(self) -> (r: i32)
        requires
            self.spec_y() <= i32::MAX,
        ensures
            r == self.spec_y(),
    {
        self.y as i32
    }

    /// The dimensions as a vector.
    pub fn dims(self) -> (r: IVec2)
        requires
            self.spec_x() <= i32::MAX,
            self.spec_y() <= i32::MAX,
        ensures
            r.x == self.spec_x() && r.y == self.spec_y(),
    {
        ivec2(self.x(), self.y())
    }
}

/// Data of one vertex of a quad (currently nothing).
#[derive(Copy, Clone, Debug, PartialEq, Eq, Hash, Default, Structural)]
pub struct QVertexData;

/// Per-vertex data of a quad.
#[derive(Copy, Clone, Debug, Hash, Eq)]
pub struct QData([QVertexData; 4]);

impl PartialEq for QData {
    fn eq(&self, other: &Self) -> (r: bool) {
        true
    }
}

impl vstd::std_specs::cmp::PartialEqSpecImpl for QData {
    open spec fn obeys_eq_spec() -> bool {
        true
    }

    open spec fn eq_spec(&self, other: &Self) -> bool {
        true
    }
}

impl QData {
    /// Default data for every vertex.
    pub fn new() -> (r: QData)
        ensures
            r.inner_spec()@.len() == 4,
    {
        QData([QVertexData, QVertexData, QVertexData, QVertexData])
    }

    pub closed spec fn inner_spec(&self) -> [QVertexData; 4] {
        self.0
    }

    /// The data of one vertex.
    pub fn get(&self, vertex: QuadVertex) -> (r: &QVertexData)
        ensures
            *r == self.inner_spec()@[vertex.spec_as_usize() as int],
    {
        &self.0[vertex.as_usize()]
    }

    /// Mutable access to the data of one vertex.
    pub fn get_mut(&mut self, vertex: QuadVertex) -> (r: &mut QVertexData)
        ensures
            *r == old(self).inner_spec()@[vertex.spec_as_usize() as int],
            final(self).inner_spec()@ == old(self).inner_spec()@.update(vertex.spec_as_usize() as int, *final(r)),
    {
        &mut self.0[vertex.as_usize()]
    }

    /// The data of every vertex, in vertex order.
    pub fn inner(&self) -> (r: &[QVertexData; 4])
        ensures
            *r == self.inner_spec(),
    {
        &self.0
    }
}

/// A quad with a texture and per-vertex data.
#[derive(Copy, Clone, Debug, Hash, Eq)]
pub struct DataQuad {
    pub quad: Quad,
    pub texture: FaceTexture,
    pub data: QData,
}

impl PartialEq for DataQuad {
    fn eq(&self, other: &Self) -> (r: bool) {
        self.quad == other.quad && self.texture == other.texture
    }
}

impl vstd::std_specs::cmp::PartialEqSpecImpl for DataQuad {
    open spec fn obeys_eq_spec() -> bool {
        true
    }

    open spec fn eq_spec(&self, other: &Self) -> bool {
        self.quad == other.quad && self.texture == other.texture
    }
}

impl DataQuad {
    /// A quad with the given dimensions and texture, and default vertex data.
    pub fn new(quad: Quad, texture: FaceTexture) -> (r: DataQuad)
        ensures
            r.quad == quad,
            r.texture == texture,
    {
        DataQuad { quad, texture, data: QData::new() }
    }

    /// Two data quads are interchangeable when their dimensions and textures agree.
    pub open spec fn same_as(self, other: DataQuad) -> bool {
        self.quad == other.quad && self.texture == other.texture
    }

    /// `true` if the two quads have the same dimensions and texture.
    pub fn same(&self, other: &DataQuad) -> (r: bool)
        ensures
            r == self.same_as(*other),
    {
        self.quad == other.quad && self.texture == other.texture
    }
}

/// A corner of a quad:
/// ```text
/// 0---1
/// |   |
/// 2---3
/// ```
#[derive(Copy, Clone, Debug, PartialEq, Eq, Hash, Structural)]
pub enum QuadVertex {
    Zero,
    One,
    Two,
    Three,
}

impl QuadVertex {
    pub open spec fn spec_as_usize(self) -> usize {
        match self {
            QuadVertex::Zero => 0,
            QuadVertex::One => 1,
            QuadVertex::Two => 2,
            QuadVertex::Three => 3,
        }
    }

    /// The index of the vertex.
    pub fn as_usize(self) -> (r: usize)
        ensures
            r == self.spec_as_usize(),
            r < 4,
    {
        match self {
            QuadVertex::Zero => 0,
            QuadVertex::One => 1,
            QuadVertex::Two => 2,
            QuadVertex::Three => 3,
        }
    }

    /// The vertex with the given index, `None` if there is none.
    pub fn from_usize(v: usize) -> (r: Option<QuadVertex>)
        ensures
            r is Some <==> v < 4,
            r matches Some(q) ==> q.spec_as_usize() == v,
    {
        match v {
            0 => Some(QuadVertex::Zero),
            1 => Some(QuadVertex::One),
            2 => Some(QuadVertex::Two),
            3 => Some(QuadVertex::Three),
            _ => None,
        }
    }
}

/// Converting a vertex to its index and back gives the vertex.
pub proof fn lemma_quad_vertex_roundtrip(v: QuadVertex)
    ensures
        v.spec_as_usize() < 4,
        forall|w: QuadVertex| w.spec_as_usize() == v.spec_as_usize() ==> w == v,
{
}

/// The position of a quad on a face plane with its 3D orientation: the face it lies on and its
/// magnitude along that face's axis.
#[derive(Copy, Clone, Debug, PartialEq, Eq, Hash, Structural)]
pub struct QuadIsometry {
    pub face: Face,
    magnitude: i32,
    pos: IVec2,
}

impl QuadIsometry {
    pub closed spec fn spec_magnitude(self) -> i32 {
        self.magnitude
    }

    pub closed spec fn spec_face(self) -> Face {
        self.face
    }

    pub closed spec fn spec_pos(self) -> IVec2 {
        self.pos
    }

    /// An isometry is its face, magnitude and position: isometries that agree on all three are
    /// equal.
    pub proof fn lemma_same_parts(self, other: QuadIsometry)
        ensures
            self.spec_face() == other.spec_face() && self.spec_magnitude() == other.spec_magnitude() && self.spec_pos()
                == other.spec_pos() ==> self == other,
    {
    }

    pub fn new(pos: IVec2, magnitude: i32, face: Face) -> (r: QuadIsometry)
        ensures
            r.spec_face() == face,
            r.spec_magnitude() == magnitude,
            r.spec_pos() == pos,
    {
        QuadIsometry { face, magnitude, pos }
    }

    /// The position in 3D.
    pub fn pos_3d(self) -> (r: IVec3)
        ensures
            r == spec_project_to_3d(self.spec_pos(), self.spec_face(), self.spec_magnitude()),
    {
        ivec_project_to_3d(self.pos, self.face, self.magnitude)
    }

    /// The position on the face plane.
    pub fn pos_2d(self) -> (r: IVec2)
        ensures
            r == self.spec_pos(),
    {
        self.pos
    }

    /// The face the quad lies on.
    pub fn face(self) -> (r: Face)
        ensures
            r == self.spec_face(),
    {
        self.face
    }

    /// The magnitude along the face's axis.
    pub fn magnitude(self) -> (r: i32)
        ensures
            r == self.spec_magnitude(),
    {
        self.magnitude
    }
}

/// A data quad placed on a 2D face plane, with `pos` its minimum corner.
#[derive(Copy, Clone, Debug, PartialEq, Eq, Hash)]
pub struct PositionedQuad {
    pub pos: IVec2,
    pub dataquad: DataQuad,
}

/// The quad's cells fit in `i32` coordinates.
pub open spec fn positioned_quad_fits(pos: IVec2, quad: Quad) -> bool {
    &&& quad.wf()
    &&& quad.spec_x() <= i32::MAX
    &&& quad.spec_y() <= i32::MAX
    &&& pos.x + quad.spec_x() - 1 <= i32::MAX
    &&& pos.y + quad.spec_y() - 1 <= i32::MAX
}

impl PositionedQuad {
    pub open spec fn wf(self) -> bool {
        positioned_quad_fits(self.pos, self.dataquad.quad)
    }

    /// The maximum (inclusive) corner.
    pub open spec fn spec_max(self) -> IVec2 {
        IVec2 {
            x: (self.pos.x + self.dataquad.quad.spec_x() - 1) as i32,
            y: (self.pos.y + self.dataquad.quad.spec_y() - 1) as i32,
        }
    }

    /// `true` if the cell `p` is covered by the quad.
    pub open spec fn covers(self, p: IVec2) -> bool {
        self.pos.x <= p.x <= self.spec_max().x && self.pos.y <= p.y <= self.spec_max().y
    }

    pub fn new(pos: IVec2, dataquad: DataQuad) -> (r: PositionedQuad)
        ensures
            r.pos == pos,
            r.dataquad == dataquad,
    {
        PositionedQuad { pos, dataquad }
    }

    /// The minimum corner.
    pub fn min(&self) -> (r: IVec2)
        ensures
            r == self.pos,
    {
        self.pos
    }

    /// The maximum (inclusive) corner.
    pub fn max(&self) -> (r: IVec2)
        requires
            self.wf(),
        ensures
            r == self.spec_max(),
    {
        let dims = self.dataquad.quad.dims();
        ivec2(self.pos.x + (dims.x - 1), self.pos.y + (dims.y - 1))
    }

    /// Grow the quad's width by `by` (which must not be negative).
    pub fn widen(&mut self, by: i32) -> (r: Result<(), QuadError>)
        requires
            old(self).wf(),
            by >= 0,
            old(self).dataquad.quad.spec_x() + by <= i32::MAX,
            old(self).pos.x + old(self).dataquad.quad.spec_x() + by - 1 <= i32::MAX,
        ensures
            r is Ok,
            final(self).wf(),
            final(self).pos == old(self).pos,
            final(self).dataquad.texture == old(self).dataquad.texture,
            final(self).dataquad.quad.spec_x() == old(self).dataquad.quad.spec_x() + by,
            final(self).dataquad.quad.spec_y() == old(self).dataquad.quad.spec_y(),
            final(self).dataquad.data == old(self).dataquad.data,
    {
        match self.dataquad.quad.widened(by) {
            Ok(q) => {
                self.dataquad.quad = q;
                Ok(())
            },
            Err(e) => Err(e),
        }
    }

    /// Grow the quad's height by `by` (which must not be negative).
    pub fn heighten(&mut self, by: i32) -> (r: Result<(), QuadError>)
        requires
            old(self).wf(),
            by >= 0,
            old(self).dataquad.quad.spec_y() + by <= i32::MAX,
            old(self).pos.y + old(self).dataquad.quad.spec_y() + by - 1 <= i32::MAX,
        ensures
            r is Ok,
            final(self).wf(),
            final(self).pos == old(self).pos,
            final(self).dataquad.texture == old(self).dataquad.texture,
            final(self).dataquad.quad.spec_y() == old(self).dataquad.quad.spec_y() + by,
            final(self).dataquad.quad.spec_x() == old(self).dataquad.quad.spec_x(),
            final(self).dataquad.data == old(self).dataquad.data,
    {
        match self.dataquad.quad.heightened(by) {
            Ok(q) => {
                self.dataquad.quad = q;
                Ok(())
            },
            Err(e) => Err(e),
        }
    }

    /// The minimum corner.
    pub fn pos(&self) -> (r: IVec2)
        ensures
            r == self.pos,
    {
        self.pos
    }

    pub fn width(&self) -> (r: i32)
        requires
            self.wf(),
        ensures
            r == self.dataquad.quad.spec_x(),
    {
        self.dataquad.quad.x()
    }

    pub fn height(&self) -> (r: i32)
        requires
            self.wf(),
        ensures
            r == self.dataquad.quad.spec_y(),
    {
        self.dataquad.quad.y()
    }

    /// The position of a corner: `0` top left, `1` top right, `2` bottom left, `3` bottom right
    /// (y grows upwards).
    pub open spec fn spec_vertex_pos(self, vertex: QuadVertex) -> IVec2 {
        match vertex {
            QuadVertex::Zero => IVec2 { x: self.pos.x, y: self.spec_max().y },
            QuadVertex::One => self.spec_max(),
            QuadVertex::Two => self.pos,
            QuadVertex::Three => IVec2 { x: self.spec_max().x, y: self.pos.y },
        }
    }

    pub fn vertex_pos(&self, vertex: QuadVertex) -> (r: IVec2)
        requires
            self.wf(),
        ensures
            r == self.spec_vertex_pos(vertex),
    {
        let min = self.min();
        let max = self.max();
        match vertex {
            QuadVertex::Zero => ivec2(min.x, max.y),
            QuadVertex::One => max,
            QuadVertex::Two => min,
            QuadVertex::Three => ivec2(max.x, min.y),
        }
    }

    /// The position and data of a corner.
    pub fn get_vertex(&self, vertex: QuadVertex) -> (r: (IVec2, &QVertexData))
        requires
            self.wf(),
        ensures
            r.0 == self.spec_vertex_pos(vertex),
            *r.1 == self.dataquad.data.inner_spec()@[vertex.spec_as_usize() as int],
    {
        let pos = self.vertex_pos(vertex);
        let data = self.dataquad.data.get(vertex);
        (pos, data)
    }
}

impl PositionedQuad {
    /// The position of a corner and mutable access to its data.
    pub fn get_vertex_mut(&mut self, vertex: QuadVertex) -> (r: (IVec2, &mut QVertexData))
        requires
            old(self).wf(),
        ensures
            r.0 == old(self).spec_vertex_pos(vertex),
            *r.1 == old(self).dataquad.data.inner_spec()@[vertex.spec_as_usize() as int],
            final(self).pos == old(self).pos,
            final(self).dataquad.quad == old(self).dataquad.quad,
            final(self).dataquad.texture == old(self).dataquad.texture,
            final(self).dataquad.data.inner_spec()@ == old(self).dataquad.data.inner_spec()@.update(
                vertex.spec_as_usize() as int,
                *final(r.1),
            ),
    {
        let pos = self.vertex_pos(vertex);
        let data = self.dataquad.data.get_mut(vertex);
        (pos, data)
    }
}

/// A positioned quad with its 3D orientation.
#[derive(Copy, Clone, Debug, PartialEq, Eq, Hash)]
pub struct IsometrizedQuad {
    pub isometry: QuadIsometry,
    pub quad: PositionedQuad,
}

impl IsometrizedQuad {
    pub fn new(isometry: QuadIsometry, quad: PositionedQuad) -> (r: IsometrizedQuad)
        ensures
            r.isometry == isometry,
            r.quad == quad,
    {
        IsometrizedQuad { isometry, quad }
    }

    /// The 3D position of a corner.
    pub fn vertex_position_3d(&self, vertex: QuadVertex) -> (r: IVec3)
        requires
            self.quad.wf(),
        ensures
            r == spec_project_to_3d(self.quad.spec_vertex_pos(vertex), self.isometry.spec_face(), self.isometry.spec_magnitude()),
    {
        let pos_2d = self.quad.vertex_pos(vertex);
        ivec_project_to_3d(pos_2d, self.isometry.face, self.isometry.magnitude())
    }

    pub fn min_2d(&self) -> (r: IVec2)
        ensures
            r == self.quad.pos,
    {
        self.quad.min()
    }

    pub fn max_2d(&self) -> (r: IVec2)
        requires
            self.quad.wf(),
        ensures
            r == self.quad.spec_max(),
    {
        self.quad.max()
    }

    pub fn min(&self) -> (r: IVec3)
        ensures
            r == spec_project_to_3d(self.quad.pos, self.isometry.spec_face(), self.isometry.spec_magnitude()),
    {
        ivec_project_to_3d(self.quad.min(), self.isometry.face, self.isometry.magnitude())
    }

    pub fn max(&self) -> (r: IVec3)
        requires
            self.quad.wf(),
        ensures
            r == spec_project_to_3d(self.quad.spec_max(), self.isometry.spec_face(), self.isometry.spec_magnitude()),
    {
        ivec_project_to_3d(self.quad.max(), self.isometry.face, self.isometry.magnitude())
    }

    /// The per-vertex data.
    pub fn data(&self) -> (r: &[QVertexData; 4])
        ensures
            *r == self.quad.dataquad.data.inner_spec(),
    {
        self.quad.dataquad.data.inner()
    }

    /// The two triangles of the quad, as vertex indices, wound so that they face outwards.
    pub open spec fn spec_topology(face: Face) -> Seq<usize> {
        match face {
            Face::Bottom | Face::East | Face::North => seq![0usize, 2, 1, 1, 2, 3],
            _ => seq![0usize, 1, 2, 1, 3, 2],
        }
    }

    pub fn topology(&self) -> (r: [QuadVertex; 6])
        ensures
            forall|i: int| 0 <= i < 6 ==> (#[trigger] r@[i]).spec_as_usize() == Self::spec_topology(self.isometry.spec_face())[i],
            self.quad.wf() ==> forall|t: int|
                0 <= t < 2 ==> #[trigger] triangle_cross(
                    corner_3d(*self, r@[3 * t].spec_as_usize() as int),
                    corner_3d(*self, r@[3 * t + 1].spec_as_usize() as int),
                    corner_3d(*self, r@[3 * t + 2].spec_as_usize() as int),
                ) == scaled_normal(self.isometry.spec_face(), outward_sign(self.isometry.spec_face()) * quad_span(*self)),
    {
        let r = match self.isometry.face {
            Face::Bottom | Face::East | Face::North => [
                QuadVertex::Zero,
                QuadVertex::Two,
                QuadVertex::One,
                QuadVertex::One,
                QuadVertex::Two,
                QuadVertex::Three,
            ],
            _ => [
                QuadVertex::Zero,
                QuadVertex::One,
                QuadVertex::Two,
                QuadVertex::One,
                QuadVertex::Three,
                QuadVertex::Two,
            ],
        };
        proof {
            if self.quad.wf() {
                lemma_topology_winding(*self);
                let topo = Self::spec_topology(self.isometry.spec_face());
                assert forall|t: int| 0 <= t < 2 implies #[trigger] triangle_cross(
                    corner_3d(*self, r@[3 * t].spec_as_usize() as int),
                    corner_3d(*self, r@[3 * t + 1].spec_as_usize() as int),
                    corner_3d(*self, r@[3 * t + 2].spec_as_usize() as int),
                ) == scaled_normal(self.isometry.spec_face(), outward_sign(self.isometry.spec_face()) * quad_span(*self)) by {
                    assert(r@[3 * t].spec_as_usize() == topo[3 * t]);
                    assert(r@[3 * t + 1].spec_as_usize() == topo[3 * t + 1]);
                    assert(r@[3 * t + 2].spec_as_usize() == topo[3 * t + 2]);
                    assert(triangle_cross(
                        corner_3d(*self, topo[3 * t] as int),
                        corner_3d(*self, topo[3 * t + 1] as int),
                        corner_3d(*self, topo[3 * t + 2] as int),
                    ) == scaled_normal(self.isometry.spec_face(), outward_sign(self.isometry.spec_face()) * quad_span(*self)));
                }
            }
        }
        r
    }

    /// The 3D position and data of a corner.
    pub fn get_vertex(&self, vertex: QuadVertex) -> (r: (IVec3, &QVertexData))
        requires
            self.quad.wf(),
        ensures
            r.0 == spec_project_to_3d(self.quad.spec_vertex_pos(vertex), self.isometry.spec_face(), self.isometry.spec_magnitude()),
            *r.1 == self.quad.dataquad.data.inner_spec()@[vertex.spec_as_usize() as int],
    {
        (self.vertex_position_3d(vertex), self.quad.dataquad.data.get(vertex))
    }
}

/// The corner of `q` with index `i` in 3D: `0` top left, `1` top right, `2` bottom left,
/// `3` bottom right, placed by the quad's isometry.
pub open spec fn corner_3d(q: IsometrizedQuad, i: int) -> IVec3 {
    let v = if i == 0 {
        QuadVertex::Zero
    } else if i == 1 {
        QuadVertex::One
    } else if i == 2 {
        QuadVertex::Two
    } else {
        QuadVertex::Three
    };
    spec_project_to_3d(q.quad.spec_vertex_pos(v), q.isometry.spec_face(), q.isometry.spec_magnitude())
}

/// The cross product `(b - a) x (c - a)`: by the right-hand rule, the side the triangle
/// `a, b, c` faces when its corners are taken counterclockwise.
pub open spec fn triangle_cross(a: IVec3, b: IVec3, c: IVec3) -> (int, int, int) {
    let ux = b.x - a.x;
    let uy = b.y - a.y;
    let uz = b.z - a.z;
    let vx = c.x - a.x;
    let vy = c.y - a.y;
    let vz = c.z - a.z;
    (uy * vz - uz * vy, uz * vx - ux * vz, ux * vy - uy * vx)
}

/// The normal of `face` scaled by `k`.
pub open spec fn scaled_normal(face: Face, k: int) -> (int, int, int) {
    let n = face.spec_normal();
    (n.x * k, n.y * k, n.z * k)
}

/// The doubled area of a triangle of the quad: the product of the distances between its
/// corner columns and between its corner rows.
pub open spec fn quad_span(q: IsometrizedQuad) -> int {
    (q.quad.dataquad.quad.spec_x() - 1) * (q.quad.dataquad.quad.spec_y() - 1)
}

/// `1` where the triangles of a face's topology face out along the face's normal, `-1` where
/// they face in: the isometric projection of the faces across the x axis puts a quad's x on z
/// and its y on y, which turns the quad over.
pub open spec fn outward_sign(face: Face) -> int {
    match face {
        Face::North | Face::South => -1,
        _ => 1,
    }
}

/// The winding of the two triangles of a quad's topology: each triangle's cross product points
/// along the normal of the quad's face (against it for the faces across the x axis, whose
/// projection turns quads over), with a length of the quad's span. So the triangles of opposite
/// faces are wound opposite ways, and a top or bottom face, an east or west face, is seen from
/// outside.
pub proof fn lemma_topology_winding(q: IsometrizedQuad)
    requires
        q.quad.wf(),
    ensures
        forall|t: int|
            0 <= t < 2 ==> #[trigger] triangle_cross(
                corner_3d(q, IsometrizedQuad::spec_topology(q.isometry.spec_face())[3 * t] as int),
                corner_3d(q, IsometrizedQuad::spec_topology(q.isometry.spec_face())[3 * t + 1] as int),
                corner_3d(q, IsometrizedQuad::spec_topology(q.isometry.spec_face())[3 * t + 2] as int),
            ) == scaled_normal(q.isometry.spec_face(), outward_sign(q.isometry.spec_face()) * quad_span(q)),
{
    let w: int = q.quad.dataquad.quad.spec_x() - 1;
    let h: int = q.quad.dataquad.quad.spec_y() - 1;
    let face = q.isometry.spec_face();
    let m = q.isometry.spec_magnitude();
    let x0 = q.quad.pos.x;
    let y0 = q.quad.pos.y;
    let x1 = q.quad.spec_max().x;
    let y1 = q.quad.spec_max().y;
    assert(x1 == x0 + w && y1 == y0 + h);
    let topo = IsometrizedQuad::spec_topology(face);
    assert(quad_span(q) == w * h);
    assert((-1) * (w * h) == -(w * h) && 1 * (w * h) == w * h && 0 * (w * h) == 0) by (nonlinear_arith);
    assert((-w) * h == -(w * h) && w * (-h) == -(w * h) && (-h) * w == -(w * h) && h * w == w * h
        && (-w) * (-h) == w * h && (-h) * (-w) == w * h) by (nonlinear_arith);
    assert((x1 - x0) * (y1 - y0) == w * h && (x1 - x0) * (y0 - y1) == -(w * h) && (x0 - x1) * (y1 - y0) == -(w * h)
        && (x0 - x1) * (y0 - y1) == w * h && (y1 - y0) * (x1 - x0) == w * h && (y0 - y1) * (x1 - x0) == -(w * h)
        && (y1 - y0) * (x0 - x1) == -(w * h) && (y0 - y1) * (x0 - x1) == w * h) by (nonlinear_arith)
        requires
            x1 == x0 + w,
            y1 == y0 + h,
    ;
    let c0 = corner_3d(q, 0);
    let c1 = corner_3d(q, 1);
    let c2 = corner_3d(q, 2);
    let c3 = corner_3d(q, 3);
    assert(q.quad.spec_vertex_pos(QuadVertex::Zero) == IVec2 { x: x0, y: y1 });
    assert(q.quad.spec_vertex_pos(QuadVertex::Three) == IVec2 { x: x1, y: y0 });
    assert(topo.len() == 6);
    let t0 = triangle_cross(corner_3d(q, topo[0] as int), corner_3d(q, topo[1] as int), corner_3d(q, topo[2] as int));
    let t1 = triangle_cross(corner_3d(q, topo[3] as int), corner_3d(q, topo[4] as int), corner_3d(q, topo[5] as int));
    let want = scaled_normal(face, outward_sign(face) * quad_span(q));
    match face {
        Face::Top => {
            assert(c0 == (IVec3 { x: x0, y: m, z: y1 }));
            assert(c1 == (IVec3 { x: x1, y: m, z: y1 }));
            assert(c2 == (IVec3 { x: x0, y: m, z: y0 }));
            assert(c3 == (IVec3 { x: x1, y: m, z: y0 }));
            assert(want == (0int, w * h, 0int));
            assert(t0 == triangle_cross(c0, c1, c2));
            assert(triangle_cross(c0, c1, c2) == (0int, w * h, 0int)) by (nonlinear_arith)
                requires
                    c0 == (IVec3 { x: x0, y: m, z: y1 }),
                    c1 == (IVec3 { x: x1, y: m, z: y1 }),
                    c2 == (IVec3 { x: x0, y: m, z: y0 }),
                    x1 == x0 + w,
                    y1 == y0 + h,
            ;
            assert(t1 == triangle_cross(c1, c3, c2));
            assert(triangle_cross(c1, c3, c2) == (0int, w * h, 0int)) by (nonlinear_arith)
                requires
                    c1 == (IVec3 { x: x1, y: m, z: y1 }),
                    c3 == (IVec3 { x: x1, y: m, z: y0 }),
                    c2 == (IVec3 { x: x0, y: m, z: y0 }),
                    x1 == x0 + w,
                    y1 == y0 + h,
            ;
        },
        Face::Bottom => {
            assert(c0 == (IVec3 { x: x0, y: m, z: y1 }));
            assert(c1 == (IVec3 { x: x1, y: m, z: y1 }));
            assert(c2 == (IVec3 { x: x0, y: m, z: y0 }));
            assert(c3 == (IVec3 { x: x1, y: m, z: y0 }));
            assert(want == (0int, -(w * h), 0int));
            assert(t0 == triangle_cross(c0, c2, c1));
            assert(triangle_cross(c0, c2, c1) == (0int, -(w * h), 0int)) by (nonlinear_arith)
                requires
                    c0 == (IVec3 { x: x0, y: m, z: y1 }),
                    c2 == (IVec3 { x: x0, y: m, z: y0 }),
                    c1 == (IVec3 { x: x1, y: m, z: y1 }),
                    x1 == x0 + w,
                    y1 == y0 + h,
            ;
            assert(t1 == triangle_cross(c1, c2, c3));
            assert(triangle_cross(c1, c2, c3) == (0int, -(w * h), 0int)) by (nonlinear_arith)
                requires
                    c1 == (IVec3 { x: x1, y: m, z: y1 }),
                    c2 == (IVec3 { x: x0, y: m, z: y0 }),
                    c3 == (IVec3 { x: x1, y: m, z: y0 }),
                    x1 == x0 + w,
                    y1 == y0 + h,
            ;
        },
        Face::North => {
            assert(c0 == (IVec3 { x: m, y: y1, z: x0 }));
            assert(c1 == (IVec3 { x: m, y: y1, z: x1 }));
            assert(c2 == (IVec3 { x: m, y: y0, z: x0 }));
            assert(c3 == (IVec3 { x: m, y: y0, z: x1 }));
            assert(outward_sign(face) * quad_span(q) == -(w * h));
            assert(face.spec_normal() == (IVec3 { x: 1, y: 0, z: 0 }));
            assert(1 * (-(w * h)) == -(w * h) && 0 * (-(w * h)) == 0) by (nonlinear_arith);
            assert(want == (-(w * h), 0int, 0int));
            assert(t0 == triangle_cross(c0, c2, c1));
            assert(triangle_cross(c0, c2, c1) == (-(w * h), 0int, 0int)) by (nonlinear_arith)
                requires
                    c0 == (IVec3 { x: m, y: y1, z: x0 }),
                    c2 == (IVec3 { x: m, y: y0, z: x0 }),
                    c1 == (IVec3 { x: m, y: y1, z: x1 }),
                    x1 == x0 + w,
                    y1 == y0 + h,
            ;
            assert(t1 == triangle_cross(c1, c2, c3));
            assert(triangle_cross(c1, c2, c3) == (-(w * h), 0int, 0int)) by (nonlinear_arith)
                requires
                    c1 == (IVec3 { x: m, y: y1, z: x1 }),
                    c2 == (IVec3 { x: m, y: y0, z: x0 }),
                    c3 == (IVec3 { x: m, y: y0, z: x1 }),
                    x1 == x0 + w,
                    y1 == y0 + h,
            ;
        },
        Face::South => {
            assert(c0 == (IVec3 { x: m, y: y1, z: x0 }));
            assert(c1 == (IVec3 { x: m, y: y1, z: x1 }));
            assert(c2 == (IVec3 { x: m, y: y0, z: x0 }));
            assert(c3 == (IVec3 { x: m, y: y0, z: x1 }));
            assert(outward_sign(face) * quad_span(q) == -(w * h));
            assert(face.spec_normal().x * (-(w * h)) == w * h);
            assert(want == (w * h, 0int, 0int));
            assert(t0 == triangle_cross(c0, c1, c2));
            assert(triangle_cross(c0, c1, c2) == (w * h, 0int, 0int)) by (nonlinear_arith)
                requires
                    c0 == (IVec3 { x: m, y: y1, z: x0 }),
                    c1 == (IVec3 { x: m, y: y1, z: x1 }),
                    c2 == (IVec3 { x: m, y: y0, z: x0 }),
                    x1 == x0 + w,
                    y1 == y0 + h,
            ;
            assert(t1 == triangle_cross(c1, c3, c2));
            assert(triangle_cross(c1, c3, c2) == (w * h, 0int, 0int)) by (nonlinear_arith)
                requires
                    c1 == (IVec3 { x: m, y: y1, z: x1 }),
                    c3 == (IVec3 { x: m, y: y0, z: x1 }),
                    c2 == (IVec3 { x: m, y: y0, z: x0 }),
                    x1 == x0 + w,
                    y1 == y0 + h,
            ;
        },
        Face::East => {
            assert(c0 == (IVec3 { x: x0, y: y1, z: m }));
            assert(c1 == (IVec3 { x: x1, y: y1, z: m }));
            assert(c2 == (IVec3 { x: x0, y: y0, z: m }));
            assert(c3 == (IVec3 { x: x1, y: y0, z: m }));
            assert(want == (0int, 0int, w * h));
            assert(t0 == triangle_cross(c0, c2, c1));
            assert(triangle_cross(c0, c2, c1) == (0int, 0int, w * h)) by (nonlinear_arith)
                requires
                    c0 == (IVec3 { x: x0, y: y1, z: m }),
                    c2 == (IVec3 { x: x0, y: y0, z: m }),
                    c1 == (IVec3 { x: x1, y: y1, z: m }),
                    x1 == x0 + w,
                    y1 == y0 + h,
            ;
            assert(t1 == triangle_cross(c1, c2, c3));
            assert(triangle_cross(c1, c2, c3) == (0int, 0int, w * h)) by (nonlinear_arith)
                requires
                    c1 == (IVec3 { x: x1, y: y1, z: m }),
                    c2 == (IVec3 { x: x0, y: y0, z: m }),
                    c3 == (IVec3 { x: x1, y: y0, z: m }),
                    x1 == x0 + w,
                    y1 == y0 + h,
            ;
        },
        Face::West => {
            assert(c0 == (IVec3 { x: x0, y: y1, z: m }));
            assert(c1 == (IVec3 { x: x1, y: y1, z: m }));
            assert(c2 == (IVec3 { x: x0, y: y0, z: m }));
            assert(c3 == (IVec3 { x: x1, y: y0, z: m }));
            assert(want == (0int, 0int, -(w * h)));
            assert(t0 == triangle_cross(c0, c1, c2));
            assert(triangle_cross(c0, c1, c2) == (0int, 0int, -(w * h))) by (nonlinear_arith)
                requires
                    c0 == (IVec3 { x: x0, y: y1, z: m }),
                    c1 == (IVec3 { x: x1, y: y1, z: m }),
                    c2 == (IVec3 { x: x0, y: y0, z: m }),
                    x1 == x0 + w,
                    y1 == y0 + h,
            ;
            assert(t1 == triangle_cross(c1, c3, c2));
            assert(triangle_cross(c1, c3, c2) == (0int, 0int, -(w * h))) by (nonlinear_arith)
                requires
                    c1 == (IVec3 { x: x1, y: y1, z: m }),
                    c3 == (IVec3 { x: x1, y: y0, z: m }),
                    c2 == (IVec3 { x: x0, y: y0, z: m }),
                    x1 == x0 + w,
                    y1 == y0 + h,
            ;
        },
    }
    assert forall|t: int| 0 <= t < 2 implies #[trigger] triangle_cross(
        corner_3d(q, topo[3 * t] as int),
        corner_3d(q, topo[3 * t + 1] as int),
        corner_3d(q, topo[3 * t + 2] as int),
    ) == want by {
        if t == 0 {
            assert(3 * t == 0 && 3 * t + 1 == 1 && 3 * t + 2 == 2);
        } else {
            assert(3 * t == 3 && 3 * t + 1 == 4 && 3 * t + 2 == 5);
        }
    }
}

} // verus!
