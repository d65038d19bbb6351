//! Data packed for the GPU: quad bitfields, packed voxel face vertices and WGSL layout helpers.
use vstd::prelude::*;
use crate::math::{IVec3, UVec2};
use crate::face::{Face, lemma_face_index_roundtrip};
use crate::quad::FaceTextureRotation;

verus! {

/// `⌈n ÷ k⌉`, for positive `k`.
pub open spec fn spec_div_ceil(n: int, k: int) -> int {
    if n % k == 0 {
        n / k
    } else {
        n / k + 1
    }
}

/// Corresponds to WGSL's `roundUp` function, defined for positive integers `k` and `n` as
/// `roundUp(k, n) = ⌈n ÷ k⌉ × k`: the smallest multiple of `k` that is at least `n`.
pub fn round_up(k: u64, n: u64) -> (r: u64)
    requires
        k > 0,
        spec_div_ceil(n as int, k as int) * k <= u64::MAX,
    ensures
        r == spec_div_ceil(n as int, k as int) * k,
        r >= n,
        r < n + k,
        r % k == 0,
{
    let q = n / k;
    proof {
        let c = spec_div_ceil(n as int, k as int);
        assert(c <= c * k) by (nonlinear_arith)
            requires k >= 1, c >= 0;
    }
    let q = if n % k != 0 {
        q + 1
    } else {
        q
    };
    proof {
        let ni = n as int;
        let ki = k as int;
        assert(ni == ki * (ni / ki) + ni % ki && 0 <= ni % ki < ki) by (nonlinear_arith)
            requires ki > 0;
        assert((ki * (ni / ki)) % ki == 0 && ((ni / ki + 1) * ki) % ki == 0) by (nonlinear_arith)
            requires ki > 0, ni / ki >= 0;
        assert((ni / ki + 1) * ki == ki * (ni / ki) + ki) by (nonlinear_arith);
        assert(ki * (ni / ki) == (ni / ki) * ki) by (nonlinear_arith);
    }
    q * k
}

/// The bitfield word of a quad sent to the GPU: texture rotation in bits `0..2`, face in bits
/// `2..5`, and the two texture flip flags in bits 5 and 6.
#[derive(Copy, Clone, Debug, PartialEq, Eq, Structural)]
pub struct GpuQuadBitfields {
    value: u32,
}

/// The face index stored in a bitfield word.
pub open spec fn face_bits(value: u32) -> u32 {
    (value & 0b11100u32) >> 2u32
}

impl GpuQuadBitfields {
    pub const ROTATION_MASK: u32 = 0b11;
    pub const ROTATION_SHIFT: u32 = 0;
    pub const FACE_MASK: u32 = 0b11100;
    pub const FACE_SHIFT: u32 = 2;
    pub const FLIP_UV_X_BIT: u32 = 5;
    pub const FLIP_UV_Y_BIT: u32 = 6;

    /// The raw word.
    pub closed spec fn spec_value(self) -> u32 {
        self.value
    }

    /// All bits clear.
    pub fn new() -> (r: GpuQuadBitfields)
        ensures
            r.spec_value() == 0,
    {
        GpuQuadBitfields { value: 0 }
    }

    /// The raw word.
    pub fn value(self) -> (r: u32)
        ensures
            r == self.spec_value(),
    {
        self.value
    }

    /// The face stored in the face bits, which must hold a face index.
    pub fn get_face(self) -> (r: Face)
        requires
            face_bits(self.spec_value()) < 6,
        ensures
            r.spec_as_usize() == face_bits(self.spec_value()),
    {
        let raw = (self.value & Self::FACE_MASK) >> Self::FACE_SHIFT;
        match Face::from_u32(raw) {
            Some(f) => {
                proof {
                    lemma_face_index_roundtrip(Face::spec_from_usize(raw as int));
                }
                f
            },
            None => Face::Top,
        }
    }

    /// Set the rotation bits (or-ing them in).
    pub fn with_rotation(self, rotation: FaceTextureRotation) -> (r: GpuQuadBitfields)
        ensures
            r.spec_value() == self.spec_value() | ((rotation.spec_inner() as u32) << 0u32),
    {
        GpuQuadBitfields { value: self.value | ((rotation.inner() as u32) << Self::ROTATION_SHIFT) }
    }

    /// Set the face bits (or-ing them in).
    pub fn with_face(self, face: Face) -> (r: GpuQuadBitfields)
        ensures
            r.spec_value() == self.spec_value() | ((face.spec_as_usize() as u32) << 2u32),
    {
        GpuQuadBitfields { value: self.value | (face.as_u32() << Self::FACE_SHIFT) }
    }

    /// Set the texture's x flip bit if `flip`.
    pub fn with_flip_x(self, flip: bool) -> (r: GpuQuadBitfields)
        ensures
            r.spec_value() == (if flip {
                self.spec_value() | (1u32 << 5u32)
            } else {
                self.spec_value()
            }),
    {
        if flip {
            GpuQuadBitfields { value: self.value | (0b1 << Self::FLIP_UV_X_BIT) }
        } else {
            self
        }
    }

    /// Set the texture's y flip bit if `flip`.
    pub fn with_flip_y(self, flip: bool) -> (r: GpuQuadBitfields)
        ensures
            r.spec_value() == (if flip {
                self.spec_value() | (1u32 << 6u32)
            } else {
                self.spec_value()
            }),
    {
        if flip {
            GpuQuadBitfields { value: self.value | (0b1 << Self::FLIP_UV_Y_BIT) }
        } else {
            self
        }
    }
}

/// Writing a face into a word with clear face bits, then setting a rotation (in `0..4`) and
/// flip bits, leaves that face readable from the face bits.
pub proof fn lemma_face_bits_roundtrip(value: u32, face: Face, rotation: u32, flip_x: bool, flip_y: bool)
    requires
        value & 0b11100u32 == 0,
        rotation < 4,
    ensures
        ({
            let with_face = value | ((face.spec_as_usize() as u32) << 2u32);
            let with_rot = with_face | (rotation << 0u32);
            let with_x = if flip_x { with_rot | (1u32 << 5u32) } else { with_rot };
            let with_y = if flip_y { with_x | (1u32 << 6u32) } else { with_x };
            face_bits(with_face) == face.spec_as_usize() && face_bits(with_rot) == face.spec_as_usize()
                && face_bits(with_x) == face.spec_as_usize() && face_bits(with_y) == face.spec_as_usize()
        }),
{
    let i = face.spec_as_usize() as u32;
    assert(i < 6);
    let with_face = value | (i << 2u32);
    let with_rot = with_face | (rotation << 0u32);
    assert(value & 0b11100u32 == 0 && i < 8 ==> (with_face & 0b11100u32) >> 2u32 == i) by (bit_vector)
        requires with_face == value | (i << 2u32);
    assert(rotation < 4 ==> (with_rot & 0b11100u32) >> 2u32 == (with_face & 0b11100u32) >> 2u32) by (bit_vector)
        requires with_rot == with_face | (rotation << 0u32);
    let with_x = if flip_x { with_rot | (1u32 << 5u32) } else { with_rot };
    let with_y = if flip_y { with_x | (1u32 << 6u32) } else { with_x };
    assert(((with_rot | (1u32 << 5u32)) & 0b11100u32) >> 2u32 == (with_rot & 0b11100u32) >> 2u32) by (bit_vector);
    assert(((with_x | (1u32 << 6u32)) & 0b11100u32) >> 2u32 == (with_x & 0b11100u32) >> 2u32) by (bit_vector);
}

/// Error from packing a voxel face vertex.
#[derive(Copy, Clone, Debug, PartialEq, Eq, Structural)]
pub enum VfvdError {
    /// Voxel X out of bounds.
    VxlXOob,
    /// Voxel Y out of bounds.
    VxlYOob,
    /// Voxel Z out of bounds.
    VxlZOob,
    /// Tex atlas X out of bounds.
    TexAtlasXOob,
    /// Tex atlas Y out of bounds.
    TexAtlasYOob,
    /// Invalid corner ID.
    InvalidCornerId,
}

impl VfvdError {
    /// A description of the error.
    pub fn message(&self) -> (r: &'static str)
        ensures
            r@ == (match *self {
                VfvdError::VxlXOob => "Voxel X out of bounds"@,
                VfvdError::VxlYOob => "Voxel Y out of bounds"@,
                VfvdError::VxlZOob => "Voxel Z out of bounds"@,
                VfvdError::TexAtlasXOob => "Tex atlas X out of bounds"@,
                VfvdError::TexAtlasYOob => "Tex atlas Y out of bounds"@,
                VfvdError::InvalidCornerId => "Invalid corner ID"@,
            }),
    {
        match self {
            VfvdError::VxlXOob => "Voxel X out of bounds",
            VfvdError::VxlYOob => "Voxel Y out of bounds",
            VfvdError::VxlZOob => "Voxel Z out of bounds",
            VfvdError::TexAtlasXOob => "Tex atlas X out of bounds",
            VfvdError::TexAtlasYOob => "Tex atlas Y out of bounds",
            VfvdError::InvalidCornerId => "Invalid corner ID",
        }
    }
}

/// Bit offsets of the fields of a packed voxel face vertex:
/// `000[face:3][x:4][y:4][z:4][tex x:6][tex y:6][corner:2]`.
pub const FACE_RSHIFT: u32 = 26;
pub const VXL_X_RSHIFT: u32 = 22;
pub const VXL_Y_RSHIFT: u32 = 18;
pub const VXL_Z_RSHIFT: u32 = 14;
pub const TEX_ATLAS_X_RSHIFT: u32 = 8;
pub const TEX_ATLAS_Y_RSHIFT: u32 = 2;
pub const CORNER_RSHIFT: u32 = 0;

/// A corner of a voxel face, to be compressed into one `u32` of the vertex buffer.
#[derive(Copy, Clone, Debug, PartialEq, Eq, Structural)]
pub struct VoxelFaceVertexData {
    pub face: Face,
    pub vxl_pos: IVec3,
    pub texture_pos: UVec2,
    pub corner: u32,
}

/// The error of checking a voxel position, if any: negative components first (x, y, z), then
/// components of 16 or more, which do not fit the 4 bits of their field.
pub open spec fn voxel_pos_error(p: IVec3) -> Option<VfvdError> {
    if p.x < 0 {
        Some(VfvdError::VxlXOob)
    } else if p.y < 0 {
        Some(VfvdError::VxlYOob)
    } else if p.z < 0 {
        Some(VfvdError::VxlZOob)
    } else if p.x >= 16 {
        Some(VfvdError::VxlXOob)
    } else if p.y >= 16 {
        Some(VfvdError::VxlYOob)
    } else if p.z >= 16 {
        Some(VfvdError::VxlZOob)
    } else {
        None
    }
}

/// The error of checking a texture atlas position, if any: components of 64 or more do not fit
/// the 6 bits of their field.
pub open spec fn texture_pos_error(t: UVec2) -> Option<VfvdError> {
    if t.x >= 64 {
        Some(VfvdError::TexAtlasXOob)
    } else if t.y >= 64 {
        Some(VfvdError::TexAtlasYOob)
    } else {
        None
    }
}

/// The packed word of a vertex whose fields passed their checks.
pub open spec fn spec_pack(v: VoxelFaceVertexData) -> u32 {
    ((v.face.spec_as_usize() as u32) << 26u32) | ((v.vxl_pos.x as u32) << 22u32) | ((v.vxl_pos.y as u32) << 18u32) | ((
    v.vxl_pos.z as u32) << 14u32) | (v.texture_pos.x << 8u32) | (v.texture_pos.y << 2u32) | (v.corner << 0u32)
}

impl VoxelFaceVertexData {
    /// The voxel position as unsigned components; each must lie in `0..16`, the range of its
    /// 4-bit field.
    pub fn voxel_pos(&self) -> (r: Result<[u32; 3], VfvdError>)
        ensures
            voxel_pos_error(self.vxl_pos) is Some ==> r == Err::<[u32; 3], VfvdError>(voxel_pos_error(self.vxl_pos)->0),
            voxel_pos_error(self.vxl_pos) is None ==> (r matches Ok(a) && a@ == seq![
                self.vxl_pos.x as u32,
                self.vxl_pos.y as u32,
                self.vxl_pos.z as u32,
            ]),
    {
        if self.vxl_pos.x < 0 {
            return Err(VfvdError::VxlXOob);
        }
        if self.vxl_pos.y < 0 {
            return Err(VfvdError::VxlYOob);
        }
        if self.vxl_pos.z < 0 {
            return Err(VfvdError::VxlZOob);
        }
        let x = self.vxl_pos.x as u32;
        let y = self.vxl_pos.y as u32;
        let z = self.vxl_pos.z as u32;
        let max: u32 = 16;
        if x >= max {
            return Err(VfvdError::VxlXOob);
        }
        if y >= max {
            return Err(VfvdError::VxlYOob);
        }
        if z >= max {
            return Err(VfvdError::VxlZOob);
        }
        let r = [x, y, z];
        assert(r@ =~= seq![x, y, z]);
        Ok(r)
    }

    /// The texture atlas position; each component must lie in `0..64`, the range of its 6-bit
    /// field.
    pub fn texture_pos(&self) -> (r: Result<[u32; 2], VfvdError>)
        ensures
            texture_pos_error(self.texture_pos) is Some ==> r == Err::<[u32; 2], VfvdError>(texture_pos_error(self.texture_pos)->0),
            texture_pos_error(self.texture_pos) is None ==> (r matches Ok(a) && a@ == seq![self.texture_pos.x, self.texture_pos.y]),
    {
        let max: u32 = 64;
        let x = self.texture_pos.x;
        let y = self.texture_pos.y;
        if x >= max {
            return Err(VfvdError::TexAtlasXOob);
        }
        if y >= max {
            return Err(VfvdError::TexAtlasYOob);
        }
        let r = [x, y];
        assert(r@ =~= seq![x, y]);
        Ok(r)
    }

    /// The corner id; must lie in `0..4`, the range of its 2-bit field.
    pub fn corner(&self) -> (r: Result<u32, VfvdError>)
        ensures
            self.corner >= 4 ==> r == Err::<u32, VfvdError>(VfvdError::InvalidCornerId),
            self.corner < 4 ==> r == Ok::<u32, VfvdError>(self.corner),
    {
        if self.corner >= 4 {
            return Err(VfvdError::InvalidCornerId);
        }
        Ok(self.corner)
    }

    /// Compress the vertex into one `u32`: the first failing check of the voxel position, the
    /// texture position and the corner, in that order, gives the error.
    pub fn pack(self) -> (r: Result<u32, VfvdError>)
        ensures
            voxel_pos_error(self.vxl_pos) is Some ==> r == Err::<u32, VfvdError>(voxel_pos_error(self.vxl_pos)->0),
            voxel_pos_error(self.vxl_pos) is None && texture_pos_error(self.texture_pos) is Some ==> r == Err::<
                u32,
                VfvdError,
            >(texture_pos_error(self.texture_pos)->0),
            voxel_pos_error(self.vxl_pos) is None && texture_pos_error(self.texture_pos) is None && self.corner >= 4
                ==> r == Err::<u32, VfvdError>(VfvdError::InvalidCornerId),
            voxel_pos_error(self.vxl_pos) is None && texture_pos_error(self.texture_pos) is None && self.corner < 4
                ==> r == Ok::<u32, VfvdError>(spec_pack(self)),
    {
        let mut out: u32 = 0;
        out = out | (self.face.as_u32() << FACE_RSHIFT);
        let xyz = match self.voxel_pos() {
            Ok(a) => a,
            Err(e) => return Err(e),
        };
        out = out | (xyz[0] << VXL_X_RSHIFT);
        out = out | (xyz[1] << VXL_Y_RSHIFT);
        out = out | (xyz[2] << VXL_Z_RSHIFT);
        let txy = match self.texture_pos() {
            Ok(a) => a,
            Err(e) => return Err(e),
        };
        out = out | (txy[0] << TEX_ATLAS_X_RSHIFT);
        out = out | (txy[1] << TEX_ATLAS_Y_RSHIFT);
        let corner = match self.corner() {
            Ok(c) => c,
            Err(e) => return Err(e),
        };
        out = out | (corner << CORNER_RSHIFT);
        proof {
            let f = self.face.spec_as_usize() as u32;
            assert((0u32 | (f << 26u32)) == (f << 26u32)) by (bit_vector);
        }
        Ok(out)
    }
}

} // verus!
