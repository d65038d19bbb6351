//! Per-block occlusion data of a chunk and its one-block border, as sent to the GPU.
use vstd::prelude::*;
use crate::math::IVec3;
use crate::face::{Face, FaceSet};
use crate::storage::OutOfBounds;

verus! {

/// The faces of a block that are occluded, one bit per face index (`0` when none is).
#[derive(Copy, Clone, Debug, PartialEq, Eq, Hash, Default, Structural)]
pub struct BlockOcclusion(u8);

/// Mask of the six face bits of a [`BlockOcclusion`].
pub const OCCLUSION_MASK: u8 = 0b00111111;

impl BlockOcclusion {
    /// The raw byte.
    pub closed spec fn spec_byte(self) -> u8 {
        self.0
    }

    /// Only the six face bits may be set.
    pub open spec fn wf(self) -> bool {
        self.spec_byte() < 64
    }

    /// `true` if the bit of `face` is set.
    pub open spec fn spec_has_face(self, face: Face) -> bool {
        FaceSet(self.spec_byte()).spec_contains(face)
    }

    /// Occlusion with exactly the bits of the given faces set.
    pub fn new(faces: &[Face]) -> (r: BlockOcclusion)
        ensures
            r.wf(),
            forall|f: Face| #[trigger] r.spec_has_face(f) <==> faces@.contains(f),
    {
        let mut value = FaceSet::empty();
        let mut i: usize = 0;
        while i < faces.len()
            invariant
                0 <= i <= faces@.len(),
                value.wf(),
                forall|f: Face| #[trigger] value.spec_contains(f) <==> faces@.subrange(0, i as int).contains(f),
            decreases faces@.len() - i,
        {
            let face = faces[i];
            let ghost before = value;
            value.insert(face);
            proof {
                assert forall|f: Face| #[trigger] value.spec_contains(f) <==> faces@.subrange(0, i + 1).contains(f) by {
                    broadcast use vstd::seq_lib::group_seq_properties;
                    assert(faces@.subrange(0, i + 1) =~= faces@.subrange(0, i as int).push(face));
                    assert(before.spec_contains(f) <==> faces@.subrange(0, i as int).contains(f));
                }
            }
            i = i + 1;
        }
        proof {
            assert(faces@.subrange(0, faces@.len() as int) =~= faces@);
        }
        BlockOcclusion(value.0)
    }

    /// No face is occluded.
    pub fn empty() -> (r: BlockOcclusion)
        ensures
            r.wf(),
            r.spec_byte() == 0,
            forall|f: Face| !#[trigger] r.spec_has_face(f),
    {
        let r = BlockOcclusion(0);
        proof {
            assert forall|f: Face| !#[trigger] r.spec_has_face(f) by {
                let b: u8 = 0;
                let s: u8 = f.spec_as_usize() as u8;
                assert(b == 0u8 ==> (b >> s) & 1u8 == 0u8) by (bit_vector);
            }
        }
        r
    }

    /// Every face is occluded.
    pub fn filled() -> (r: BlockOcclusion)
        ensures
            r.wf(),
            r.spec_byte() == OCCLUSION_MASK,
            forall|f: Face| #[trigger] r.spec_has_face(f),
    {
        let r = BlockOcclusion(OCCLUSION_MASK);
        proof {
            assert forall|f: Face| #[trigger] r.spec_has_face(f) by {
                let b: u8 = OCCLUSION_MASK;
                assert(b == 63u8 ==> (b >> 0u8) & 1u8 == 1u8 && (b >> 1u8) & 1u8 == 1u8 && (b >> 2u8) & 1u8 == 1u8
                    && (b >> 3u8) & 1u8 == 1u8 && (b >> 4u8) & 1u8 == 1u8 && (b >> 5u8) & 1u8 == 1u8) by (bit_vector);
            }
        }
        r
    }

    /// Tests the byte against the face's index used as a mask.
    pub fn is_occluded(&self, face: Face) -> (r: bool)
        ensures
            r == (self.spec_byte() & (face.spec_as_usize() as u8) != 0u8),
    {
        self.0 & (face.as_usize() as u8) != 0
    }

    /// The raw byte.
    pub fn as_byte(self) -> (r: u8)
        ensures
            r == self.spec_byte(),
    {
        self.0
    }

    /// Occlusion from a raw byte, keeping only the six face bits.
    pub fn from_byte(byte: u8) -> (r: BlockOcclusion)
        ensures
            r.wf(),
            r.spec_byte() == byte & OCCLUSION_MASK,
    {
        let masked = byte & OCCLUSION_MASK;
        assert(byte & 0b00111111u8 < 64) by (bit_vector);
        BlockOcclusion(masked)
    }
}

/// A well-formed occlusion survives a round trip through its byte.
pub proof fn lemma_occlusion_byte_roundtrip(o: BlockOcclusion)
    requires
        o.wf(),
    ensures
        o.spec_byte() & OCCLUSION_MASK == o.spec_byte(),
{
    let b = o.spec_byte();
    assert(b < 64 ==> b & 0b00111111u8 == b) by (bit_vector);
}

/// Two occlusions with the same byte are the same occlusion.
pub proof fn lemma_occlusion_eq_by_byte(a: BlockOcclusion, b: BlockOcclusion)
    requires
        a.spec_byte() == b.spec_byte(),
    ensures
        a == b,
{
}

/// Two well-formed occlusions that occlude the same faces are the same occlusion: so
/// [`BlockOcclusion::filled`] equals [`BlockOcclusion::new`] of all six faces, and
/// [`BlockOcclusion::empty`] equals it of none.
pub proof fn lemma_occlusion_eq_by_faces(a: BlockOcclusion, b: BlockOcclusion)
    requires
        a.wf(),
        b.wf(),
        forall|f: Face| #[trigger] a.spec_has_face(f) <==> b.spec_has_face(f),
    ensures
        a == b,
{
    let x = a.spec_byte();
    let y = b.spec_byte();
    assert(a.spec_has_face(Face::Top) <==> b.spec_has_face(Face::Top));
    assert(a.spec_has_face(Face::Bottom) <==> b.spec_has_face(Face::Bottom));
    assert(a.spec_has_face(Face::North) <==> b.spec_has_face(Face::North));
    assert(a.spec_has_face(Face::East) <==> b.spec_has_face(Face::East));
    assert(a.spec_has_face(Face::South) <==> b.spec_has_face(Face::South));
    assert(a.spec_has_face(Face::West) <==> b.spec_has_face(Face::West));
    assert(x < 64u8 && y < 64u8 && ((x >> 0u8) & 1u8 == 1u8 <==> (y >> 0u8) & 1u8 == 1u8) && ((x >> 1u8) & 1u8 == 1u8
        <==> (y >> 1u8) & 1u8 == 1u8) && ((x >> 2u8) & 1u8 == 1u8 <==> (y >> 2u8) & 1u8 == 1u8) && ((x >> 3u8) & 1u8
        == 1u8 <==> (y >> 3u8) & 1u8 == 1u8) && ((x >> 4u8) & 1u8 == 1u8 <==> (y >> 4u8) & 1u8 == 1u8) && ((x >> 5u8)
        & 1u8 == 1u8 <==> (y >> 5u8) & 1u8 == 1u8) ==> x == y) by (bit_vector);
}

/// Side length of the occlusion map: a chunk plus one block on each side.
pub const OCCLUSION_MAP_USIZE: usize = 18;

/// Number of entries of the occlusion map.
pub const OCCLUSION_BUFFER_SIZE: usize = 5832;

/// Number of `u32`s of the occlusion map's GPU buffer.
pub const OCCLUSION_GPU_BUFFER_SIZE: u32 = 1458;

/// The index of a position in the occlusion map (positions start at `[-1, -1, -1]`).
pub open spec fn spec_cmo_index(pos: IVec3) -> int {
    (pos.z + 1) * 324 + (pos.y + 1) * 18 + (pos.x + 1)
}

/// `pos` lies in the bounds of the occlusion map, `[-1, -1, -1]..[17, 17, 17]`.
pub open spec fn in_cmo_bounds(pos: IVec3) -> bool {
    &&& -1 <= pos.x < 17
    &&& -1 <= pos.y < 17
    &&& -1 <= pos.z < 17
}

/// The index of a position in the occlusion map; out of bounds outside of
/// `[-1, -1, -1]..[17, 17, 17]`.
pub fn ivec3_to_cmo_idx(pos: IVec3) -> (r: Result<usize, OutOfBounds>)
    ensures
        r is Ok <==> in_cmo_bounds(pos),
        r matches Ok(i) ==> i == spec_cmo_index(pos) && i < OCCLUSION_BUFFER_SIZE,
{
    if !(-1 <= pos.x && pos.x < 17 && -1 <= pos.y && pos.y < 17 && -1 <= pos.z && pos.z < 17) {
        return Err(OutOfBounds);
    }
    let x = (pos.x + 1) as usize;
    let y = (pos.y + 1) as usize;
    let z = (pos.z + 1) as usize;
    Ok(z * 324 + y * 18 + x)
}

/// Occlusion of every block of a chunk and of the blocks bordering it.
#[derive(Clone, Debug)]
pub struct ChunkOcclusionMap {
    data: Vec<BlockOcclusion>,
}

impl ChunkOcclusionMap {
    /// Side length of the map: a chunk plus one block on each side.
    pub const USIZE: usize = 18;
    /// Side length of the map.
    pub const SIZE: i32 = 18;
    /// Number of entries of the map.
    pub const BUFFER_SIZE: usize = 5832;
    /// Number of `u32`s of the map's GPU buffer.
    pub const GPU_BUFFER_SIZE: u32 = 1458;
    /// Side length of the map, as the GPU sees it.
    pub const GPU_BUFFER_DIMENSIONS: u32 = 18;

    /// The entries of the map, by [`spec_cmo_index`].
    pub closed spec fn view(&self) -> Seq<BlockOcclusion> {
        self.data@
    }

    pub open spec fn wf(&self) -> bool {
        self.view().len() == OCCLUSION_BUFFER_SIZE
    }

    /// A map in which nothing is occluded.
    pub fn new() -> (r: ChunkOcclusionMap)
        ensures
            r.wf(),
            forall|i: int| 0 <= i < OCCLUSION_BUFFER_SIZE ==> (#[trigger] r.view()[i]).spec_byte() == 0,
    {
        let mut data: Vec<BlockOcclusion> = Vec::new();
        let mut i: usize = 0;
        while i < OCCLUSION_BUFFER_SIZE
            invariant
                i <= OCCLUSION_BUFFER_SIZE,
                data@.len() == i,
                forall|k: int| 0 <= k < i ==> (#[trigger] data@[k]).spec_byte() == 0,
            decreases OCCLUSION_BUFFER_SIZE - i,
        {
            data.push(BlockOcclusion::empty());
            i = i + 1;
        }
        ChunkOcclusionMap { data }
    }

    /// Set the occlusion at a position; out of bounds outside of the map.
    pub fn set(&mut self, pos: IVec3, data: BlockOcclusion) -> (r: Result<(), OutOfBounds>)
        requires
            old(self).wf(),
        ensures
            final(self).wf(),
            r is Ok <==> in_cmo_bounds(pos),
            r is Ok ==> final(self).view() == old(self).view().update(spec_cmo_index(pos), data),
            r is Err ==> final(self).view() == old(self).view(),
    {
        let idx = match ivec3_to_cmo_idx(pos) {
            Ok(i) => i,
            Err(e) => return Err(e),
        };
        self.data.set(idx, data);
        Ok(())
    }

    /// Get the occlusion at a position; out of bounds outside of the map.
    pub fn get(&self, pos: IVec3) -> (r: Result<BlockOcclusion, OutOfBounds>)
        requires
            self.wf(),
        ensures
            r is Ok <==> in_cmo_bounds(pos),
            r matches Ok(o) ==> o == self.view()[spec_cmo_index(pos)],
    {
        let idx = match ivec3_to_cmo_idx(pos) {
            Ok(i) => i,
            Err(e) => return Err(e),
        };
        Ok(self.data[idx])
    }

    /// The map as a GPU buffer: each group of four consecutive entries becomes the four bytes
    /// of one `u32`, in order.
    pub fn as_buffer(self) -> (r: Vec<[u8; 4]>)
        requires
            self.wf(),
        ensures
            r@.len() == OCCLUSION_GPU_BUFFER_SIZE,
            forall|i: int, j: int|
                0 <= i < OCCLUSION_GPU_BUFFER_SIZE && 0 <= j < 4 ==> #[trigger] r@[i]@[j] == self.view()[4 * i
                    + j].spec_byte(),
    {
        let mut buffer: Vec<[u8; 4]> = Vec::new();
        let mut i: usize = 0;
        while i < 1458
            invariant
                i <= 1458,
                self.wf(),
                buffer@.len() == i,
                forall|k: int, j: int|
                    0 <= k < i && 0 <= j < 4 ==> #[trigger] buffer@[k]@[j] == self.view()[4 * k + j].spec_byte(),
            decreases 1458 - i,
        {
            let chunk = [
                self.data[4 * i].as_byte(),
                self.data[4 * i + 1].as_byte(),
                self.data[4 * i + 2].as_byte(),
                self.data[4 * i + 3].as_byte(),
            ];
            buffer.push(chunk);
            proof {
                assert forall|k: int, j: int|
                    0 <= k < i + 1 && 0 <= j < 4 implies #[trigger] buffer@[k]@[j] == self.view()[4 * k
                        + j].spec_byte() by {
                    if k == i {
                        assert(j == 0 || j == 1 || j == 2 || j == 3);
                    }
                }
            }
            i = i + 1;
        }
        buffer
    }
}

/// Reading a position of the occlusion map gives back what was last set there.
pub proof fn lemma_cmo_set_then_get(m: Seq<BlockOcclusion>, pos: IVec3, other: IVec3, o: BlockOcclusion)
    requires
        m.len() == OCCLUSION_BUFFER_SIZE,
        in_cmo_bounds(pos),
        in_cmo_bounds(other),
    ensures
        m.update(spec_cmo_index(pos), o)[spec_cmo_index(pos)] == o,
        other != pos ==> m.update(spec_cmo_index(pos), o)[spec_cmo_index(other)] == m[spec_cmo_index(other)],
{
}

} // verus!
