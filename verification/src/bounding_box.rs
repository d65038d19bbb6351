//! Axis-aligned integer boxes and chunk positions.
use vstd::prelude::*;
use crate::math::{IVec3, ivec3};

verus! {

/// An axis-aligned box of integer positions, `min` inclusive and `max` exclusive.
#[derive(Copy, Clone, PartialEq, Eq, Debug, Structural)]
pub struct BoundingBox {
    pub min: IVec3,
    pub max: IVec3,
}

/// The side length of a chunk, in full-blocks.
pub const CHUNK_SIZE: i32 = 16;
/// The side length of a chunk, in full-blocks, as a `usize`.
pub const CHUNK_USIZE: usize = 16;

/// The bounding box of a chunk in localspace: `[0, 0, 0]..[16, 16, 16]`.
pub open spec fn spec_chunk_bounding_box() -> BoundingBox {
    BoundingBox { min: IVec3 { x: 0, y: 0, z: 0 }, max: IVec3 { x: 16, y: 16, z: 16 } }
}

/// The bounding box of a chunk in localspace: `[0, 0, 0]..[16, 16, 16]`.
pub fn chunk_bounding_box() -> (r: BoundingBox)
    ensures
        r == spec_chunk_bounding_box(),
{
    BoundingBox { min: ivec3(0, 0, 0), max: ivec3(16, 16, 16) }
}

impl BoundingBox {
    /// Every component of `min` is smaller than that component of `max`.
    pub open spec fn wf(self) -> bool {
        &&& self.min.x < self.max.x
        &&& self.min.y < self.max.y
        &&& self.min.z < self.max.z
    }

    pub open spec fn spec_contains(self, pos: IVec3) -> bool {
        pos.spec_within(self.min, self.max)
    }

    pub open spec fn spec_contains_inclusive(self, pos: IVec3) -> bool {
        pos.spec_within_inclusive(self.min, self.max)
    }

    /// Create a box from its corners. Every component in `min` must be smaller than that
    /// component in `max`.
    pub fn from_min_max(min: IVec3, max: IVec3) -> (r: BoundingBox)
        requires
            min.x < max.x,
            min.y < max.y,
            min.z < max.z,
        ensures
            r.min == min,
            r.max == max,
            r.wf(),
    {
        BoundingBox { min, max }
    }

    /// Create a box spanning two corners, whichever order their components are in. The corners
    /// must differ in every component.
    pub fn new(a: IVec3, b: IVec3) -> (r: BoundingBox)
        requires
            a.x != b.x,
            a.y != b.y,
            a.z != b.z,
        ensures
            r.wf(),
            r.min == (IVec3 {
                x: if a.x <= b.x { a.x } else { b.x },
                y: if a.y <= b.y { a.y } else { b.y },
                z: if a.z <= b.z { a.z } else { b.z },
            }),
            r.max == (IVec3 {
                x: if a.x >= b.x { a.x } else { b.x },
                y: if a.y >= b.y { a.y } else { b.y },
                z: if a.z >= b.z { a.z } else { b.z },
            }),
    {
        Self::from_min_max(a.min(b), a.max(b))
    }

    pub fn min(self) -> (r: IVec3)
        ensures
            r == self.min,
    {
        self.min
    }

    pub fn max(self) -> (r: IVec3)
        ensures
            r == self.max,
    {
        self.max
    }

    /// `true` if this is the bounding box of a chunk.
    pub fn is_chunk(self) -> (r: bool)
        ensures
            r == (self == spec_chunk_bounding_box()),
    {
        self.min.x == 0 && self.min.y == 0 && self.min.z == 0 && self.max.x == 16 && self.max.y == 16
            && self.max.z == 16
    }

    /// `true` if `pos` is in the box, with the upper bound exclusive.
    pub fn contains(self, pos: IVec3) -> (r: bool)
        ensures
            r == self.spec_contains(pos),
    {
        pos.x >= self.min.x && pos.y >= self.min.y && pos.z >= self.min.z && pos.x < self.max.x
            && pos.y < self.max.y && pos.z < self.max.z
    }

    /// `true` if `pos` is in the box, with the upper bound inclusive.
    pub fn contains_inclusive(self, pos: IVec3) -> (r: bool)
        ensures
            r == self.spec_contains_inclusive(pos),
    {
        pos.x >= self.min.x && pos.y >= self.min.y && pos.z >= self.min.z && pos.x <= self.max.x
            && pos.y <= self.max.y && pos.z <= self.max.z
    }

    /// The box of the same size, moved to start at the origin.
    pub fn span(self) -> (r: BoundingBox)
        requires
            self.wf(),
            self.max.x - self.min.x <= i32::MAX,
            self.max.y - self.min.y <= i32::MAX,
            self.max.z - self.min.z <= i32::MAX,
        ensures
            r.min == (IVec3 { x: 0, y: 0, z: 0 }),
            r.max.x == self.max.x - self.min.x,
            r.max.y == self.max.y - self.min.y,
            r.max.z == self.max.z - self.min.z,
    {
        BoundingBox {
            min: ivec3(0, 0, 0),
            max: ivec3(self.max.x - self.min.x, self.max.y - self.min.y, self.max.z - self.min.z),
        }
    }

    /// The number of positions in the box.
    pub fn volume(self) -> (r: u32)
        requires
            self.wf(),
            (self.max.x - self.min.x) * (self.max.y - self.min.y) * (self.max.z - self.min.z) <= i32::MAX,
        ensures
            r == (self.max.x - self.min.x) * (self.max.y - self.min.y) * (self.max.z - self.min.z),
    {
        let dx = (self.max.x as i64 - self.min.x as i64) as i64;
        let dy = (self.max.y as i64 - self.min.y as i64) as i64;
        let dz = (self.max.z as i64 - self.min.z as i64) as i64;
        proof {
            assert(dx * dy <= dx * dy * dz) by (nonlinear_arith)
                requires dx >= 1, dy >= 1, dz >= 1;
            assert(0 <= dx * dy) by (nonlinear_arith)
                requires dx >= 1, dy >= 1;
        }
        let v = dx * dy * dz;
        v as u32
    }
}

/// The position of a chunk, in chunkspace.
#[derive(Copy, Clone, PartialEq, Eq, Debug, Hash, Structural)]
pub struct ChunkPos(pub IVec3);

impl ChunkPos {
    /// Build a chunk position from its components.
    pub fn new(x: i32, y: i32, z: i32) -> (r: ChunkPos)
        ensures
            r == ChunkPos(IVec3 { x, y, z }),
    {
        ChunkPos(ivec3(x, y, z))
    }

    /// The chunk position as a vector.
    pub fn as_ivec3(self) -> (r: IVec3)
        ensures
            r == self.0,
    {
        self.0
    }

    /// `true` if the world full-block positions of this chunk fit in `i32`.
    pub open spec fn in_world(self) -> bool {
        &&& i32::MIN <= self.0.x * 16 && self.0.x * 16 + 15 <= i32::MAX
        &&& i32::MIN <= self.0.y * 16 && self.0.y * 16 + 15 <= i32::MAX
        &&& i32::MIN <= self.0.z * 16 && self.0.z * 16 + 15 <= i32::MAX
    }

    /// World full-block position of the chunk's maximum corner (inclusive).
    pub fn worldspace_max(self) -> (r: IVec3)
        requires
            self.in_world(),
        ensures
            r.x == self.0.x * 16 + 15,
            r.y == self.0.y * 16 + 15,
            r.z == self.0.z * 16 + 15,
    {
        ivec3(self.0.x * CHUNK_SIZE + (CHUNK_SIZE - 1), self.0.y * CHUNK_SIZE + (CHUNK_SIZE - 1), self.0.z
            * CHUNK_SIZE + (CHUNK_SIZE - 1))
    }

    /// World full-block position of the chunk's minimum corner.
    pub fn worldspace_min(self) -> (r: IVec3)
        requires
            self.in_world(),
        ensures
            r.x == self.0.x * 16,
            r.y == self.0.y * 16,
            r.z == self.0.z * 16,
    {
        ivec3(self.0.x * CHUNK_SIZE, self.0.y * CHUNK_SIZE, self.0.z * CHUNK_SIZE)
    }
}

/// A chunk spans exactly the 16 world positions `worldspace_min..=worldspace_max` along each
/// axis, and the chunks at consecutive positions are adjacent without overlap.
pub proof fn lemma_chunk_world_span(c: ChunkPos)
    ensures
        (c.0.x * 16 + 15) - (c.0.x * 16) + 1 == 16,
        (c.0.x + 1) * 16 == c.0.x * 16 + 15 + 1,
{
}

} // verus!
