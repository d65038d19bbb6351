//! Selections of the 26 chunks neighboring a chunk, and bounds checks for positions that may
//! reach into neighboring chunks.
use vstd::prelude::*;
use crate::math::{IVec2, IVec3, ivec3};
use crate::face::{Face, faces};
use crate::block::BlockVariantId;
use crate::generic_chunk::GenericChunkReadAccess;
use crate::storage::OutOfBounds;
use crate::bounding_box::BoundingBox;
use crate::transformations::{
    IntegerVector, fb_localspace_to_local_chunkspace, fb_localspace_wrap, mb_localspace_to_local_chunkspace,
    mb_localspace_wrap, ivec_project_to_3d, spec_project_to_3d,
};

verus! {

/// Error returned when working with positions of chunks neighboring another chunk: the position
/// was either outside of the 3x3x3 box, or was the center of the box.
#[derive(Copy, Clone, Debug, PartialEq, Eq, Structural)]
pub struct InvalidNeighborPosition;

/// A neighbor position is between `[-1, -1, -1]` and `[1, 1, 1]` (inclusive), but not `[0, 0, 0]`.
pub open spec fn spec_is_valid_neighbor_position(pos: IVec3) -> bool {
    &&& -1 <= pos.x <= 1
    &&& -1 <= pos.y <= 1
    &&& -1 <= pos.z <= 1
    &&& !(pos.x == 0 && pos.y == 0 && pos.z == 0)
}

/// The flattened index of a position in the 3x3x3 box centered on the origin.
pub open spec fn spec_neighbor_index(pos: IVec3) -> int {
    (pos.z + 1) * 9 + (pos.y + 1) * 3 + (pos.x + 1)
}

/// The position in the 3x3x3 box with the given flattened index.
pub open spec fn spec_neighbor_from_index(i: int) -> IVec3 {
    IVec3 { x: (i % 3 - 1) as i32, y: ((i / 3) % 3 - 1) as i32, z: (i / 9 - 1) as i32 }
}

/// Bit `i` of `bits` is set.
pub open spec fn bit_set(bits: u32, i: int) -> bool {
    0 <= i < 32 && (bits >> (i as u32)) & 1u32 == 1u32
}

/// The number of set bits of `bits` below bit `n`.
pub open spec fn count_bits_below(bits: u32, n: nat) -> nat
    decreases n,
{
    if n == 0 {
        0
    } else {
        count_bits_below(bits, (n - 1) as nat) + if bit_set(bits, n - 1) { 1nat } else { 0nat }
    }
}

proof fn lemma_index_roundtrip(pos: IVec3)
    requires
        -1 <= pos.x <= 1,
        -1 <= pos.y <= 1,
        -1 <= pos.z <= 1,
    ensures
        spec_neighbor_from_index(spec_neighbor_index(pos)) == pos,
        0 <= spec_neighbor_index(pos) < 27,
        spec_neighbor_index(pos) == 13 <==> (pos.x == 0 && pos.y == 0 && pos.z == 0),
{
}

proof fn lemma_index_injective(a: IVec3, b: IVec3)
    requires
        -1 <= a.x <= 1,
        -1 <= a.y <= 1,
        -1 <= a.z <= 1,
        -1 <= b.x <= 1,
        -1 <= b.y <= 1,
        -1 <= b.z <= 1,
        spec_neighbor_index(a) == spec_neighbor_index(b),
    ensures
        a == b,
{
    lemma_index_roundtrip(a);
    lemma_index_roundtrip(b);
}

/// The set bits of `bits` below bit `n`.
pub open spec fn bits_below(bits: u32, n: nat) -> Set<int> {
    Set::new(|i: int| 0 <= i < n && bit_set(bits, i))
}

proof fn lemma_bits_below_len(bits: u32, n: nat)
    ensures
        bits_below(bits, n).finite(),
        bits_below(bits, n).len() == count_bits_below(bits, n),
    decreases n,
{
    if n == 0 {
        assert(bits_below(bits, 0) =~= Set::empty());
    } else {
        lemma_bits_below_len(bits, (n - 1) as nat);
        let prev = bits_below(bits, (n - 1) as nat);
        if bit_set(bits, n - 1) {
            assert(bits_below(bits, n) =~= prev.insert(n - 1));
        } else {
            assert(bits_below(bits, n) =~= prev);
        }
    }
}

proof fn lemma_from_index_roundtrip(i: int)
    requires
        0 <= i < 27,
    ensures
        -1 <= spec_neighbor_from_index(i).x <= 1,
        -1 <= spec_neighbor_from_index(i).y <= 1,
        -1 <= spec_neighbor_from_index(i).z <= 1,
        spec_neighbor_index(spec_neighbor_from_index(i)) == i,
{
}

/// The number of set bits of a well-formed selection is the number of selected neighbors.
pub proof fn lemma_count_bits_is_selection_size(s: NeighborSelection)
    requires
        s.wf(),
    ensures
        s@.finite(),
        count_bits_below(s.0, 32) == s@.len(),
{
    let bits = s.0;
    lemma_bits_below_len(bits, 32);
    let idx = bits_below(bits, 32);
    let f = |i: int| spec_neighbor_from_index(i);
    assert forall|i: int| #[trigger] idx.contains(i) implies 0 <= i < 27 && i != 13 by {
        let j = i as u32;
        assert(bits < 0x8000000u32 && 27u32 <= j < 32u32 ==> (bits >> j) & 1u32 != 1u32) by (bit_vector);
    }
    assert(vstd::relations::injective_on(f, idx)) by {
        assert forall|a: int, b: int| idx.contains(a) && idx.contains(b) && #[trigger] f(a) == #[trigger] f(b) implies a == b by {
            lemma_from_index_roundtrip(a);
            lemma_from_index_roundtrip(b);
        }
    }
    assert(idx.map(f) =~= s@) by {
        assert forall|p: IVec3| #[trigger] s@.contains(p) implies idx.map(f).contains(p) by {
            lemma_index_roundtrip(p);
            assert(idx.contains(spec_neighbor_index(p)));
            assert(f(spec_neighbor_index(p)) == p);
        }
        assert forall|p: IVec3| #[trigger] idx.map(f).contains(p) implies s@.contains(p) by {
            let i = choose|i: int| idx.contains(i) && f(i) == p;
            lemma_from_index_roundtrip(i);
            lemma_index_roundtrip(p);
        }
    }
    vstd::set_lib::lemma_map_size(idx, s@, f);
}

/// A bitflag-like type for selecting neighbors of a chunk. Bit `i` selects the neighbor with
/// flattened index `i` (see [`spec_neighbor_index`]).
#[derive(Copy, Clone, PartialEq, Eq, Hash, Debug, Structural)]
pub struct NeighborSelection(pub u32);

/// The number of neighboring chunks of a chunk: a `3x3x3` box minus the center.
pub const NEIGHBOR_COUNT: u32 = 26;

/// A neighbor position is one in the box from `[-1, -1, -1]` to `[1, 1, 1]` (inclusive) other
/// than the center.
fn is_valid_neighbor_chunk_pos(pos: IVec3) -> (r: bool)
    ensures
        r == spec_is_valid_neighbor_position(pos),
{
    let bb = BoundingBox { min: IVec3::splat(-1), max: IVec3::splat(1) };
    !(pos.x == 0 && pos.y == 0 && pos.z == 0) && bb.contains_inclusive(pos)
}

impl NeighborSelection {
    /// Test if a position is a valid neighbor position.
    pub fn is_valid_neighbor_position(pos: IVec3) -> (r: bool)
        ensures
            r == spec_is_valid_neighbor_position(pos),
    {
        !(pos.x == 0 && pos.y == 0 && pos.z == 0) && pos.x >= -1 && pos.y >= -1 && pos.z >= -1 && pos.x <= 1
            && pos.y <= 1 && pos.z <= 1
    }

    /// Get the index of a neighbor position: flattens the 3x3x3 box into `0..27`.
    pub fn ivec3_to_neighbor_index(pos: IVec3) -> (r: Result<u32, InvalidNeighborPosition>)
        ensures
            r is Ok <==> spec_is_valid_neighbor_position(pos),
            r matches Ok(i) ==> i == spec_neighbor_index(pos) && i < 27 && i != 13,
    {
        if !Self::is_valid_neighbor_position(pos) {
            return Err(InvalidNeighborPosition);
        }
        proof {
            lemma_index_roundtrip(pos);
        }
        let x = (pos.x + 1) as u32;
        let y = (pos.y + 1) as u32;
        let z = (pos.z + 1) as u32;
        Ok((z * 3 * 3) + (y * 3) + x)
    }

    /// Only the bits of the 26 neighbors may be set.
    pub open spec fn wf(self) -> bool {
        &&& self.0 < 0x8000000u32
        &&& !bit_set(self.0, 13)
    }

    /// `true` if the neighbor at `pos` is selected.
    pub open spec fn spec_selected(self, pos: IVec3) -> bool {
        spec_is_valid_neighbor_position(pos) && bit_set(self.0, spec_neighbor_index(pos))
    }

    /// The selection as a set of neighbor positions.
    pub open spec fn view(self) -> Set<IVec3> {
        Set::new(|p: IVec3| self.spec_selected(p))
    }

    /// Create an empty neighbor selection, with no neighbors selected.
    pub fn empty() -> (r: NeighborSelection)
        ensures
            r.wf(),
            forall|p: IVec3| !r.spec_selected(p),
    {
        proof {
            assert forall|i: int| !bit_set(0u32, i) by {
                if 0 <= i < 32 {
                    let s = i as u32;
                    assert((0u32 >> s) & 1u32 == 0u32) by (bit_vector);
                }
            }
        }
        NeighborSelection(0)
    }

    /// Select/deselect the neighbor at the given local chunk position. Fails if the given
    /// position is not a valid neighbor position, and then changes nothing.
    pub fn set(&mut self, pos: IVec3, value: bool) -> (r: Result<(), InvalidNeighborPosition>)
        requires
            old(self).wf(),
        ensures
            final(self).wf(),
            r is Ok <==> spec_is_valid_neighbor_position(pos),
            r is Err ==> *final(self) == *old(self),
            r is Ok ==> forall|p: IVec3|
                #[trigger] final(self).spec_selected(p) == (if p == pos { value } else { old(self).spec_selected(p) }),
    {
        let index = match NeighborSelection::ivec3_to_neighbor_index(pos) {
            Ok(i) => i,
            Err(e) => return Err(e),
        };
        let old_bits = self.0;
        let new_bits = if value { old_bits | (1u32 << index) } else { old_bits & !(1u32 << index) };
        proof {
            assert(index < 27 && old_bits < 0x8000000u32 ==> new_bits < 0x8000000u32) by (bit_vector)
                requires new_bits == (if value { old_bits | (1u32 << index) } else { old_bits & !(1u32 << index) });
            assert forall|j: u32| j < 32 implies (((new_bits >> j) & 1u32 == 1u32) == (if j == index { value } else {
                (old_bits >> j) & 1u32 == 1u32 })) by {
                assert(index < 32 && j < 32 ==> (((new_bits >> j) & 1u32 == 1u32) == (if j == index { value } else {
                    (old_bits >> j) & 1u32 == 1u32 }))) by (bit_vector)
                    requires new_bits == (if value { old_bits | (1u32 << index) } else { old_bits & !(1u32 << index) });
            }
            assert(!bit_set(new_bits, 13)) by {
                assert(((new_bits >> 13u32) & 1u32 == 1u32) == ((old_bits >> 13u32) & 1u32 == 1u32));
            }
            assert forall|p: IVec3| (spec_is_valid_neighbor_position(p) && bit_set(new_bits, spec_neighbor_index(p)))
                == (if p == pos { value } else { spec_is_valid_neighbor_position(p) && bit_set(old_bits,
                spec_neighbor_index(p)) }) by {
                if spec_is_valid_neighbor_position(p) {
                    lemma_index_roundtrip(p);
                    let j = spec_neighbor_index(p) as u32;
                    assert(((new_bits >> j) & 1u32 == 1u32) == (if j == index { value } else { (old_bits >> j) & 1u32
                        == 1u32 }));
                    if j == index {
                        lemma_index_injective(p, pos);
                    }
                }
            }
        }
        self.0 = new_bits;
        Ok(())
    }

    /// Get the selection status of the neighbor at the given local chunk position. Fails if
    /// the given position is not a valid neighbor position.
    pub fn get(&self, pos: IVec3) -> (r: Result<bool, InvalidNeighborPosition>)
        ensures
            r is Ok <==> spec_is_valid_neighbor_position(pos),
            r matches Ok(b) ==> b == self.spec_selected(pos),
    {
        let index = match NeighborSelection::ivec3_to_neighbor_index(pos) {
            Ok(i) => i,
            Err(e) => return Err(e),
        };
        let bits = self.0;
        proof {
            assert(index < 32 ==> ((bits & (1u32 << index) != 0u32) == ((bits >> index) & 1u32 == 1u32))) by (bit_vector);
        }
        Ok(bits & (1u32 << index) != 0)
    }

    /// Select/deselect the neighbor at the given face.
    pub fn set_face(&mut self, face: Face, value: bool)
        requires
            old(self).wf(),
        ensures
            final(self).wf(),
            forall|p: IVec3|
                #[trigger] final(self).spec_selected(p) == (if p == face.spec_normal() { value } else { old(self).spec_selected(p) }),
    {
        let r = self.set(face.normal(), value);
        assert(r is Ok);
    }

    /// Get the selection status of the neighbor at the given face.
    pub fn get_face(&self, face: Face) -> (r: bool)
        ensures
            r == self.spec_selected(face.spec_normal()),
    {
        match self.get(face.normal()) {
            Ok(b) => b,
            Err(_) => false,
        }
    }

    /// Create a new neighbor selection where exactly the neighbors touching a face of the center
    /// are selected.
    pub fn all_faces() -> (r: NeighborSelection)
        ensures
            r.wf(),
            forall|p: IVec3| r.spec_selected(p) <==> exists|f: Face| p == #[trigger] f.spec_normal(),
    {
        let mut new = Self::empty();
        let fs = faces();
        let mut i: usize = 0;
        while i < 6
            invariant
                0 <= i <= 6,
                new.wf(),
                forall|k: int| 0 <= k < 6 ==> (#[trigger] fs@[k]).spec_as_usize() == k,
                forall|p: IVec3| new.spec_selected(p) <==> exists|k: int| 0 <= k < i && p == (#[trigger] fs@[k]).spec_normal(),
            decreases 6 - i,
        {
            let f = fs[i];
            new.set_face(f, true);
            proof {
                assert forall|p: IVec3| new.spec_selected(p) <==> exists|k: int| 0 <= k < i + 1 && p == (#[trigger] fs@[k]).spec_normal() by {
                    if p == f.spec_normal() {
                        assert(p == fs@[i as int].spec_normal());
                    }
                }
            }
            i = i + 1;
        }
        proof {
            assert forall|p: IVec3| new.spec_selected(p) <==> exists|f: Face| p == #[trigger] f.spec_normal() by {
                if exists|f: Face| p == #[trigger] f.spec_normal() {
                    let f = choose|f: Face| p == #[trigger] f.spec_normal();
                    let k = f.spec_as_usize() as int;
                    crate::face::lemma_face_index_roundtrip(f);
                    crate::face::lemma_face_index_roundtrip(fs@[k]);
                    assert(fs@[k] == f);
                }
            }
        }
        new
    }

    /// Create a new neighbor selection with all neighbors selected.
    pub fn all() -> (r: NeighborSelection)
        ensures
            r.wf(),
            forall|p: IVec3| r.spec_selected(p) <==> spec_is_valid_neighbor_position(p),
    {
        let mut new = Self::empty();
        let mut x: i32 = -1;
        while x <= 1
            invariant
                -1 <= x <= 2,
                new.wf(),
                forall|p: IVec3| new.spec_selected(p) <==> (spec_is_valid_neighbor_position(p) && p.x < x),
            decreases 2 - x,
        {
            let mut y: i32 = -1;
            while y <= 1
                invariant
                    -1 <= x <= 1,
                    -1 <= y <= 2,
                    new.wf(),
                    forall|p: IVec3| new.spec_selected(p) <==> (spec_is_valid_neighbor_position(p) && (p.x < x || (p.x == x && p.y < y))),
                decreases 2 - y,
            {
                let mut z: i32 = -1;
                while z <= 1
                    invariant
                        -1 <= x <= 1,
                        -1 <= y <= 1,
                        -1 <= z <= 2,
                        new.wf(),
                        forall|p: IVec3| new.spec_selected(p) <==> (spec_is_valid_neighbor_position(p) && (p.x < x || (
                            p.x == x && p.y < y) || (p.x == x && p.y == y && p.z < z))),
                    decreases 2 - z,
                {
                    let pos = ivec3(x, y, z);
                    if !(x == 0 && y == 0 && z == 0) {
                        let _ = new.set(pos, true);
                    }
                    z = z + 1;
                }
                y = y + 1;
            }
            x = x + 1;
        }
        new
    }

    /// Get the number of neighbors selected.
    pub fn num_selected(&self) -> (r: u32)
        ensures
            r == count_bits_below(self.0, 32),
            self.wf() ==> r == self@.len(),
    {
        let bits = self.0;
        let mut n: u32 = 0;
        let mut i: u32 = 0;
        while i < 32
            invariant
                0 <= i <= 32,
                n == count_bits_below(bits, i as nat),
                n <= i,
            decreases 32 - i,
        {
            if (bits >> i) & 1 == 1 {
                n = n + 1;
            }
            i = i + 1;
        }
        proof {
            if self.wf() {
                lemma_count_bits_is_selection_size(*self);
            }
        }
        n
    }

    /// All the selected neighbor positions, ordered by `x`, then `y`, then `z`.
    pub fn selected(&self) -> (r: Vec<IVec3>)
        ensures
            forall|p: IVec3| r@.contains(p) <==> self.spec_selected(p),
            forall|i: int, j: int| 0 <= i < j < r@.len() ==> lex_less(r@[i], r@[j]),
    {
        let mut out: Vec<IVec3> = Vec::new();
        let mut x: i32 = -1;
        while x <= 1
            invariant
                -1 <= x <= 2,
                forall|p: IVec3| out@.contains(p) <==> (self.spec_selected(p) && p.x < x),
                forall|i: int, j: int| 0 <= i < j < out@.len() ==> lex_less(out@[i], out@[j]),
                forall|i: int| 0 <= i < out@.len() ==> out@[i].x < x,
            decreases 2 - x,
        {
            let mut y: i32 = -1;
            while y <= 1
                invariant
                    -1 <= x <= 1,
                    -1 <= y <= 2,
                    forall|p: IVec3| out@.contains(p) <==> (self.spec_selected(p) && (p.x < x || (p.x == x && p.y < y))),
                    forall|i: int, j: int| 0 <= i < j < out@.len() ==> lex_less(out@[i], out@[j]),
                    forall|i: int| 0 <= i < out@.len() ==> (out@[i].x < x || (out@[i].x == x && out@[i].y < y)),
                decreases 2 - y,
            {
                let mut z: i32 = -1;
                while z <= 1
                    invariant
                        -1 <= x <= 1,
                        -1 <= y <= 1,
                        -1 <= z <= 2,
                        forall|p: IVec3| out@.contains(p) <==> (self.spec_selected(p) && (p.x < x || (p.x == x && p.y < y)
                            || (p.x == x && p.y == y && p.z < z))),
                        forall|i: int, j: int| 0 <= i < j < out@.len() ==> lex_less(out@[i], out@[j]),
                        forall|i: int| 0 <= i < out@.len() ==> (out@[i].x < x || (out@[i].x == x && out@[i].y < y) || (
                            out@[i].x == x && out@[i].y == y && out@[i].z < z)),
                    decreases 2 - z,
                {
                    let pos = ivec3(x, y, z);
                    if !(x == 0 && y == 0 && z == 0) {
                        let is_selected = match self.get(pos) {
                            Ok(b) => b,
                            Err(_) => false,
                        };
                        if is_selected {
                            let ghost prev = out@;
                            out.push(pos);
                            proof {
                                assert forall|p: IVec3| out@.contains(p) <==> (self.spec_selected(p) && (p.x < x || (p.x
                                    == x && p.y < y) || (p.x == x && p.y == y && p.z < z + 1))) by {
                                    if out@.contains(p) && p != pos {
                                        let k = choose|k: int| 0 <= k < out@.len() && out@[k] == p;
                                        assert(prev.contains(p)) by {
                                            assert(prev[k] == p);
                                        }
                                    }
                                    if p != pos && self.spec_selected(p) && (p.x < x || (p.x == x && p.y < y) || (p.x
                                        == x && p.y == y && p.z < z)) {
                                        let k = choose|k: int| 0 <= k < prev.len() && prev[k] == p;
                                        assert(out@[k] == p);
                                    }
                                    if p == pos {
                                        assert(out@[out@.len() - 1] == p);
                                    }
                                }
                            }
                        }
                    }
                    z = z + 1;
                }
                y = y + 1;
            }
            x = x + 1;
        }
        out
    }
}

/// The lexicographic order of positions by `x`, then `y`, then `z`.
pub open spec fn lex_less(a: IVec3, b: IVec3) -> bool {
    a.x < b.x || (a.x == b.x && a.y < b.y) || (a.x == b.x && a.y == b.y && a.z < b.z)
}

/// Setting a neighbor and then reading it back gives the value that was set, and the other
/// neighbors keep their status.
pub proof fn lemma_set_then_get(sel: NeighborSelection, after: NeighborSelection, pos: IVec3, value: bool, other: IVec3)
    requires
        spec_is_valid_neighbor_position(pos),
        forall|p: IVec3| #[trigger] after.spec_selected(p) == (if p == pos { value } else { sel.spec_selected(p) }),
    ensures
        after.spec_selected(pos) == value,
        other != pos ==> after.spec_selected(other) == sel.spec_selected(other),
{
    assert(after.spec_selected(pos) == value);
    assert(after.spec_selected(other) == (if other == pos { value } else { sel.spec_selected(other) }));
}

/// The side length of the 3x3x3 box of neighbors.
pub const NEIGHBOR_CUBIC_ARRAY_DIMENSIONS: usize = 3;
/// The number of slots in the 3x3x3 box of neighbors, including the center.
pub const NEIGHBOR_ARRAY_SIZE: usize = 27;

/// Test if the provided facespace vector is in bounds: within one block of a chunk's face.
pub fn is_in_bounds(pos: IVec2) -> (r: bool)
    ensures
        r == (-1 <= pos.x < 17 && -1 <= pos.y < 17),
{
    pos.x >= -1 && pos.y >= -1 && pos.x < 17 && pos.y < 17
}

/// Test if the provided microblock facespace vector is in bounds: within one full block
/// (four microblocks) of a chunk's face.
pub fn is_in_bounds_mb(pos: IVec2) -> (r: bool)
    ensures
        r == (-4 <= pos.x < 68 && -4 <= pos.y < 68),
{
    pos.x >= -4 && pos.y >= -4 && pos.x < 68 && pos.y < 68
}

/// Test if the provided localspace vector is within one block of a chunk, but outside of it.
pub fn is_in_bounds_3d(pos: IVec3) -> (r: bool)
    ensures
        r == (pos.spec_within(IVec3 { x: -1i32, y: -1i32, z: -1i32 }, IVec3 { x: 17, y: 17, z: 17 })
            && !pos.spec_within(IVec3 { x: 0, y: 0, z: 0 }, IVec3 { x: 16, y: 16, z: 16 })),
{
    let within = pos.x >= -1 && pos.y >= -1 && pos.z >= -1 && pos.x < 17 && pos.y < 17 && pos.z < 17;
    // Positions in -1..17 are in chunk 0 exactly when they lie in 0..16.
    let in_center_chunk = pos.x >= 0 && pos.y >= 0 && pos.z >= 0 && pos.x < 16 && pos.y < 16 && pos.z < 16;
    within && !in_center_chunk
}


/// Error returned when reading from neighboring chunks.
#[derive(Copy, Clone, Debug, PartialEq, Eq)]
pub enum NeighborReadError<E> {
    /// Attempted to read an out of bounds position.
    OutOfBounds,
    /// Error of the underlying chunk read access.
    Internal(E),
}

/// The chunks neighboring a chunk (some of which may be absent), and the block variant that
/// absent chunks are treated as holding.
pub struct Neighbors<H> {
    chunks: Vec<Option<H>>,
    default_block: BlockVariantId,
}

/// The neighbor position that holds a local full-block position (`floor(p / 16)` per component).
pub open spec fn spec_fb_chunk_of(p: IVec3) -> IVec3 {
    IVec3 { x: (p.x / 16) as i32, y: (p.y / 16) as i32, z: (p.z / 16) as i32 }
}

/// A local full-block position wrapped into chunk bounds (`p mod 16` per component).
pub open spec fn spec_fb_wrap(p: IVec3) -> IVec3 {
    IVec3 { x: (p.x % 16) as i32, y: (p.y % 16) as i32, z: (p.z % 16) as i32 }
}

/// The neighbor position that holds a local microblock position (`floor(p / 64)` per component).
pub open spec fn spec_mb_chunk_of(p: IVec3) -> IVec3 {
    IVec3 { x: (p.x / 64) as i32, y: (p.y / 64) as i32, z: (p.z / 64) as i32 }
}

/// A local microblock position wrapped into chunk bounds (`p mod 64` per component).
pub open spec fn spec_mb_wrap(p: IVec3) -> IVec3 {
    IVec3 { x: (p.x % 64) as i32, y: (p.y % 64) as i32, z: (p.z % 64) as i32 }
}

fn local_fb_to_chunk_pos(p: IVec3) -> (r: IVec3)
    ensures
        r == spec_fb_chunk_of(p),
{
    let r = fb_localspace_to_local_chunkspace(p);
    assert(r.components()[0] == r.x && r.components()[1] == r.y && r.components()[2] == r.z);
    assert(p.components()[0] == p.x && p.components()[1] == p.y && p.components()[2] == p.z);
    r
}

fn local_fb_to_neighbor_local_fb(p: IVec3) -> (r: IVec3)
    ensures
        r == spec_fb_wrap(p),
{
    let r = fb_localspace_wrap(p);
    assert(r.components()[0] == r.x && r.components()[1] == r.y && r.components()[2] == r.z);
    assert(p.components()[0] == p.x && p.components()[1] == p.y && p.components()[2] == p.z);
    r
}

fn mb_chunk_of(p: IVec3) -> (r: IVec3)
    ensures
        r == spec_mb_chunk_of(p),
{
    let r = mb_localspace_to_local_chunkspace(p);
    assert(r.components()[0] == r.x && r.components()[1] == r.y && r.components()[2] == r.z);
    assert(p.components()[0] == p.x && p.components()[1] == p.y && p.components()[2] == p.z);
    r
}

fn mb_wrap(p: IVec3) -> (r: IVec3)
    ensures
        r == spec_mb_wrap(p),
{
    let r = mb_localspace_wrap(p);
    assert(r.components()[0] == r.x && r.components()[1] == r.y && r.components()[2] == r.z);
    assert(p.components()[0] == p.x && p.components()[1] == p.y && p.components()[2] == p.z);
    r
}

impl<H: GenericChunkReadAccess> Neighbors<H> {
    pub closed spec fn spec_chunks(&self) -> Seq<Option<H>> {
        self.chunks@
    }

    /// The neighboring chunk handles, by flattened neighbor index.
    pub open spec fn chunks_view(&self) -> Seq<Option<H>> {
        self.spec_chunks()
    }

    pub closed spec fn spec_default_block(&self) -> BlockVariantId {
        self.default_block
    }

    pub open spec fn wf(&self) -> bool {
        self.chunks_view().len() == 27
    }

    /// The handle of the neighbor at a valid neighbor position, if present.
    pub open spec fn spec_neighbor(&self, pos: IVec3) -> Option<H> {
        self.chunks_view()[spec_neighbor_index(pos)]
    }

    /// Build from the 27 slots of the 3x3x3 box (indexed by [`spec_neighbor_index`]; the center
    /// slot is never read) and the block that absent chunks are treated as holding.
    pub fn from_raw(chunks: Vec<Option<H>>, default_block: BlockVariantId) -> (r: Neighbors<H>)
        requires
            chunks@.len() == 27,
        ensures
            r.wf(),
            r.chunks_view() == chunks@,
            r.spec_default_block() == default_block,
    {
        Neighbors { chunks, default_block }
    }

    /// Get a handle to a neighboring chunk from a local chunk position. Fails if the position
    /// is not a valid neighbor position.
    pub fn get_neighbor_chunk(&self, chunk_pos: IVec3) -> (r: Result<Option<&H>, NeighborReadError<H::Error>>)
        requires
            self.wf(),
        ensures
            r is Ok <==> spec_is_valid_neighbor_position(chunk_pos),
            r is Err ==> r == Err::<Option<&H>, NeighborReadError<H::Error>>(NeighborReadError::OutOfBounds),
            r matches Ok(h) ==> (match h {
                None => self.spec_neighbor(chunk_pos) is None,
                Some(h) => self.spec_neighbor(chunk_pos) == Some(*h),
            }),
    {
        let index = match NeighborSelection::ivec3_to_neighbor_index(chunk_pos) {
            Ok(i) => i as usize,
            Err(_) => return Err(NeighborReadError::OutOfBounds),
        };
        Ok(self.chunks[index].as_ref())
    }

    /// Returns `true` if all the given neighbors are present.
    pub fn has_all(&self, neighbors: NeighborSelection) -> (r: bool)
        requires
            self.wf(),
        ensures
            r == forall|p: IVec3| neighbors.spec_selected(p) ==> #[trigger] self.spec_neighbor(p) is Some,
    {
        let selected = neighbors.selected();
        let mut i: usize = 0;
        while i < selected.len()
            invariant
                self.wf(),
                0 <= i <= selected@.len(),
                forall|p: IVec3| selected@.contains(p) <==> neighbors.spec_selected(p),
                forall|k: int| 0 <= k < i ==> #[trigger] self.spec_neighbor(selected@[k]) is Some,
            decreases selected@.len() - i,
        {
            let p = selected[i];
            assert(selected@.contains(p));
            assert(neighbors.spec_selected(p));
            match self.get_neighbor_chunk(p) {
                Ok(None) => return false,
                _ => {},
            }
            assert(self.spec_neighbor(selected@[i as int]) is Some);
            i = i + 1;
        }
        proof {
            assert forall|p: IVec3| neighbors.spec_selected(p) implies #[trigger] self.spec_neighbor(p) is Some by {
                assert(selected@.contains(p));
                let k = choose|k: int| 0 <= k < selected@.len() && selected@[k] == p;
                assert(self.spec_neighbor(selected@[k]) is Some);
            }
        }
        true
    }

    /// What reading a full block at a local neighbor position gives.
    pub open spec fn spec_get_3d(&self, ls_nb_pos: IVec3) -> Result<Option<BlockVariantId>, NeighborReadError<H::Error>> {
        let c = spec_fb_chunk_of(ls_nb_pos);
        if !spec_is_valid_neighbor_position(c) {
            Err(NeighborReadError::OutOfBounds)
        } else {
            match self.spec_neighbor(c) {
                None => Ok(Some(self.spec_default_block())),
                Some(h) => match h.spec_get(spec_fb_wrap(ls_nb_pos)) {
                    Ok(v) => Ok(v),
                    Err(e) => Err(NeighborReadError::Internal(e)),
                },
            }
        }
    }

    /// What reading a microblock at a local neighbor position gives.
    pub open spec fn spec_get_3d_mb(&self, mb_nb_pos: IVec3) -> Result<BlockVariantId, NeighborReadError<H::Error>> {
        let c = spec_mb_chunk_of(mb_nb_pos);
        if !spec_is_valid_neighbor_position(c) {
            Err(NeighborReadError::OutOfBounds)
        } else {
            match self.spec_neighbor(c) {
                None => Ok(self.spec_default_block()),
                Some(h) => match h.spec_get_mb(spec_mb_wrap(mb_nb_pos)) {
                    Ok(v) => Ok(v),
                    Err(e) => Err(NeighborReadError::Internal(e)),
                },
            }
        }
    }

    /// Get a block in one of the neighboring chunks (at a chunk-local full-block position that
    /// lies in a neighbor), the default block if that neighbor is absent.
    pub fn get_3d(&self, ls_nb_pos: IVec3) -> (r: Result<Option<BlockVariantId>, NeighborReadError<H::Error>>)
        requires
            self.wf(),
        ensures
            r == self.spec_get_3d(ls_nb_pos),
    {
        let chunk_pos = local_fb_to_chunk_pos(ls_nb_pos);
        let chunk = match self.get_neighbor_chunk(chunk_pos) {
            Ok(c) => c,
            Err(e) => return Err(e),
        };
        match chunk {
            Some(handle) => {
                let neighbor_local = local_fb_to_neighbor_local_fb(ls_nb_pos);
                match handle.get(neighbor_local) {
                    Ok(v) => Ok(v),
                    Err(e) => Err(NeighborReadError::Internal(e)),
                }
            },
            None => Ok(Some(self.default_block)),
        }
    }

    /// Get a microblock in one of the neighboring chunks (at a chunk-local microblock position
    /// that lies in a neighbor), the default block if that neighbor is absent.
    pub fn get_3d_mb(&self, mb_nb_pos: IVec3) -> (r: Result<BlockVariantId, NeighborReadError<H::Error>>)
        requires
            self.wf(),
        ensures
            r == self.spec_get_3d_mb(mb_nb_pos),
    {
        let chunk_pos = mb_chunk_of(mb_nb_pos);
        let chunk = match self.get_neighbor_chunk(chunk_pos) {
            Ok(c) => c,
            Err(e) => return Err(e),
        };
        match chunk {
            Some(handle) => {
                let neighbor_local = mb_wrap(mb_nb_pos);
                match handle.get_mb(neighbor_local) {
                    Ok(v) => Ok(v),
                    Err(e) => Err(NeighborReadError::Internal(e)),
                }
            },
            None => Ok(self.default_block),
        }
    }

    /// Get the block in a neighboring chunk that "obscures" the given position on a face of the
    /// center chunk. The position may exceed the chunk's borders by 1.
    pub fn get(&self, face: Face, face_pos: IVec2) -> (r: Result<Option<BlockVariantId>, NeighborReadError<H::Error>>)
        requires
            self.wf(),
        ensures
            !(-1 <= face_pos.x < 17 && -1 <= face_pos.y < 17) ==> r == Err::<Option<BlockVariantId>, NeighborReadError<
                H::Error,
            >>(NeighborReadError::OutOfBounds),
            (-1 <= face_pos.x < 17 && -1 <= face_pos.y < 17) ==> r == self.spec_get_3d(
                spec_project_to_3d(face_pos, face, if face.spec_axis_direction() > 0 { 16i32 } else { -1i32 }),
            ),
    {
        if !is_in_bounds(face_pos) {
            return Err(NeighborReadError::OutOfBounds);
        }
        let mut mag = face.axis_direction();
        if mag > 0 {
            mag = 16;
        }
        let pos_3d = ivec_project_to_3d(face_pos, face, mag);
        self.get_3d(pos_3d)
    }

    /// Get the microblock in a neighboring chunk that "obscures" the given microblock position on
    /// a face of the center chunk. The magnitude along the face's axis is `16` for faces pointing
    /// along their axis and `-1` otherwise.
    pub fn get_mb(&self, face: Face, mb_face_pos: IVec2) -> (r: Result<BlockVariantId, NeighborReadError<H::Error>>)
        requires
            self.wf(),
        ensures
            !(-4 <= mb_face_pos.x < 68 && -4 <= mb_face_pos.y < 68) ==> r == Err::<BlockVariantId, NeighborReadError<
                H::Error,
            >>(NeighborReadError::OutOfBounds),
            (-4 <= mb_face_pos.x < 68 && -4 <= mb_face_pos.y < 68) ==> r == self.spec_get_3d_mb(
                spec_project_to_3d(mb_face_pos, face, if face.spec_axis_direction() > 0 { 16i32 } else { -1i32 }),
            ),
    {
        if !is_in_bounds_mb(mb_face_pos) {
            return Err(NeighborReadError::OutOfBounds);
        }
        let mut mag = face.axis_direction();
        if mag > 0 {
            mag = 16;
        }
        let mb_pos_3d = ivec_project_to_3d(mb_face_pos, face, mag);
        self.get_3d_mb(mb_pos_3d)
    }
}

/// A builder that sets the neighboring chunks of a [`Neighbors`] one at a time.
pub struct NeighborsBuilder<H>(Neighbors<H>);

impl<H: GenericChunkReadAccess> NeighborsBuilder<H> {
    /// The neighbors being built.
    pub closed spec fn spec_inner(&self) -> Neighbors<H> {
        self.0
    }

    /// A builder with no neighbor present.
    pub fn new(default_block: BlockVariantId) -> (r: NeighborsBuilder<H>)
        ensures
            r.spec_inner().wf(),
            forall|i: int| 0 <= i < 27 ==> (#[trigger] r.spec_inner().chunks_view()[i]) is None,
            r.spec_inner().spec_default_block() == default_block,
    {
        let mut chunks: Vec<Option<H>> = Vec::new();
        let mut i: usize = 0;
        while i < 27
            invariant
                0 <= i <= 27,
                chunks@.len() == i,
                forall|j: int| 0 <= j < i ==> (#[trigger] chunks@[j]) is None,
            decreases 27 - i,
        {
            chunks.push(None);
            i = i + 1;
        }
        NeighborsBuilder(Neighbors::from_raw(chunks, default_block))
    }

    /// Set the neighbor at the given neighbor position. Fails, changing nothing, if the position
    /// is not a valid neighbor position (see [`is_valid_neighbor_chunk_pos`]).
    pub fn set_neighbor(&mut self, pos: IVec3, handle: H) -> (r: Result<(), OutOfBounds>)
        requires
            old(self).spec_inner().wf(),
        ensures
            final(self).spec_inner().wf(),
            r is Ok <==> spec_is_valid_neighbor_position(pos),
            final(self).spec_inner().spec_default_block() == old(self).spec_inner().spec_default_block(),
            r is Err ==> final(self).spec_inner().chunks_view() == old(self).spec_inner().chunks_view(),
            r is Ok ==> final(self).spec_inner().chunks_view() == old(self).spec_inner().chunks_view().update(
                spec_neighbor_index(pos),
                Some(handle),
            ),
    {
        if !is_valid_neighbor_chunk_pos(pos) {
            return Err(OutOfBounds);
        }
        let idx = match NeighborSelection::ivec3_to_neighbor_index(pos) {
            Ok(i) => i as usize,
            Err(_) => return Err(OutOfBounds),
        };
        self.0.chunks.set(idx, Some(handle));
        Ok(())
    }

    /// The neighbors that were built.
    pub fn build(self) -> (r: Neighbors<H>)
        ensures
            r == self.spec_inner(),
    {
        self.0
    }
}

} // verus!
