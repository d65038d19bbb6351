//! The six faces of a cube, the three axes, and sets of faces.
use vstd::prelude::*;
use crate::math::{IVec3, ivec3};

verus! {

/// A face of a voxel (or of a chunk).
#[derive(Copy, Clone, Debug, PartialEq, Eq, Hash, Structural)]
pub enum Face {
    Top,
    Bottom,
    North,
    East,
    South,
    West,
}

/// One of the three axes of 3D space.
#[derive(Copy, Clone, Debug, PartialEq, Eq, Hash, Structural)]
pub enum Axis3D {
    X,
    Y,
    Z,
}

impl Axis3D {
    pub open spec fn spec_as_usize(self) -> usize {
        match self {
            Axis3D::X => 0,
            Axis3D::Y => 1,
            Axis3D::Z => 2,
        }
    }

    /// The index of this axis in a vector (x = 0, y = 1, z = 2).
    pub fn as_usize(self) -> (r: usize)
        ensures
            r == self.spec_as_usize(),
    {
        match self {
            Axis3D::X => 0,
            Axis3D::Y => 1,
            Axis3D::Z => 2,
        }
    }
}

/// The number of faces of a cube.
pub const FACE_COUNT: usize = 6;

/// Every face, in index order.
pub fn faces() -> (r: [Face; 6])
    ensures
        forall|i: int| 0 <= i < 6 ==> (#[trigger] r@[i]).spec_as_usize() == i,
{
    [Face::Top, Face::Bottom, Face::North, Face::East, Face::South, Face::West]
}

impl Face {
    pub open spec fn spec_as_usize(self) -> usize {
        match self {
            Face::Top => 0,
            Face::Bottom => 1,
            Face::North => 2,
            Face::East => 3,
            Face::South => 4,
            Face::West => 5,
        }
    }

    pub open spec fn spec_from_usize(i: int) -> Face {
        if i == 0 {
            Face::Top
        } else if i == 1 {
            Face::Bottom
        } else if i == 2 {
            Face::North
        } else if i == 3 {
            Face::East
        } else if i == 4 {
            Face::South
        } else {
            Face::West
        }
    }

    pub open spec fn spec_axis(self) -> Axis3D {
        match self {
            Face::Top | Face::Bottom => Axis3D::Y,
            Face::North | Face::South => Axis3D::X,
            Face::East | Face::West => Axis3D::Z,
        }
    }

    pub open spec fn spec_axis_direction(self) -> i32 {
        match self {
            Face::Top | Face::North | Face::East => 1,
            Face::Bottom | Face::South | Face::West => -1i32,
        }
    }

    pub open spec fn spec_normal(self) -> IVec3 {
        match self {
            Face::Top => IVec3 { x: 0, y: 1, z: 0 },
            Face::Bottom => IVec3 { x: 0, y: -1i32, z: 0 },
            Face::North => IVec3 { x: 1, y: 0, z: 0 },
            Face::South => IVec3 { x: -1i32, y: 0, z: 0 },
            Face::East => IVec3 { x: 0, y: 0, z: 1 },
            Face::West => IVec3 { x: 0, y: 0, z: -1i32 },
        }
    }

    /// The index of this face (`0..6`).
    pub fn as_usize(self) -> (r: usize)
        ensures
            r == self.spec_as_usize(),
            r < 6,
    {
        match self {
            Face::Top => 0,
            Face::Bottom => 1,
            Face::North => 2,
            Face::East => 3,
            Face::South => 4,
            Face::West => 5,
        }
    }

    /// The index of this face as a `u32`.
    pub fn as_u32(self) -> (r: u32)
        ensures
            r == self.spec_as_usize(),
    {
        self.as_usize() as u32
    }

    /// The face with the given index, if there is one.
    pub fn from_u32(v: u32) -> (r: Option<Face>)
        ensures
            v < 6 ==> r == Some(Face::spec_from_usize(v as int)),
            v >= 6 ==> r is None,
    {
        match v {
            0 => Some(Face::Top),
            1 => Some(Face::Bottom),
            2 => Some(Face::North),
            3 => Some(Face::East),
            4 => Some(Face::South),
            5 => Some(Face::West),
            _ => None,
        }
    }

    /// The axis this face is perpendicular to.
    pub fn axis(self) -> (r: Axis3D)
        ensures
            r == self.spec_axis(),
    {
        match self {
            Face::Top | Face::Bottom => Axis3D::Y,
            Face::North | Face::South => Axis3D::X,
            Face::East | Face::West => Axis3D::Z,
        }
    }

    /// `1` if this face points along the positive direction of its axis, `-1` otherwise.
    pub fn axis_direction(self) -> (r: i32)
        ensures
            r == self.spec_axis_direction(),
    {
        match self {
            Face::Top | Face::North | Face::East => 1,
            Face::Bottom | Face::South | Face::West => -1i32,
        }
    }

    /// The unit normal vector of this face.
    pub fn normal(self) -> (r: IVec3)
        ensures
            r == self.spec_normal(),
    {
        match self {
            Face::Top => ivec3(0, 1, 0),
            Face::Bottom => ivec3(0, -1, 0),
            Face::North => ivec3(1, 0, 0),
            Face::South => ivec3(-1, 0, 0),
            Face::East => ivec3(0, 0, 1),
            Face::West => ivec3(0, 0, -1),
        }
    }
}

/// A face's index is below 6, and converting it back gives the face.
pub proof fn lemma_face_index_roundtrip(f: Face)
    ensures
        Face::spec_from_usize(f.spec_as_usize() as int) == f,
        f.spec_as_usize() < 6,
{
}

/// A set of faces, stored as six bits.
#[derive(Copy, Clone, Debug, PartialEq, Eq, Hash, Structural)]
pub struct FaceSet(pub u8);

impl FaceSet {
    /// `true` if the bit of `face` is set.
    pub open spec fn spec_contains(self, face: Face) -> bool {
        (self.0 >> (face.spec_as_usize() as u8)) & 1u8 == 1u8
    }

    /// The set as a mathematical set of faces.
    pub open spec fn view(self) -> Set<Face> {
        Set::new(|f: Face| self.spec_contains(f))
    }

    /// Only the six low bits may be set.
    pub open spec fn wf(self) -> bool {
        self.0 < 64
    }

    /// The set holding no face.
    pub fn empty() -> (r: FaceSet)
        ensures
            r.wf(),
            forall|f: Face| !r.spec_contains(f),
    {
        proof {
            assert forall|f: Face| !FaceSet(0).spec_contains(f) by {
                let s = f.spec_as_usize() as u8;
                assert((0u8 >> s) & 1u8 == 0u8) by (bit_vector);
            }
        }
        FaceSet(0)
    }

    /// The set holding every face.
    pub fn all() -> (r: FaceSet)
        ensures
            r.wf(),
            forall|f: Face| r.spec_contains(f),
    {
        proof {
            assert forall|f: Face| FaceSet(63).spec_contains(f) by {
                let s = f.spec_as_usize() as u8;
                assert(s < 6 ==> (63u8 >> s) & 1u8 == 1u8) by (bit_vector);
            }
        }
        FaceSet(63)
    }

    /// The set holding exactly `face`.
    pub fn from_face(face: Face) -> (r: FaceSet)
        ensures
            r.wf(),
            forall|f: Face| r.spec_contains(f) <==> f == face,
    {
        let mut s = FaceSet::empty();
        s.insert(face);
        s
    }

    /// Add `face` to the set.
    pub fn insert(&mut self, face: Face)
        requires
            old(self).wf(),
        ensures
            final(self).wf(),
            forall|f: Face| final(self).spec_contains(f) <==> (old(self).spec_contains(f) || f == face),
    {
        let i = face.as_usize() as u8;
        let old_bits = self.0;
        let new_bits = old_bits | (1u8 << i);
        proof {
            assert(i < 6 && old_bits < 64 ==> new_bits < 64) by (bit_vector)
                requires new_bits == old_bits | (1u8 << i);
            assert forall|f: Face| ((new_bits >> (f.spec_as_usize() as u8)) & 1u8 == 1u8) <==> (((old_bits
                >> (f.spec_as_usize() as u8)) & 1u8 == 1u8) || f == face) by {
                let j = f.spec_as_usize() as u8;
                assert(i < 8 && j < 8 ==> (((new_bits >> j) & 1u8 == 1u8) <==> (((old_bits >> j) & 1u8
                    == 1u8) || i == j))) by (bit_vector)
                    requires new_bits == old_bits | (1u8 << i);
                if i == j {
                    lemma_face_index_roundtrip(f);
                    lemma_face_index_roundtrip(face);
                }
            }
        }
        self.0 = new_bits;
    }

    /// Remove `face` from the set.
    pub fn remove(&mut self, face: Face)
        requires
            old(self).wf(),
        ensures
            final(self).wf(),
            forall|f: Face| final(self).spec_contains(f) <==> (old(self).spec_contains(f) && f != face),
    {
        let i = face.as_usize() as u8;
        let old_bits = self.0;
        let new_bits = old_bits & !(1u8 << i);
        proof {
            assert(old_bits < 64 ==> new_bits < 64) by (bit_vector)
                requires new_bits == old_bits & !(1u8 << i);
            assert forall|f: Face| ((new_bits >> (f.spec_as_usize() as u8)) & 1u8 == 1u8) <==> (((old_bits
                >> (f.spec_as_usize() as u8)) & 1u8 == 1u8) && f != face) by {
                let j = f.spec_as_usize() as u8;
                assert(i < 8 && j < 8 ==> (((new_bits >> j) & 1u8 == 1u8) <==> (((old_bits >> j) & 1u8
                    == 1u8) && i != j))) by (bit_vector)
                    requires new_bits == old_bits & !(1u8 << i);
                if i == j {
                    lemma_face_index_roundtrip(f);
                    lemma_face_index_roundtrip(face);
                }
            }
        }
        self.0 = new_bits;
    }

    /// `true` if `face` is in the set.
    pub fn contains(&self, face: Face) -> (r: bool)
        ensures
            r == self.spec_contains(face),
    {
        (self.0 >> (face.as_usize() as u8)) & 1u8 == 1u8
    }

    /// `true` if every face is in the set.
    pub fn is_all(&self) -> (r: bool)
        requires
            self.wf(),
        ensures
            r == forall|f: Face| self.spec_contains(f),
    {
        let b = self.0;
        proof {
            assert(b < 64 ==> (b == 63u8 <==> ((b >> 0u8) & 1u8 == 1u8 && (b >> 1u8) & 1u8 == 1u8 && (b >> 2u8)
                & 1u8 == 1u8 && (b >> 3u8) & 1u8 == 1u8 && (b >> 4u8) & 1u8 == 1u8 && (b >> 5u8) & 1u8
                == 1u8))) by (bit_vector);
            assert(self.spec_contains(Face::Top) == ((b >> 0u8) & 1u8 == 1u8));
            assert(self.spec_contains(Face::Bottom) == ((b >> 1u8) & 1u8 == 1u8));
            assert(self.spec_contains(Face::North) == ((b >> 2u8) & 1u8 == 1u8));
            assert(self.spec_contains(Face::East) == ((b >> 3u8) & 1u8 == 1u8));
            assert(self.spec_contains(Face::South) == ((b >> 4u8) & 1u8 == 1u8));
            assert(self.spec_contains(Face::West) == ((b >> 5u8) & 1u8 == 1u8));
            if b == 63u8 {
                assert forall|f: Face| self.spec_contains(f) by {
                    match f {
                        Face::Top => {},
                        Face::Bottom => {},
                        Face::North => {},
                        Face::East => {},
                        Face::South => {},
                        Face::West => {},
                    }
                }
            }
        }
        b == 63u8
    }

    /// The union of two sets.
    pub fn union(self, other: FaceSet) -> (r: FaceSet)
        requires
            self.wf(),
            other.wf(),
        ensures
            r.wf(),
            forall|f: Face| r.spec_contains(f) <==> (self.spec_contains(f) || other.spec_contains(f)),
    {
        let a = self.0;
        let b = other.0;
        let c = a | b;
        proof {
            assert(a < 64 && b < 64 ==> c < 64) by (bit_vector)
                requires c == a | b;
            assert forall|f: Face| ((c >> (f.spec_as_usize() as u8)) & 1u8 == 1u8) <==> (((a >> (
            f.spec_as_usize() as u8)) & 1u8 == 1u8) || ((b >> (f.spec_as_usize() as u8)) & 1u8 == 1u8)) by {
                let j = f.spec_as_usize() as u8;
                assert(j < 8 ==> (((c >> j) & 1u8 == 1u8) <==> (((a >> j) & 1u8 == 1u8) || ((b >> j) & 1u8
                    == 1u8)))) by (bit_vector)
                    requires c == a | b;
            }
        }
        FaceSet(c)
    }

    /// The number of faces in the set.
    pub fn len(&self) -> (r: usize)
        requires
            self.wf(),
        ensures
            r == self.view().len(),
            r <= 6,
    {
        let fs = faces();
        let mut n: usize = 0;
        let mut i: usize = 0;
        let ghost mut counted: Set<Face> = Set::empty();
        while i < 6
            invariant
                0 <= i <= 6,
                forall|k: int| 0 <= k < 6 ==> (#[trigger] fs@[k]).spec_as_usize() == k,
                counted == Set::new(|f: Face| self.spec_contains(f) && f.spec_as_usize() < i),
                counted.finite(),
                n == counted.len(),
                n <= i,
            decreases 6 - i,
        {
            let f = fs[i];
            let ghost prev = counted;
            proof {
                lemma_face_index_roundtrip(f);
            }
            if self.contains(f) {
                n = n + 1;
                proof {
                    counted = prev.insert(f);
                    assert(!prev.contains(f));
                    assert(counted =~= Set::new(|g: Face| self.spec_contains(g) && g.spec_as_usize() < i + 1))
                        by {
                        assert forall|g: Face| g.spec_as_usize() == i implies g == f by {
                            lemma_face_index_roundtrip(g);
                        }
                    }
                }
            } else {
                proof {
                    assert(prev =~= Set::new(|g: Face| self.spec_contains(g) && g.spec_as_usize() < i + 1))
                        by {
                        assert forall|g: Face| g.spec_as_usize() == i implies g == f by {
                            lemma_face_index_roundtrip(g);
                        }
                    }
                }
            }
            i = i + 1;
        }
        proof {
            assert(counted =~= self.view());
        }
        n
    }

    /// The faces in the set, in index order.
    pub fn iter(&self) -> (r: Vec<Face>)
        ensures
            forall|f: Face| r@.contains(f) <==> self.spec_contains(f),
            forall|i: int, j: int| 0 <= i < j < r@.len() ==> r@[i].spec_as_usize() < r@[j].spec_as_usize(),
    {
        let fs = faces();
        let mut out: Vec<Face> = Vec::new();
        let mut i: usize = 0;
        while i < 6
            invariant
                0 <= i <= 6,
                forall|k: int| 0 <= k < 6 ==> (#[trigger] fs@[k]).spec_as_usize() == k,
                forall|f: Face| out@.contains(f) <==> (self.spec_contains(f) && f.spec_as_usize() < i),
                forall|a: int, b: int| 0 <= a < b < out@.len() ==> out@[a].spec_as_usize() < out@[b].spec_as_usize(),
                forall|a: int| 0 <= a < out@.len() ==> out@[a].spec_as_usize() < i,
            decreases 6 - i,
        {
            let f = fs[i];
            if self.contains(f) {
                let ghost prev = out@;
                out.push(f);
                proof {
                    assert forall|g: Face| out@.contains(g) <==> (self.spec_contains(g) && g.spec_as_usize() < i + 1) by {
                        if out@.contains(g) {
                            let k = choose|k: int| 0 <= k < out@.len() && out@[k] == g;
                            if k < prev.len() {
                                assert(prev.contains(g));
                            }
                        }
                        if self.spec_contains(g) && g.spec_as_usize() < i + 1 {
                            if g.spec_as_usize() == i {
                                lemma_face_index_roundtrip(g);
                                lemma_face_index_roundtrip(f);
                                assert(out@[out@.len() - 1] == g);
                            } else {
                                assert(prev.contains(g));
                                let k = choose|k: int| 0 <= k < prev.len() && prev[k] == g;
                                assert(out@[k] == g);
                            }
                        }
                    }
                }
            } else {
                proof {
                    assert forall|g: Face| out@.contains(g) <==> (self.spec_contains(g) && g.spec_as_usize() < i + 1) by {
                        if g.spec_as_usize() == i {
                            lemma_face_index_roundtrip(g);
                            lemma_face_index_roundtrip(f);
                        }
                    }
                }
            }
            i = i + 1;
        }
        out
    }
}

} // verus!
