//! Early occlusion culling: which faces of a chunk can be seen through from which other faces,
//! found by flood filling the transparent microblocks of the chunk.
use vstd::prelude::*;
use crate::face::{Axis3D, Face, FaceSet, faces, lemma_face_index_roundtrip};
use crate::math::{IVec2, IVec3, ivec2, ivec3};
use crate::block::BlockVariantId;
use crate::generic_chunk::{GenericChunkReadAccess, in_chunk_mb};
use crate::transformations::{ivec_project_to_3d, spec_project_to_3d, spec_project_to_2d};
use std::collections::VecDeque;

verus! {

/// Describes the connections between the different faces of a chunk.
///
/// Say you are standing above a chunk looking down at its top face. This type tells you which
/// faces you can exit the chunk through if you were to enter it through the top face. A face is
/// always connected to itself, and connections have no direction.
#[derive(Copy, Clone, Debug, PartialEq, Eq)]
pub struct ChunkConnectivityGraph {
    /// Row `i` holds the faces connected to the face with index `i`.
    graph: [FaceSet; 6],
}

/// The set of connected pairs of a graph with `add` added in both directions.
pub open spec fn with_connection(s: Set<(Face, Face)>, first: Face, second: Face) -> Set<(Face, Face)> {
    s.insert((first, second)).insert((second, first))
}

/// The set of connected pairs of a graph with the connection between two distinct faces removed
/// in both directions; a face stays connected to itself.
pub open spec fn without_connection(s: Set<(Face, Face)>, first: Face, second: Face) -> Set<(Face, Face)> {
    if first == second {
        s
    } else {
        s.remove((first, second)).remove((second, first))
    }
}

impl ChunkConnectivityGraph {
    pub closed spec fn row(self, face: Face) -> FaceSet {
        self.graph@[face.spec_as_usize() as int]
    }

    /// `true` if the two faces are connected.
    pub open spec fn spec_has(self, first: Face, second: Face) -> bool {
        self.row(first).spec_contains(second)
    }

    /// The graph as the set of its connected (ordered) pairs.
    pub open spec fn view(self) -> Set<(Face, Face)> {
        Set::new(|p: (Face, Face)| self.spec_has(p.0, p.1))
    }

    /// Every face is connected to itself, and connections have no direction.
    pub open spec fn wf(self) -> bool {
        &&& forall|f: Face| #[trigger] self.row(f).wf()
        &&& forall|f: Face| #[trigger] self.spec_has(f, f)
        &&& forall|a: Face, b: Face| #[trigger] self.spec_has(a, b) == self.spec_has(b, a)
    }

    /// Create an empty graph with no relationship between any faces (each face is still
    /// connected to itself). This represents a completely solid chunk.
    pub fn empty() -> (r: ChunkConnectivityGraph)
        ensures
            r.wf(),
            forall|a: Face, b: Face| #[trigger] r.spec_has(a, b) <==> a == b,
    {
        let graph = [
            FaceSet::from_face(Face::Top),
            FaceSet::from_face(Face::Bottom),
            FaceSet::from_face(Face::North),
            FaceSet::from_face(Face::East),
            FaceSet::from_face(Face::South),
            FaceSet::from_face(Face::West),
        ];
        let r = ChunkConnectivityGraph { graph };
        proof {
            assert forall|f: Face| #[trigger] r.row(f).wf() && (forall|g: Face| r.row(f).spec_contains(g) <==> g == f) by {
                match f {
                    Face::Top => {},
                    Face::Bottom => {},
                    Face::North => {},
                    Face::East => {},
                    Face::South => {},
                    Face::West => {},
                }
            }
        }
        r
    }

    /// Create a graph where all faces are connected to each other. This represents a completely
    /// empty chunk.
    pub fn filled() -> (r: ChunkConnectivityGraph)
        ensures
            r.wf(),
            forall|a: Face, b: Face| #[trigger] r.spec_has(a, b),
    {
        let all = FaceSet::all();
        let r = ChunkConnectivityGraph { graph: [all, all, all, all, all, all] };
        proof {
            assert forall|f: Face| r.row(f) == all by {
                match f {
                    Face::Top => {},
                    Face::Bottom => {},
                    Face::North => {},
                    Face::East => {},
                    Face::South => {},
                    Face::West => {},
                }
            }
        }
        r
    }

    /// Add a connection between two faces. The connection has no direction, so swapping the
    /// arguments has no effect.
    pub fn add_connection(&mut self, first: Face, second: Face)
        requires
            old(self).wf(),
        ensures
            final(self).wf(),
            final(self)@ == with_connection(old(self)@, first, second),
    {
        let i = first.as_usize();
        let j = second.as_usize();
        let ghost before = *self;
        assert(self.row(first).wf() && self.row(second).wf());
        let mut row_i = self.graph[i];
        row_i.insert(second);
        self.graph.set(i, row_i);
        let mut row_j = self.graph[j];
        row_j.insert(first);
        self.graph.set(j, row_j);
        proof {
            assert forall|f: Face| #[trigger] self.row(f) == (if f == first && f == second {
                row_j
            } else if f == second {
                row_j
            } else if f == first {
                row_i
            } else {
                before.row(f)
            }) by {
                lemma_face_index_roundtrip(f);
                lemma_face_index_roundtrip(first);
                lemma_face_index_roundtrip(second);
            }
            assert forall|a: Face, b: Face| #[trigger] self.spec_has(a, b) == (before.spec_has(a, b) || (a == first
                && b == second) || (a == second && b == first)) by {
                assert(self.row(a) == self.row(a));
                assert(before.row(a).wf());
            }
            assert forall|f: Face| #[trigger] self.row(f).wf() by {
                assert(before.row(f).wf());
            }
            assert(self@ =~= with_connection(before@, first, second));
        }
    }

    /// Remove a connection between two faces. The connection has no direction, so swapping the
    /// arguments has no effect. If both faces are the same this is a no-op, since a face is
    /// always accessible through itself.
    pub fn remove_connection(&mut self, first: Face, second: Face)
        requires
            old(self).wf(),
        ensures
            final(self).wf(),
            final(self)@ == without_connection(old(self)@, first, second),
    {
        if first == second {
            return;
        }
        let i = first.as_usize();
        let j = second.as_usize();
        let ghost before = *self;
        assert(self.row(first).wf() && self.row(second).wf());
        let mut row_i = self.graph[i];
        row_i.remove(second);
        self.graph.set(i, row_i);
        let mut row_j = self.graph[j];
        row_j.remove(first);
        self.graph.set(j, row_j);
        proof {
            assert forall|f: Face| #[trigger] self.row(f) == (if f == second {
                row_j
            } else if f == first {
                row_i
            } else {
                before.row(f)
            }) by {
                lemma_face_index_roundtrip(f);
                lemma_face_index_roundtrip(first);
                lemma_face_index_roundtrip(second);
            }
            assert forall|a: Face, b: Face| #[trigger] self.spec_has(a, b) == (before.spec_has(a, b) && !(a == first
                && b == second) && !(a == second && b == first)) by {
                assert(self.row(a) == self.row(a));
                assert(before.row(a).wf());
            }
            assert forall|f: Face| #[trigger] self.row(f).wf() by {
                assert(before.row(f).wf());
            }
            assert(self@ =~= without_connection(before@, first, second));
        }
    }

    /// Check if there's a connection between two faces. The connection has no direction, so
    /// swapping the arguments has no effect.
    pub fn has_connection(&self, first: Face, second: Face) -> (r: bool)
        ensures
            r == self.spec_has(first, second),
    {
        self.graph[first.as_usize()].contains(second)
    }

    /// Get all the faces connected to the given face (including itself).
    pub fn get_connections(&self, face: Face) -> (r: FaceSet)
        requires
            self.wf(),
        ensures
            r.wf(),
            forall|f: Face| #[trigger] r.spec_contains(f) == self.spec_has(face, f),
    {
        assert(self.row(face).wf());
        self.graph[face.as_usize()]
    }

    /// Returns `true` if this graph is "filled": every face is connected to every other face.
    pub fn is_filled(&self) -> (r: bool)
        requires
            self.wf(),
        ensures
            r == forall|a: Face, b: Face| #[trigger] self.spec_has(a, b),
    {
        let fs = faces();
        let mut i: usize = 0;
        while i < 6
            invariant
                0 <= i <= 6,
                self.wf(),
                forall|k: int| 0 <= k < 6 ==> (#[trigger] fs@[k]).spec_as_usize() == k,
                forall|a: Face, b: Face| a.spec_as_usize() < i ==> #[trigger] self.spec_has(a, b),
            decreases 6 - i,
        {
            let f = fs[i];
            assert(self.row(f).wf());
            let row = self.graph[i];
            assert(row == self.row(f));
            if !row.is_all() {
                proof {
                    let b = choose|b: Face| !row.spec_contains(b);
                    assert(!self.spec_has(f, b));
                }
                return false;
            }
            proof {
                assert forall|a: Face, b: Face| a.spec_as_usize() < i + 1 implies #[trigger] self.spec_has(a, b) by {
                    if a.spec_as_usize() == i {
                        lemma_face_index_roundtrip(a);
                        lemma_face_index_roundtrip(f);
                    }
                }
            }
            i = i + 1;
        }
        proof {
            assert forall|a: Face, b: Face| #[trigger] self.spec_has(a, b) by {
                lemma_face_index_roundtrip(a);
            }
        }
        true
    }
}

/// Connections have no direction: adding a connection in one direction gives the same graph as
/// adding it in the other.
pub proof fn lemma_add_connection_is_undirected(g: Set<(Face, Face)>, a: Face, b: Face)
    ensures
        with_connection(g, a, b) == with_connection(g, b, a),
{
    assert(with_connection(g, a, b) =~= with_connection(g, b, a));
}

/// Removing a connection between two distinct faces undoes adding it: afterwards the two faces
/// are connected in neither direction.
pub proof fn lemma_remove_after_add(g: Set<(Face, Face)>, a: Face, b: Face)
    requires
        a != b,
    ensures
        !without_connection(with_connection(g, a, b), a, b).contains((a, b)),
        !without_connection(with_connection(g, a, b), a, b).contains((b, a)),
        forall|p: (Face, Face)| p != (a, b) && p != (b, a) ==> (#[trigger] without_connection(with_connection(g, a, b), a, b).contains(p) == g.contains(p)),
{
}

/// In a well-formed graph, connections read the same in both directions, and every face is
/// connected to itself.
pub proof fn lemma_graph_undirected(g: ChunkConnectivityGraph, a: Face, b: Face)
    requires
        g.wf(),
    ensures
        g@.contains((a, b)) == g@.contains((b, a)),
        g@.contains((a, a)),
{
    assert(g.spec_has(a, b) == g.spec_has(b, a));
    assert(g.spec_has(a, a));
}


/// Number of cells of a fill grid: one per microblock of a chunk.
pub const FILL_GRID_LEN: usize = 262144;

/// Marks a cell of the fill grid that no region has filled yet.
pub const UNFILLED: u32 = 0xFFFF_FFFF;

/// The cell of the fill grid that holds a microblock position of a chunk.
pub open spec fn fill_cell(p: IVec3) -> int {
    p.x * 4096 + p.y * 64 + p.z
}

/// The coordinate, along the face's axis, of the microblocks touching a face from the inside.
pub open spec fn interior_magnitude(face: Face) -> i32 {
    if face.spec_axis_direction() > 0 {
        63
    } else {
        0
    }
}

/// `true` if the microblock position touches the given face from the inside of the chunk.
pub open spec fn touches_interior_face(p: IVec3, face: Face) -> bool {
    match face.spec_axis() {
        Axis3D::X => p.x == interior_magnitude(face),
        Axis3D::Y => p.y == interior_magnitude(face),
        Axis3D::Z => p.z == interior_magnitude(face),
    }
}

/// The microblock at `p` lies in the chunk, and the opacity test was seen to call it transparent.
pub open spec fn observed_transparent<C: GenericChunkReadAccess, F: Fn(BlockVariantId) -> bool>(
    chunk: C,
    is_opaque: F,
    p: IVec3,
) -> bool {
    &&& in_chunk_mb(p)
    &&& match chunk.spec_get_mb(p) {
        Ok(b) => call_ensures(is_opaque, (b,), false),
        Err(_) => false,
    }
}

/// The microblock at `p` lies in the chunk, and the opacity test calls it transparent whenever
/// it is asked.
pub open spec fn surely_transparent<C: GenericChunkReadAccess, F: Fn(BlockVariantId) -> bool>(
    chunk: C,
    is_opaque: F,
    p: IVec3,
) -> bool {
    &&& in_chunk_mb(p)
    &&& match chunk.spec_get_mb(p) {
        Ok(b) => forall|r: bool| call_ensures(is_opaque, (b,), r) ==> !r,
        Err(_) => false,
    }
}

/// Two microblock positions sharing a face: they differ by one in exactly one coordinate.
pub open spec fn fill_adjacent(a: IVec3, b: IVec3) -> bool {
    ||| (a.y == b.y && a.z == b.z && (a.x - b.x == 1 || b.x - a.x == 1))
    ||| (a.x == b.x && a.z == b.z && (a.y - b.y == 1 || b.y - a.y == 1))
    ||| (a.x == b.x && a.y == b.y && (a.z - b.z == 1 || b.z - a.z == 1))
}

/// The step from `path[i]` to `path[i + 1]` is one the flood fill takes.
pub open spec fn fill_step(path: Seq<IVec3>, i: int) -> bool {
    fill_adjacent(path[i], path[i + 1])
}

/// A nonempty sequence of transparent microblocks, each a fill step away from the previous one.
pub open spec fn is_fill_path<C: GenericChunkReadAccess, F: Fn(BlockVariantId) -> bool>(
    chunk: C,
    is_opaque: F,
    path: Seq<IVec3>,
) -> bool {
    &&& path.len() > 0
    &&& forall|i: int| 0 <= i < path.len() ==> #[trigger] observed_transparent(chunk, is_opaque, path[i])
    &&& forall|i: int| 0 <= i < path.len() - 1 ==> #[trigger] fill_step(path, i)
}

/// A fill path leads from `a` to `b`.
pub open spec fn fill_connected<C: GenericChunkReadAccess, F: Fn(BlockVariantId) -> bool>(
    chunk: C,
    is_opaque: F,
    a: IVec3,
    b: IVec3,
) -> bool {
    exists|path: Seq<IVec3>| #[trigger] is_fill_path(chunk, is_opaque, path) && path[0] == a && path.last() == b
}

/// A fill path leads from a microblock touching face `a` to a microblock touching face `b`.
pub open spec fn faces_linked<C: GenericChunkReadAccess, F: Fn(BlockVariantId) -> bool>(
    chunk: C,
    is_opaque: F,
    a: Face,
    b: Face,
) -> bool {
    exists|p: IVec3, q: IVec3|
        touches_interior_face(p, a) && touches_interior_face(q, b) && #[trigger] fill_connected(chunk, is_opaque, p, q)
}

/// Two distinct faces are connected only if a fill path of transparent microblocks leads from
/// one to the other.
pub open spec fn graph_sound<C: GenericChunkReadAccess, F: Fn(BlockVariantId) -> bool>(
    chunk: C,
    is_opaque: F,
    g: ChunkConnectivityGraph,
) -> bool {
    forall|a: Face, b: Face| a != b && #[trigger] g.spec_has(a, b) ==> faces_linked(chunk, is_opaque, a, b)
}

proof fn lemma_fill_connected_refl<C: GenericChunkReadAccess, F: Fn(BlockVariantId) -> bool>(
    chunk: C,
    is_opaque: F,
    a: IVec3,
)
    requires
        observed_transparent(chunk, is_opaque, a),
    ensures
        fill_connected(chunk, is_opaque, a, a),
{
    let path = seq![a];
    assert(is_fill_path(chunk, is_opaque, path));
}

proof fn lemma_fill_connected_step<C: GenericChunkReadAccess, F: Fn(BlockVariantId) -> bool>(
    chunk: C,
    is_opaque: F,
    a: IVec3,
    b: IVec3,
    c: IVec3,
)
    requires
        fill_connected(chunk, is_opaque, a, b),
        fill_adjacent(b, c),
        observed_transparent(chunk, is_opaque, c),
    ensures
        fill_connected(chunk, is_opaque, a, c),
{
    let path = choose|path: Seq<IVec3>| #[trigger] is_fill_path(chunk, is_opaque, path) && path[0] == a && path.last() == b;
    let longer = path.push(c);
    assert forall|i: int| 0 <= i < longer.len() implies #[trigger] observed_transparent(chunk, is_opaque, longer[i]) by {
        if i < path.len() {
            assert(longer[i] == path[i]);
        }
    }
    assert forall|i: int| 0 <= i < longer.len() - 1 implies #[trigger] fill_step(longer, i) by {
        if i < path.len() - 1 {
            assert(fill_step(path, i));
        }
    }
    assert(is_fill_path(chunk, is_opaque, longer));
}

proof fn lemma_fill_connected_symmetric<C: GenericChunkReadAccess, F: Fn(BlockVariantId) -> bool>(
    chunk: C,
    is_opaque: F,
    a: IVec3,
    b: IVec3,
)
    requires
        fill_connected(chunk, is_opaque, a, b),
    ensures
        fill_connected(chunk, is_opaque, b, a),
{
    let path = choose|path: Seq<IVec3>| #[trigger] is_fill_path(chunk, is_opaque, path) && path[0] == a && path.last() == b;
    let n = path.len() as int;
    let back = Seq::new(path.len(), |i: int| path[n - 1 - i]);
    assert forall|i: int| 0 <= i < back.len() implies #[trigger] observed_transparent(chunk, is_opaque, back[i]) by {
        assert(observed_transparent(chunk, is_opaque, path[n - 1 - i]));
    }
    assert forall|i: int| 0 <= i < back.len() - 1 implies #[trigger] fill_step(back, i) by {
        assert(fill_step(path, n - 2 - i));
    }
    assert(is_fill_path(chunk, is_opaque, back));
}

proof fn lemma_fill_connected_trans<C: GenericChunkReadAccess, F: Fn(BlockVariantId) -> bool>(
    chunk: C,
    is_opaque: F,
    a: IVec3,
    b: IVec3,
    c: IVec3,
)
    requires
        fill_connected(chunk, is_opaque, a, b),
        fill_connected(chunk, is_opaque, b, c),
    ensures
        fill_connected(chunk, is_opaque, a, c),
{
    let p1 = choose|path: Seq<IVec3>| #[trigger] is_fill_path(chunk, is_opaque, path) && path[0] == a && path.last() == b;
    let p2 = choose|path: Seq<IVec3>| #[trigger] is_fill_path(chunk, is_opaque, path) && path[0] == b && path.last() == c;
    let n1 = p1.len() as int;
    let joined = p1 + p2.subrange(1, p2.len() as int);
    assert forall|i: int| 0 <= i < joined.len() implies #[trigger] observed_transparent(chunk, is_opaque, joined[i]) by {
        if i < n1 {
            assert(joined[i] == p1[i]);
        } else {
            assert(joined[i] == p2[i - n1 + 1]);
        }
    }
    assert forall|i: int| 0 <= i < joined.len() - 1 implies #[trigger] fill_step(joined, i) by {
        if i < n1 - 1 {
            assert(fill_step(p1, i));
        } else if i == n1 - 1 {
            assert(fill_step(p2, 0));
        } else {
            assert(fill_step(p2, i - n1 + 1));
        }
    }
    assert(is_fill_path(chunk, is_opaque, joined));
    if p2.len() == 1 {
        assert(joined.last() == p1.last());
    } else {
        assert(joined.last() == p2.last());
    }
}

/// Some cell of region `r` touches `face`.
pub open spec fn region_touches(grid: Seq<u32>, r: int, face: Face) -> bool {
    exists|p: IVec3| in_chunk_mb(p) && #[trigger] grid[fill_cell(p)] == r && touches_interior_face(p, face)
}

/// The state of a flood fill: every filled cell names a known region, is reached by a fill path
/// from the seed of its region, and has the faces it touches in its region's face set; and each
/// region's face set holds only faces that a cell of the region touches.
pub open spec fn fill_ok<C: GenericChunkReadAccess, F: Fn(BlockVariantId) -> bool>(
    chunk: C,
    is_opaque: F,
    grid: Seq<u32>,
    regions: Seq<FaceSet>,
    seeds: Seq<IVec3>,
) -> bool {
    &&& grid.len() == FILL_GRID_LEN
    &&& regions.len() < UNFILLED
    &&& regions.len() <= seeds.len()
    &&& forall|p: IVec3|
        in_chunk_mb(p) && #[trigger] grid[fill_cell(p)] != UNFILLED ==> observed_transparent(chunk, is_opaque, p)
            && fill_connected(chunk, is_opaque, seeds[grid[fill_cell(p)] as int], p) && (forall|f: Face|
            #[trigger] touches_interior_face(p, f) ==> regions[grid[fill_cell(p)] as int].spec_contains(f))
    &&& forall|i: int| 0 <= i < grid.len() ==> #[trigger] grid[i] == UNFILLED || grid[i] < regions.len()
    &&& forall|r: int| 0 <= r < regions.len() ==> #[trigger] regions[r].wf()
    &&& forall|r: int, f: Face|
        0 <= r < regions.len() && #[trigger] regions[r].spec_contains(f) ==> region_touches(grid, r, f)
}

/// The number of unfilled cells of a fill grid.
pub open spec fn count_unfilled(s: Seq<u32>) -> nat
    decreases s.len(),
{
    if s.len() == 0 {
        0
    } else {
        count_unfilled(s.drop_last()) + (if s.last() == UNFILLED {
            1nat
        } else {
            0nat
        })
    }
}

proof fn lemma_count_unfilled_update(s: Seq<u32>, i: int, v: u32)
    requires
        0 <= i < s.len(),
        s[i] == UNFILLED,
        v != UNFILLED,
    ensures
        count_unfilled(s.update(i, v)) + 1 == count_unfilled(s),
    decreases s.len(),
{
    if i == s.len() - 1 {
        assert(s.update(i, v).drop_last() =~= s.drop_last());
    } else {
        lemma_count_unfilled_update(s.drop_last(), i, v);
        assert(s.update(i, v).drop_last() =~= s.drop_last().update(i, v));
    }
}

proof fn lemma_fill_cell(p: IVec3, q: IVec3)
    requires
        in_chunk_mb(p),
        in_chunk_mb(q),
    ensures
        0 <= fill_cell(p) < FILL_GRID_LEN,
        fill_cell(p) == fill_cell(q) ==> p == q,
{
}

fn fill_index(p: IVec3) -> (r: usize)
    requires
        in_chunk_mb(p),
    ensures
        r == fill_cell(p),
        r < FILL_GRID_LEN,
{
    proof {
        lemma_fill_cell(p, p);
    }
    (p.x * 4096 + p.y * 64 + p.z) as usize
}

/// Get the 3D microblock position of `mb_face_pos` on the interior `face` of a chunk: the
/// microblock inside the chunk "touching" the face at that 2D position.
fn interior_chunk_face_mb_position(mb_face_pos: IVec2, face: Face) -> (r: IVec3)
    ensures
        r == spec_project_to_3d(mb_face_pos, face, interior_magnitude(face)),
{
    let mag: i32 = if face.axis_direction() > 0 {
        63
    } else {
        0
    };
    ivec_project_to_3d(mb_face_pos, face, mag)
}

/// Check if a 3D microblock position is touching the given interior face.
fn is_touching_interior_face(mb_pos: IVec3, face: Face) -> (r: bool)
    ensures
        r == touches_interior_face(mb_pos, face),
{
    let mag: i32 = if face.axis_direction() > 0 {
        63
    } else {
        0
    };
    match face.axis() {
        Axis3D::X => mb_pos.x == mag,
        Axis3D::Y => mb_pos.y == mag,
        Axis3D::Z => mb_pos.z == mag,
    }
}

/// The set of all the interior chunk faces the given microblock position touches (at most 3,
/// if the microblock is in a corner).
fn faceset_of_touched_faces(mb_pos: IVec3) -> (r: FaceSet)
    ensures
        r.wf(),
        forall|f: Face| #[trigger] r.spec_contains(f) == touches_interior_face(mb_pos, f),
{
    let fs = faces();
    let mut faceset = FaceSet::empty();
    let mut i: usize = 0;
    while i < 6
        invariant
            0 <= i <= 6,
            faceset.wf(),
            forall|k: int| 0 <= k < 6 ==> (#[trigger] fs@[k]).spec_as_usize() == k,
            forall|f: Face|
                #[trigger] faceset.spec_contains(f) == (f.spec_as_usize() < i && touches_interior_face(mb_pos, f)),
        decreases 6 - i,
    {
        let face = fs[i];
        let ghost before = faceset;
        if is_touching_interior_face(mb_pos, face) {
            faceset.insert(face);
        }
        proof {
            assert forall|f: Face|
                #[trigger] faceset.spec_contains(f) == (f.spec_as_usize() < i + 1 && touches_interior_face(mb_pos, f)) by {
                assert(before.spec_contains(f) == (f.spec_as_usize() < i && touches_interior_face(mb_pos, f)));
                if f.spec_as_usize() == i {
                    lemma_face_index_roundtrip(f);
                    lemma_face_index_roundtrip(face);
                }
            }
        }
        i = i + 1;
    }
    faceset
}

/// `true` if the position lies in the chunk, is not filled yet, and the opacity test calls its
/// microblock transparent.
fn is_fillable<C: GenericChunkReadAccess, F: Fn(BlockVariantId) -> bool>(
    chunk: &C,
    is_opaque: &F,
    grid: &Vec<u32>,
    p: IVec3,
) -> (r: bool)
    requires
        grid@.len() == FILL_GRID_LEN,
        forall|b: BlockVariantId| call_requires(*is_opaque, (b,)),
    ensures
        r ==> in_chunk_mb(p) && grid@[fill_cell(p)] == UNFILLED && observed_transparent(*chunk, *is_opaque, p),
        in_chunk_mb(p) && grid@[fill_cell(p)] == UNFILLED && surely_transparent(*chunk, *is_opaque, p) ==> r,
{
    if !(0 <= p.x && p.x < 64 && 0 <= p.y && p.y < 64 && 0 <= p.z && p.z < 64) {
        return false;
    }
    let idx = fill_index(p);
    if grid[idx] != UNFILLED {
        return false;
    }
    match chunk.get_mb(p) {
        Ok(block) => !is_opaque(block),
        Err(_) => false,
    }
}

/// Mark a position as filled by `region`, creating the region's face set on its first cell and
/// adding every face the position touches.
fn set_filled<C: GenericChunkReadAccess, F: Fn(BlockVariantId) -> bool>(
    chunk: &C,
    is_opaque: &F,
    grid: &mut Vec<u32>,
    regions: &mut Vec<FaceSet>,
    region: u32,
    p: IVec3,
    Ghost(seeds): Ghost<Seq<IVec3>>,
)
    requires
        fill_ok(*chunk, *is_opaque, old(grid)@, old(regions)@, seeds),
        old(regions)@.len() == region || old(regions)@.len() == region + 1,
        region + 1 < UNFILLED,
        region < seeds.len(),
        in_chunk_mb(p),
        old(grid)@[fill_cell(p)] == UNFILLED,
        observed_transparent(*chunk, *is_opaque, p),
        fill_connected(*chunk, *is_opaque, seeds[region as int], p),
    ensures
        fill_ok(*chunk, *is_opaque, final(grid)@, final(regions)@, seeds),
        final(grid)@ == old(grid)@.update(fill_cell(p), region),
        final(regions)@.len() == region + 1,
        forall|r: int| 0 <= r < region ==> final(regions)@[r] == old(regions)@[r],
        count_unfilled(final(grid)@) + 1 == count_unfilled(old(grid)@),
{
    let ghost g0 = grid@;
    let ghost r0 = regions@;
    let idx = fill_index(p);
    grid.set(idx, region);
    if regions.len() == region as usize {
        regions.push(FaceSet::empty());
    }
    let touched = faceset_of_touched_faces(p);
    let ri = region as usize;
    let merged = regions[ri].union(touched);
    regions.set(ri, merged);
    proof {
        lemma_count_unfilled_update(g0, fill_cell(p), region);
        let g1 = grid@;
        assert forall|q: IVec3| in_chunk_mb(q) && #[trigger] g1[fill_cell(q)] != UNFILLED implies observed_transparent(
            *chunk,
            *is_opaque,
            q,
        ) && fill_connected(*chunk, *is_opaque, seeds[g1[fill_cell(q)] as int], q) by {
            lemma_fill_cell(p, q);
            if fill_cell(q) != fill_cell(p) {
                assert(g0[fill_cell(q)] != UNFILLED);
            }
        }
        assert forall|r: int, f: Face|
            0 <= r < regions@.len() && #[trigger] regions@[r].spec_contains(f) implies region_touches(grid@, r, f) by {
            if r < region || (r == region && r0.len() == region + 1 && r0[r].spec_contains(f)) {
                assert(region_touches(g0, r, f));
                let q = choose|q: IVec3| in_chunk_mb(q) && #[trigger] g0[fill_cell(q)] == r && touches_interior_face(q, f);
                lemma_fill_cell(p, q);
                assert(g1[fill_cell(q)] == r);
            } else {
                assert(touched.spec_contains(f));
                lemma_fill_cell(p, p);
                assert(g1[fill_cell(p)] == r);
            }
        }
        assert forall|i: int| 0 <= i < g1.len() implies #[trigger] g1[i] == UNFILLED || g1[i] < regions@.len() by {
            if i != fill_cell(p) {
                assert(g0[i] == UNFILLED || g0[i] < r0.len());
            }
        }
    }
}

/// The position lies in the chunk, is not filled yet, and the opacity test calls its microblock
/// transparent whenever it is asked: the fill test surely accepts it.
pub open spec fn surely_fillable<C: GenericChunkReadAccess, F: Fn(BlockVariantId) -> bool>(
    chunk: C,
    is_opaque: F,
    grid: Seq<u32>,
    p: IVec3,
) -> bool {
    in_chunk_mb(p) && grid[fill_cell(p)] == UNFILLED && surely_transparent(chunk, is_opaque, p)
}

/// A nonempty sequence of microblocks that the opacity test surely calls transparent, each
/// sharing a face with the previous one.
pub open spec fn is_sure_path<C: GenericChunkReadAccess, F: Fn(BlockVariantId) -> bool>(
    chunk: C,
    is_opaque: F,
    path: Seq<IVec3>,
) -> bool {
    &&& path.len() > 0
    &&& forall|i: int| 0 <= i < path.len() ==> #[trigger] surely_transparent(chunk, is_opaque, path[i])
    &&& forall|i: int| 0 <= i < path.len() - 1 ==> #[trigger] fill_step(path, i)
}

/// A path of surely transparent microblocks leads from `a` to `b`.
pub open spec fn surely_connected<C: GenericChunkReadAccess, F: Fn(BlockVariantId) -> bool>(
    chunk: C,
    is_opaque: F,
    a: IVec3,
    b: IVec3,
) -> bool {
    exists|path: Seq<IVec3>| #[trigger] is_sure_path(chunk, is_opaque, path) && path[0] == a && path.last() == b
}

/// Every region numbered below `done` is closed: each surely transparent neighbor of a surely
/// transparent cell of such a region belongs to the same region.
pub open spec fn regions_closed<C: GenericChunkReadAccess, F: Fn(BlockVariantId) -> bool>(
    chunk: C,
    is_opaque: F,
    grid: Seq<u32>,
    done: int,
) -> bool {
    forall|p: IVec3, q: IVec3|
        #[trigger] fill_adjacent(p, q) && in_chunk_mb(p) && grid[fill_cell(p)] < done && surely_transparent(
            chunk,
            is_opaque,
            p,
        ) && surely_transparent(chunk, is_opaque, q) ==> grid[fill_cell(q)] == grid[fill_cell(p)]
}

/// Along a path of surely transparent microblocks that starts in a closed region, every
/// microblock lies in that region.
proof fn lemma_sure_path_in_region<C: GenericChunkReadAccess, F: Fn(BlockVariantId) -> bool>(
    chunk: C,
    is_opaque: F,
    grid: Seq<u32>,
    done: int,
    path: Seq<IVec3>,
    k: int,
)
    requires
        regions_closed(chunk, is_opaque, grid, done),
        is_sure_path(chunk, is_opaque, path),
        grid[fill_cell(path[0])] < done,
        0 <= k < path.len(),
    ensures
        grid[fill_cell(path[k])] == grid[fill_cell(path[0])],
    decreases k,
{
    if k > 0 {
        lemma_sure_path_in_region(chunk, is_opaque, grid, done, path, k - 1);
        assert(fill_step(path, k - 1));
        assert(surely_transparent(chunk, is_opaque, path[k - 1]));
        assert(surely_transparent(chunk, is_opaque, path[k]));
        assert(fill_adjacent(path[k - 1], path[k]));
    }
}

/// A microblock surely connected to a cell of a closed region lies in that region.
proof fn lemma_surely_connected_in_region<C: GenericChunkReadAccess, F: Fn(BlockVariantId) -> bool>(
    chunk: C,
    is_opaque: F,
    grid: Seq<u32>,
    done: int,
    p: IVec3,
    q: IVec3,
)
    requires
        regions_closed(chunk, is_opaque, grid, done),
        surely_connected(chunk, is_opaque, p, q),
        grid[fill_cell(p)] < done,
    ensures
        grid[fill_cell(q)] == grid[fill_cell(p)],
{
    let path = choose|path: Seq<IVec3>| #[trigger] is_sure_path(chunk, is_opaque, path) && path[0] == p && path.last() == q;
    lemma_sure_path_in_region(chunk, is_opaque, grid, done, path, path.len() - 1);
}

/// Both ends of a sure path are surely transparent.
proof fn lemma_surely_connected_ends<C: GenericChunkReadAccess, F: Fn(BlockVariantId) -> bool>(
    chunk: C,
    is_opaque: F,
    p: IVec3,
    q: IVec3,
)
    requires
        surely_connected(chunk, is_opaque, p, q),
    ensures
        surely_transparent(chunk, is_opaque, p),
        surely_transparent(chunk, is_opaque, q),
{
    let path = choose|path: Seq<IVec3>| #[trigger] is_sure_path(chunk, is_opaque, path) && path[0] == p && path.last() == q;
    assert(surely_transparent(chunk, is_opaque, path[0]));
    assert(surely_transparent(chunk, is_opaque, path[path.len() - 1]));
}

/// The six microblock positions sharing a face with `p`, in the order of the faces' normals.
pub open spec fn face_neighbors(p: IVec3) -> Seq<IVec3> {
    seq![
        IVec3 { x: p.x, y: (p.y + 1) as i32, z: p.z },
        IVec3 { x: p.x, y: (p.y - 1) as i32, z: p.z },
        IVec3 { x: (p.x + 1) as i32, y: p.y, z: p.z },
        IVec3 { x: p.x, y: p.y, z: (p.z + 1) as i32 },
        IVec3 { x: (p.x - 1) as i32, y: p.y, z: p.z },
        IVec3 { x: p.x, y: p.y, z: (p.z - 1) as i32 },
    ]
}

proof fn lemma_face_neighbors(p: IVec3, q: IVec3)
    requires
        in_chunk_mb(p),
    ensures
        fill_adjacent(p, q) <==> face_neighbors(p).contains(q),
        forall|j: int| 0 <= j < 6 ==> fill_adjacent(p, #[trigger] face_neighbors(p)[j]),
{
    let n = face_neighbors(p);
    assert(n.len() == 6);
    if fill_adjacent(p, q) {
        let j: int = if q.y == p.y + 1 {
            0
        } else if q.y == p.y - 1 {
            1
        } else if q.x == p.x + 1 {
            2
        } else if q.z == p.z + 1 {
            3
        } else if q.x == p.x - 1 {
            4
        } else {
            5
        };
        assert(n[j] == q);
    }
    if n.contains(q) {
        let j = choose|j: int| 0 <= j < n.len() && n[j] == q;
        assert(fill_adjacent(p, n[j]));
    }
}

/// Queue the six positions sharing a face with `pos`.
fn push_face_neighbors(pos: IVec3, queue: &mut VecDeque<IVec3>)
    requires
        in_chunk_mb(pos),
    ensures
        final(queue)@ == old(queue)@ + face_neighbors(pos),
{
    queue.push_back(ivec3(pos.x, pos.y + 1, pos.z));
    queue.push_back(ivec3(pos.x, pos.y - 1, pos.z));
    queue.push_back(ivec3(pos.x + 1, pos.y, pos.z));
    queue.push_back(ivec3(pos.x, pos.y, pos.z + 1));
    queue.push_back(ivec3(pos.x - 1, pos.y, pos.z));
    queue.push_back(ivec3(pos.x, pos.y, pos.z - 1));
    assert(queue@ =~= old(queue)@ + face_neighbors(pos));
}

/// A flood fill that steps between microblocks sharing a face, visiting positions in the order
/// they were queued. Every cell it fills is marked with `region` and is reached by a fill path
/// from `initial_pos`; afterwards the region is closed: every surely transparent neighbor of a
/// surely transparent cell of the region is in the region too.
fn classic_flood_fill<C: GenericChunkReadAccess, F: Fn(BlockVariantId) -> bool>(
    initial_pos: IVec3,
    chunk: &C,
    is_opaque: &F,
    grid: &mut Vec<u32>,
    regions: &mut Vec<FaceSet>,
    region: u32,
    queue: &mut VecDeque<IVec3>,
    Ghost(seeds): Ghost<Seq<IVec3>>,
)
    requires
        old(queue)@.len() == 0,
        fill_ok(*chunk, *is_opaque, old(grid)@, old(regions)@, seeds),
        old(regions)@.len() == region,
        region + 1 < UNFILLED,
        seeds.len() == region + 1,
        seeds[region as int] == initial_pos,
        forall|b: BlockVariantId| call_requires(*is_opaque, (b,)),
        regions_closed(*chunk, *is_opaque, old(grid)@, region as int),
    ensures
        fill_ok(*chunk, *is_opaque, final(grid)@, final(regions)@, seeds),
        regions_closed(*chunk, *is_opaque, final(grid)@, final(regions)@.len() as int),
        final(regions)@.len() == region || final(regions)@.len() == region + 1,
        final(regions)@.len() == region ==> final(grid)@ == old(grid)@,
        final(regions)@.len() == region + 1 ==> observed_transparent(*chunk, *is_opaque, initial_pos),
        final(queue)@.len() == 0,
        surely_fillable(*chunk, *is_opaque, old(grid)@, initial_pos) ==> final(grid)@[fill_cell(initial_pos)] == region,
{
    if !is_fillable(chunk, is_opaque, grid, initial_pos) {
        return;
    }
    let ghost g0 = grid@;
    proof {
        lemma_fill_connected_refl(*chunk, *is_opaque, initial_pos);
    }
    set_filled(chunk, is_opaque, grid, regions, region, initial_pos, Ghost(seeds));
    push_face_neighbors(initial_pos, queue);
    let ghost mut parents: Seq<IVec3> = Seq::new(6, |j: int| initial_pos);
    proof {
        lemma_face_neighbors(initial_pos, initial_pos);
        lemma_fill_cell(initial_pos, initial_pos);
        assert forall|p: IVec3, q: IVec3|
            #[trigger] fill_adjacent(p, q) && in_chunk_mb(p) && grid@[fill_cell(p)] == region && surely_transparent(
                *chunk,
                *is_opaque,
                p,
            ) && surely_transparent(*chunk, *is_opaque, q) implies grid@[fill_cell(q)] == region || queue@.contains(q) by {
            lemma_fill_cell(p, initial_pos);
            if p != initial_pos {
                assert(g0[fill_cell(p)] == UNFILLED || g0[fill_cell(p)] < region);
            }
            lemma_face_neighbors(initial_pos, q);
        }
        assert forall|p: IVec3, q: IVec3|
            #[trigger] fill_adjacent(p, q) && in_chunk_mb(p) && grid@[fill_cell(p)] < region && surely_transparent(
                *chunk,
                *is_opaque,
                p,
            ) && surely_transparent(*chunk, *is_opaque, q) implies grid@[fill_cell(q)] == grid@[fill_cell(p)] by {
            lemma_fill_cell(p, initial_pos);
            lemma_fill_cell(q, initial_pos);
            assert(g0[fill_cell(q)] == g0[fill_cell(p)]);
        }
    }
    loop
        invariant
            fill_ok(*chunk, *is_opaque, grid@, regions@, seeds),
            regions@.len() == region + 1,
            region + 1 < UNFILLED,
            seeds.len() == region + 1,
            seeds[region as int] == initial_pos,
            forall|b: BlockVariantId| call_requires(*is_opaque, (b,)),
            in_chunk_mb(initial_pos),
            observed_transparent(*chunk, *is_opaque, initial_pos),
            grid@[fill_cell(initial_pos)] == region,
            regions_closed(*chunk, *is_opaque, grid@, region as int),
            parents.len() == queue@.len(),
            forall|j: int|
                0 <= j < parents.len() ==> in_chunk_mb(#[trigger] parents[j]) && grid@[fill_cell(parents[j])] == region
                    && fill_adjacent(parents[j], queue@[j]),
            forall|p: IVec3, q: IVec3|
                #[trigger] fill_adjacent(p, q) && in_chunk_mb(p) && grid@[fill_cell(p)] == region && surely_transparent(
                    *chunk,
                    *is_opaque,
                    p,
                ) && surely_transparent(*chunk, *is_opaque, q) ==> grid@[fill_cell(q)] == region || queue@.contains(q),
        ensures
            fill_ok(*chunk, *is_opaque, grid@, regions@, seeds),
            regions@.len() == region + 1,
            observed_transparent(*chunk, *is_opaque, initial_pos),
            grid@[fill_cell(initial_pos)] == region,
            regions_closed(*chunk, *is_opaque, grid@, region as int),
            queue@.len() == 0,
            forall|p: IVec3, q: IVec3|
                #[trigger] fill_adjacent(p, q) && in_chunk_mb(p) && grid@[fill_cell(p)] == region && surely_transparent(
                    *chunk,
                    *is_opaque,
                    p,
                ) && surely_transparent(*chunk, *is_opaque, q) ==> grid@[fill_cell(q)] == region || queue@.contains(q),
        decreases count_unfilled(grid@), queue@.len(),
    {
        let ghost q0 = queue@;
        let ghost gb = grid@;
        let ghost pb = parents;
        match queue.pop_front() {
            None => {
                break;
            },
            Some(pos) => {
                proof {
                    parents = pb.subrange(1, pb.len() as int);
                    assert(queue@ =~= q0.subrange(1, q0.len() as int));
                }
                if is_fillable(chunk, is_opaque, grid, pos) {
                    let ghost parent = pb[0];
                    proof {
                        assert(in_chunk_mb(parent) && gb[fill_cell(parent)] == region && fill_adjacent(parent, pos));
                        assert(fill_connected(*chunk, *is_opaque, seeds[region as int], parent));
                        lemma_fill_connected_step(*chunk, *is_opaque, seeds[region as int], parent, pos);
                    }
                    set_filled(chunk, is_opaque, grid, regions, region, pos, Ghost(seeds));
                    let ghost q1 = queue@;
                    push_face_neighbors(pos, queue);
                    proof {
                        let g1 = grid@;
                        lemma_fill_cell(pos, initial_pos);
                        lemma_face_neighbors(pos, pos);
                        parents = parents + Seq::new(6, |j: int| pos);
                        assert forall|j: int| 0 <= j < parents.len() implies in_chunk_mb(#[trigger] parents[j])
                            && g1[fill_cell(parents[j])] == region && fill_adjacent(parents[j], queue@[j]) by {
                            if j < q1.len() {
                                assert(parents[j] == pb[j + 1]);
                                assert(queue@[j] == q0[j + 1]);
                                lemma_fill_cell(parents[j], pos);
                            } else {
                                assert(parents[j] == pos);
                                assert(queue@[j] == face_neighbors(pos)[j - q1.len()]);
                            }
                        }
                        assert forall|p: IVec3, q: IVec3|
                            #[trigger] fill_adjacent(p, q) && in_chunk_mb(p) && g1[fill_cell(p)] < region
                                && surely_transparent(*chunk, *is_opaque, p) && surely_transparent(*chunk, *is_opaque, q)
                            implies g1[fill_cell(q)] == g1[fill_cell(p)] by {
                            lemma_fill_cell(p, pos);
                            lemma_fill_cell(q, pos);
                            assert(gb[fill_cell(q)] == gb[fill_cell(p)]);
                        }
                        assert forall|p: IVec3, q: IVec3|
                            #[trigger] fill_adjacent(p, q) && in_chunk_mb(p) && g1[fill_cell(p)] == region
                                && surely_transparent(*chunk, *is_opaque, p) && surely_transparent(*chunk, *is_opaque, q)
                            implies g1[fill_cell(q)] == region || queue@.contains(q) by {
                            lemma_fill_cell(p, pos);
                            lemma_fill_cell(q, pos);
                            if p == pos {
                                lemma_face_neighbors(pos, q);
                                let j = choose|j: int| 0 <= j < face_neighbors(pos).len() && face_neighbors(pos)[j] == q;
                                assert(queue@[q1.len() + j] == q);
                            } else {
                                assert(gb[fill_cell(p)] == region);
                                if gb[fill_cell(q)] != region {
                                    assert(q0.contains(q));
                                    let j = choose|j: int| 0 <= j < q0.len() && q0[j] == q;
                                    if j > 0 {
                                        assert(queue@[j - 1] == q);
                                    }
                                }
                            }
                        }
                    }
                } else {
                    proof {
                        assert forall|j: int| 0 <= j < parents.len() implies in_chunk_mb(#[trigger] parents[j])
                            && grid@[fill_cell(parents[j])] == region && fill_adjacent(parents[j], queue@[j]) by {
                            assert(parents[j] == pb[j + 1]);
                            assert(queue@[j] == q0[j + 1]);
                        }
                        assert forall|p: IVec3, q: IVec3|
                            #[trigger] fill_adjacent(p, q) && in_chunk_mb(p) && grid@[fill_cell(p)] == region
                                && surely_transparent(*chunk, *is_opaque, p) && surely_transparent(*chunk, *is_opaque, q)
                            implies grid@[fill_cell(q)] == region || queue@.contains(q) by {
                            if grid@[fill_cell(q)] != region {
                                assert(q0.contains(q));
                                let j = choose|j: int| 0 <= j < q0.len() && q0[j] == q;
                                if j > 0 {
                                    assert(queue@[j - 1] == q);
                                } else {
                                    lemma_fill_cell(q, q);
                                    assert(grid@[fill_cell(q)] != UNFILLED);
                                    assert(grid@[fill_cell(q)] < regions@.len());
                                    assert(fill_adjacent(q, p));
                                }
                            }
                        }
                    }
                }
            },
        }
    }
    proof {
        assert forall|p: IVec3, q: IVec3|
            #[trigger] fill_adjacent(p, q) && in_chunk_mb(p) && grid@[fill_cell(p)] < region + 1 && surely_transparent(
                *chunk,
                *is_opaque,
                p,
            ) && surely_transparent(*chunk, *is_opaque, q) implies grid@[fill_cell(q)] == grid@[fill_cell(p)] by {
            if grid@[fill_cell(p)] == region {
                assert(!queue@.contains(q));
            }
        }
    }
}

/// A cell `p` touching `face` and reached from the seed of region `t` links `face` with every
/// face in the region's face set, both ways.
proof fn lemma_region_links_faces<C: GenericChunkReadAccess, F: Fn(BlockVariantId) -> bool>(
    chunk: C,
    is_opaque: F,
    grid: Seq<u32>,
    regions: Seq<FaceSet>,
    seeds: Seq<IVec3>,
    t: int,
    p: IVec3,
    face: Face,
)
    requires
        fill_ok(chunk, is_opaque, grid, regions, seeds),
        0 <= t < regions.len(),
        fill_connected(chunk, is_opaque, seeds[t], p),
        touches_interior_face(p, face),
    ensures
        forall|f: Face|
            #[trigger] regions[t].spec_contains(f) ==> faces_linked(chunk, is_opaque, face, f) && faces_linked(
                chunk,
                is_opaque,
                f,
                face,
            ),
{
    assert forall|f: Face| #[trigger] regions[t].spec_contains(f) implies faces_linked(chunk, is_opaque, face, f)
        && faces_linked(chunk, is_opaque, f, face) by {
        assert(region_touches(grid, t, f));
        let q = choose|q: IVec3| in_chunk_mb(q) && #[trigger] grid[fill_cell(q)] == t && touches_interior_face(q, f);
        assert(grid[fill_cell(q)] != UNFILLED);
        assert(fill_connected(chunk, is_opaque, seeds[t], q));
        lemma_fill_connected_symmetric(chunk, is_opaque, seeds[t], p);
        lemma_fill_connected_trans(chunk, is_opaque, p, seeds[t], q);
        lemma_fill_connected_symmetric(chunk, is_opaque, p, q);
        assert(fill_connected(chunk, is_opaque, p, q));
        assert(fill_connected(chunk, is_opaque, q, p));
    }
}

/// The microblock `p`, touching `face`, comes before the position `(a, b)` of the face, row by row.
pub open spec fn before_on_face(p: IVec3, face: Face, a: int, b: int) -> bool {
    let q = spec_project_to_2d(p, face);
    q.x < a || (q.x == a && q.y < b)
}

/// Every sure path that starts at a microblock touching `face` before the position `(a, b)` of
/// the face has each face touched by its other end connected to `face`.
pub open spec fn face_scanned_upto<C: GenericChunkReadAccess, F: Fn(BlockVariantId) -> bool>(
    chunk: C,
    is_opaque: F,
    g: ChunkConnectivityGraph,
    face: Face,
    a: int,
    b: int,
) -> bool {
    forall|p: IVec3, q: IVec3, f: Face|
        #![trigger surely_connected(chunk, is_opaque, p, q), touches_interior_face(q, f)]
        touches_interior_face(p, face) && surely_connected(chunk, is_opaque, p, q) && before_on_face(p, face, a, b)
            && touches_interior_face(q, f) ==> g.spec_has(face, f)
}

/// Two faces are connected whenever a path of surely transparent microblocks, each sharing a face
/// with the next, leads from a microblock touching the first face to one touching the second: a
/// viewer entering the chunk through one face can leave it through the other. With a path of one
/// microblock: two faces touched by the same transparent microblock (on an edge or a corner of
/// the chunk) are connected.
pub open spec fn graph_complete<C: GenericChunkReadAccess, F: Fn(BlockVariantId) -> bool>(
    chunk: C,
    is_opaque: F,
    g: ChunkConnectivityGraph,
) -> bool {
    forall|a: Face, b: Face, p: IVec3, q: IVec3|
        #![trigger touches_interior_face(p, a), touches_interior_face(q, b), surely_connected(chunk, is_opaque, p, q)]
        touches_interior_face(p, a) && touches_interior_face(q, b) && surely_connected(chunk, is_opaque, p, q) ==> g.spec_has(a, b)
}

proof fn lemma_scanned_monotone<C: GenericChunkReadAccess, F: Fn(BlockVariantId) -> bool>(
    chunk: C,
    is_opaque: F,
    g1: ChunkConnectivityGraph,
    g2: ChunkConnectivityGraph,
    face: Face,
    a: int,
    b: int,
)
    requires
        face_scanned_upto(chunk, is_opaque, g1, face, a, b),
        forall|x: Face, y: Face| #[trigger] g1.spec_has(x, y) ==> g2.spec_has(x, y),
    ensures
        face_scanned_upto(chunk, is_opaque, g2, face, a, b),
{
    assert forall|p: IVec3, q: IVec3, f: Face|
        #![trigger surely_connected(chunk, is_opaque, p, q), touches_interior_face(q, f)]
        touches_interior_face(p, face) && surely_connected(chunk, is_opaque, p, q) && before_on_face(p, face, a, b)
            && touches_interior_face(q, f) implies g2.spec_has(face, f) by {
        assert(g1.spec_has(face, f));
    }
}

/// Scanning the position `(a, b)` of a face: a microblock touching the face there is the one
/// that position names.
proof fn lemma_scanned_step<C: GenericChunkReadAccess, F: Fn(BlockVariantId) -> bool>(
    chunk: C,
    is_opaque: F,
    g: ChunkConnectivityGraph,
    face: Face,
    a: int,
    b: int,
    mb_pos: IVec3,
)
    requires
        0 <= a < 64,
        0 <= b < 64,
        mb_pos == spec_project_to_3d(IVec2 { x: a as i32, y: b as i32 }, face, interior_magnitude(face)),
        face_scanned_upto(chunk, is_opaque, g, face, a, b),
        forall|q: IVec3, f: Face|
            #![trigger surely_connected(chunk, is_opaque, mb_pos, q), touches_interior_face(q, f)]
            surely_connected(chunk, is_opaque, mb_pos, q) && touches_interior_face(q, f) ==> g.spec_has(face, f),
    ensures
        face_scanned_upto(chunk, is_opaque, g, face, a, b + 1),
        b + 1 == 64 ==> face_scanned_upto(chunk, is_opaque, g, face, a + 1, 0),
{
    assert forall|p: IVec3, q: IVec3, f: Face|
        #![trigger surely_connected(chunk, is_opaque, p, q), touches_interior_face(q, f)]
        touches_interior_face(p, face) && surely_connected(chunk, is_opaque, p, q) && before_on_face(p, face, a, b + 1)
            && touches_interior_face(q, f) implies g.spec_has(face, f) by {
        if !before_on_face(p, face, a, b) {
            lemma_surely_connected_ends(chunk, is_opaque, p, q);
            assert(p == mb_pos);
        }
    }
    if b + 1 == 64 {
        assert forall|p: IVec3, q: IVec3, f: Face|
            #![trigger surely_connected(chunk, is_opaque, p, q), touches_interior_face(q, f)]
            touches_interior_face(p, face) && surely_connected(chunk, is_opaque, p, q) && before_on_face(p, face, a + 1, 0)
                && touches_interior_face(q, f) implies g.spec_has(face, f) by {
            lemma_surely_connected_ends(chunk, is_opaque, p, q);
            assert(before_on_face(p, face, a, b + 1));
        }
    }
}

/// A face connected to every face has every run from it scanned.
proof fn lemma_scanned_when_all_connected<C: GenericChunkReadAccess, F: Fn(BlockVariantId) -> bool>(
    chunk: C,
    is_opaque: F,
    g: ChunkConnectivityGraph,
    face: Face,
)
    requires
        forall|f: Face| #[trigger] g.spec_has(face, f),
    ensures
        face_scanned_upto(chunk, is_opaque, g, face, 64, 0),
{
}

/// Build the connectivity graph of a chunk: for each face, every region of transparent
/// microblocks that touches the face from the inside connects it to every face that region
/// touches. Regions are found by flood filling from each microblock on the face, stepping
/// between microblocks that share a face ([`fill_adjacent`]). Two distinct faces end up
/// connected exactly when a path of transparent microblocks leads from one to the other: only
/// if the opacity test was seen to call each of them transparent, and always if it surely does.
pub fn connectivity_graph_construction_impl<C: GenericChunkReadAccess, F: Fn(BlockVariantId) -> bool>(
    chunk: &C,
    is_opaque: F,
) -> (r: ChunkConnectivityGraph)
    requires
        forall|b: BlockVariantId| call_requires(is_opaque, (b,)),
    ensures
        r.wf(),
        graph_sound(*chunk, is_opaque, r),
        graph_complete(*chunk, is_opaque, r),
{
    let mut graph = ChunkConnectivityGraph::empty();
    let mut grid: Vec<u32> = Vec::new();
    let mut i: usize = 0;
    while i < FILL_GRID_LEN
        invariant
            i <= FILL_GRID_LEN,
            grid@.len() == i,
            forall|k: int| 0 <= k < i ==> #[trigger] grid@[k] == UNFILLED,
        decreases FILL_GRID_LEN - i,
    {
        grid.push(UNFILLED);
        i = i + 1;
    }
    let mut regions: Vec<FaceSet> = Vec::new();
    let mut queue: VecDeque<IVec3> = VecDeque::with_capacity(1024);
    let ghost mut seeds: Seq<IVec3> = Seq::empty();
    let fs = faces();
    let mut fi: usize = 0;
    while fi < 6
        invariant
            0 <= fi <= 6,
            forall|k: int| 0 <= k < 6 ==> (#[trigger] fs@[k]).spec_as_usize() == k,
            fill_ok(*chunk, is_opaque, grid@, regions@, seeds),
            regions@.len() <= fi * 4096,
            queue@.len() == 0,
            graph.wf(),
            graph_sound(*chunk, is_opaque, graph),
            forall|k: int| 0 <= k < fi ==> face_scanned_upto(*chunk, is_opaque, graph, #[trigger] fs@[k], 64, 0),
            forall|b: BlockVariantId| call_requires(is_opaque, (b,)),
            regions_closed(*chunk, is_opaque, grid@, regions@.len() as int),
        decreases 6 - fi,
    {
        let face = fs[fi];
        let mut done = false;
        let mut a: i32 = 0;
        proof {
            assert forall|p: IVec3, q: IVec3, f: Face|
                #![trigger surely_connected(*chunk, is_opaque, p, q), touches_interior_face(q, f)]
                touches_interior_face(p, face) && surely_connected(*chunk, is_opaque, p, q) && before_on_face(p, face, 0, 0)
                    && touches_interior_face(q, f) implies graph.spec_has(face, f) by {
                lemma_surely_connected_ends(*chunk, is_opaque, p, q);
            }
        }
        while a < 64 && !done
            invariant
                0 <= fi < 6,
                0 <= a <= 64,
                face == fs@[fi as int],
                fill_ok(*chunk, is_opaque, grid@, regions@, seeds),
                regions@.len() <= fi * 4096 + a * 64,
                queue@.len() == 0,
                graph.wf(),
                graph_sound(*chunk, is_opaque, graph),
                forall|k: int| 0 <= k < fi ==> face_scanned_upto(*chunk, is_opaque, graph, #[trigger] fs@[k], 64, 0),
                !done ==> face_scanned_upto(*chunk, is_opaque, graph, face, a as int, 0),
                done ==> forall|f: Face| #[trigger] graph.spec_has(face, f),
                forall|b: BlockVariantId| call_requires(is_opaque, (b,)),
                regions_closed(*chunk, is_opaque, grid@, regions@.len() as int),
            decreases 64 - a,
        {
            let mut b: i32 = 0;
            while b < 64 && !done
                invariant
                    0 <= fi < 6,
                    0 <= a < 64,
                    0 <= b <= 64,
                    face == fs@[fi as int],
                    fill_ok(*chunk, is_opaque, grid@, regions@, seeds),
                    regions@.len() <= fi * 4096 + a * 64 + b,
                    queue@.len() == 0,
                    graph.wf(),
                    graph_sound(*chunk, is_opaque, graph),
                    forall|k: int| 0 <= k < fi ==> face_scanned_upto(*chunk, is_opaque, graph, #[trigger] fs@[k], 64, 0),
                    !done ==> face_scanned_upto(*chunk, is_opaque, graph, face, a as int, b as int),
                    !done && b == 64 ==> face_scanned_upto(*chunk, is_opaque, graph, face, a + 1, 0),
                    done ==> forall|f: Face| #[trigger] graph.spec_has(face, f),
                    forall|b: BlockVariantId| call_requires(is_opaque, (b,)),
                    regions_closed(*chunk, is_opaque, grid@, regions@.len() as int),
                decreases 64 - b,
            {
                let ghost g_start = graph;
                let mb_pos = interior_chunk_face_mb_position(ivec2(a, b), face);
                assert(in_chunk_mb(mb_pos) && touches_interior_face(mb_pos, face));
                let ghost sure = surely_transparent(*chunk, is_opaque, mb_pos);
                let cell = grid[fill_index(mb_pos)];
                let ghost mut target_region: int = 0;
                let target: Option<FaceSet> = if cell == UNFILLED {
                    // Not part of a region yet: flood fill a new region from here. Nothing is
                    // created if the position is opaque.
                    let current_region = regions.len() as u32;
                    proof {
                        let kept = seeds.subrange(0, regions@.len() as int);
                        assert forall|p: IVec3| in_chunk_mb(p) && #[trigger] grid@[fill_cell(p)] != UNFILLED implies seeds[grid@[fill_cell(
                            p,
                        )] as int] == kept.push(mb_pos)[grid@[fill_cell(p)] as int] by {
                            lemma_fill_cell(p, p);
                        }
                        seeds = kept.push(mb_pos);
                    }
                    classic_flood_fill(
                        mb_pos,
                        chunk,
                        &is_opaque,
                        &mut grid,
                        &mut regions,
                        current_region,
                        &mut queue,
                        Ghost(seeds),
                    );
                    queue.clear();
                    proof {
                        if sure {
                            lemma_fill_cell(mb_pos, mb_pos);
                            assert(grid@[fill_cell(mb_pos)] == current_region);
                        }
                    }
                    if regions.len() > current_region as usize {
                        proof {
                            target_region = current_region as int;
                            lemma_fill_connected_refl(*chunk, is_opaque, mb_pos);
                        }
                        Some(regions[current_region as usize])
                    } else {
                        None
                    }
                } else {
                    // Already part of a region: copy that region's connections.
                    assert(cell < regions@.len()) by {
                        lemma_fill_cell(mb_pos, mb_pos);
                    }
                    proof {
                        target_region = cell as int;
                    }
                    Some(regions[cell as usize])
                };
                if let Some(faceset) = target {
                    proof {
                        assert(0 <= target_region < regions@.len());
                        assert(faceset == regions@[target_region]);
                        assert(fill_connected(*chunk, is_opaque, seeds[target_region], mb_pos));
                        lemma_region_links_faces(*chunk, is_opaque, grid@, regions@, seeds, target_region, mb_pos, face);
                        if sure {
                            assert(grid@[fill_cell(mb_pos)] == target_region);
                        }
                    }
                    let members = faceset.iter();
                    proof {
                        assert forall|f: Face| members@.contains(f) implies faces_linked(*chunk, is_opaque, face, f)
                            && faces_linked(*chunk, is_opaque, f, face) by {
                            assert(faceset.spec_contains(f));
                            assert(regions@[target_region].spec_contains(f));
                        }
                    }
                    let ghost g_members = graph;
                    let mut k: usize = 0;
                    while k < members.len()
                        invariant
                            0 <= k <= members@.len(),
                            forall|f: Face|
                                members@.contains(f) ==> faces_linked(*chunk, is_opaque, face, f) && faces_linked(
                                    *chunk,
                                    is_opaque,
                                    f,
                                    face,
                                ),
                            graph.wf(),
                            graph_sound(*chunk, is_opaque, graph),
                            forall|x: Face, y: Face| #[trigger] g_members.spec_has(x, y) ==> graph.spec_has(x, y),
                            forall|j: int| 0 <= j < k ==> graph.spec_has(face, #[trigger] members@[j]),
                        decreases members@.len() - k,
                    {
                        let other = members[k];
                        assert(members@.contains(other));
                        let ghost before = graph;
                        graph.add_connection(face, other);
                        proof {
                            assert forall|x: Face, y: Face|
                                x != y && #[trigger] graph.spec_has(x, y) implies faces_linked(*chunk, is_opaque, x, y) by {
                                assert(graph@.contains((x, y)));
                                if before@.contains((x, y)) {
                                    assert(before.spec_has(x, y));
                                }
                            }
                            assert forall|x: Face, y: Face| #[trigger] g_members.spec_has(x, y) implies graph.spec_has(x, y) by {
                                assert(before.spec_has(x, y));
                                assert(before@.contains((x, y)));
                                assert(graph@.contains((x, y)));
                            }
                            assert forall|j: int| 0 <= j < k + 1 implies graph.spec_has(face, #[trigger] members@[j]) by {
                                if j < k {
                                    assert(before.spec_has(face, members@[j]));
                                    assert(before@.contains((face, members@[j])));
                                }
                                assert(graph@.contains((face, members@[j])));
                            }
                        }
                        k = k + 1;
                    }
                    proof {
                        assert forall|x: Face, y: Face| #[trigger] g_start.spec_has(x, y) implies graph.spec_has(x, y) by {
                            assert(g_members.spec_has(x, y));
                        }
                        assert forall|q: IVec3, f: Face|
                            #![trigger surely_connected(*chunk, is_opaque, mb_pos, q), touches_interior_face(q, f)]
                            surely_connected(*chunk, is_opaque, mb_pos, q) && touches_interior_face(q, f) implies graph.spec_has(face, f) by {
                            lemma_surely_connected_ends(*chunk, is_opaque, mb_pos, q);
                            lemma_surely_connected_in_region(*chunk, is_opaque, grid@, regions@.len() as int, mb_pos, q);
                            lemma_fill_cell(q, q);
                            assert(grid@[fill_cell(q)] == target_region);
                            assert(regions@[target_region].spec_contains(f));
                            assert(members@.contains(f));
                            let j = choose|j: int| 0 <= j < members@.len() && members@[j] == f;
                            assert(graph.spec_has(face, members@[j]));
                        }
                    }
                    // A face connected to every face cannot gain more connections: skip the
                    // rest of its positions.
                    let connections = graph.get_connections(face);
                    if connections.is_all() {
                        proof {
                            assert forall|f: Face| #[trigger] graph.spec_has(face, f) by {
                                assert(connections.spec_contains(f));
                            }
                        }
                        done = true;
                    }
                } else {
                    proof {
                        assert(!sure);
                        assert forall|q: IVec3, f: Face|
                            #![trigger surely_connected(*chunk, is_opaque, mb_pos, q), touches_interior_face(q, f)]
                            surely_connected(*chunk, is_opaque, mb_pos, q) && touches_interior_face(q, f) implies graph.spec_has(face, f) by {
                            lemma_surely_connected_ends(*chunk, is_opaque, mb_pos, q);
                        }
                    }
                }
                proof {
                    assert(forall|x: Face, y: Face| #[trigger] g_start.spec_has(x, y) ==> graph.spec_has(x, y));
                    assert forall|k: int| 0 <= k < fi implies face_scanned_upto(*chunk, is_opaque, graph, #[trigger] fs@[k], 64, 0) by {
                        lemma_scanned_monotone(*chunk, is_opaque, g_start, graph, fs@[k], 64, 0);
                    }
                    if !done {
                        lemma_scanned_monotone(*chunk, is_opaque, g_start, graph, face, a as int, b as int);
                        lemma_scanned_step(*chunk, is_opaque, graph, face, a as int, b as int, mb_pos);
                    }
                }
                b = b + 1;
            }
            a = a + 1;
        }
        proof {
            if done {
                lemma_scanned_when_all_connected(*chunk, is_opaque, graph, face);
            }
        }
        fi = fi + 1;
    }
    proof {
        assert forall|a: Face, b: Face, p: IVec3, q: IVec3|
            #![trigger touches_interior_face(p, a), touches_interior_face(q, b), surely_connected(*chunk, is_opaque, p, q)]
            touches_interior_face(p, a) && touches_interior_face(q, b) && surely_connected(*chunk, is_opaque, p, q) implies graph.spec_has(
                a,
                b,
            ) by {
            lemma_surely_connected_ends(*chunk, is_opaque, p, q);
            let k = a.spec_as_usize() as int;
            lemma_face_index_roundtrip(a);
            lemma_face_index_roundtrip(fs@[k]);
            assert(fs@[k] == a);
            assert(face_scanned_upto(*chunk, is_opaque, graph, fs@[k], 64, 0));
        }
    }
    graph
}

/// A chunk in which no microblock is transparent gets a graph without any connection between
/// two distinct faces.
pub proof fn lemma_solid_chunk_has_no_connections<C: GenericChunkReadAccess, F: Fn(BlockVariantId) -> bool>(
    chunk: C,
    is_opaque: F,
    g: ChunkConnectivityGraph,
)
    requires
        g.wf(),
        graph_sound(chunk, is_opaque, g),
        forall|p: IVec3| !#[trigger] observed_transparent(chunk, is_opaque, p),
    ensures
        forall|a: Face, b: Face| #[trigger] g.spec_has(a, b) <==> a == b,
{
    assert forall|a: Face, b: Face| #[trigger] g.spec_has(a, b) <==> a == b by {
        if a != b && g.spec_has(a, b) {
            assert(faces_linked(chunk, is_opaque, a, b));
            let (p, q) = choose|p: IVec3, q: IVec3|
                touches_interior_face(p, a) && touches_interior_face(q, b) && #[trigger] fill_connected(chunk, is_opaque, p, q);
            let path = choose|path: Seq<IVec3>| #[trigger] is_fill_path(chunk, is_opaque, path) && path[0] == p && path.last() == q;
            assert(observed_transparent(chunk, is_opaque, path[0]));
        }
    }
}

/// With an opacity test that answers each block one way only, a graph that is sound and
/// complete connects two distinct faces exactly when a path of transparent microblocks, each
/// sharing a face with the next, leads from a microblock touching one face to a microblock
/// touching the other.
pub proof fn lemma_graph_connects_exactly_linked_faces<C: GenericChunkReadAccess, F: Fn(BlockVariantId) -> bool>(
    chunk: C,
    is_opaque: F,
    g: ChunkConnectivityGraph,
    a: Face,
    b: Face,
)
    requires
        graph_sound(chunk, is_opaque, g),
        graph_complete(chunk, is_opaque, g),
        forall|blk: BlockVariantId, r1: bool, r2: bool|
            #![trigger call_ensures(is_opaque, (blk,), r1), call_ensures(is_opaque, (blk,), r2)]
            call_ensures(is_opaque, (blk,), r1) && call_ensures(is_opaque, (blk,), r2) ==> r1 == r2,
        a != b,
    ensures
        g.spec_has(a, b) <==> faces_linked(chunk, is_opaque, a, b),
{
    if faces_linked(chunk, is_opaque, a, b) {
        let (p, q) = choose|p: IVec3, q: IVec3|
            touches_interior_face(p, a) && touches_interior_face(q, b) && #[trigger] fill_connected(chunk, is_opaque, p, q);
        let path = choose|path: Seq<IVec3>| #[trigger] is_fill_path(chunk, is_opaque, path) && path[0] == p && path.last() == q;
        assert forall|i: int| 0 <= i < path.len() implies #[trigger] surely_transparent(chunk, is_opaque, path[i]) by {
            assert(observed_transparent(chunk, is_opaque, path[i]));
        }
        assert(is_sure_path(chunk, is_opaque, path));
        assert(surely_connected(chunk, is_opaque, p, q));
    }
}

} // verus!
