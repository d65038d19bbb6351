use voxel_engine::block::BlockVariantId;
use voxel_engine::bounding_box::BoundingBox;
use voxel_engine::face::{Face, FaceSet};
use voxel_engine::generic_chunk::MockChunk;
use voxel_engine::math::ivec3;
use voxel_engine::visibility::{connectivity_graph_construction_impl, ChunkConnectivityGraph};

fn is_opaque(id: BlockVariantId) -> bool {
    id != BlockVariantId::void()
}

fn example1() -> BlockVariantId {
    BlockVariantId::new(1)
}

fn faceset_of(faces: &[Face]) -> FaceSet {
    let mut set = FaceSet::empty();
    for &f in faces {
        set.insert(f);
    }
    set
}

/// Asserts that a graph is like a vertical "tunnel", where only the top and bottom faces are
/// connected to each other, and all other paths are blocked off.
fn assert_graph_is_vertical_tunnel(graph: ChunkConnectivityGraph) {
    assert!(graph.has_connection(Face::Top, Face::Bottom));

    assert_eq!(FaceSet::from_face(Face::North), graph.get_connections(Face::North));
    assert_eq!(FaceSet::from_face(Face::East), graph.get_connections(Face::East));
    assert_eq!(FaceSet::from_face(Face::South), graph.get_connections(Face::South));
    assert_eq!(FaceSet::from_face(Face::West), graph.get_connections(Face::West));

    assert_eq!(faceset_of(&[Face::Top, Face::Bottom]), graph.get_connections(Face::Top));
    assert_eq!(faceset_of(&[Face::Top, Face::Bottom]), graph.get_connections(Face::Bottom));
}

#[test]
fn construct_graph_for_transparent_chunk() {
    let chunk = MockChunk::new();
    let graph = connectivity_graph_construction_impl(&chunk, is_opaque);
    assert!(graph.is_filled());
}

#[test]
fn construct_graph_for_chunk_with_walls() {
    let mut chunk = MockChunk::new();

    chunk.fill_region(BoundingBox::new(ivec3(8, 0, 0), ivec3(9, 16, 16)), example1()).unwrap();
    let graph = connectivity_graph_construction_impl(&chunk, is_opaque);
    assert!(!graph.is_filled());

    assert!(graph.has_connection(Face::East, Face::West));
    assert!(graph.has_connection(Face::Top, Face::Bottom));
    assert!(!graph.has_connection(Face::North, Face::South));
    assert!(graph.has_connection(Face::North, Face::Bottom));
    assert!(graph.has_connection(Face::North, Face::Top));
    assert!(graph.has_connection(Face::North, Face::West));
    assert!(graph.has_connection(Face::North, Face::East));
}

#[test]
fn construct_graph_for_chunk_with_tunnel() {
    let mut chunk = MockChunk::new();

    chunk.fill_region(BoundingBox::new(ivec3(0, 0, 0), ivec3(16, 16, 1)), example1()).unwrap();
    chunk.fill_region(BoundingBox::new(ivec3(0, 0, 0), ivec3(1, 16, 16)), example1()).unwrap();
    chunk.fill_region(BoundingBox::new(ivec3(15, 0, 16), ivec3(16, 16, 0)), example1()).unwrap();
    chunk.fill_region(BoundingBox::new(ivec3(16, 0, 15), ivec3(0, 16, 16)), example1()).unwrap();

    let graph = connectivity_graph_construction_impl(&chunk, is_opaque);

    assert_graph_is_vertical_tunnel(graph);
}

#[test]
fn construct_graph_with_chunk_with_1block_tunnel() {
    let mut chunk = MockChunk::new();

    chunk.fill_region(BoundingBox::new(ivec3(0, 0, 0), ivec3(16, 16, 16)), example1()).unwrap();
    chunk.fill_region(BoundingBox::new(ivec3(8, 0, 8), ivec3(9, 16, 9)), BlockVariantId::void()).unwrap();

    let graph = connectivity_graph_construction_impl(&chunk, is_opaque);

    assert_graph_is_vertical_tunnel(graph);
}

#[test]
fn construct_graph_for_solid_chunk() {
    let mut chunk = MockChunk::new();
    chunk.fill_region(BoundingBox::new(ivec3(0, 0, 0), ivec3(16, 16, 16)), example1()).unwrap();
    let graph = connectivity_graph_construction_impl(&chunk, is_opaque);
    for a in [Face::Top, Face::Bottom, Face::North, Face::East, Face::South, Face::West] {
        for b in [Face::Top, Face::Bottom, Face::North, Face::East, Face::South, Face::West] {
            assert_eq!(a == b, graph.has_connection(a, b));
        }
    }
}

#[test]
fn test_filled_graph() {
    let graph = ChunkConnectivityGraph::filled();
    let faces = [Face::Top, Face::Bottom, Face::North, Face::East, Face::South, Face::West];
    for face1 in faces {
        for face2 in faces {
            assert!(graph.has_connection(face1, face2));
        }
    }
}

#[test]
fn test_connection_removal() {
    let mut graph = ChunkConnectivityGraph::empty();

    graph.add_connection(Face::North, Face::South);
    graph.add_connection(Face::North, Face::West);
    graph.add_connection(Face::North, Face::Top);
    graph.add_connection(Face::North, Face::Bottom);

    assert!(graph.has_connection(Face::North, Face::North));
    assert!(graph.has_connection(Face::North, Face::South));
    assert!(graph.has_connection(Face::North, Face::West));
    assert!(graph.has_connection(Face::North, Face::Top));
    assert!(graph.has_connection(Face::North, Face::Bottom));

    graph.remove_connection(Face::North, Face::Top);
    graph.remove_connection(Face::North, Face::South);

    assert!(graph.has_connection(Face::North, Face::North));
    assert!(!graph.has_connection(Face::North, Face::South));
    assert!(graph.has_connection(Face::North, Face::West));
    assert!(!graph.has_connection(Face::North, Face::Top));
    assert!(graph.has_connection(Face::North, Face::Bottom));
}

#[test]
fn test_connection_iter() {
    let graph = ChunkConnectivityGraph::empty();

    let connections = graph.get_connections(Face::North);
    assert!(connections.contains(Face::North));
    assert_eq!(1, connections.len());

    let mut graph = ChunkConnectivityGraph::empty();
    graph.add_connection(Face::North, Face::South);
    graph.add_connection(Face::North, Face::East);
    graph.add_connection(Face::North, Face::Top);
    graph.add_connection(Face::North, Face::Bottom);

    let connections = graph.get_connections(Face::North);
    assert!(connections.contains(Face::Top));
    assert!(connections.contains(Face::Bottom));
    assert!(connections.contains(Face::North));
    assert!(connections.contains(Face::East));
    assert!(connections.contains(Face::South));

    let connections = graph.get_connections(Face::East);
    assert!(connections.contains(Face::North));
    assert!(connections.contains(Face::East));
}

#[test]
fn connections_are_undirected() {
    let mut a = ChunkConnectivityGraph::empty();
    let mut b = ChunkConnectivityGraph::empty();
    a.add_connection(Face::Top, Face::West);
    b.add_connection(Face::West, Face::Top);
    assert_eq!(a, b);
    assert!(a.has_connection(Face::West, Face::Top));
    // Removing a face's connection to itself does nothing.
    a.remove_connection(Face::Top, Face::Top);
    assert!(a.has_connection(Face::Top, Face::Top));
    a.remove_connection(Face::West, Face::Top);
    assert_eq!(ChunkConnectivityGraph::empty(), a);
}

#[test]
fn straight_transparent_run_along_z_connects_its_end_faces() {
    let mut chunk = MockChunk::new();
    chunk.fill_region(BoundingBox::new(ivec3(0, 0, 0), ivec3(16, 16, 16)), example1()).unwrap();
    for z in 0..64 {
        chunk.set_mb(ivec3(20, 30, z), BlockVariantId::void()).unwrap();
    }
    let graph = connectivity_graph_construction_impl(&chunk, is_opaque);
    assert!(graph.has_connection(Face::East, Face::West));
    assert_eq!(faceset_of(&[Face::East, Face::West]), graph.get_connections(Face::East));
    assert_eq!(FaceSet::from_face(Face::Top), graph.get_connections(Face::Top));
    assert_eq!(FaceSet::from_face(Face::North), graph.get_connections(Face::North));
}

#[test]
fn transparent_corner_microblock_connects_its_faces() {
    let mut chunk = MockChunk::new();
    chunk.fill_region(BoundingBox::new(ivec3(0, 0, 0), ivec3(16, 16, 16)), example1()).unwrap();
    // the microblock at the origin touches the bottom, south and west faces
    chunk.set_mb(ivec3(0, 0, 0), BlockVariantId::void()).unwrap();
    let graph = connectivity_graph_construction_impl(&chunk, is_opaque);
    assert_eq!(faceset_of(&[Face::Bottom, Face::South, Face::West]), graph.get_connections(Face::Bottom));
    assert!(graph.has_connection(Face::South, Face::West));
    assert_eq!(FaceSet::from_face(Face::Top), graph.get_connections(Face::Top));
}

#[test]
fn straight_corridor_along_x_connects_north_and_south() {
    let mut chunk = MockChunk::new();
    chunk.fill_region(BoundingBox::new(ivec3(0, 0, 0), ivec3(16, 16, 16)), example1()).unwrap();
    for x in 0..64 {
        chunk.set_mb(ivec3(x, 30, 20), BlockVariantId::void()).unwrap();
    }
    let graph = connectivity_graph_construction_impl(&chunk, is_opaque);
    assert_eq!(faceset_of(&[Face::North, Face::South]), graph.get_connections(Face::North));
    assert_eq!(faceset_of(&[Face::North, Face::South]), graph.get_connections(Face::South));
    assert_eq!(FaceSet::from_face(Face::Top), graph.get_connections(Face::Top));
    assert_eq!(FaceSet::from_face(Face::East), graph.get_connections(Face::East));
}

#[test]
fn turning_corridor_connects_its_end_faces() {
    let mut chunk = MockChunk::new();
    chunk.fill_region(BoundingBox::new(ivec3(0, 0, 0), ivec3(16, 16, 16)), example1()).unwrap();
    let void = BlockVariantId::void();
    // along x from the south face (x = 0) to x = 40, then up along y to the top face (y = 63)
    for x in 0..41 {
        chunk.set_mb(ivec3(x, 30, 20), void).unwrap();
    }
    for y in 30..64 {
        chunk.set_mb(ivec3(40, y, 20), void).unwrap();
    }
    let graph = connectivity_graph_construction_impl(&chunk, is_opaque);
    assert_eq!(faceset_of(&[Face::South, Face::Top]), graph.get_connections(Face::South));
    assert_eq!(faceset_of(&[Face::South, Face::Top]), graph.get_connections(Face::Top));
    assert_eq!(FaceSet::from_face(Face::North), graph.get_connections(Face::North));
    assert_eq!(FaceSet::from_face(Face::Bottom), graph.get_connections(Face::Bottom));
}

#[test]
fn diagonal_neighbours_do_not_connect() {
    let mut chunk = MockChunk::new();
    chunk.fill_region(BoundingBox::new(ivec3(0, 0, 0), ivec3(16, 16, 16)), example1()).unwrap();
    let void = BlockVariantId::void();
    // a run on the north face (x = 63), from the west face (z = 0) up to z = 62
    for z in 0..63 {
        chunk.set_mb(ivec3(63, 10, z), void).unwrap();
    }
    // a run next to it diagonally, reaching the east face (z = 63)
    for z in 50..64 {
        chunk.set_mb(ivec3(62, 11, z), void).unwrap();
    }
    let graph = connectivity_graph_construction_impl(&chunk, is_opaque);
    assert!(graph.has_connection(Face::North, Face::West));
    assert!(!graph.has_connection(Face::North, Face::East));
    assert_eq!(FaceSet::from_face(Face::East), graph.get_connections(Face::East));
}
