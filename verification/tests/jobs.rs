use voxel_engine::bounding_box::ChunkPos;
use voxel_engine::jobs::{
    finish_mesh_job, start_mesh_job, ChunkJobQueue, JobChunkState, JobStart, MeshBuilderJob, MeshBuilderJobQueue,
    TickedMeshJobQueue,
};
use voxel_engine::math::ivec3;
use voxel_engine::mesh_state::{BuildChunkMeshEvent, ChunkMeshData, MeshJobUrgency, MesherError, RemoveChunkMeshEvent};
use voxel_engine::neighbors::NeighborSelection;

#[test]
fn job_queue_pops_highest_priority_first() {
    let mut q = ChunkJobQueue::<&str>::new();
    assert_eq!(None, q.push(ChunkPos::new(0, 0, 0), "a", 1));
    assert_eq!(None, q.push(ChunkPos::new(1, 0, 0), "b", 5));
    assert_eq!(None, q.push(ChunkPos::new(2, 0, 0), "c", 3));
    assert_eq!(Some(5), q.get_priority(ChunkPos::new(1, 0, 0)));
    assert_eq!(Some(&"c"), q.get(ChunkPos::new(2, 0, 0)));
    assert_eq!(Some((ChunkPos::new(1, 0, 0), "b")), q.pop());
    assert_eq!(Some((ChunkPos::new(2, 0, 0), "c")), q.pop());
    assert_eq!(Some((ChunkPos::new(0, 0, 0), "a")), q.pop());
    assert_eq!(None, q.pop());
}

#[test]
fn job_queue_push_keeps_higher_priority() {
    let mut q = ChunkJobQueue::<u32>::new();
    q.push(ChunkPos::new(0, 0, 0), 1, 10);
    assert_eq!(Some(1), q.push(ChunkPos::new(0, 0, 0), 2, 3));
    assert_eq!(Some(10), q.get_priority(ChunkPos::new(0, 0, 0)));
    assert_eq!(Some(&2), q.get(ChunkPos::new(0, 0, 0)));
    assert_eq!(Some(2), q.push(ChunkPos::new(0, 0, 0), 3, 20));
    assert_eq!(Some(20), q.get_priority(ChunkPos::new(0, 0, 0)));
    assert_eq!(Some(3), q.remove(ChunkPos::new(0, 0, 0)));
    assert_eq!(None, q.remove(ChunkPos::new(0, 0, 0)));
    assert_eq!(None, q.get_priority(ChunkPos::new(0, 0, 0)));
}

#[test]
fn job_queue_push_with_can_lower_priority() {
    let mut q = ChunkJobQueue::<u32>::new();
    q.push(ChunkPos::new(0, 0, 0), 1, 10);
    q.push_with(ChunkPos::new(0, 0, 0), |existing| existing.map(|(_, item)| (2, *item + 1)));
    assert_eq!(Some(2), q.get_priority(ChunkPos::new(0, 0, 0)));
    assert_eq!(Some(&2), q.get(ChunkPos::new(0, 0, 0)));
    q.push_with(ChunkPos::new(5, 5, 5), |existing| existing.map(|(p, item)| (p, *item)));
    assert_eq!(None, q.get(ChunkPos::new(5, 5, 5)));
}

#[test]
fn job_queue_recalculate_priorities() {
    let mut q = ChunkJobQueue::<u32>::new();
    q.push(ChunkPos::new(0, 0, 0), 7, 1);
    q.push(ChunkPos::new(0, 0, 9), 8, 2);
    q.recalculate_priorities(|pos, item| (pos.0.z as u32) * 100 + *item);
    assert_eq!(Some(7), q.get_priority(ChunkPos::new(0, 0, 0)));
    assert_eq!(Some(908), q.get_priority(ChunkPos::new(0, 0, 9)));
    assert_eq!(Some((ChunkPos::new(0, 0, 9), 8)), q.pop());
}

#[test]
fn mesh_job_queue_keeps_newer_job() {
    let mut q = MeshBuilderJobQueue::new();
    let pos = ChunkPos::new(1, 1, 1);
    q.queue_if_newer(MeshBuilderJob { chunk_pos: pos, tick: 10 }, 1);
    q.queue_if_newer(MeshBuilderJob { chunk_pos: pos, tick: 5 }, 9);
    let job = q.pop().unwrap();
    assert_eq!(10, job.tick);
    assert_eq!(pos, job.chunk_pos);
    assert!(q.pop().is_none());
}

#[test]
fn mesh_job_queue_remove_if_older() {
    let mut q = MeshBuilderJobQueue::new();
    let pos = ChunkPos::new(0, 0, 0);
    q.queue_if_newer(MeshBuilderJob { chunk_pos: pos, tick: 10 }, 1);
    q.handle_remove_mesh_event(RemoveChunkMeshEvent { chunk_pos: pos, tick: 10 });
    assert!(q.pop().is_some());
    q.queue_if_newer(MeshBuilderJob { chunk_pos: pos, tick: 10 }, 1);
    q.remove_if_older(pos, 11);
    assert!(q.pop().is_none());
}

#[test]
fn mesh_build_event_queues_meshed_neighbors() {
    let mut q = MeshBuilderJobQueue::new();
    let mut neighbors = NeighborSelection::empty();
    neighbors.set(ivec3(1, 0, 0), true).unwrap();
    neighbors.set(ivec3(0, 1, 0), true).unwrap();
    let mut meshed = NeighborSelection::empty();
    meshed.set(ivec3(1, 0, 0), true).unwrap();
    let event = BuildChunkMeshEvent {
        chunk_pos: ChunkPos::new(0, 0, 0),
        urgency: MeshJobUrgency::P1(4),
        neighbors,
        tick: 3,
    };
    q.handle_build_mesh_event(event, meshed);
    let mut popped = vec![];
    while let Some(job) = q.pop() {
        assert_eq!(3, job.tick);
        popped.push(job.chunk_pos);
    }
    assert_eq!(2, popped.len());
    assert!(popped.contains(&ChunkPos::new(0, 0, 0)));
    assert!(popped.contains(&ChunkPos::new(1, 0, 0)));
    assert!(!popped.contains(&ChunkPos::new(0, 1, 0)));
}

#[test]
fn ticked_queue_keeps_newest_tick_and_highest_priority() {
    let mut q = TickedMeshJobQueue::new();
    let pos = ChunkPos::new(2, 2, 2);
    q.push(pos, 5, 1);
    q.push(pos, 3, 7);
    q.push(ChunkPos::new(0, 0, 0), 1, 4);
    let job = q.pop().unwrap();
    assert_eq!(pos, job.chunk_pos);
    assert_eq!(5, job.tick);
    q.push(pos, 2, 1);
    q.remove(pos, 2);
    q.remove(ChunkPos::new(0, 0, 0), 2);
    let job = q.pop().unwrap();
    assert_eq!(pos, job.chunk_pos);
    assert!(q.pop().is_none());
}

#[test]
fn mesh_job_queue_recalculated_priorities_order_pops() {
    let mut q = MeshBuilderJobQueue::new();
    q.queue_if_newer(MeshBuilderJob { chunk_pos: ChunkPos::new(0, 0, 0), tick: 1 }, 100);
    q.queue_if_newer(MeshBuilderJob { chunk_pos: ChunkPos::new(0, 0, 8), tick: 2 }, 1);
    // closer to z = 8 is more urgent
    q.recalculate_priorities(|pos, _job| u32::MAX - (8 - pos.0.z).unsigned_abs());
    let first = q.pop().unwrap();
    assert_eq!(ChunkPos::new(0, 0, 8), first.chunk_pos);
    assert_eq!(2, first.tick);
    assert_eq!(ChunkPos::new(0, 0, 0), q.pop().unwrap().chunk_pos);
}

#[test]
fn mesh_build_event_at_the_edge_of_the_world_without_neighbors() {
    let mut q = MeshBuilderJobQueue::new();
    let event = BuildChunkMeshEvent {
        chunk_pos: ChunkPos::new(i32::MAX, i32::MIN, 0),
        urgency: MeshJobUrgency::P1(2),
        neighbors: NeighborSelection::empty(),
        tick: 1,
    };
    q.handle_build_mesh_event(event, NeighborSelection::empty());
    let job = q.pop().unwrap();
    assert_eq!(ChunkPos::new(i32::MAX, i32::MIN, 0), job.chunk_pos);
    assert_eq!(1, job.tick);
    assert!(q.pop().is_none());
}

#[test]
fn mesh_worker_skips_unloaded_and_primordial_chunks() {
    assert_eq!(JobStart::Ignore, start_mesh_job(JobChunkState::NotLoaded));
    assert_eq!(JobStart::Ignore, start_mesh_job(JobChunkState::Primordial));
    assert_eq!(JobStart::FinishEmpty, start_mesh_job(JobChunkState::Transparent));
    assert_eq!(JobStart::Build, start_mesh_job(JobChunkState::Meshable));
}

#[test]
fn mesh_worker_sends_built_meshes_and_clears_flags() {
    let (mesh, clear) = finish_mesh_job(None);
    assert!(mesh.is_none());
    assert!(!clear);
    let built = ChunkMeshData { index_buffer_data: vec![1, 2], quad_buffer_data: vec![3] };
    let (mesh, clear) = finish_mesh_job(Some(Ok(built)));
    let mesh = mesh.unwrap();
    assert_eq!(vec![1, 2], mesh.index_buffer_data);
    assert_eq!(vec![3], mesh.quad_buffer_data);
    assert!(clear);
    let (mesh, clear) = finish_mesh_job(Some(Err(MesherError::custom("broken".to_string()))));
    assert!(mesh.is_none());
    assert!(clear);
}
