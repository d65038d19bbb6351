use voxel_engine::bounding_box::ChunkPos;
use voxel_engine::controller::{
    chunk_border_event, first_chunk_event, load_cycle_action, plan_meshing_jobs, should_queue_fresh, ChangedChunk,
    CrossChunkBorder, LoadCycleAction,
};

#[test]
fn load_cycle_skips_with_an_empty_backlog() {
    assert_eq!(LoadCycleAction::Skip, load_cycle_action(0, 5, 10, None, 100));
    assert_eq!(LoadCycleAction::Skip, load_cycle_action(5, 0, 10, Some(1000), 100));
}

#[test]
fn load_cycle_forces_the_lock() {
    assert_eq!(LoadCycleAction::Process { force: false }, load_cycle_action(3, 4, 10, None, 100));
    assert_eq!(LoadCycleAction::Process { force: false }, load_cycle_action(3, 4, 10, Some(100), 100));
    assert_eq!(LoadCycleAction::Process { force: true }, load_cycle_action(3, 4, 10, Some(101), 100));
    assert_eq!(LoadCycleAction::Process { force: true }, load_cycle_action(11, 4, 10, None, 100));
    assert_eq!(LoadCycleAction::Process { force: true }, load_cycle_action(1, 11, 10, None, 100));
}

#[test]
fn fresh_chunks_wait_for_bulk() {
    assert!(!should_queue_fresh(100, 500));
    assert!(should_queue_fresh(101, 0));
    assert!(should_queue_fresh(0, 501));
}

fn changed(x: i32, fresh: bool, edge_updated: bool) -> ChangedChunk {
    ChangedChunk { pos: ChunkPos::new(x, 0, 0), fresh, edge_updated }
}

#[test]
fn meshing_plan_queues_each_chunk_once_and_skips_fresh_ones() {
    let chunks = vec![changed(0, false, false), changed(5, true, false), changed(0, false, false), changed(9, false, false)];
    let plan = plan_meshing_jobs(&chunks, false, |_| true);
    assert_eq!(vec![ChunkPos::new(0, 0, 0), ChunkPos::new(9, 0, 0)], plan.queued);
    assert!(plan.extra.is_empty());
    let plan = plan_meshing_jobs(&chunks, true, |_| true);
    assert_eq!(vec![ChunkPos::new(0, 0, 0), ChunkPos::new(5, 0, 0), ChunkPos::new(9, 0, 0)], plan.queued);
}

#[test]
fn meshing_plan_adds_ready_neighbors_of_edge_updates() {
    let chunks = vec![changed(0, false, true), changed(1, false, false)];
    // every neighbor but the one above is ready
    let plan = plan_meshing_jobs(&chunks, false, |p| p != ChunkPos::new(0, 1, 0));
    assert_eq!(vec![ChunkPos::new(0, 0, 0), ChunkPos::new(1, 0, 0)], plan.queued);
    // 26 neighbors, without the one that is not ready; (1, 0, 0) is not queued yet when the
    // neighbors of (0, 0, 0) are looked at, so it is in both lists
    assert_eq!(25, plan.extra.len());
    assert!(!plan.extra.contains(&ChunkPos::new(0, 1, 0)));
    assert!(plan.extra.contains(&ChunkPos::new(1, 0, 0)));
    assert!(plan.extra.contains(&ChunkPos::new(-1, -1, -1)));
    assert!(!plan.extra.contains(&ChunkPos::new(0, 0, 0)));
    // the first offset is (-1, -1, -1)
    assert_eq!(ChunkPos::new(-1, -1, -1), plan.extra[0]);
}

#[test]
fn meshing_plan_does_not_repeat_queued_neighbors() {
    let chunks = vec![changed(1, false, false), changed(0, false, true)];
    let plan = plan_meshing_jobs(&chunks, false, |_| true);
    assert_eq!(25, plan.extra.len());
    assert!(!plan.extra.contains(&ChunkPos::new(1, 0, 0)));
}

#[test]
fn actors_trigger_border_events_when_their_chunk_changes() {
    let a = ChunkPos::new(0, 0, 0);
    let b = ChunkPos::new(1, 0, 0);
    let first = CrossChunkBorder { new: true, old_chunk: a, new_chunk: a };
    assert_eq!(Some(first), chunk_border_event(None, a));
    assert_eq!(first, first_chunk_event(a));
    assert_eq!(None, chunk_border_event(Some(a), a));
    assert_eq!(Some(CrossChunkBorder { new: false, old_chunk: a, new_chunk: b }), chunk_border_event(Some(a), b));
}
