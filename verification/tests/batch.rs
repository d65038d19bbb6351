use voxel_engine::batch::{
    add_batch_chunks, remove_batch_chunks, update_cached_chunk_flags, BatchFlags, CachedBatchMembership, ChunkBatch,
};
use voxel_engine::bounding_box::ChunkPos;
use voxel_engine::permits::EntityId;

fn pos(x: i32, y: i32, z: i32) -> ChunkPos {
    ChunkPos::new(x, y, z)
}

fn sorted(mut v: Vec<ChunkPos>) -> Vec<(i32, i32, i32)> {
    let mut out: Vec<(i32, i32, i32)> = v.drain(..).map(|p| (p.0.x, p.0.y, p.0.z)).collect();
    out.sort();
    out
}

#[test]
fn membership_records_and_forgets_batches() {
    let mut m = CachedBatchMembership::new();
    let c = pos(1, 2, 3);
    assert!(m.get(c).is_none());
    m.add(c, EntityId(7));
    m.add(c, EntityId(8));
    let batches = m.get(c).unwrap();
    assert_eq!(2, batches.len());
    assert!(batches.contains(&7) && batches.contains(&8));
    // the cached flags start cleared
    assert!(!m.has_flags(c, BatchFlags::render()));
    assert!(m.has_flags(c, BatchFlags::empty()));
    m.remove(c, EntityId(7));
    assert_eq!(1, m.get(c).unwrap().len());
    m.remove(c, EntityId(8));
    // a chunk in no batch has no entry
    assert!(m.get(c).is_none());
    assert!(!m.has_flags(c, BatchFlags::empty()));
    // removing from a chunk without an entry does nothing
    m.remove(pos(0, 0, 0), EntityId(1));
    assert!(m.get(pos(0, 0, 0)).is_none());
}

#[test]
fn adding_and_removing_batch_chunks() {
    let mut m = CachedBatchMembership::new();
    let mut batch = ChunkBatch::new(EntityId(100), BatchFlags::render());
    assert_eq!(0, batch.tick());
    assert_eq!(0, batch.num_chunks());
    let e = EntityId(5);

    // nothing to add: nothing changes, not even the tick
    assert!(!add_batch_chunks(&mut batch, e, &[], 3, &mut m));
    assert_eq!(0, batch.tick());

    let chunks = [pos(0, 0, 0), pos(1, 0, 0), pos(0, 0, 0)];
    assert!(add_batch_chunks(&mut batch, e, &chunks, 4, &mut m));
    assert_eq!(4, batch.tick());
    assert_eq!(2, batch.num_chunks());
    assert_eq!(vec![(0, 0, 0), (1, 0, 0)], sorted(batch.chunks()));
    assert!(m.get(pos(1, 0, 0)).unwrap().contains(&5));
    assert_eq!(EntityId(100), batch.owner());
    assert_eq!(BatchFlags::render(), batch.flags());

    assert!(remove_batch_chunks(&mut batch, e, &[pos(0, 0, 0), pos(9, 9, 9)], 6, &mut m));
    assert_eq!(6, batch.tick());
    assert_eq!(vec![(1, 0, 0)], sorted(batch.chunks()));
    assert!(m.get(pos(0, 0, 0)).is_none());
    assert!(m.get(pos(1, 0, 0)).is_some());
}

#[test]
fn cached_flags_are_the_union_of_the_batches_flags() {
    let mut m = CachedBatchMembership::new();
    let shared = pos(2, 2, 2);
    let only_render = pos(3, 3, 3);
    m.add(shared, EntityId(1));
    m.add(shared, EntityId(2));
    m.add(only_render, EntityId(1));
    let flags_of = |e: EntityId| if e.0 == 1 { BatchFlags::render() } else { BatchFlags::collision() };
    update_cached_chunk_flags(&mut m, &[shared, pos(8, 8, 8)], &flags_of);
    assert!(m.has_flags(shared, BatchFlags::render().union(BatchFlags::collision())));
    // a chunk that was not asked for keeps its cleared flags
    assert!(!m.has_flags(only_render, BatchFlags::render()));
    update_cached_chunk_flags(&mut m, &[only_render], &flags_of);
    assert!(m.has_flags(only_render, BatchFlags::render()));
    assert!(!m.has_flags(only_render, BatchFlags::collision()));
    // adding a batch clears the flags again
    m.add(only_render, EntityId(2));
    assert!(!m.has_flags(only_render, BatchFlags::render()));
}

#[test]
fn batch_flag_names() {
    assert_eq!(vec!["RENDER", "COLLISION"], BatchFlags::render().union(BatchFlags::collision()).names());
    assert_eq!(vec!["COLLISION"], BatchFlags::collision().names());
    assert!(BatchFlags::empty().names().is_empty());
}
