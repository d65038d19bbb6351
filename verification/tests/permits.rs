use voxel_engine::bounding_box::ChunkPos;
use voxel_engine::permits::{ChunkEcsPermits, ChunkPermitKey, EntityId, LoadshareId, LoadshareMap, Permit, PermitFlags};

#[test]
fn test_chunk_ecs_permits() {
    let mut permits = ChunkEcsPermits::new();

    for i in 0..100 {
        permits.insert(
            EntityId(i as u64),
            ChunkPos::new(0, i as i32, 0),
            Permit {
                loadshares: LoadshareMap::new(),
                cached_flags: PermitFlags::render(),
            },
        );
    }

    for i in 0..50 {
        permits
            .remove(ChunkPermitKey::Chunk(ChunkPos::new(0, i, 0)))
            .unwrap();
    }

    for i in 50..100 {
        let cpos = ChunkPos::new(0, i, 0);
        permits.get(ChunkPermitKey::Chunk(cpos)).unwrap();

        let entity = permits.get_entity(cpos).unwrap();
        assert_eq!(entity, EntityId(i as u64));
    }
}

#[test]
fn permits_lookup_by_entity_after_insert() {
    let mut permits = ChunkEcsPermits::new();
    permits.insert(
        EntityId(7),
        ChunkPos::new(1, 2, 3),
        Permit { loadshares: LoadshareMap::new(), cached_flags: PermitFlags::collision() },
    );
    assert_eq!(1, permits.len());
    assert_eq!(Some(ChunkPos::new(1, 2, 3)), permits.get_chunk_pos(EntityId(7)));
    assert_eq!(Some(EntityId(7)), permits.get_entity(ChunkPos::new(1, 2, 3)));
    assert_eq!(None, permits.get_entity(ChunkPos::new(1, 2, 4)));
    let p = permits.get(ChunkPermitKey::Entity(EntityId(7))).unwrap();
    assert_eq!(2, p.cached_flags.0);
    let removed = permits.remove(ChunkPermitKey::Entity(EntityId(7))).unwrap();
    assert_eq!(EntityId(7), removed.entity);
    assert_eq!(0, permits.len());
    assert!(permits.get(ChunkPermitKey::Chunk(ChunkPos::new(1, 2, 3))).is_none());
    assert!(permits.remove(ChunkPermitKey::Entity(EntityId(7))).is_none());
}

#[test]
fn permit_flags_union_and_names() {
    let both = PermitFlags::render().union(PermitFlags::collision());
    assert_eq!(3, both.0);
    assert!(both.contains(PermitFlags::render()));
    assert!(!PermitFlags::render().contains(PermitFlags::collision()));
    assert_eq!(2, both.names().len());
    assert_eq!(0, PermitFlags::empty().names().len());
}

#[test]
fn permit_cached_flags_are_the_union_of_loadshares() {
    let mut loadshares = LoadshareMap::new();
    loadshares.insert(LoadshareId(1), PermitFlags::render());
    loadshares.insert(LoadshareId(2), PermitFlags::collision());
    let mut permit = Permit { loadshares, cached_flags: PermitFlags::empty() };
    let flags = permit.update_cached_flags();
    assert_eq!(3, flags.0);
    assert_eq!(3, permit.cached_flags.0);

    let mut empty = Permit { loadshares: LoadshareMap::new(), cached_flags: PermitFlags::render() };
    assert_eq!(0, empty.update_cached_flags().0);
}

#[test]
fn loadshare_map_keeps_one_entry_per_loadshare() {
    let mut map = LoadshareMap::new();
    assert_eq!(None, map.insert(LoadshareId(4), PermitFlags::render()));
    assert_eq!(None, map.insert(LoadshareId(9), PermitFlags::collision()));
    assert_eq!(Some(PermitFlags::render()), map.insert(LoadshareId(4), PermitFlags::collision()));
    assert_eq!(2, map.len());
    assert_eq!(Some(&PermitFlags::collision()), map.get(LoadshareId(4)));
    assert_eq!(Some(PermitFlags::collision()), map.remove(LoadshareId(9)));
    assert_eq!(None, map.remove(LoadshareId(9)));
    assert_eq!(None, map.get(LoadshareId(9)));
    assert_eq!(1, map.len());
}

#[test]
fn removed_permit_keys_lead_nowhere() {
    let mut permits = ChunkEcsPermits::new();
    for i in 0..3 {
        permits.insert(
            EntityId(i),
            ChunkPos::new(i as i32, 0, 0),
            Permit { loadshares: LoadshareMap::new(), cached_flags: PermitFlags::render() },
        );
    }
    let removed = permits.remove(ChunkPermitKey::Chunk(ChunkPos::new(0, 0, 0))).unwrap();
    assert_eq!(EntityId(0), removed.entity);
    assert_eq!(None, permits.get_entity(ChunkPos::new(0, 0, 0)));
    assert_eq!(None, permits.get_chunk_pos(EntityId(0)));
    // the last entry took the removed one's place and is still found by both keys
    assert_eq!(Some(EntityId(2)), permits.get_entity(ChunkPos::new(2, 0, 0)));
    assert_eq!(Some(ChunkPos::new(2, 0, 0)), permits.get_chunk_pos(EntityId(2)));
}
