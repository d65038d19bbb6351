use voxel_engine::bounding_box::{chunk_bounding_box, ChunkPos};
use voxel_engine::math::{ivec3, IVec3};
use voxel_engine::neighbors::{InvalidNeighborPosition, NeighborSelection};
use voxel_engine::transformations::{
    chunkspace_to_mb_worldspace_min, chunkspace_to_worldspace_min, fb_localspace_to_local_chunkspace,
    mb_localspace_to_local_chunkspace,
};

#[test]
fn bounding_box_contains() {
    let bb = chunk_bounding_box();

    assert!(bb.contains(IVec3::splat(0)));
    assert!(bb.contains(IVec3::splat(15)));

    assert!(!bb.contains(IVec3::splat(16)));
    assert!(bb.contains_inclusive(IVec3::splat(16)));
}

#[test]
fn chunkpos_to_worldspace() {
    fn test(chunk_pos_splat: i32, min_splat: i32, max_splat: i32) {
        let chunk_pos = ChunkPos(IVec3::splat(chunk_pos_splat));

        assert_eq!(chunk_pos.worldspace_min(), IVec3::splat(min_splat));
        assert_eq!(chunk_pos.worldspace_max(), IVec3::splat(max_splat));

        let mut count = 0;
        for _ in min_splat..=max_splat {
            count += 1
        }

        assert_eq!(count, 16)
    }

    test(0, 0, 15);
    test(1, 16, 31);
    test(2, 32, 47);
    test(-1, -16, -1);
    test(-2, -32, -17);
}

#[test]
fn test_neighbor_selection() {
    let mut sel = NeighborSelection::empty();

    sel.set(ivec3(-1, -1, -1), true).unwrap();
    sel.set(ivec3(0, 1, 0), true).unwrap();
    sel.set(ivec3(-1, 0, 1), true).unwrap();
    sel.set(ivec3(1, 1, 1), true).unwrap();

    assert_eq!(4, sel.num_selected());

    assert_eq!(Ok(true), sel.get(ivec3(-1, -1, -1)));
    assert_eq!(Ok(true), sel.get(ivec3(0, 1, 0)));
    assert_eq!(Ok(true), sel.get(ivec3(-1, 0, 1)));
    assert_eq!(Ok(true), sel.get(ivec3(1, 1, 1)));

    assert_eq!(Ok(false), sel.get(ivec3(-1, 1, -1)));
    assert_eq!(Err(InvalidNeighborPosition), sel.get(ivec3(0, 0, 0)));
    assert_eq!(Err(InvalidNeighborPosition), sel.get(ivec3(0, -2, 0)));
    assert_eq!(Err(InvalidNeighborPosition), sel.get(ivec3(0, 2, 0)));

    sel.set(ivec3(-1, -1, -1), false).unwrap();
    sel.set(ivec3(1, 1, 1), false).unwrap();

    assert_eq!(2, sel.num_selected());

    assert_eq!(Ok(false), sel.get(ivec3(-1, -1, -1)));
    assert_eq!(Ok(true), sel.get(ivec3(0, 1, 0)));
    assert_eq!(Ok(true), sel.get(ivec3(-1, 0, 1)));
    assert_eq!(Ok(false), sel.get(ivec3(1, 1, 1)));
}

#[test]
fn test_neighbor_selection_iter() {
    let mut sel = NeighborSelection::empty();

    sel.set(ivec3(-1, -1, -1), true).unwrap();
    sel.set(ivec3(0, -1, -1), true).unwrap();
    sel.set(ivec3(1, -1, -1), true).unwrap();
    sel.set(ivec3(1, 1, 1), true).unwrap();

    let mut iter = sel.selected().into_iter();

    assert_eq!(Some(ivec3(-1, -1, -1)), iter.next());
    assert_eq!(Some(ivec3(0, -1, -1)), iter.next());
    assert_eq!(Some(ivec3(1, -1, -1)), iter.next());
    assert_eq!(Some(ivec3(1, 1, 1)), iter.next());
    assert_eq!(None, iter.next());
}

#[test]
fn test_fb_localspace_to_local_chunkspace() {
    for x in 0..16 {
        for y in 0..16 {
            for z in 0..16 {
                assert_eq!(ivec3(0, 0, 0), fb_localspace_to_local_chunkspace(ivec3(x, y, z)));
            }
        }
    }

    for x in 16..32 {
        for y in 16..32 {
            for z in 16..32 {
                assert_eq!(ivec3(1, 1, 1), fb_localspace_to_local_chunkspace(ivec3(x, y, z)));
            }
        }
    }

    for x in 0..16 {
        for y in 16..32 {
            for z in 0..16 {
                assert_eq!(ivec3(0, 1, 0), fb_localspace_to_local_chunkspace(ivec3(x, y, z)));
            }
        }
    }
}

#[test]
fn test_mb_localspace_to_local_chunkspace() {
    for x in 0..64 {
        for y in 0..64 {
            for z in 0..64 {
                assert_eq!(ivec3(0, 0, 0), mb_localspace_to_local_chunkspace(ivec3(x, y, z)));
            }
        }
    }

    for x in 64..128 {
        for y in 64..128 {
            for z in 64..128 {
                assert_eq!(ivec3(1, 1, 1), mb_localspace_to_local_chunkspace(ivec3(x, y, z)));
            }
        }
    }

    for x in 0..64 {
        for y in 64..128 {
            for z in 0..64 {
                assert_eq!(ivec3(0, 1, 0), mb_localspace_to_local_chunkspace(ivec3(x, y, z)));
            }
        }
    }
}

#[test]
fn test_chunkspace_to_mb_worldspace_min() {
    let f = |x: i32, y: i32, z: i32| chunkspace_to_mb_worldspace_min(ivec3(x, y, z));

    assert_eq!(ivec3(0, 0, 0), f(0, 0, 0));
    assert_eq!(ivec3(0, 64, 0), f(0, 1, 0));
    assert_eq!(ivec3(0, -64, 0), f(0, -1, 0));
    assert_eq!(ivec3(0, -128, 0), f(0, -2, 0));
    assert_eq!(ivec3(0, 256, 0), f(0, 4, 0));
}

#[test]
fn test_chunkspace_to_worldspace_min() {
    let f = |x: i32, y: i32, z: i32| chunkspace_to_worldspace_min(ivec3(x, y, z));

    assert_eq!(ivec3(0, 0, 0), f(0, 0, 0));
    assert_eq!(ivec3(0, 16, 0), f(0, 1, 0));
    assert_eq!(ivec3(0, -16, 0), f(0, -1, 0));
    assert_eq!(ivec3(0, -32, 0), f(0, -2, 0));
    assert_eq!(ivec3(0, 64, 0), f(0, 4, 0));
}
