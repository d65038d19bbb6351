use voxel_engine::math::ivec3;
use voxel_engine::storage::{DenseChunkStorage, HashmapChunkStorage, IndexedChunkStorage, LayeredChunkStorage};

#[allow(non_snake_case)]
#[test]
fn test_LCS_y() {
    let mut storage = LayeredChunkStorage::<u32>::new();

    assert!(storage.set(ivec3(0, 0, 0), 10).is_ok());
    assert!(storage.set(ivec3(0, 1, 0), 11).is_ok());
    assert!(storage.set(ivec3(0, 2, 0), 12).is_ok());
    assert!(storage.set(ivec3(0, 3, 0), 13).is_ok());

    assert!(storage.set(ivec3(0, 15, 0), 14).is_ok());

    assert!(storage.set(ivec3(0, 16, 0), 99).is_err());
    assert!(storage.set(ivec3(0, -1, 0), 99).is_err());

    assert_eq!(Some(10), storage.get(ivec3(0, 0, 0)).unwrap());
    assert_eq!(Some(11), storage.get(ivec3(0, 1, 0)).unwrap());
    assert_eq!(Some(12), storage.get(ivec3(0, 2, 0)).unwrap());
    assert_eq!(Some(13), storage.get(ivec3(0, 3, 0)).unwrap());

    assert_eq!(Some(14), storage.get(ivec3(0, 15, 0)).unwrap());

    assert!(storage.get(ivec3(0, 16, 0)).is_err());
    assert!(storage.get(ivec3(0, -1, 0)).is_err());
}

#[allow(non_snake_case)]
#[test]
fn test_LCS_xz() {
    let mut storage = LayeredChunkStorage::<u32>::new();

    assert!(storage.set(ivec3(15, 0, 15), 10).is_ok());
    assert!(storage.set(ivec3(10, 0, 10), 11).is_ok());

    assert!(storage.set(ivec3(16, 0, 15), 99).is_err());
    assert!(storage.set(ivec3(15, 0, 16), 99).is_err());

    for x in 0..16 {
        for z in 0..16 {
            assert!(storage.set(ivec3(x, 4, z), 50).is_ok())
        }
    }

    for x in 0..16 {
        for z in 0..16 {
            assert_eq!(Some(50), storage.get(ivec3(x, 4, z)).unwrap())
        }
    }

    assert_eq!(Some(10), storage.get(ivec3(15, 0, 15)).unwrap());
    assert_eq!(Some(11), storage.get(ivec3(10, 0, 10)).unwrap());
}

#[allow(non_snake_case)]
#[test]
fn test_LCS_raw_layer() {
    let mut storage = LayeredChunkStorage::<u32>::new();

    // a layer is indexed by `x * 16 + z`
    let mut arr: Vec<Option<u32>> = vec![None; 256];
    arr[14 * 16 + 8] = Some(10);
    arr[15 * 16 + 15] = Some(11);
    arr[0] = Some(12);

    storage.insert_layer(arr, 8).unwrap();

    assert!(storage.get_layer(8).unwrap().is_some());

    assert_eq!(Some(10), storage.get(ivec3(14, 8, 8)).unwrap());
    assert_eq!(Some(11), storage.get(ivec3(15, 8, 15)).unwrap());
    assert_eq!(Some(12), storage.get(ivec3(0, 8, 0)).unwrap());

    assert!(storage.clear(ivec3(14, 8, 8)).is_ok());
    assert!(storage.clear(ivec3(15, 8, 15)).is_ok());
    assert!(storage.clear(ivec3(0, 8, 0)).is_ok());

    assert!(storage.get_layer(8).unwrap().is_some());

    assert_eq!(1, storage.clear_empty_layers());

    assert!(storage.get_layer(8).unwrap().is_none());
}

#[allow(non_snake_case)]
#[test]
fn test_ICS_basics() {
    let mut ics = IndexedChunkStorage::<u32>::new();

    ics.set(ivec3(0, 0, 0), 10).unwrap();
    ics.set(ivec3(15, 15, 15), 11).unwrap();

    assert!(ics.set(ivec3(15, 16, 15), 12).is_err());

    assert_eq!(Some(&10), ics.get(ivec3(0, 0, 0)).unwrap());
    assert_eq!(None, ics.get(ivec3(0, 1, 0)).unwrap());
    assert_eq!(Some(&11), ics.get(ivec3(15, 15, 15)).unwrap());

    assert_eq!(2, ics.values_len());

    ics.clear(ivec3(0, 0, 0)).unwrap();

    assert_eq!(None, ics.get(ivec3(0, 0, 0)).unwrap());

    assert_eq!(2, ics.values_len());
}

#[allow(non_snake_case)]
#[test]
fn test_ICS_optimizing() {
    let mut ics = IndexedChunkStorage::<u32>::new();

    ics.set_many(
        &[ivec3(0, 4, 0), ivec3(1, 4, 0), ivec3(2, 4, 0), ivec3(3, 4, 0)],
        10,
    )
    .unwrap();

    ics.set(ivec3(0, 2, 0), 11).unwrap();

    ics.set(ivec3(0, 1, 0), 10).unwrap();

    assert_eq!(2, ics.values_len());

    // we clear out only '11' in the storage
    ics.clear(ivec3(0, 2, 0)).unwrap();

    // upon optimizing it should be removed
    assert_eq!(1, ics.optimize());

    // we should only have a '10' left in here
    assert_eq!(1, ics.values_len());
}

#[allow(non_snake_case)]
#[test]
fn test_ICS_set_many() {
    let mut ics = IndexedChunkStorage::<u32>::new();

    ics.set_many(
        &[ivec3(0, 4, 0), ivec3(1, 4, 0), ivec3(2, 4, 0), ivec3(3, 4, 0)],
        10,
    )
    .unwrap();

    assert_eq!(1, ics.values_len());
    assert_eq!(Some(&10), ics.get(ivec3(0, 4, 0)).unwrap());
    assert_eq!(Some(&10), ics.get(ivec3(1, 4, 0)).unwrap());
    assert_eq!(Some(&10), ics.get(ivec3(2, 4, 0)).unwrap());
    assert_eq!(Some(&10), ics.get(ivec3(3, 4, 0)).unwrap());

    assert!(ics
        .set_many(
            &[ivec3(0, 4, 16), ivec3(1, 4, 16), ivec3(2, 4, 16), ivec3(3, 4, 16)],
            11
        )
        .is_err());

    assert_eq!(1, ics.values_len());
}

#[allow(non_snake_case)]
#[test]
fn test_ICS_overwrite() {
    let mut ics = IndexedChunkStorage::<u32>::new();

    ics.set(ivec3(2, 2, 2), 10).unwrap();

    ics.set(ivec3(2, 3, 2), 11).unwrap();
    ics.set(ivec3(2, 3, 3), 11).unwrap();
    ics.set(ivec3(3, 2, 2), 11).unwrap();

    // overwrite our first value
    ics.set(ivec3(2, 2, 2), 11).unwrap();

    assert_eq!(2, ics.values_len());

    assert_eq!(1, ics.optimize());

    assert_eq!(1, ics.values_len());

    assert_eq!(Some(&11), ics.get(ivec3(2, 2, 2)).unwrap());
    assert_eq!(Some(&11), ics.get(ivec3(2, 3, 2)).unwrap());
    assert_eq!(Some(&11), ics.get(ivec3(2, 3, 3)).unwrap());
    assert_eq!(Some(&11), ics.get(ivec3(3, 2, 2)).unwrap());
    assert_eq!(Some(&11), ics.get(ivec3(2, 2, 2)).unwrap());
}

#[allow(non_snake_case)]
#[test]
fn test_ICS_clear() {
    let mut ics = IndexedChunkStorage::<u32>::new();

    ics.set(ivec3(0, 0, 0), 10).unwrap();

    ics.set(ivec3(1, 0, 0), 11).unwrap();
    ics.set(ivec3(2, 0, 0), 11).unwrap();
    ics.set(ivec3(3, 0, 0), 11).unwrap();

    ics.clear(ivec3(0, 0, 0)).unwrap();

    assert_eq!(2, ics.values_len());

    assert_eq!(None, ics.get(ivec3(0, 0, 0)).unwrap());

    assert_eq!(1, ics.optimize());

    assert_eq!(1, ics.values_len());

    assert_eq!(None, ics.get(ivec3(0, 0, 0)).unwrap());

    assert_eq!(Some(&11), ics.get(ivec3(1, 0, 0)).unwrap());
    assert_eq!(Some(&11), ics.get(ivec3(2, 0, 0)).unwrap());
    assert_eq!(Some(&11), ics.get(ivec3(3, 0, 0)).unwrap());
}

#[allow(non_snake_case)]
#[test]
fn test_ICS_reordering_optimization() {
    let mut ics = IndexedChunkStorage::<u32>::new();

    ics.set(ivec3(0, 0, 0), 10).unwrap();
    ics.set(ivec3(0, 1, 0), 11).unwrap();
    ics.set(ivec3(0, 2, 0), 12).unwrap();
    ics.set(ivec3(0, 3, 0), 13).unwrap();

    ics.clear(ivec3(0, 1, 0)).unwrap();
    ics.clear(ivec3(0, 2, 0)).unwrap();

    assert_eq!(Some(&10), ics.get(ivec3(0, 0, 0)).unwrap());
    assert_eq!(Some(&13), ics.get(ivec3(0, 3, 0)).unwrap());

    assert_eq!(None, ics.get(ivec3(0, 1, 0)).unwrap());
    assert_eq!(None, ics.get(ivec3(0, 2, 0)).unwrap());

    assert_eq!(4, ics.values_len());

    assert_eq!(2, ics.optimize());

    assert_eq!(2, ics.values_len());

    assert_eq!(Some(&10), ics.get(ivec3(0, 0, 0)).unwrap());
    assert_eq!(Some(&13), ics.get(ivec3(0, 3, 0)).unwrap());

    assert_eq!(None, ics.get(ivec3(0, 1, 0)).unwrap());
    assert_eq!(None, ics.get(ivec3(0, 2, 0)).unwrap());
}

#[test]
fn ics_set_reports_reused_values() {
    let mut ics = IndexedChunkStorage::<u32>::new();
    // `None` when the value is new, `Some(value)` when an equal value was already stored
    assert_eq!(None, ics.set(ivec3(1, 2, 3), 7).unwrap());
    assert_eq!(Some(7), ics.set(ivec3(3, 2, 1), 7).unwrap());
    assert_eq!(None, ics.set(ivec3(1, 2, 3), 8).unwrap());
    assert_eq!(Some(&8), ics.get(ivec3(1, 2, 3)).unwrap());
    assert_eq!(Some(&7), ics.get(ivec3(3, 2, 1)).unwrap());
    assert_eq!(2, ics.values_len());
    assert!(ics.get(ivec3(-1, 2, 3)).is_err());
    assert!(ics.clear(ivec3(0, 0, 16)).is_err());
}

#[test]
fn ics_filled_has_value_everywhere() {
    let ics = IndexedChunkStorage::<u32>::filled(5);
    assert_eq!(1, ics.values_len());
    assert_eq!(Some(&5), ics.get(ivec3(0, 0, 0)).unwrap());
    assert_eq!(Some(&5), ics.get(ivec3(15, 15, 15)).unwrap());
    assert!(ics.contains_value(&5));
    assert!(!ics.contains_value(&6));
}

#[test]
fn ics_optimize_keeps_every_position() {
    let mut ics = IndexedChunkStorage::<u32>::new();
    for i in 0..16 {
        ics.set(ivec3(i, 0, 0), i as u32).unwrap();
    }
    for i in 0..8 {
        ics.set(ivec3(i, 0, 0), 100).unwrap();
    }
    assert_eq!(17, ics.values_len());
    assert_eq!(8, ics.optimize());
    assert_eq!(9, ics.values_len());
    for i in 0..8 {
        assert_eq!(Some(&100), ics.get(ivec3(i, 0, 0)).unwrap());
    }
    for i in 8..16 {
        assert_eq!(Some(&(i as u32)), ics.get(ivec3(i, 0, 0)).unwrap());
    }
    assert_eq!(0, ics.optimize());
}

#[test]
fn dense_storage_write_then_read() {
    let mut dense = DenseChunkStorage::new(0u8);
    assert!(dense.set(ivec3(3, 4, 5), 9).is_ok());
    assert_eq!(Ok(9), dense.get(ivec3(3, 4, 5)));
    assert_eq!(Ok(0), dense.get(ivec3(5, 4, 3)));
    assert!(dense.get(ivec3(16, 0, 0)).is_err());
    assert!(dense.set(ivec3(0, -1, 0), 1).is_err());
    assert_eq!(4096, dense.data_len());
    assert_eq!(Some(&9), dense.get_ref([3, 4, 5]));
    assert_eq!(None, dense.get_ref([3, 4, 16]));
}

#[test]
fn hashmap_storage_write_then_read() {
    let mut hm = HashmapChunkStorage::<u32>::new();
    assert!(hm.set(ivec3(1, 1, 1), 3).is_ok());
    assert!(hm.set(ivec3(16, 1, 1), 3).is_err());
    assert_eq!(Some(3), hm.get(ivec3(1, 1, 1)));
    assert_eq!(None, hm.get(ivec3(1, 1, 2)));
    hm.clear(ivec3(1, 1, 1));
    assert_eq!(None, hm.get(ivec3(1, 1, 1)));
}

#[test]
fn lcs_clear_layer_and_bounds() {
    let mut storage = LayeredChunkStorage::<u32>::new();
    storage.set(ivec3(1, 2, 3), 4).unwrap();
    assert!(storage.clear_layer(16).is_err());
    assert!(storage.clear_layer(2).is_ok());
    assert_eq!(None, storage.get(ivec3(1, 2, 3)).unwrap());
    assert!(storage.get_layer(16).is_err());
    assert_eq!(0, storage.clear_empty_layers());
}

#[test]
fn ics_set_with_hash_reuses_only_under_the_same_hash() {
    let mut ics = IndexedChunkStorage::<u32>::new();
    assert_eq!(Ok(None), ics.set_with_hash(ivec3(0, 0, 0), 10, 7));
    assert_eq!(Ok(Some(10)), ics.set_with_hash(ivec3(1, 0, 0), 10, 7));
    assert_eq!(1, ics.values_len());
    // the same value under another hash is not found, and is pushed again
    assert_eq!(Ok(None), ics.set_with_hash(ivec3(2, 0, 0), 10, 8));
    assert_eq!(2, ics.values_len());
    // another value under the same hash is not mistaken for the first
    assert_eq!(Ok(None), ics.set_with_hash(ivec3(3, 0, 0), 11, 7));
    assert_eq!(3, ics.values_len());
    assert_eq!(Ok(Some(&10)), ics.get(ivec3(1, 0, 0)));
    assert_eq!(Ok(Some(&11)), ics.get(ivec3(3, 0, 0)));
    assert!(ics.set_with_hash(ivec3(16, 0, 0), 10, 7).is_err());
    assert_eq!(3, ics.values_len());
}

#[test]
fn ics_set_many_with_hash_reuses_a_stored_value() {
    let mut ics = IndexedChunkStorage::<u32>::new();
    assert_eq!(Ok(None), ics.set_with_hash(ivec3(0, 0, 0), 10, 7));
    ics.set_many_with_hash(&[ivec3(0, 1, 0), ivec3(0, 2, 0)], 10, 7).unwrap();
    assert_eq!(1, ics.values_len());
    ics.set_many_with_hash(&[ivec3(0, 3, 0)], 12, 9).unwrap();
    assert_eq!(2, ics.values_len());
    assert_eq!(Ok(Some(&10)), ics.get(ivec3(0, 2, 0)));
    assert_eq!(Ok(Some(&12)), ics.get(ivec3(0, 3, 0)));
}

#[test]
fn ics_value_stays_findable_after_other_writes_and_clears() {
    let mut ics = IndexedChunkStorage::<u32>::new();
    assert_eq!(Ok(None), ics.set_with_hash(ivec3(0, 0, 0), 10, 7));
    assert_eq!(Ok(None), ics.set_with_hash(ivec3(1, 0, 0), 20, 3));
    ics.clear(ivec3(0, 0, 0)).unwrap();
    assert_eq!(Ok(None), ics.get(ivec3(0, 0, 0)));
    assert_eq!(Ok(Some(10)), ics.set_with_hash(ivec3(5, 5, 5), 10, 7));
    assert_eq!(2, ics.values_len());
}
