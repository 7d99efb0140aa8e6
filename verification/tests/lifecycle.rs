use grouped_storage::id_set::id_in_range;
use grouped_storage::{
    Grouped, GroupedStorage, MapStorage, PrimaryStore, StoreInitError,
};
use specs::BitSet;

#[test]
fn try_default_gives_an_empty_index() {
    let made: Result<GroupedStorage<u32, MapStorage<u32>>, StoreInitError> =
        GroupedStorage::try_default();
    let mut index = made.unwrap();
    assert!(Grouped::get_groups(&mut index).is_empty());
}

#[test]
fn bind_passes_the_store_on() {
    let mut store: MapStorage<u32> = MapStorage::try_default().unwrap();
    store.insert(4, 40);
    let mut index = GroupedStorage::bind(Ok(store)).unwrap();
    assert_eq!(*index.get(4), 40);
    assert!(Grouped::get_groups(&mut index).is_empty());
    *index.get_mut(4) = 41;
    let groups = Grouped::get_groups(&mut index);
    assert_eq!(groups.len(), 1);
    assert!(groups[&41].contains(4));
}

#[test]
fn bind_hands_the_failure_of_the_store_on() {
    let bound: Result<GroupedStorage<u32, MapStorage<u32>>, StoreInitError> =
        GroupedStorage::bind(Err("no memory for the store".to_string()));
    match bound {
        Ok(_) => panic!("an index was bound to no store"),
        Err(error) => {
            assert_eq!(error, StoreInitError { message: "no memory for the store".to_string() })
        }
    }
}

#[test]
fn with_store_starts_without_groups() {
    let mut store: MapStorage<u32> = MapStorage::try_default().unwrap();
    store.insert(1, 10);
    let mut index = GroupedStorage::with_store(store);
    assert!(Grouped::get_groups(&mut index).is_empty());
    assert_eq!(index.remove(1), 10);
    assert!(Grouped::get_groups(&mut index).is_empty());
}

#[test]
fn the_map_store_keeps_what_it_is_given() {
    let mut store: MapStorage<String> = MapStorage::try_default().unwrap();
    store.insert(1, "one".to_string());
    store.insert(2, "two".to_string());
    store.insert(1, "uno".to_string());
    assert_eq!(store.get(1), "uno");
    assert_eq!(store.get(2), "two");
    store.get_mut(2).push('!');
    assert_eq!(store.get(2), "two!");
    assert_eq!(store.remove(1), "uno");
    store.insert(1, "eins".to_string());
    assert_eq!(store.get(1), "eins");
}

#[test]
fn the_map_store_cleans_what_is_not_live() {
    let mut store: MapStorage<u32> = MapStorage::try_default().unwrap();
    for id in 0..10u32 {
        store.insert(id, id * 10);
    }
    let mut live = BitSet::new();
    live.add(2);
    live.add(3);
    live.add(11);
    store.clean(&live);
    assert_eq!(*store.get(2), 20);
    assert_eq!(*store.get(3), 30);
    for id in 0..12u32 {
        assert_eq!(store.contains(id), id == 2 || id == 3, "id {}", id);
    }
}

#[test]
fn the_map_store_knows_what_it_holds() {
    let mut store: MapStorage<u32> = MapStorage::try_default().unwrap();
    assert!(!store.contains(5));
    store.insert(5, 50);
    assert!(store.contains(5));
    assert!(!store.contains(6));
    assert_eq!(store.remove(5), 50);
    assert!(!store.contains(5));
}

#[test]
fn the_index_shows_its_store() {
    let mut index: GroupedStorage<u32, MapStorage<u32>> = GroupedStorage::try_default().unwrap();
    index.insert(9, 90);
    assert!(index.store().contains(9));
    assert_eq!(*index.store().get(9), 90);
    index.remove(9);
    assert!(!index.store().contains(9));
}

#[test]
fn clean_keeps_the_live_components_only() {
    let mut index: GroupedStorage<u32, MapStorage<u32>> = GroupedStorage::try_default().unwrap();
    index.insert(1, 10);
    index.insert(2, 10);
    Grouped::get_groups(&mut index);
    let mut live = BitSet::new();
    live.add(2);
    index.clean(&live);
    assert!(!index.store().contains(1));
    assert!(index.store().contains(2));
    let groups = Grouped::get_groups(&mut index);
    assert!(groups[&10].contains(1));
    assert!(groups[&10].contains(2));
}

#[test]
fn the_id_limit_is_the_fourth_power_of_the_word_size() {
    assert!(id_in_range(0));
    assert!(id_in_range(1_048_575));
    if usize::BITS == 64 {
        assert!(id_in_range(1_048_576));
        assert!(id_in_range(16_777_215));
        assert!(!id_in_range(16_777_216));
    } else {
        assert!(!id_in_range(1_048_576));
    }
    assert!(!id_in_range(u32::MAX));
}
