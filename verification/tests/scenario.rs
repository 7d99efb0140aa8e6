use grouped_storage::{GroupedStorage, MapStorage, UnprotectedGrouped};
use specs::BitSet;
use std::collections::HashMap;

fn ids_of(set: &BitSet) -> Vec<u32> {
    let mut ids = Vec::new();
    for id in 0..256u32 {
        if set.contains(id) {
            ids.push(id);
        }
    }
    ids
}

fn grouping(groups: &HashMap<String, BitSet>) -> Vec<(String, Vec<u32>)> {
    let mut all: Vec<(String, Vec<u32>)> =
        groups.iter().map(|(value, set)| (value.clone(), ids_of(set))).collect();
    all.sort();
    all
}

fn text(value: &str) -> String {
    value.to_string()
}

fn new_index() -> GroupedStorage<String, MapStorage<String>> {
    GroupedStorage::try_default().unwrap()
}

#[test]
fn red_and_blue_scenario() {
    let mut index = new_index();
    index.insert(1, text("red"));
    index.insert(2, text("red"));
    index.insert(3, text("blue"));
    assert_eq!(
        grouping(index.get_groups()),
        vec![(text("blue"), vec![3]), (text("red"), vec![1, 2])]
    );

    assert_eq!(index.remove(2), "red");
    assert_eq!(
        grouping(index.get_groups()),
        vec![(text("blue"), vec![3]), (text("red"), vec![1])]
    );

    *index.get_mut(1) = text("blue");
    assert_eq!(grouping(index.get_groups()), vec![(text("blue"), vec![1, 3])]);
}

#[test]
fn a_new_index_has_no_groups() {
    let mut index = new_index();
    assert!(index.get_groups().is_empty());
}

#[test]
fn every_live_id_is_in_the_group_of_its_value_and_in_no_other() {
    let mut index = new_index();
    let colours = ["red", "green", "blue"];
    for id in 0..30u32 {
        index.insert(id, text(colours[(id % 3) as usize]));
    }
    index.get_groups();
    for id in 0..30u32 {
        if id % 5 == 0 {
            index.remove(id);
        } else if id % 2 == 0 {
            *index.get_mut(id) = text(colours[((id + 1) % 3) as usize]);
        }
    }
    let mut expected: HashMap<u32, String> = HashMap::new();
    for id in 0..30u32 {
        if id % 5 == 0 {
            continue;
        }
        let shift = if id % 2 == 0 { 1 } else { 0 };
        expected.insert(id, text(colours[((id + shift) % 3) as usize]));
    }
    for (id, colour) in expected.iter() {
        assert_eq!(index.get(*id), colour);
    }
    let groups = index.get_groups();
    for (id, colour) in expected.iter() {
        for (value, set) in groups.iter() {
            assert_eq!(set.contains(*id), value == colour, "id {} in group {}", id, value);
        }
    }
    for id in (0..30u32).filter(|id| id % 5 == 0) {
        for set in groups.values() {
            assert!(!set.contains(id));
        }
    }
}

#[test]
fn no_group_is_empty_after_a_query() {
    let mut index = new_index();
    index.insert(1, text("red"));
    index.insert(2, text("blue"));
    index.get_groups();
    index.remove(1);
    index.remove(2);
    let groups = index.get_groups();
    assert!(groups.is_empty());
    index.insert(4, text("red"));
    let groups = index.get_groups();
    assert_eq!(grouping(groups), vec![(text("red"), vec![4])]);
}

#[test]
fn a_second_query_returns_the_same_groups() {
    let mut index = new_index();
    index.insert(1, text("red"));
    index.insert(2, text("blue"));
    index.insert(3, text("red"));
    index.get_groups();
    index.remove(2);
    let first = grouping(index.get_groups());
    let second = grouping(index.get_groups());
    assert_eq!(first, vec![(text("red"), vec![1, 3])]);
    assert_eq!(first, second);
}

#[test]
fn a_mutated_id_moves_and_its_old_group_is_pruned() {
    let mut index = new_index();
    index.insert(7, text("a"));
    index.insert(8, text("b"));
    index.get_groups();
    *index.get_mut(7) = text("b");
    assert_eq!(grouping(index.get_groups()), vec![(text("b"), vec![7, 8])]);
}

#[test]
fn a_mutated_id_moves_and_its_old_group_keeps_the_others() {
    let mut index = new_index();
    index.insert(7, text("a"));
    index.insert(9, text("a"));
    index.get_groups();
    *index.get_mut(7) = text("b");
    assert_eq!(
        grouping(index.get_groups()),
        vec![(text("a"), vec![9]), (text("b"), vec![7])]
    );
}

#[test]
fn a_mutation_to_the_same_value_changes_no_group() {
    let mut index = new_index();
    index.insert(7, text("a"));
    index.get_groups();
    *index.get_mut(7) = text("a");
    assert_eq!(grouping(index.get_groups()), vec![(text("a"), vec![7])]);
}

#[test]
fn a_value_reverted_before_the_query_keeps_its_group() {
    let mut index = new_index();
    index.insert(5, text("a"));
    index.get_groups();
    *index.get_mut(5) = text("b");
    *index.get_mut(5) = text("a");
    assert_eq!(grouping(index.get_groups()), vec![(text("a"), vec![5])]);
}

#[test]
fn a_shared_group_survives_the_removal_of_one_member() {
    let mut index = new_index();
    index.insert(1, text("a"));
    index.insert(2, text("a"));
    index.get_groups();
    assert_eq!(index.remove(1), "a");
    assert_eq!(grouping(index.get_groups()), vec![(text("a"), vec![2])]);
}

#[test]
fn an_id_removed_before_the_first_query_is_never_grouped() {
    let mut index = new_index();
    index.insert(1, text("a"));
    assert_eq!(index.remove(1), "a");
    assert!(index.get_groups().is_empty());
}

#[test]
fn an_id_inserted_twice_before_the_query_is_grouped_by_its_last_value() {
    let mut index = new_index();
    index.insert(1, text("a"));
    index.insert(1, text("b"));
    assert_eq!(grouping(index.get_groups()), vec![(text("b"), vec![1])]);
}

#[test]
fn an_insert_over_a_grouped_id_leaves_it_in_its_old_group() {
    let mut index = new_index();
    index.insert(1, text("a"));
    index.get_groups();
    index.insert(1, text("b"));
    assert_eq!(
        grouping(index.get_groups()),
        vec![(text("a"), vec![1]), (text("b"), vec![1])]
    );
}

#[test]
fn the_write_is_seen_by_get_at_once_and_by_the_groups_after_the_query() {
    let mut index = new_index();
    index.insert(3, text("old"));
    index.get_groups();
    {
        let value = index.get_mut(3);
        assert_eq!(value, "old");
        value.push_str("er");
    }
    assert_eq!(index.get(3), "older");
    assert_eq!(grouping(index.get_groups()), vec![(text("older"), vec![3])]);
}

#[test]
fn clean_drops_components_and_leaves_the_groups() {
    let mut index = new_index();
    index.insert(1, text("a"));
    index.insert(2, text("a"));
    index.insert(3, text("b"));
    index.get_groups();
    let mut live = BitSet::new();
    live.add(1);
    index.clean(&live);
    assert_eq!(index.get(1), "a");
    assert_eq!(
        grouping(index.get_groups()),
        vec![(text("a"), vec![1, 2]), (text("b"), vec![3])]
    );
    index.insert(2, text("c"));
    assert_eq!(index.get(2), "c");
}

#[test]
fn large_ids_are_grouped() {
    let mut index: GroupedStorage<u8, MapStorage<u8>> = GroupedStorage::try_default().unwrap();
    index.insert(1_048_575, 4);
    index.insert(0, 4);
    let groups = index.get_groups();
    assert_eq!(groups.len(), 1);
    assert!(groups[&4].contains(1_048_575));
    assert!(groups[&4].contains(0));
    assert!(!groups[&4].contains(1_048_574));
}
