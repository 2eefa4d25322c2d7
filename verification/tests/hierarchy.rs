use alander::hierarchy::Hierarchy;
use std::collections::HashSet;

fn tree() -> Hierarchy {
    // 1 -> [2, 3], 2 -> [4, 5], 3 -> [6]
    let mut h = Hierarchy::new();
    assert!(h.set_parent(2, Some(1)));
    assert!(h.set_parent(3, Some(1)));
    assert!(h.set_parent(4, Some(2)));
    assert!(h.set_parent(5, Some(2)));
    assert!(h.set_parent(6, Some(3)));
    h
}

#[test]
fn parent_links_and_children() {
    let h = tree();
    assert_eq!(h.parent_of(4), Some(2));
    assert_eq!(h.parent_of(1), None);
    assert_eq!(h.children_of(1), vec![2, 3]);
    assert_eq!(h.children_of(2), vec![4, 5]);
    assert_eq!(h.children_of(6), Vec::<u64>::new());
}

#[test]
fn set_parent_refuses_self_and_same() {
    let mut h = tree();
    assert!(!h.set_parent(4, Some(4)));
    assert!(!h.set_parent(4, Some(2)));
    assert!(!h.set_parent(1, None));
    assert_eq!(h.children_of(2), vec![4, 5]);
}

#[test]
fn reparent_moves_child_to_end() {
    let mut h = tree();
    assert!(h.set_parent(4, Some(3)));
    assert_eq!(h.children_of(2), vec![5]);
    assert_eq!(h.children_of(3), vec![6, 4]);
    assert_eq!(h.parent_of(4), Some(3));
    assert!(h.set_parent(4, Some(2)));
    assert_eq!(h.parent_of(4), Some(2));
    assert_eq!(h.children_of(2), vec![5, 4]);
    assert!(h.set_parent(4, None));
    assert_eq!(h.parent_of(4), None);
    assert_eq!(h.children_of(2), vec![5]);
}

#[test]
fn subtree_is_breadth_first() {
    let h = tree();
    assert_eq!(h.collect_subtree(1), vec![1, 2, 3, 4, 5, 6]);
    assert_eq!(h.collect_subtree(2), vec![2, 4, 5]);
    assert_eq!(h.collect_subtree(9), vec![9]);
}

#[test]
fn remove_subtree_unlinks() {
    let mut h = tree();
    let removed = h.remove_subtree(2);
    assert_eq!(removed, vec![2, 4, 5]);
    assert_eq!(h.children_of(1), vec![3]);
    assert_eq!(h.parent_of(4), None);
    assert_eq!(h.parent_of(2), None);
    assert_eq!(h.children_of(2), Vec::<u64>::new());
    assert_eq!(h.parent_of(6), Some(3));
}

#[test]
fn saved_order_skips_unidentified() {
    let h = tree();
    let ids: HashSet<u64> = [1, 2, 4, 5, 6].into_iter().collect();
    // 3 has no identifier: it is neither saved nor descended into.
    assert_eq!(h.saved_order(1, &ids), vec![1, 2, 4, 5]);
    let none: HashSet<u64> = HashSet::new();
    assert_eq!(h.saved_order(1, &none), Vec::<u64>::new());
}

#[test]
fn link_by_uuid_relinks() {
    let mut h = Hierarchy::new();
    let uuids = vec![100u128, 200, 300];
    let entities = vec![10u64, 20, 30];
    let parents = vec![None, Some(100u128), Some(200u128)];
    h.link_by_uuid(&uuids, &entities, &parents);
    assert_eq!(h.parent_of(20), Some(10));
    assert_eq!(h.parent_of(30), Some(20));
    assert_eq!(h.parent_of(10), None);
    assert_eq!(h.children_of(10), vec![20]);
}

#[test]
fn link_by_uuid_ignores_unknown_parents() {
    let mut h = Hierarchy::new();
    h.link_by_uuid(&vec![1u128, 2], &vec![11u64, 12], &vec![Some(9u128), None]);
    assert_eq!(h.parent_of(11), None);
    assert_eq!(h.parent_of(12), None);
}

#[test]
fn saved_subtree_relinked_into_fresh_entities() {
    let h = tree();
    let ids: HashSet<u64> = [1, 2, 3, 4, 5, 6].into_iter().collect();
    let saved = h.saved_order(2, &ids);
    assert_eq!(saved, vec![2, 4, 5]);
    // Identifier of each entity: 1000 + its number; fresh entities: 50 + position.
    let uuids: Vec<u128> = saved.iter().map(|&e| 1000 + e as u128).collect();
    let parents: Vec<Option<u128>> = saved.iter().map(|&e| h.parent_of(e).map(|p| 1000 + p as u128)).collect();
    let fresh: Vec<u64> = (0..saved.len() as u64).map(|i| 50 + i).collect();
    let mut target = tree();
    target.link_by_uuid(&uuids, &fresh, &parents);
    // The copy of 2 stays a root (its parent 1 was not saved); 4 and 5 hang under it in order.
    assert_eq!(target.parent_of(50), None);
    assert_eq!(target.parent_of(51), Some(50));
    assert_eq!(target.parent_of(52), Some(50));
    assert_eq!(target.children_of(50), vec![51, 52]);
    // The rest of the target is untouched.
    assert_eq!(target.children_of(1), vec![2, 3]);
    assert_eq!(target.children_of(2), vec![4, 5]);
}

#[test]
fn relinked_children_keep_their_order_without_unidentified_ones() {
    let mut h = tree();
    assert!(h.set_parent(7, Some(1)));
    // 1 -> [2, 3, 7]; 3 carries no identifier.
    let ids: HashSet<u64> = [1, 2, 4, 5, 6, 7].into_iter().collect();
    let saved = h.saved_order(1, &ids);
    assert_eq!(saved, vec![1, 2, 7, 4, 5]);
    let uuids: Vec<u128> = saved.iter().map(|&e| 500 + e as u128).collect();
    let parents: Vec<Option<u128>> = saved.iter().map(|&e| h.parent_of(e).map(|p| 500 + p as u128)).collect();
    let fresh: Vec<u64> = vec![91, 92, 97, 94, 95];
    let mut target = Hierarchy::new();
    target.link_by_uuid(&uuids, &fresh, &parents);
    assert_eq!(target.children_of(91), vec![92, 97]);
    assert_eq!(target.children_of(92), vec![94, 95]);
    assert_eq!(target.parent_of(91), None);
    assert_eq!(target.parent_of(97), Some(91));
}

#[test]
fn cycles_are_detected() {
    let mut h = tree();
    for e in 1..=6 {
        assert!(!h.on_cycle(e));
    }
    assert!(!h.on_cycle(42));
    // 1 -> 2 -> 4 and now 4 -> 1: a cycle through 1, 2 and 4.
    assert!(h.set_parent(1, Some(4)));
    assert!(h.on_cycle(1));
    assert!(h.on_cycle(2));
    assert!(h.on_cycle(4));
    // 3 and 5 hang off the cycle without being on it.
    assert!(!h.on_cycle(3));
    assert!(!h.on_cycle(5));
}
