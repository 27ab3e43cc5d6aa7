use cargo_core::conflict_cache::ConflictCache;

#[test]
fn finds_a_stored_conflict_when_all_its_packages_are_active() {
    let mut cache = ConflictCache::new();
    assert_eq!(cache.conflicting(&vec![1, 2, 3], 7), None);
    cache.insert(7, &vec![(1, 100), (3, 101)]);
    assert_eq!(cache.conflicting(&vec![1, 2, 3], 7), Some(vec![(1, 100), (3, 101)]));
    assert_eq!(cache.conflicting(&vec![1, 2], 7), None);
    assert_eq!(cache.conflicting(&vec![1, 2, 3], 8), None);
    assert_eq!(cache.find_conflicting(&vec![1, 3], 7, Some(3)), Some(vec![(1, 100), (3, 101)]));
    assert_eq!(cache.find_conflicting(&vec![1, 3], 7, Some(2)), None);
}

#[test]
fn a_stored_subset_wins_and_replaces_supersets() {
    let mut cache = ConflictCache::new();
    cache.insert(7, &vec![(1, 0), (2, 0), (3, 0)]);
    cache.insert(7, &vec![(1, 1), (2, 1)]);
    // The superset `{1, 2, 3}` was replaced by its subset `{1, 2}`.
    assert_eq!(cache.conflicting(&vec![1, 2], 7), Some(vec![(1, 1), (2, 1)]));
    assert_eq!(cache.conflicting(&vec![1, 2, 3], 7), Some(vec![(1, 1), (2, 1)]));
    // A superset of a stored set is not stored.
    cache.insert(7, &vec![(1, 2), (2, 2), (4, 2)]);
    assert_eq!(cache.conflicting(&vec![1, 2, 4], 7), Some(vec![(1, 1), (2, 1)]));
    assert_eq!(cache.conflicting(&vec![1, 4], 7), None);
}

#[test]
fn packages_list_the_dependencies_that_mention_them() {
    let mut cache = ConflictCache::new();
    assert_eq!(cache.dependencies_conflicting_with(1), None);
    cache.insert(7, &vec![(1, 0), (2, 0)]);
    cache.insert(8, &vec![(1, 0)]);
    cache.insert(8, &vec![(1, 5)]);
    assert_eq!(cache.dependencies_conflicting_with(1), Some(vec![7, 8]));
    assert_eq!(cache.dependencies_conflicting_with(2), Some(vec![7]));
    assert_eq!(cache.dependencies_conflicting_with(3), None);
}

#[test]
fn inserted_conflicts_are_remembered_across_later_inserts() {
    let mut cache = ConflictCache::new();
    cache.insert(1, &vec![(5, 0), (6, 0)]);
    cache.insert(2, &vec![(5, 1)]);
    cache.insert(1, &vec![(7, 2)]);
    let active = vec![5, 6, 7];
    assert_eq!(cache.conflicting(&active, 1), Some(vec![(5, 0), (6, 0)]));
    assert_eq!(cache.conflicting(&vec![7], 1), Some(vec![(7, 2)]));
    assert_eq!(cache.conflicting(&active, 2), Some(vec![(5, 1)]));
    assert_eq!(cache.conflicting(&active, 3), None);
}
