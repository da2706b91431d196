use flock_lab::SpatialHash;

#[test]
fn query_returns_adjacent_cell_indices() {
    // Cell size 5: x = 1.0, 6.0 and 25.0 fall in cells 0, 1 and 5.
    let mut hash = SpatialHash::new();
    hash.insert(7, [0, 0, 0]);
    hash.insert(9, [1, 0, 0]);
    hash.insert(11, [5, 0, 0]);

    let mut found = hash.nearby_indices([0, 0, 0]);
    found.sort_unstable();
    assert_eq!(found, vec![7, 9]);
}

#[test]
fn query_lists_cells_in_block_order() {
    let mut hash = SpatialHash::new();
    hash.insert(1, [1, 1, 1]);
    hash.insert(2, [-1, -1, -1]);
    hash.insert(3, [0, 0, 0]);
    hash.insert(4, [0, 0, 0]);
    hash.insert(5, [-1, 0, 1]);
    assert_eq!(hash.nearby_indices([0, 0, 0]), vec![2, 5, 3, 4, 1]);
}

#[test]
fn query_skips_cells_two_steps_away() {
    let mut hash = SpatialHash::new();
    hash.insert(1, [2, 0, 0]);
    hash.insert(2, [0, -2, 0]);
    hash.insert(3, [1, 1, -2]);
    assert!(hash.nearby_indices([0, 0, 0]).is_empty());
    assert_eq!(hash.nearby_indices([1, 0, 0]), vec![1]);
}

#[test]
fn inserted_index_is_found_from_every_adjacent_cell() {
    let mut hash = SpatialHash::new();
    hash.insert(42, [-3, 7, 100]);
    for dx in -1..=1 {
        for dy in -1..=1 {
            for dz in -1..=1 {
                let found = hash.nearby_indices([-3 + dx, 7 + dy, 100 + dz]);
                assert_eq!(found, vec![42]);
            }
        }
    }
}

#[test]
fn clear_empties_every_cell() {
    let mut hash = SpatialHash::new();
    hash.insert(1, [0, 0, 0]);
    hash.insert(2, [4, 4, 4]);
    hash.clear();
    assert!(hash.nearby_indices([0, 0, 0]).is_empty());
    assert!(hash.nearby_indices([4, 4, 4]).is_empty());
}

#[test]
fn rebuild_replaces_previous_entries() {
    let mut hash = SpatialHash::new();
    hash.insert(99, [0, 0, 0]);
    let entries = vec![(0, [0, 0, 0]), (1, [10, 0, 0]), (2, [0, 0, 1]), (3, [0, 0, 0])];
    hash.rebuild(&entries);
    assert_eq!(hash.nearby_indices([0, 0, 0]), vec![0, 3, 2]);
    assert_eq!(hash.nearby_indices([10, 0, 0]), vec![1]);
}

#[test]
fn neighbor_candidates_leave_out_the_agent_itself() {
    let mut hash = SpatialHash::new();
    let entries = vec![(0, [0, 0, 0]), (1, [0, 0, 0]), (2, [1, 0, 0])];
    hash.rebuild(&entries);
    assert_eq!(hash.neighbor_candidates([0, 0, 0], 0), vec![1, 2]);
    assert_eq!(hash.neighbor_candidates([0, 0, 0], 2), vec![0, 1]);
    assert_eq!(hash.neighbor_candidates([0, 0, 0], 7), vec![0, 1, 2]);
}

#[test]
fn negative_and_extreme_cells_are_kept_apart() {
    let mut hash = SpatialHash::new();
    hash.insert(1, [-1, 0, 0]);
    hash.insert(2, [i32::MAX, 0, 0]);
    hash.insert(3, [0, -1, 0]);
    hash.insert(4, [0, 0, i32::MIN]);
    assert_eq!(hash.nearby_indices([-2, 0, 0]), vec![1]);
    assert_eq!(hash.nearby_indices([0, -2, 0]), vec![3]);
    assert_eq!(hash.nearby_indices([i32::MAX - 1, 0, 0]), vec![2]);
    assert_eq!(hash.nearby_indices([0, 0, i32::MIN + 1]), vec![4]);
}
