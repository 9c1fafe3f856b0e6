use pia::clusters::{collapse, flatten, owned_columns, owner_count, refill, split_off_second};

#[test]
fn flatten_lists_entries_with_owners() {
    let groups = vec![vec![1, 2], vec![3], vec![4, 5]];
    let (flat, owner) = flatten(&groups);
    assert_eq!(flat, vec![1, 2, 3, 4, 5]);
    assert_eq!(owner, vec![0, 0, 1, 2, 2]);
}

#[test]
fn refill_keeps_shape() {
    let mut groups = vec![vec![1, 2], vec![3], vec![4, 5]];
    refill(&mut groups, &[10, 20, 30, 40, 50]);
    assert_eq!(groups, vec![vec![10, 20], vec![30], vec![40, 50]]);
}

#[test]
fn refill_with_own_entries_changes_nothing() {
    let mut groups = vec![vec!['a', 'b'], vec!['c'], vec![], vec!['d', 'e']];
    let before = groups.clone();
    let (flat, _) = flatten(&groups);
    refill(&mut groups, &flat);
    assert_eq!(groups, before);
}

#[test]
fn owner_count_is_one_past_largest_owner() {
    assert_eq!(owner_count(&[]), 0);
    assert_eq!(owner_count(&[0, 0, 1, 1]), 2);
    assert_eq!(owner_count(&[0, 3, 1]), 4);
}

#[test]
fn split_moves_second_subcluster() {
    let mut groups = vec![vec![1, 2], vec![3, 4], vec![5, 6]];
    let n = split_off_second(&mut groups, &[2, 0], 8);
    assert_eq!(n, 2);
    assert_eq!(groups, vec![vec![1], vec![3, 4], vec![5], vec![6], vec![2]]);
}

#[test]
fn split_stops_at_maximum_palette_size() {
    let mut groups = vec![vec![1, 2], vec![3, 4], vec![5, 6]];
    let n = split_off_second(&mut groups, &[1, 0, 2], 4);
    assert_eq!(n, 1);
    assert_eq!(groups, vec![vec![1, 2], vec![3], vec![5, 6], vec![4]]);

    let mut full = vec![vec![1, 2], vec![3, 4]];
    assert_eq!(split_off_second(&mut full, &[0, 1], 2), 0);
    assert_eq!(full, vec![vec![1, 2], vec![3, 4]]);
}

#[test]
fn owned_columns_selects_a_colors_subclusters() {
    let owner = vec![0, 0, 1, 2, 2];
    assert_eq!(owned_columns(&owner, 0), vec![0, 1]);
    assert_eq!(owned_columns(&owner, 1), vec![2]);
    assert_eq!(owned_columns(&owner, 2), vec![3, 4]);
    assert!(owned_columns(&owner, 3).is_empty());
}

#[test]
fn collapse_leaves_one_entry_per_group() {
    let mut groups = vec![vec![1, 2], vec![3], vec![4, 5]];
    collapse(&mut groups, &[10, 20, 30]);
    assert_eq!(groups, vec![vec![10], vec![20], vec![30]]);
}
