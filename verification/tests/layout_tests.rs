use pia::layout::{columns_to_rows, one_based, rows_to_columns, transpose};

#[test]
fn columns_to_rows_reads_triples() {
    let data = vec![1.0, 2.0, 10.0, 20.0, 100.0, 200.0];
    let rows = columns_to_rows(&data, 2);
    assert_eq!(rows, vec![[1.0, 10.0, 100.0], [2.0, 20.0, 200.0]]);
}

#[test]
fn rows_to_columns_round_trip() {
    let rows = vec![[1, 2, 3], [4, 5, 6], [7, 8, 9], [10, 11, 12]];
    let cols = rows_to_columns(&rows);
    assert_eq!(cols, vec![1, 4, 7, 10, 2, 5, 8, 11, 3, 6, 9, 12]);
    assert_eq!(columns_to_rows(&cols, 4), rows);
    assert!(rows_to_columns::<i32>(&[]).is_empty());
}

#[test]
fn transpose_switches_storage_order() {
    // 2 x 3 table stored row by row
    let data = vec![1, 2, 3, 4, 5, 6];
    let t = transpose(&data, 2, 3);
    assert_eq!(t, vec![1, 4, 2, 5, 3, 6]);
    assert_eq!(transpose(&t, 3, 2), data);
}

#[test]
fn one_based_adds_one() {
    assert_eq!(one_based(&[0, 4, 2]), vec![1, 5, 3]);
    assert!(one_based(&[]).is_empty());
}
