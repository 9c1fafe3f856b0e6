use pia::labels::label_statistics;

#[test]
fn label_statistics_counts_and_sums() {
    // 4 x 2 image: left half label 0, right half label 1; label 2 empty
    let labels = vec![0, 0, 1, 1, 0, 0, 1, 1];
    let st = label_statistics(&labels, 4, 3);
    assert_eq!(st.count, vec![4, 4, 0]);
    assert_eq!(st.sum_x, vec![0 + 1 + 0 + 1, 2 + 3 + 2 + 3, 0]);
    assert_eq!(st.sum_y, vec![0 + 0 + 1 + 1, 0 + 0 + 1 + 1, 0]);
    let total: usize = st.count.iter().sum();
    assert_eq!(total, labels.len());
}

#[test]
fn label_statistics_empty_labelling() {
    let st = label_statistics(&[], 3, 2);
    assert_eq!(st.count, vec![0, 0]);
    assert_eq!(st.sum_x, vec![0, 0]);
}

#[test]
fn label_statistics_zero_width_without_pixels() {
    let st = label_statistics(&[], 0, 1);
    assert_eq!(st.count, vec![0]);
    assert_eq!(st.sum_y, vec![0]);
}
