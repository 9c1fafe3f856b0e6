use pia::grid::{grid_cells, neighbor_index, neighbors4, pixel_coords, pixel_index, search_window, window_neighbors};

#[test]
fn index_and_coords_are_inverse() {
    let w = 7;
    for y in 0..5 {
        for x in 0..w {
            let i = pixel_index(x, y, w);
            assert_eq!(i, y * w + x);
            assert_eq!(pixel_coords(i, w), (x, y));
        }
    }
    assert_eq!(pixel_coords(23, 7), (2, 3));
}

#[test]
fn grid_cells_are_row_major() {
    let cells = grid_cells(4, 2);
    assert_eq!(cells.len(), 8);
    assert_eq!(cells[0], (0, 0));
    assert_eq!(cells[3], (3, 0));
    assert_eq!(cells[4], (0, 1));
    assert_eq!(cells[7], (3, 1));
    assert!(grid_cells(0, 5).is_empty());
}

#[test]
fn neighbor_index_stays_inside() {
    assert_eq!(neighbor_index(0, 0, -1, 0, 3, 2), None);
    assert_eq!(neighbor_index(0, 0, 1, 0, 3, 2), Some(1));
    assert_eq!(neighbor_index(2, 1, 0, -1, 3, 2), Some(2));
    assert_eq!(neighbor_index(2, 1, 0, 1, 3, 2), None);
    assert_eq!(neighbor_index(2, 1, 1, 0, 3, 2), None);
}

#[test]
fn neighbors4_corner_edge_and_interior() {
    // 3 x 3 grid
    assert_eq!(neighbors4(0, 0, 3, 3), vec![1, 3]);
    assert_eq!(neighbors4(1, 0, 3, 3), vec![0, 2, 4]);
    assert_eq!(neighbors4(1, 1, 3, 3), vec![3, 5, 1, 7]);
    assert_eq!(neighbors4(2, 2, 3, 3), vec![7, 5]);
    assert!(neighbors4(0, 0, 1, 1).is_empty());
}

#[test]
fn search_window_is_clipped() {
    assert_eq!(search_window(5, 2, 10), (3, 7));
    assert_eq!(search_window(1, 3, 10), (0, 4));
    assert_eq!(search_window(9, 3, 10), (6, 9));
    // window entirely beyond the far edge: empty range
    assert_eq!(search_window(20, 2, 10), (18, 9));
    // window entirely before the start
    assert_eq!(search_window(-10, 2, 10), (0, 0));
}

#[test]
fn window_neighbors_in_scan_order() {
    // 4 x 3 grid, pixel (0, 1), radius 1
    let ns = window_neighbors(0, 1, 4, 3, 1);
    assert_eq!(ns, vec![(0, 1), (1, 2), (4, 0), (5, 1), (8, 1), (9, 2)]);
    // radius larger than the grid covers everything
    let all = window_neighbors(1, 1, 3, 3, 5);
    assert_eq!(all.len(), 9);
    assert_eq!(all[0], (0, 2));
    assert_eq!(all[4], (4, 0));
    // radius zero: only the pixel itself
    assert_eq!(window_neighbors(2, 2, 4, 3, 0), vec![(10, 0)]);
}
