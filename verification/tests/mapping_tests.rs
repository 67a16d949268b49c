use fast_matmul::l_map::{l_map, l_map_inv, l_star_map, l_star_map_inv};

#[test]
fn mapping_tests_test_matlab_mappings() {
    // sub2ind([2, 3], 1, 1) = 1
    assert_eq!(l_map(1, 1, 2, 3), 1);
    // sub2ind([2, 3], 2, 1) = 2
    assert_eq!(l_map(2, 1, 2, 3), 2);
    // sub2ind([2, 3], 1, 2) = 3
    assert_eq!(l_map(1, 2, 2, 3), 3);
    // sub2ind([2, 3], 2, 3) = 6
    assert_eq!(l_map(2, 3, 2, 3), 6);

    // [r, c] = ind2sub([2, 3], 3) -> (1, 2)
    assert_eq!(l_map_inv(3, 2, 3), (1, 2));
    // [r, c] = ind2sub([2, 3], 6) -> (2, 3)
    assert_eq!(l_map_inv(6, 2, 3), (2, 3));
}

#[test]
fn l_map_round_trip_on_every_entry() {
    for rows in 1..5usize {
        for cols in 1..5usize {
            let mut seen = vec![false; rows * cols];
            for r in 1..=rows {
                for c in 1..=cols {
                    let idx = l_map(r, c, rows, cols);
                    assert!(idx >= 1 && idx <= rows * cols);
                    assert!(!seen[idx - 1]);
                    seen[idx - 1] = true;
                    assert_eq!(l_map_inv(idx, rows, cols), (r, c));
                }
            }
        }
    }
}

#[test]
fn l_star_map_is_row_major() {
    // a 2 x 3 matrix, row by row
    assert_eq!(l_star_map(1, 1, 2, 3), 1);
    assert_eq!(l_star_map(1, 3, 2, 3), 3);
    assert_eq!(l_star_map(2, 1, 2, 3), 4);
    assert_eq!(l_star_map(2, 3, 2, 3), 6);
    assert_eq!(l_star_map_inv(4, 2, 3), (2, 1));
    assert_eq!(l_star_map_inv(3, 2, 3), (1, 3));
    for r in 1..=2usize {
        for c in 1..=3usize {
            assert_eq!(l_star_map_inv(l_star_map(r, c, 2, 3), 2, 3), (r, c));
            // the row-major index is the column-major index of the transpose
            assert_eq!(l_star_map(r, c, 2, 3), l_map(c, r, 3, 2));
        }
    }
}
