use rand::rngs::StdRng;
use rand::SeedableRng;
use sherlock::matrix::Matrix2D;

fn sorted_row(matrix: &Matrix2D, row: usize) -> Vec<i32> {
    let mut values: Vec<i32> = matrix.get_row(row).clone();
    values.sort();
    values
}

#[test]
fn test_matrix_initialization() {
    let matrix = Matrix2D::new(3, 3);
    for i in 0..3 {
        for j in 0..3 {
            assert_eq!(matrix.get(i, j), Some(j as i32 + 1));
        }
    }
}

#[test]
fn test_matrix_set_and_get() {
    let mut matrix = Matrix2D::new(3, 3);
    assert!(matrix.set(1, 1, 5));
    assert_eq!(matrix.get(1, 1), Some(5));
}

#[test]
fn test_matrix_set_out_of_bounds() {
    let mut matrix = Matrix2D::new(3, 3);
    assert!(!matrix.set(4, 1, 5));
    assert!(!matrix.set(1, 4, 5));
}

#[test]
fn test_is_complete() {
    let mut matrix = Matrix2D::new(3, 3);
    assert_eq!(matrix.is_complete(), true);

    matrix.set(0, 0, 0);
    assert_eq!(matrix.is_complete(), false);
}

#[test]
fn new_fills_every_row_with_column_ranks() {
    let shapes: Vec<(usize, usize)> = vec![(1, 1), (1, 7), (4, 5), (8, 8), (11, 9)];
    for (rows, cols) in shapes {
        let matrix = Matrix2D::new(rows, cols);
        assert_eq!(matrix.rows(), rows);
        assert_eq!(matrix.cols(), cols);
        for r in 0..rows {
            for c in 0..cols {
                assert_eq!(matrix.get(r, c), Some(c as i32 + 1));
            }
        }
    }
}

#[test]
fn new_accepts_an_empty_shape() {
    let no_rows = Matrix2D::new(0, 4);
    assert_eq!(no_rows.rows(), 0);
    assert_eq!(no_rows.cols(), 4);
    assert_eq!(no_rows.get(0, 0), None);
    assert!(no_rows.is_complete());
    assert_eq!(no_rows.get_column(9), Vec::<i32>::new());

    let no_cols = Matrix2D::new(3, 0);
    assert_eq!(no_cols.rows(), 3);
    assert_eq!(no_cols.cols(), 0);
    assert_eq!(no_cols.get_row(2), &Vec::<i32>::new());
    assert_eq!(no_cols.get(2, 0), None);
}

#[test]
fn new_with_default_fills_uniformly() {
    let matrix = Matrix2D::new_with_default(2, 3, -4);
    assert_eq!(matrix.rows(), 2);
    assert_eq!(matrix.cols(), 3);
    for r in 0..2 {
        assert_eq!(matrix.get_row(r), &vec![-4, -4, -4]);
    }
    assert!(matrix.is_complete());
    let blank = Matrix2D::new_with_default(2, 3, 0);
    assert!(!blank.is_complete());
}

#[test]
fn get_outside_the_grid_is_none() {
    let matrix = Matrix2D::new(3, 4);
    assert_eq!(matrix.get(2, 3), Some(4));
    assert_eq!(matrix.get(3, 0), None);
    assert_eq!(matrix.get(0, 4), None);
    assert_eq!(matrix.get(usize::MAX, usize::MAX), None);
}

#[test]
fn set_outside_the_grid_changes_nothing() {
    let mut matrix = Matrix2D::new(3, 3);
    let before = matrix.clone();
    assert!(!matrix.set(3, 0, 9));
    assert!(!matrix.set(0, 3, 9));
    assert!(matrix == before);
}

#[test]
fn set_changes_one_cell_only() {
    let mut matrix = Matrix2D::new(3, 4);
    assert!(matrix.set(2, 1, 40));
    for r in 0..3 {
        for c in 0..4 {
            let expected: i32 = if r == 2 && c == 1 { 40 } else { c as i32 + 1 };
            assert_eq!(matrix.get(r, c), Some(expected));
        }
    }
}

#[test]
fn rows_and_columns_read_in_order() {
    let mut matrix = Matrix2D::new(3, 4);
    matrix.set(0, 2, 10);
    matrix.set(1, 2, 20);
    matrix.set(2, 2, 30);
    assert_eq!(matrix.get_row(1), &vec![1, 2, 20, 4]);
    assert_eq!(matrix.get_column(2), vec![10, 20, 30]);
    assert_eq!(matrix.get_column(0), vec![1, 1, 1]);
}

#[test]
fn is_complete_finds_an_empty_cell_anywhere() {
    for r in 0..3 {
        for c in 0..4 {
            let mut matrix = Matrix2D::new(3, 4);
            assert!(matrix.is_complete());
            matrix.set(r, c, 0);
            assert!(!matrix.is_complete());
            matrix.set(r, c, -1);
            assert!(matrix.is_complete());
        }
    }
}

#[test]
fn clone_and_equality_go_by_value() {
    let matrix = Matrix2D::new(3, 3);
    let mut copy = matrix.clone();
    assert!(matrix == copy);
    copy.set(2, 2, 7);
    assert!(matrix != copy);
    assert_eq!(matrix.get(2, 2), Some(3));
    copy.set(2, 2, 3);
    assert!(matrix == copy);
}

#[test]
fn equality_tells_shapes_apart() {
    assert!(Matrix2D::new(0, 3) != Matrix2D::new(0, 4));
    assert!(Matrix2D::new(2, 0) != Matrix2D::new(3, 0));
    assert!(Matrix2D::new(2, 3) != Matrix2D::new(3, 2));
    assert!(Matrix2D::new_with_default(2, 2, 1) != Matrix2D::new(2, 2));
    assert!(Matrix2D::new_with_default(2, 1, 1) == Matrix2D::new(2, 1));
}

#[test]
fn shuffle_keeps_shape_and_row_contents() {
    for seed in 0..50u64 {
        let mut rng = StdRng::seed_from_u64(seed);
        let mut matrix = Matrix2D::new(8, 8);
        matrix.set(3, 0, 77);
        let before = matrix.clone();
        matrix.shuffle(&mut rng);
        assert_eq!(matrix.rows(), 8);
        assert_eq!(matrix.cols(), 8);
        for r in 0..8 {
            assert_eq!(sorted_row(&matrix, r), sorted_row(&before, r));
        }
        assert_eq!(sorted_row(&matrix, 3), vec![2, 3, 4, 5, 6, 7, 8, 77]);
    }
}

#[test]
fn shuffle_moves_values() {
    let mut rng = StdRng::seed_from_u64(7);
    let mut matrix = Matrix2D::new(8, 8);
    let before = matrix.clone();
    matrix.shuffle(&mut rng);
    assert!(matrix != before);
}

#[test]
fn shuffle_is_reproducible_under_a_seed() {
    let mut first = Matrix2D::new(8, 8);
    let mut second = Matrix2D::new(8, 8);
    first.shuffle(&mut StdRng::seed_from_u64(11));
    second.shuffle(&mut StdRng::seed_from_u64(11));
    assert!(first == second);
}

#[test]
fn shuffle_of_an_empty_grid_is_harmless() {
    let mut rng = StdRng::seed_from_u64(1);
    let mut matrix = Matrix2D::new(0, 0);
    matrix.shuffle(&mut rng);
    assert_eq!(matrix.rows(), 0);
    assert_eq!(matrix.cols(), 0);
}
