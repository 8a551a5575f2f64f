use rich_py::columns::{column_count, grid_rows, order};

#[test]
fn order_across_rows() {
    assert_eq!(order(5, 2, false), vec![Some(0), Some(1), Some(2), Some(3), Some(4), None]);
    assert_eq!(order(4, 2, false), vec![Some(0), Some(1), Some(2), Some(3)]);
    assert!(order(0, 3, false).is_empty());
}

#[test]
fn order_down_columns() {
    assert_eq!(order(5, 2, true), vec![Some(0), Some(3), Some(1), Some(4), Some(2), None]);
    assert_eq!(order(6, 3, true), vec![Some(0), Some(2), Some(4), Some(1), Some(3), Some(5)]);
    assert_eq!(order(7, 3, true), vec![Some(0), Some(3), Some(5), Some(1), Some(4), Some(6), Some(2), None, None]);
    assert_eq!(order(2, 4, true), vec![Some(0), Some(1), None, None]);
}

#[test]
fn column_count_shrinks_until_the_row_fits() {
    // Four items of 5 cells, 1 cell apart: 5+1+5 = 11 fits 12, three do not.
    assert_eq!(column_count(&vec![5, 5, 5, 5], false, false, None, 0, 1, 12), 2);
    assert_eq!(column_count(&vec![5, 5, 5, 5], false, false, None, 0, 1, 100), 4);
    assert_eq!(column_count(&vec![3, 10, 4, 8, 2], false, false, None, 1, 1, 20), 2);
    assert_eq!(column_count(&vec![3, 10, 4, 8, 2], false, true, None, 1, 1, 20), 2);
}

#[test]
fn equal_columns_take_the_widest_width() {
    assert_eq!(column_count(&vec![3, 10, 4, 8, 2], true, false, None, 1, 1, 20), 1);
}

#[test]
fn a_single_column_even_when_too_wide() {
    assert_eq!(column_count(&vec![30], false, false, None, 0, 0, 20), 1);
    assert_eq!(column_count(&vec![], false, false, None, 0, 0, 20), 0);
}

#[test]
fn fixed_width_columns_fill_the_width() {
    // 40 / (7 + 2) = 4 columns; a column wider than the width still gives one.
    assert_eq!(column_count(&vec![3, 4], false, false, Some(7), 1, 2, 40), 4);
    assert_eq!(column_count(&vec![3, 4], false, false, Some(50), 1, 2, 40), 1);
}

#[test]
fn grid_rows_down_the_columns_and_right_to_left() {
    assert_eq!(
        grid_rows(5, 2, true, false),
        vec![vec![Some(0), Some(3)], vec![Some(1), Some(4)], vec![Some(2), None]]
    );
    assert_eq!(
        grid_rows(5, 3, false, true),
        vec![vec![Some(2), Some(1), Some(0)], vec![None, Some(4), Some(3)]]
    );
}
