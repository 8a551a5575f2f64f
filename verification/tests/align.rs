use rich_py::align::{
    column_pad, parse_horizontal, parse_vertical, row_pad, vertical_center, ColumnPad, Horizontal,
    RowPad, Vertical,
};

#[test]
fn alignment_names() {
    assert_eq!(parse_horizontal("center"), Ok(Horizontal::Center));
    assert_eq!(
        parse_horizontal("middle"),
        Err("invalid value for align, expected \"left\", \"center\", or \"right\" (not 'middle')".to_string())
    );
    assert_eq!(parse_vertical(None), Ok(None));
    assert_eq!(parse_vertical(Some("bottom")), Ok(Some(Vertical::Bottom)));
    assert_eq!(
        parse_vertical(Some("left")),
        Err("invalid value for vertical, expected \"top\", \"middle\", or \"bottom\" (not 'left')".to_string())
    );
}

#[test]
fn row_spaces() {
    assert_eq!(row_pad(10, 4, Horizontal::Left, true), RowPad { left: 0, right: 6 });
    assert_eq!(row_pad(10, 4, Horizontal::Left, false), RowPad { left: 0, right: 0 });
    assert_eq!(row_pad(10, 5, Horizontal::Center, true), RowPad { left: 2, right: 3 });
    assert_eq!(row_pad(10, 5, Horizontal::Center, false), RowPad { left: 2, right: 0 });
    assert_eq!(row_pad(10, 4, Horizontal::Right, false), RowPad { left: 6, right: 0 });
    assert_eq!(row_pad(4, 10, Horizontal::Right, true), RowPad { left: 0, right: 0 });
}

#[test]
fn blank_lines() {
    assert_eq!(column_pad(Some(Vertical::Top), Some(5), 2), ColumnPad { top: 0, bottom: 3 });
    assert_eq!(column_pad(Some(Vertical::Middle), Some(5), 2), ColumnPad { top: 1, bottom: 2 });
    assert_eq!(column_pad(Some(Vertical::Bottom), Some(5), 2), ColumnPad { top: 3, bottom: 0 });
    assert_eq!(column_pad(Some(Vertical::Middle), Some(1), 4), ColumnPad { top: 0, bottom: 0 });
    assert_eq!(column_pad(None, Some(5), 2), ColumnPad { top: 0, bottom: 0 });
    assert_eq!(column_pad(Some(Vertical::Top), None, 2), ColumnPad { top: 0, bottom: 0 });
    assert_eq!(vertical_center(10, 3), ColumnPad { top: 3, bottom: 4 });
    assert_eq!(vertical_center(3, 10), ColumnPad { top: 0, bottom: 0 });
}
