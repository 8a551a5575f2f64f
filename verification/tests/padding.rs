use rich_py::padding::{side, unpack, PadError};

#[test]
fn one_side_pads_all_four() {
    assert_eq!(unpack(&vec![2], 100), Ok((2, 2, 2, 2)));
}

#[test]
fn two_sides_are_vertical_then_horizontal() {
    assert_eq!(unpack(&vec![1, 3], 100), Ok((1, 3, 1, 3)));
}

#[test]
fn four_sides_go_top_right_bottom_left() {
    assert_eq!(unpack(&vec![1, 2, 3, 4], 100), Ok((1, 2, 3, 4)));
}

#[test]
fn three_sides_are_refused() {
    assert_eq!(unpack(&vec![1, 2, 3], 100), Err(PadError::WrongCount(3)));
    assert_eq!(unpack(&vec![], 100), Err(PadError::WrongCount(0)));
    assert_eq!(unpack(&vec![-1, 2, 3], 100), Err(PadError::WrongCount(3)));
}

#[test]
fn the_first_side_out_of_range_is_reported() {
    assert_eq!(unpack(&vec![-1], 100), Err(PadError::OutOfRange(-1)));
    assert_eq!(unpack(&vec![1, 101, 3, -4], 100), Err(PadError::OutOfRange(101)));
    assert_eq!(side(100, 100), Ok(100));
    assert_eq!(side(101, 100), Err(PadError::OutOfRange(101)));
}

#[test]
fn unpacked_padding_unpacks_to_itself() {
    let pad = unpack(&vec![4, 7], 10).unwrap();
    let again = unpack(&vec![pad.0 as i128, pad.1 as i128, pad.2 as i128, pad.3 as i128], 10);
    assert_eq!(again, Ok(pad));
}
