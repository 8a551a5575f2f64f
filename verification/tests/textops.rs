use rich_py::textops::{
    extend_style_spans, justify_gaps, rstrip_end_amount, set_length_change, set_plain_spans,
    stylize_range, CharSpan, LengthChange,
};

#[test]
fn stylize_ranges() {
    assert_eq!(stylize_range(10, 2, Some(5)), Some((2, 5)));
    assert_eq!(stylize_range(10, -3, None), Some((7, 10)));
    assert_eq!(stylize_range(10, -20, Some(-8)), Some((0, 2)));
    assert_eq!(stylize_range(10, 4, Some(40)), Some((4, 10)));
    assert_eq!(stylize_range(10, 10, None), None);
    assert_eq!(stylize_range(10, 5, Some(5)), None);
    assert_eq!(stylize_range(0, 0, None), None);
}

fn span(start: usize, end: usize) -> CharSpan {
    CharSpan { start, end, style: 1 }
}

#[test]
fn shorter_plain_trims_spans() {
    let spans = vec![span(0, 3), span(2, 8), span(6, 9)];
    assert_eq!(set_plain_spans(&spans, 10, 5), vec![span(0, 3), span(2, 5)]);
    assert_eq!(set_plain_spans(&spans, 10, 12), spans);
}

#[test]
fn extend_style_stretches_spans_at_the_end() {
    let spans = vec![span(0, 3), span(2, 5)];
    assert_eq!(extend_style_spans(&spans, 5, 2), vec![span(0, 3), span(2, 7)]);
    assert_eq!(extend_style_spans(&spans, 5, 0), spans);
}

#[test]
fn rstrip_end_and_set_length() {
    assert_eq!(rstrip_end_amount(10, 12, 3), 0);
    assert_eq!(rstrip_end_amount(10, 8, 3), 2);
    assert_eq!(rstrip_end_amount(10, 8, 1), 1);
    assert_eq!(rstrip_end_amount(10, 8, 0), 0);
    assert_eq!(set_length_change(3, 5), LengthChange::Pad(2));
    assert_eq!(set_length_change(5, 3), LengthChange::Crop(2));
    assert_eq!(set_length_change(4, 4), LengthChange::Keep);
}

#[test]
fn full_justify_fills_from_the_right() {
    assert_eq!(justify_gaps(10, 4, 15), vec![1, 2, 2]);
    assert_eq!(justify_gaps(10, 4, 19), vec![3, 3, 3]);
    assert_eq!(justify_gaps(10, 4, 20), vec![3, 3, 4]);
    assert_eq!(justify_gaps(10, 4, 5), vec![1, 1, 1]);
    assert!(justify_gaps(10, 1, 20).is_empty());
    assert!(justify_gaps(0, 0, 20).is_empty());
}
