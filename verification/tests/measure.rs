use rich_py::measure::{ascii_only, Measurement, OptionSizes, SizeChange};

#[test]
fn measurement_normalize_and_bounds() {
    assert_eq!(Measurement::new(5, 3).normalize(), Measurement::new(3, 3));
    assert_eq!(Measurement::new(-4, -2).normalize(), Measurement::new(0, 0));
    assert_eq!(Measurement::new(2, 8).normalize(), Measurement::new(2, 8));
    assert_eq!(Measurement::new(2, 8).with_maximum(5), Measurement::new(2, 5));
    assert_eq!(Measurement::new(2, 8).with_minimum(4), Measurement::new(4, 8));
    assert_eq!(Measurement::new(2, 8).with_minimum(-3), Measurement::new(2, 8));
    assert_eq!(Measurement::new(2, 8).clamp(Some(3), Some(6)), Measurement::new(3, 6));
    assert_eq!(Measurement::new(2, 8).clamp(None, None), Measurement::new(2, 8));
    assert_eq!(Measurement::new(2, 8).span(), 6);
    assert_eq!(Measurement::new(i64::MIN, i64::MAX).span(), u64::MAX as i128);
}

#[test]
fn measurement_indexing() {
    let m = Measurement::new(2, 8);
    assert_eq!(m.get(0), Some(2));
    assert_eq!(m.get(-2), Some(2));
    assert_eq!(m.get(1), Some(8));
    assert_eq!(m.get(-1), Some(8));
    assert_eq!(m.get(2), None);
    assert_eq!(Measurement::new(-1, 7).to_widths(), (0, 7));
}

fn sizes() -> OptionSizes {
    OptionSizes { min_width: 1, max_width: 80, max_height: 25, height: None }
}

#[test]
fn options_updates() {
    let o = sizes().update(&vec![SizeChange::Width(-3), SizeChange::Height(Some(10))]);
    assert_eq!(o, OptionSizes { min_width: 0, max_width: 0, max_height: 10, height: Some(10) });
    let o = sizes().update(&vec![SizeChange::MaxWidth(40), SizeChange::Height(None)]);
    assert_eq!(o, OptionSizes { min_width: 1, max_width: 40, max_height: 25, height: None });
    assert_eq!(sizes().update_width(30).min_width, 30);
    assert_eq!(sizes().update_height(7).height, Some(7));
    assert_eq!(sizes().update_height(7).reset_height().height, None);
    assert_eq!(
        sizes().update_dimensions(50, 12),
        OptionSizes { min_width: 50, max_width: 50, max_height: 12, height: Some(12) }
    );
}

#[test]
fn ascii_only_encodings() {
    assert!(!ascii_only("utf-8"));
    assert!(ascii_only("ascii"));
    assert!(ascii_only("UTF-8"));
    assert!(ascii_only("ut"));
}
