use rich_py::layout::{divide_region, repr_parts, Region, Split};
use rich_py::segments::{split_newlines, Segment};

fn seg(text: &str, style: Option<u64>, control: bool) -> Segment {
    Segment { text: text.to_string(), style, control }
}

fn shown(segments: &[Segment]) -> Vec<(String, Option<u64>, bool)> {
    segments.iter().map(|s| (s.text.clone(), s.style, s.control)).collect()
}

#[test]
fn newlines_split_out() {
    let input = vec![seg("a\nbc\n", Some(3), false), seg("\n", None, false), seg("x\ny", None, true), seg("plain", Some(1), false)];
    let out = split_newlines(&input);
    assert_eq!(
        shown(&out),
        vec![
            ("a".to_string(), Some(3), false),
            ("\n".to_string(), None, false),
            ("bc".to_string(), Some(3), false),
            ("\n".to_string(), None, false),
            ("\n".to_string(), None, false),
            ("x\ny".to_string(), None, true),
            ("plain".to_string(), Some(1), false),
        ]
    );
}

#[test]
fn regions_side_by_side_and_stacked() {
    let region = Region { x: 2, y: 1, width: 10, height: 4 };
    assert_eq!(
        divide_region(Split::Row, region, &vec![3, 7]),
        vec![
            Region { x: 2, y: 1, width: 3, height: 4 },
            Region { x: 5, y: 1, width: 7, height: 4 },
        ]
    );
    assert_eq!(
        divide_region(Split::Column, region, &vec![1, 3]),
        vec![
            Region { x: 2, y: 1, width: 10, height: 1 },
            Region { x: 2, y: 2, width: 10, height: 3 },
        ]
    );
}

#[test]
fn layout_repr_parts() {
    assert_eq!(repr_parts(Some("'top'"), Some(3), 1, 1), vec!["name='top'".to_string(), "size=3".to_string()]);
    assert_eq!(repr_parts(None, None, 2, 4), vec!["minimum_size=2".to_string(), "ratio=4".to_string()]);
    assert!(repr_parts(None, None, 1, 1).is_empty());
}

#[test]
fn unterminated_drops_the_final_newline() {
    use_unterminated();
}

fn use_unterminated() {
    let out = rich_py::segments::unterminated(&vec![seg("ab\n", Some(1), false)]);
    assert_eq!(shown(&out), vec![("ab".to_string(), Some(1), false)]);
    let out = rich_py::segments::unterminated(&vec![seg("\n", None, false)]);
    assert_eq!(shown(&out), vec![(String::new(), None, false)]);
    let out = rich_py::segments::unterminated(&vec![seg("x", None, false), seg("y", None, true)]);
    assert_eq!(shown(&out), vec![("x".to_string(), None, false), ("y".to_string(), None, true)]);
    assert!(rich_py::segments::unterminated(&Vec::new()).is_empty());
}

#[test]
fn terminated_adds_a_line() {
    let out = rich_py::segments::terminated(vec![seg("x", None, false)]);
    assert_eq!(shown(&out), vec![("x".to_string(), None, false), ("\n".to_string(), None, false)]);
    assert!(rich_py::segments::terminated(Vec::new()).is_empty());
}

#[test]
fn the_first_render_error_wins() {
    let mut p = rich_py::segments::PendingError::new();
    assert_eq!(p.report(false, "outside"), Some("outside"));
    assert_eq!(p.report(true, "first"), None);
    assert_eq!(p.report(true, "second"), None);
    assert_eq!(p.take(), Some("first"));
    assert_eq!(p.take(), None);
}
