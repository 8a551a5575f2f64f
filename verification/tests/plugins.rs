use rich_py::plugins::{check_line_spans, is_valid_name, Capability, CapabilityError, CapabilityKind, Registrar, RegistrarClosed};
use rich_py::textops::CharSpan;

#[test]
fn capabilities_and_their_names() {
    let c = Capability::new("theme", Some("dark".to_string())).unwrap();
    assert_eq!(c.kind, CapabilityKind::Theme);
    assert_eq!(c.name.as_deref(), Some("dark"));
    let c = Capability::new("highlighter", None).unwrap();
    assert_eq!(c.kind, CapabilityKind::Highlighter);
    assert_eq!(c.name, None);
    assert_eq!(
        Capability::new("highlighter", Some("x".to_string())).unwrap_err(),
        CapabilityError::HighlighterNamed
    );
    assert_eq!(
        Capability::new("fence_renderer", None).unwrap_err(),
        CapabilityError::NeedsName(CapabilityKind::FenceRenderer)
    );
    assert_eq!(Capability::new("widget", None).unwrap_err(), CapabilityError::UnknownKind);
    assert_eq!(Capability::new("Theme", Some("x".to_string())).unwrap_err(), CapabilityError::UnknownKind);
}

#[test]
fn valid_plugin_names() {
    assert!(is_valid_name("my-plugin_2.0"));
    assert!(is_valid_name("9lives"));
    assert!(!is_valid_name(""));
    assert!(!is_valid_name("-dash"));
    assert!(!is_valid_name("Upper"));
    assert!(!is_valid_name("café"));
    assert!(is_valid_name(&"a".repeat(64)));
    assert!(!is_valid_name(&"a".repeat(65)));
}

#[test]
fn registrar_closes() {
    let mut r: Registrar<u32> = Registrar::open();
    assert_eq!(r.push(1), Ok(()));
    assert_eq!(r.push(2), Ok(()));
    assert_eq!(r.close(), vec![1, 2]);
    assert_eq!(r.push(3), Err(RegistrarClosed));
    assert!(r.close().is_empty());
}

fn span(start: usize, end: usize) -> CharSpan {
    CharSpan { start, end, style: 0 }
}

#[test]
fn highlighter_spans_are_checked() {
    let spans = vec![span(0, 2), span(1, 3), span(3, 3), span(4, 6), span(5, 9), span(6, 8)];
    assert_eq!(check_line_spans(&spans, 8), vec![span(0, 2), span(4, 6), span(6, 8)]);
    assert!(check_line_spans(&vec![span(2, 1)], 8).is_empty());
}
