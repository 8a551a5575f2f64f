use rich_py::log_render::{path_pieces, time_sources, LogColumn, LogRender, StyleSpan, TimeCell, TimeSources, TimeText};

fn time(plain: &str, style: u64) -> TimeText {
    TimeText {
        plain: plain.to_string(),
        spans: vec![StyleSpan { start: 0, end: plain.chars().count(), style }],
    }
}

#[test]
fn repeated_time_is_blank() {
    let mut r = LogRender::new(true, false, true, true, Some(8));
    match r.time_cell(time("[12:00]", 1)) {
        TimeCell::Shown(t) => assert_eq!(t.plain, "[12:00]"),
        TimeCell::Blank(_) => panic!("the first time is shown"),
    }
    match r.time_cell(time("[12:00]", 1)) {
        TimeCell::Blank(s) => assert_eq!(s, "       "),
        TimeCell::Shown(_) => panic!("a repeated time is blank"),
    }
    // A different style is a different time.
    match r.time_cell(time("[12:00]", 2)) {
        TimeCell::Shown(_) => {}
        TimeCell::Blank(_) => panic!("a restyled time is shown"),
    }
}

#[test]
fn repeated_time_shown_when_not_omitted() {
    let mut r = LogRender::new(true, false, true, false, None);
    r.time_cell(time("t", 0));
    match r.time_cell(time("t", 0)) {
        TimeCell::Shown(t) => assert_eq!(t.plain, "t"),
        TimeCell::Blank(_) => panic!("repeats are shown"),
    }
}

#[test]
fn log_columns_in_order() {
    let r = LogRender::new(true, true, true, true, Some(8));
    assert_eq!(
        r.columns(true),
        vec![LogColumn::Time, LogColumn::Level(Some(8)), LogColumn::Message, LogColumn::Path]
    );
    let r = LogRender::new(false, false, true, true, Some(8));
    assert_eq!(r.columns(false), vec![LogColumn::Message]);
    assert!(r.shown_path(Some("app.py")));
    assert!(!r.shown_path(Some("")));
    assert!(!r.shown_path(None));
    let r = LogRender::new(false, false, false, true, Some(8));
    assert!(!r.shown_path(Some("app.py")));
}

#[test]
fn path_pieces_with_links() {
    let pieces = path_pieces("app.py", Some(12), Some("/src/app.py"));
    assert_eq!(pieces.len(), 3);
    assert_eq!(pieces[0].text, "app.py");
    assert_eq!(pieces[0].link.as_deref(), Some("file:///src/app.py"));
    assert_eq!(pieces[1].text, ":");
    assert_eq!(pieces[1].link, None);
    assert_eq!(pieces[2].text, "12");
    assert_eq!(pieces[2].link.as_deref(), Some("file:///src/app.py#12"));
}

#[test]
fn path_pieces_without_line_or_link() {
    let pieces = path_pieces("app.py", Some(0), None);
    assert_eq!(pieces.len(), 1);
    assert_eq!(pieces[0].link, None);
    let pieces = path_pieces("app.py", None, Some("/x"));
    assert_eq!(pieces.len(), 1);
    let pieces = path_pieces("m.py", Some(7), None);
    assert_eq!(pieces[2].text, "7");
    assert_eq!(pieces[2].link, None);
}

#[test]
fn row_time_and_format_sources() {
    assert_eq!(time_sources(true, true, false), TimeSources { read_clock: false, own_format: false });
    assert_eq!(time_sources(false, true, true), TimeSources { read_clock: true, own_format: true });
    assert_eq!(time_sources(true, false, false), TimeSources { read_clock: false, own_format: true });
}
