use rich_py::screen::{
    check_screen_args, screen_frame, screen_newline, strip_codes, FramePiece, ScreenContextState,
};

#[test]
fn pager_strips_styles() {
    let captured = "\x1b[1;31mred\x1b[0m plain";
    assert_eq!(strip_codes(captured, false, false), "red plain");
    assert_eq!(strip_codes(captured, true, false), captured);
    assert_eq!(strip_codes(captured, true, true), captured);
}

#[test]
fn pager_strips_links_unless_kept() {
    let captured = "\x1b]8;id=1;https://x.org\x1b\\link\x1b]8;;\x1b\\ end";
    assert_eq!(strip_codes(captured, true, false), "link end");
    assert_eq!(strip_codes(captured, false, true), "link end");
    assert_eq!(strip_codes(captured, true, true), captured);
}

#[test]
fn pager_keeps_other_escapes() {
    // A CSI sequence that ends in another final byte is not a style.
    assert_eq!(strip_codes("a\x1b[2Kb", false, false), "a\x1b[2Kb");
    // An unterminated link stays.
    assert_eq!(strip_codes("\x1b]8;;x", false, false), "\x1b]8;;x");
    assert_eq!(strip_codes("\x1b", false, false), "\x1b");
    assert_eq!(strip_codes("", false, false), "");
}

#[test]
fn screen_frame_fills_the_height() {
    assert_eq!(
        screen_frame(1, 3),
        vec![FramePiece::Line(0), FramePiece::Break, FramePiece::Extra, FramePiece::Break, FramePiece::Extra]
    );
    assert_eq!(
        screen_frame(5, 2),
        vec![FramePiece::Line(0), FramePiece::Break, FramePiece::Line(1)]
    );
    assert!(screen_frame(4, 0).is_empty());
}

#[test]
fn screen_newlines() {
    assert_eq!(screen_newline(true), "\n\r");
    assert_eq!(screen_newline(false), "\n");
}

#[test]
fn screen_context_hides_and_shows_the_cursor() {
    let mut s = ScreenContextState::new(true);
    assert!(s.enter(true));
    let exit = s.exit();
    assert!(exit.leave_alt_screen);
    assert!(exit.show_cursor);
    let mut s = ScreenContextState::new(true);
    assert!(!s.enter(false));
    let exit = s.exit();
    assert!(!exit.leave_alt_screen);
    assert!(!exit.show_cursor);
    let mut s = ScreenContextState::new(false);
    assert!(!s.enter(true));
    assert!(!s.exit().show_cursor);
}

#[test]
fn screen_takes_at_most_two_arguments() {
    assert_eq!(check_screen_args(2), Ok(()));
    assert_eq!(
        check_screen_args(3),
        Err("screen() takes at most 2 arguments (3 given)".to_string())
    );
}
