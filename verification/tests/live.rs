use rich_py::live::{get_shape, redirect_plan};
use rich_py::live::{
    control_text, fit_lines, parse_overflow, ControlCode, FitPlan, HookPlan, LineBuffer,
    LiveRenderState, LiveState, RefreshPlan, StartAction, StartEnd, StopAction, VerticalOverflow,
};

#[test]
fn overflow_names() {
    assert_eq!(parse_overflow("crop"), VerticalOverflow::Crop);
    assert_eq!(parse_overflow("ellipsis"), VerticalOverflow::Ellipsis);
    assert_eq!(parse_overflow("visible"), VerticalOverflow::Visible);
    assert_eq!(parse_overflow("anything"), VerticalOverflow::Visible);
}

#[test]
fn fitting_a_tall_render() {
    assert_eq!(fit_lines(3, 5, VerticalOverflow::Crop), FitPlan { keep: 3, ellipsis: false });
    assert_eq!(fit_lines(10, 5, VerticalOverflow::Crop), FitPlan { keep: 5, ellipsis: false });
    assert_eq!(fit_lines(10, 5, VerticalOverflow::Ellipsis), FitPlan { keep: 4, ellipsis: true });
    assert_eq!(fit_lines(10, 0, VerticalOverflow::Ellipsis), FitPlan { keep: 9, ellipsis: true });
    assert_eq!(fit_lines(10, 5, VerticalOverflow::Visible), FitPlan { keep: 10, ellipsis: false });
}

#[test]
fn cursor_codes_follow_the_last_render() {
    let mut r = LiveRenderState::new();
    assert!(r.position_codes().is_empty());
    assert!(r.restore_codes().is_empty());
    assert_eq!(r.last_height(), 0);
    r.render(10, 3, VerticalOverflow::Ellipsis);
    assert_eq!(r.last_height(), 3);
    let position = r.position_codes();
    assert_eq!(
        position,
        vec![
            ControlCode::CarriageReturn,
            ControlCode::EraseInLine(2),
            ControlCode::CursorUp(1),
            ControlCode::EraseInLine(2),
            ControlCode::CursorUp(1),
            ControlCode::EraseInLine(2),
        ]
    );
    assert_eq!(control_text(&position), "\r\x1b[2K\x1b[1A\x1b[2K\x1b[1A\x1b[2K");
    let restore = r.restore_codes();
    assert_eq!(restore.len(), 7);
    assert_eq!(control_text(&restore), "\r\x1b[1A\x1b[2K\x1b[1A\x1b[2K\x1b[1A\x1b[2K");
    assert_eq!(control_text(&vec![ControlCode::Home]), "\x1b[H");
}

#[test]
fn live_start_and_stop_steps() {
    let mut s = LiveState::new(false, false, true, VerticalOverflow::Ellipsis);
    assert!(s.begins_start());
    let actions = s.start(true, false, true);
    assert_eq!(
        actions,
        vec![
            StartAction::HideCursor,
            StartAction::InstallHook,
            StartAction::RedirectIo,
            StartAction::Refresh,
        ]
    );
    assert_eq!(s.first_refresh_done(true), StartEnd::Done { start_thread: true });
    assert!(s.has_thread);
    assert!(!s.begins_start());
    assert!(s.start(true, false, true).is_empty());
    let hooked = s.hooked;
    let first = s.stop_first();
    assert_eq!(first, vec![StopAction::ClearLive, StopAction::StopThread, StopAction::Refresh]);
    assert_eq!(s.vertical_overflow, VerticalOverflow::Visible);
    let rest = s.stop_rest(hooked, true, 2);
    assert_eq!(
        rest,
        vec![StopAction::RestoreIo, StopAction::RemoveHook, StopAction::NewLine, StopAction::ShowCursor]
    );
    assert!(s.stop_first().is_empty());
}

#[test]
fn failed_first_refresh_stops_the_display() {
    let mut s = LiveState::new(false, false, true, VerticalOverflow::Ellipsis);
    s.start(true, false, true);
    assert_eq!(s.first_refresh_done(false), StartEnd::StopThenRaise);
    assert!(!s.has_thread);
    let hooked = s.hooked;
    assert_eq!(s.stop_first(), vec![StopAction::ClearLive, StopAction::Refresh]);
    assert!(!s.started);
    let rest = s.stop_rest(hooked, false, 0);
    assert_eq!(rest[..2], [StopAction::RestoreIo, StopAction::RemoveHook]);
}

#[test]
fn transient_screen_display_stops_on_the_alternate_screen() {
    let mut s = LiveState::new(true, false, false, VerticalOverflow::Ellipsis);
    assert!(s.transient);
    s.start(true, true, false);
    assert!(s.alt_screen);
    let first = s.stop_first();
    assert_eq!(first, vec![StopAction::ClearLive]);
    let rest = s.stop_rest(true, true, 5);
    assert_eq!(
        rest,
        vec![StopAction::RestoreIo, StopAction::RemoveHook, StopAction::ShowCursor, StopAction::LeaveAltScreen]
    );
}

#[test]
fn nested_display_only_prints_itself() {
    let mut s = LiveState::new(false, false, true, VerticalOverflow::Ellipsis);
    assert!(s.start(false, false, true).is_empty());
    assert!(s.nested);
    assert_eq!(s.refresh_plan(true, false), RefreshPlan::Outermost);
    assert_eq!(s.stop_first(), vec![StopAction::ClearLive, StopAction::PrintRenderable]);
}

#[test]
fn transient_display_restores_the_cursor() {
    let mut s = LiveState::new(false, true, false, VerticalOverflow::Crop);
    s.start(true, false, false);
    s.stop_first();
    let rest = s.stop_rest(true, false, 0);
    assert_eq!(rest.last(), Some(&StopAction::RestoreCursor));
}

#[test]
fn refresh_and_hook_decisions() {
    let s = LiveState::new(false, false, true, VerticalOverflow::Ellipsis);
    assert_eq!(s.refresh_plan(false, false), RefreshPlan::Frame);
    assert_eq!(s.refresh_plan(true, true), RefreshPlan::Frame);
    let t = LiveState::new(false, true, true, VerticalOverflow::Ellipsis);
    assert_eq!(t.refresh_plan(false, false), RefreshPlan::Skip);
    assert_eq!(
        s.hook_plan(true),
        HookPlan { reset: None, reset_to_position: true, render_after: true }
    );
    assert_eq!(
        s.hook_plan(false),
        HookPlan { reset: None, reset_to_position: false, render_after: true }
    );
    assert_eq!(
        t.hook_plan(false),
        HookPlan { reset: None, reset_to_position: false, render_after: false }
    );
}

#[test]
fn line_buffer_sends_whole_lines() {
    let mut b = LineBuffer::new();
    assert!(b.write("partial").is_empty());
    assert_eq!(b.pending, "partial");
    assert_eq!(b.write(" line\nnext\n\nlast"), vec!["partial line".to_string(), "next".to_string(), String::new()]);
    assert_eq!(b.pending, "last");
    assert_eq!(b.flush(), Some("last".to_string()));
    assert_eq!(b.flush(), None);
}

#[test]
fn redirects_only_on_a_terminal() {
    assert_eq!(redirect_plan(true, true, false, true, true), (true, false));
    assert_eq!(redirect_plan(false, true, false, true, false), (false, false));
    assert_eq!(redirect_plan(true, false, false, true, false), (false, true));
}

#[test]
fn shape_is_widest_line_and_line_count() {
    assert_eq!(get_shape(&vec![vec![3, 4], vec![10], vec![]]), (10, 3));
    assert_eq!(get_shape(&vec![vec![1, 1, 1], vec![2]]), (3, 2));
    assert_eq!(get_shape(&vec![]), (0, 0));
}
