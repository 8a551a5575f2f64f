use rich_py::bar::{bar_text, bar_draw, bar_measure, bar_plan, BarDraw, BarPlan};

#[test]
fn bar_column_clamps_its_values() {
    assert_eq!(
        bar_plan(Some(-5), -2, Some(0), false),
        BarPlan { total: Some(0), completed: 0, width: Some(1), pulse: true }
    );
    assert_eq!(
        bar_plan(None, 7, None, true),
        BarPlan { total: None, completed: 7, width: None, pulse: false }
    );
    assert_eq!(bar_plan(Some(100), 40, Some(40), true).width, Some(40));
}

#[test]
fn bar_measure_and_draw() {
    assert_eq!(bar_measure(Some(20), 80), (20, 20));
    assert_eq!(bar_measure(None, 80), (4, 80));
    assert_eq!(bar_draw(Some(0), false, true), BarDraw { width: None, pulse: false });
    assert_eq!(bar_draw(Some(9), false, false), BarDraw { width: Some(9), pulse: true });
}

#[test]
fn bar_of_a_range_in_eighths() {
    assert_eq!(bar_text(10, Some((0, 40))), "█████     ");
    assert_eq!(bar_text(10, Some((12, 43))), " ▐███▍    ");
    assert_eq!(bar_text(5, Some((0, 0))), "     ");
}

#[test]
fn bar_prefix_past_the_body_and_body_past_the_width() {
    assert_eq!(bar_text(4, Some((17, 20))), "  █ ");
    assert_eq!(bar_text(6, Some((0, 60))), "███████▌");
}

#[test]
fn empty_range_is_all_spaces() {
    assert_eq!(bar_text(3, None), "   ");
}
