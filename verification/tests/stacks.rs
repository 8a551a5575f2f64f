use rich_py::stacks::{check_row, list_position, theme_names, BaseLayer, LayerStack};

fn names(list: &[&str]) -> Vec<String> {
    list.iter().map(|s| s.to_string()).collect()
}

#[test]
fn theme_stack_keeps_its_base() {
    let mut s = LayerStack::new("base");
    assert_eq!(s.pop_layer(), Err(BaseLayer));
    s.push("dark");
    assert_eq!(s.top(), Some(&"dark"));
    assert_eq!(s.pop_layer(), Ok(()));
    assert_eq!(s.top(), Some(&"base"));
    assert_eq!(s.len(), 1);
}

#[test]
fn style_stack_pop_returns_the_new_top() {
    let mut s = LayerStack::new(1);
    s.push(2);
    s.push(3);
    assert_eq!(s.pop_then_top(), Some(&2));
    assert_eq!(s.pop_then_top(), Some(&1));
    assert_eq!(s.pop_then_top(), None);
    assert_eq!(s.pop_then_top(), None);
}

#[test]
fn theme_names_in_order() {
    let inherited = names(&["repr.number", "bar.back"]);
    let given = names(&["warning", "bar.back", "error", "warning"]);
    assert_eq!(
        theme_names(&inherited, &given, true),
        names(&["repr.number", "bar.back", "warning", "error"])
    );
    assert_eq!(theme_names(&inherited, &given, false), names(&["warning", "bar.back", "error"]));
}

#[test]
fn list_positions() {
    assert_eq!(list_position(3, 0), Some(0));
    assert_eq!(list_position(3, -1), Some(2));
    assert_eq!(list_position(3, -3), Some(0));
    assert_eq!(list_position(3, -4), None);
    assert_eq!(list_position(3, 3), None);
    assert_eq!(list_position(0, -1), None);
}

#[test]
fn table_rows_fit_the_columns() {
    assert_eq!(check_row(2, 3), Ok(()));
    assert_eq!(check_row(4, 3), Err("too many values in row (4 > 3 columns)".to_string()));
}
