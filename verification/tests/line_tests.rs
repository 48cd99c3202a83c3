use edek::Line;

#[test]
fn default_line() {
    let line = Line::default();
    assert_eq!(line.text().as_str(), "");
    assert_eq!(line.len(), 0);
}

#[test]
fn update_insert_delete_len_test() {
    let mut line = Line::default();
    line.insert(0, 'a');
    assert_eq!(line.len(), 1);
    line.insert(1, 'b');
    assert_eq!(line.len(), 2);
    line.insert(0, 'c');
    assert_eq!(line.len(), 3);
    line.delete(0);
    assert_eq!(line.len(), 2);
}

#[test]
fn append_test() {
    let mut line1 = Line::default();
    let mut line2 = Line::default();
    line1.insert(0, 'a');
    line2.insert(0, 'b');
    line1.append(&line2);
    assert_eq!(line1.len(), 2);
    assert_eq!(line1.text().as_str(), "ab");
}

#[test]
fn split_test() {
    let mut line = Line::default();
    line.insert(0, 'l');
    line.insert(0, 'i');
    line.insert(0, 'm');
    line.insert(0, 'a');
    line.insert(0, 'K');
    let line2 = line.split(3);
    assert_eq!(line.len(), 3);
    assert_eq!(line2.len(), 2);
}

#[test]
fn combining_mark_is_one_cluster() {
    // "a" followed by a combining acute accent is one user-perceived
    // character, though it is two scalar values.
    let line = Line::from("a\u{0301}b");
    assert_eq!(line.len(), 2);
    let mut line = line;
    line.delete(0);
    assert_eq!(line.text().as_str(), "b");
}

#[test]
fn insert_then_delete_restores_content() {
    let mut line = Line::from("ab");
    line.insert(1, 'x');
    assert_eq!(line.text().as_str(), "axb");
    line.delete(1);
    assert_eq!(line.text().as_str(), "ab");
}

#[test]
fn split_then_append_restores_content() {
    let mut line = Line::from("Kamil");
    let rest = line.split(3);
    assert_eq!(line.text().as_str(), "Kam");
    assert_eq!(rest.text().as_str(), "il");
    line.append(&rest);
    assert_eq!(line.text().as_str(), "Kamil");
}

#[test]
fn split_past_end_gives_empty_remainder() {
    let mut line = Line::from("ab");
    let rest = line.split(7);
    assert_eq!(line.text().as_str(), "ab");
    assert_eq!(rest.text().as_str(), "");
}

#[test]
fn insert_past_end_appends() {
    let mut line = Line::from("ab");
    line.insert(9, 'c');
    assert_eq!(line.text().as_str(), "abc");
}

#[test]
fn delete_past_end_is_noop() {
    let mut line = Line::from("ab");
    line.delete(5);
    assert_eq!(line.text().as_str(), "ab");
}

#[test]
fn render_maps_tab_to_one_space() {
    let line = Line::from("a\tb");
    assert_eq!(line.render(0, 3), "a b");
}

#[test]
fn render_window_and_clamping() {
    let line = Line::from("abc");
    assert_eq!(line.render(1, 10), "bc");
    assert_eq!(line.render(0, 2), "ab");
    assert_eq!(line.render(5, 2), "");
}
