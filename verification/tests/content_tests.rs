use edek::Content;
use edek::Position;
use edek::SaveError;

fn line_text(c: &Content, y: usize) -> String {
    c.line(y).expect("line in range").text().clone()
}

#[test]
fn open_splits_records_and_strips_terminators() {
    let c = Content::from_text("f", "ab\ncd");
    assert_eq!(c.lines_count(), 2);
    assert_eq!(line_text(&c, 0), "ab");
    assert_eq!(line_text(&c, 1), "cd");
    let c = Content::from_text("f", "ab\ncd\n");
    assert_eq!(c.lines_count(), 2);
    let c = Content::from_text("f", "a\r\nb");
    assert_eq!(c.lines_count(), 2);
    assert_eq!(line_text(&c, 0), "a");
    let c = Content::from_text("f", "");
    assert_eq!(c.lines_count(), 0);
    assert!(c.is_empty());
    let c = Content::from_text("f", "\n");
    assert_eq!(c.lines_count(), 1);
    assert_eq!(line_text(&c, 0), "");
}

#[test]
fn delete_at_line_end_merges_with_next() {
    let mut c = Content::from_text("f", "ab\ncd");
    c.delete(&Position { x: 2, y: 0 });
    assert_eq!(c.lines_count(), 1);
    assert_eq!(line_text(&c, 0), "abcd");
}

#[test]
fn newline_into_single_empty_line_gives_two() {
    let mut c = Content::from_text("f", "\n");
    assert_eq!(c.lines_count(), 1);
    c.insert(&Position { x: 0, y: 0 }, '\n');
    assert_eq!(c.lines_count(), 2);
    assert_eq!(line_text(&c, 0), "");
    assert_eq!(line_text(&c, 1), "");
}

#[test]
fn newline_then_delete_restores_two_lines() {
    let mut c = Content::from_text("f", "ab\ncd");
    c.insert(&Position { x: 2, y: 0 }, '\n');
    assert_eq!(c.lines_count(), 3);
    assert_eq!(line_text(&c, 1), "");
    c.delete(&Position { x: 2, y: 0 });
    assert_eq!(c.lines_count(), 2);
    assert_eq!(line_text(&c, 0), "ab");
    assert_eq!(line_text(&c, 1), "cd");
}

#[test]
fn merge_then_newline_restores_split() {
    let mut c = Content::from_text("f", "ab\ncd");
    c.delete(&Position { x: 2, y: 0 });
    assert_eq!(c.lines_count(), 1);
    c.insert(&Position { x: 2, y: 0 }, '\n');
    assert_eq!(c.lines_count(), 2);
    assert_eq!(line_text(&c, 0), "ab");
    assert_eq!(line_text(&c, 1), "cd");
}

#[test]
fn insert_rows_follow_policy_table() {
    let mut c = Content::new();
    // A row past the end is ignored.
    c.insert(&Position { x: 0, y: 5 }, 'x');
    assert_eq!(c.lines_count(), 0);
    // A row at the end opens a new line.
    c.insert(&Position { x: 0, y: 0 }, 'h');
    assert_eq!(c.lines_count(), 1);
    assert_eq!(line_text(&c, 0), "h");
    // A newline past the end is ignored, at the end appends.
    c.insert(&Position { x: 0, y: 9 }, '\n');
    assert_eq!(c.lines_count(), 1);
    c.insert(&Position { x: 0, y: 1 }, '\n');
    assert_eq!(c.lines_count(), 2);
    // A delete out of range is ignored.
    c.delete(&Position { x: 0, y: 7 });
    assert_eq!(c.lines_count(), 2);
}

#[test]
fn save_without_destination_fails_and_changes_nothing() {
    let c = Content::new();
    assert_eq!(c.save(), Err(SaveError::NoDestination));
    let mut c = Content::from_text("", "ab");
    assert_eq!(c.save(), Err(SaveError::NoDestination));
    assert_eq!(c.lines_count(), 1);
    assert_eq!(line_text(&c, 0), "ab");
    c.set_file_name("out.txt");
    assert_eq!(c.save(), Ok(String::from("ab\n")));
    assert_eq!(c.filename().as_str(), "out.txt");
}

#[test]
fn save_then_open_round_trips() {
    let mut c = Content::from_text("f", "one\ntwo\n\nfour");
    c.set_file_name("f");
    let text = c.save().expect("destination is set");
    assert_eq!(text, "one\ntwo\n\nfour\n");
    let reopened = Content::from_text("f", &text);
    assert_eq!(reopened.lines_count(), c.lines_count());
    for y in 0..c.lines_count() {
        assert_eq!(line_text(&reopened, y), line_text(&c, y));
    }
}
