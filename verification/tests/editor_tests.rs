use edek::Content;
use edek::Editor;
use edek::Mode;
use edek::Position;
use edek::Signal;

fn empty_editor(width: usize, height: usize) -> Editor {
    Editor::new(Content::new(), width, height)
}

fn line_text(e: &Editor, y: usize) -> String {
    e.content.line(y).expect("line in range").text().clone()
}

fn type_str(e: &mut Editor, s: &str) {
    for c in s.chars() {
        assert_eq!(e.keypress(Signal::Char(c)), None);
    }
}

#[test]
fn typing_builds_lines_and_moves_cursor() {
    let mut e = empty_editor(40, 10);
    type_str(&mut e, "hi\nyo");
    assert_eq!(e.content.lines_count(), 2);
    assert_eq!(line_text(&e, 0), "hi");
    assert_eq!(line_text(&e, 1), "yo");
    assert_eq!(e.position, Position { x: 2, y: 1 });
}

#[test]
fn typed_text_round_trips_through_save_and_open() {
    let mut e = empty_editor(40, 10);
    type_str(&mut e, "hi\nyo");
    // Bind a destination through the command language, then commit.
    assert_eq!(e.keypress(Signal::Esc), None);
    assert_eq!(e.mode, Mode::Command);
    type_str(&mut e, "save f");
    let text = e.keypress(Signal::Char('\n')).expect("save hands out the text");
    assert_eq!(text, "hi\nyo\n");
    assert_eq!(e.content.filename().as_str(), "f");
    let reopened = Content::from_text("f", &text);
    assert_eq!(reopened.lines_count(), 2);
    assert_eq!(reopened.line(0).unwrap().text().as_str(), "hi");
    assert_eq!(reopened.line(1).unwrap().text().as_str(), "yo");
}

#[test]
fn empty_command_is_reported_invalid() {
    let mut e = empty_editor(40, 10);
    assert_eq!(e.keypress(Signal::Esc), None);
    assert_eq!(e.status_message, ">");
    assert_eq!(e.keypress(Signal::Char('\n')), None);
    assert_eq!(e.status_message, "Invalid command: ");
    assert_eq!(e.mode, Mode::Insert);
    assert_eq!(e.content.lines_count(), 0);
}

#[test]
fn unknown_command_echoes_raw_text() {
    let mut e = empty_editor(40, 10);
    e.keypress(Signal::Esc);
    type_str(&mut e, "w x");
    assert_eq!(e.status_message, "> w x");
    e.keypress(Signal::Char('\n'));
    assert_eq!(e.status_message, "Invalid command: w x");
    assert_eq!(e.command_buf, "");
}

#[test]
fn save_without_destination_reports_failure() {
    let mut e = empty_editor(40, 10);
    type_str(&mut e, "a");
    assert_eq!(e.keypress(Signal::Save), None);
    assert_eq!(e.status_message, "Not saved! Need to specify the file name!");
    assert_eq!(e.content.lines_count(), 1);
}

#[test]
fn save_with_destination_hands_out_text_and_finish_reports() {
    let mut e = Editor::new(Content::from_text("f", "ab"), 40, 10);
    let text = e.keypress(Signal::Save).expect("destination is set");
    assert_eq!(text, "ab\n");
    e.save_finish(true);
    assert_eq!(e.status_message, "File saved as: f");
    e.save_finish(false);
    assert_eq!(e.status_message, "Not saved! Error saving the file!");
}

#[test]
fn quit_command_and_shortcut() {
    let mut e = empty_editor(40, 10);
    assert!(!e.quitting);
    e.keypress(Signal::Esc);
    type_str(&mut e, "q");
    e.keypress(Signal::Char('\n'));
    assert!(e.quitting);
    let mut e = empty_editor(40, 10);
    e.keypress(Signal::Quit);
    assert!(e.quitting);
}

#[test]
fn escape_in_command_discards_accumulator() {
    let mut e = empty_editor(40, 10);
    e.keypress(Signal::Esc);
    type_str(&mut e, "qu");
    assert_eq!(e.command_buf, "qu");
    e.keypress(Signal::Esc);
    assert_eq!(e.mode, Mode::Insert);
    assert_eq!(e.command_buf, "");
    assert!(!e.quitting);
}

#[test]
fn left_does_not_wrap_to_previous_line() {
    // Documented boundary behavior: a leftward move at column zero stays
    // at column zero, even with a line above.
    let mut e = Editor::new(Content::from_text("f", "ab\ncd"), 40, 10);
    e.position = Position { x: 0, y: 1 };
    e.keypress(Signal::Left);
    assert_eq!(e.position, Position { x: 0, y: 1 });
}

#[test]
fn backspace_moves_left_then_deletes() {
    let mut e = Editor::new(Content::from_text("f", "ab"), 40, 10);
    e.position = Position { x: 2, y: 0 };
    e.keypress(Signal::Backspace);
    assert_eq!(line_text(&e, 0), "a");
    assert_eq!(e.position, Position { x: 1, y: 0 });
    // At the buffer start nothing happens.
    let mut e = Editor::new(Content::from_text("f", "ab"), 40, 10);
    e.keypress(Signal::Backspace);
    assert_eq!(line_text(&e, 0), "ab");
    // At column zero of a later line the cursor stays and the first
    // cluster of that line goes: leftward moves do not wrap.
    let mut e = Editor::new(Content::from_text("f", "ab\ncd"), 40, 10);
    e.position = Position { x: 0, y: 1 };
    e.keypress(Signal::Backspace);
    assert_eq!(line_text(&e, 1), "d");
}

#[test]
fn vertical_move_clamps_column_to_shorter_line() {
    let mut e = Editor::new(Content::from_text("f", "abcdef\nxy"), 40, 10);
    e.position = Position { x: 6, y: 0 };
    e.keypress(Signal::Down);
    assert_eq!(e.position, Position { x: 2, y: 1 });
    e.keypress(Signal::Down);
    assert_eq!(e.position, Position { x: 2, y: 1 });
    e.keypress(Signal::Up);
    assert_eq!(e.position, Position { x: 2, y: 0 });
    e.keypress(Signal::Up);
    assert_eq!(e.position, Position { x: 2, y: 0 });
}

#[test]
fn cursor_stays_inside_window_through_moves() {
    let text = "aaaaaaaaaaaaaaaa\nbb\ncccccccccccccccc\ndd\nee\nff\ngg\nhh\nii\njj";
    let mut e = Editor::new(Content::from_text("f", text), 5, 4);
    let moves = [
        Signal::Down,
        Signal::Down,
        Signal::Down,
        Signal::Down,
        Signal::Down,
        Signal::Up,
        Signal::Down,
        Signal::Down,
        Signal::Down,
        Signal::Down,
        Signal::Up,
        Signal::Up,
        Signal::Up,
        Signal::Up,
        Signal::Up,
        Signal::Up,
        Signal::Up,
        Signal::Up,
        Signal::Up,
    ];
    for m in moves {
        e.keypress(m);
        assert!(e.offset.y <= e.position.y);
        assert!(e.position.y < e.offset.y + e.height() - 1);
        assert!(e.offset.x <= e.position.x);
        assert!(e.position.x < e.offset.x + e.width());
    }
    e.position = Position { x: 0, y: 0 };
    for _ in 0..14 {
        e.keypress(Signal::Right);
        assert!(e.offset.x <= e.position.x);
        assert!(e.position.x < e.offset.x + e.width());
    }
    for _ in 0..14 {
        e.keypress(Signal::Left);
        assert!(e.offset.x <= e.position.x);
        assert!(e.position.x < e.offset.x + e.width());
    }
}

#[test]
fn scroll_offsets_follow_the_window_formula() {
    let text = "pppppppppppppppp\nqq\nrr\nss\ntt";
    let mut e = Editor::new(Content::from_text("f", text), 5, 4);
    for _ in 0..4 {
        e.keypress(Signal::Down);
    }
    assert_eq!(e.position.y, 4);
    assert_eq!(e.offset.y, 2);
    e.keypress(Signal::Up);
    assert_eq!(e.offset.y, 2);
    for _ in 0..3 {
        e.keypress(Signal::Up);
    }
    assert_eq!(e.position.y, 0);
    assert_eq!(e.offset.y, 0);
    for _ in 0..6 {
        e.keypress(Signal::Right);
    }
    assert_eq!(e.position.x, 6);
    assert_eq!(e.offset.x, 2);
    for _ in 0..6 {
        e.keypress(Signal::Left);
    }
    assert_eq!(e.position.x, 0);
    assert_eq!(e.offset.x, 0);
}

#[test]
fn status_bar_is_exactly_window_wide() {
    let e = Editor::new(Content::from_text("f", "ab"), 20, 10);
    assert_eq!(e.status_bar_text(), "[f] [INSERT]        ");
    let e = Editor::new(Content::from_text("f", "ab"), 5, 10);
    assert_eq!(e.status_bar_text(), "[f] [");
    let mut e = Editor::new(Content::from_text("f", "ab"), 20, 10);
    e.keypress(Signal::Esc);
    assert_eq!(e.status_bar_text(), "[f] [COMMAND]       ");
    assert_eq!(e.status_message_text(), "[>]");
}

#[test]
fn save_command_short_form_keeps_destination() {
    let mut e = Editor::new(Content::from_text("f", "ab"), 40, 10);
    e.keypress(Signal::Esc);
    type_str(&mut e, "s");
    let text = e.keypress(Signal::Char('\n')).expect("destination is set");
    assert_eq!(text, "ab\n");
    assert_eq!(e.content.filename().as_str(), "f");
    assert_eq!(e.mode, Mode::Insert);
}
