use se::ControlFlow;
use se::Editor;
use se::Key;

fn open_text(text: &str, cols: usize, rows: usize) -> Editor {
    Editor::open(
        Some("file.txt".to_string()),
        Some(text.to_string()),
        cols,
        rows,
    )
}

fn press(e: &mut Editor, key: Key) -> (ControlFlow, bool) {
    e.process_keypress(key, 0)
}

fn buffer_lines(e: &Editor) -> Vec<String> {
    (0..e.line_count()).map(|i| e.line_text(i)).collect()
}

#[test]
fn three_line_scenario() {
    // Open ["abc", "def", "ghi"] with the cursor at the origin; three
    // rights, an enter, then a backspace undo the split exactly.
    let mut e = open_text("abc\ndef\nghi", 80, 24);
    assert_eq!(e.cursor(), (0, 0));

    press(&mut e, Key::Right);
    press(&mut e, Key::Right);
    press(&mut e, Key::Right);
    assert_eq!(e.cursor(), (3, 0));

    press(&mut e, Key::Enter);
    assert_eq!(buffer_lines(&e), vec!["abc", "", "def", "ghi"]);
    assert_eq!(e.cursor(), (0, 1));

    press(&mut e, Key::Backspace);
    assert_eq!(buffer_lines(&e), vec!["abc", "def", "ghi"]);
    assert_eq!(e.cursor(), (3, 0));
}

#[test]
fn open_splits_lines_and_defaults_to_one_empty_line() {
    let e = open_text("a\r\nb\n", 80, 24);
    assert_eq!(buffer_lines(&e), vec!["a", "b"]);

    let empty = open_text("", 80, 24);
    assert_eq!(buffer_lines(&empty), vec![""]);

    let no_file = Editor::open(None, None, 80, 24);
    assert_eq!(buffer_lines(&no_file), vec![""]);
}

#[test]
fn insert_then_backspace_restores_line_and_cursor() {
    let mut e = open_text("hello", 80, 24);
    press(&mut e, Key::Right);
    press(&mut e, Key::Right);
    assert_eq!(e.cursor(), (2, 0));

    press(&mut e, Key::Char('X'));
    assert_eq!(buffer_lines(&e), vec!["heXllo"]);
    assert_eq!(e.cursor(), (3, 0));

    press(&mut e, Key::Backspace);
    assert_eq!(buffer_lines(&e), vec!["hello"]);
    assert_eq!(e.cursor(), (2, 0));
}

#[test]
fn cursor_is_clamped_to_buffer_contents() {
    let mut e = open_text("ab\ncdef", 80, 24);
    // Far past the end of everything.
    for _ in 0..10 {
        press(&mut e, Key::Down);
    }
    let (x, y) = e.cursor();
    assert!(y < e.line_count());
    assert_eq!(y, 1);
    assert!(x <= 4);

    press(&mut e, Key::End);
    assert_eq!(e.cursor(), (4, 1));
    press(&mut e, Key::Up);
    // Column clamps to the shorter line above.
    assert_eq!(e.cursor(), (2, 0));
    press(&mut e, Key::PageDown);
    assert!(e.cursor().1 < e.line_count());
    press(&mut e, Key::PageUp);
    assert_eq!(e.cursor().1, 0);
    press(&mut e, Key::Home);
    assert_eq!(e.cursor().0, 0);
}

#[test]
fn scrolling_keeps_cursor_in_view() {
    // 5 screen rows leave a 3-row pane.
    let mut e = open_text("l0\nl1\nl2\nl3\nl4\nl5\nl6", 10, 5);
    for _ in 0..5 {
        press(&mut e, Key::Down);
    }
    assert_eq!(e.cursor().1, 5);
    assert_eq!(e.row_offset, 3);
    assert!(e.row_offset <= e.cursor().1 && e.cursor().1 < e.row_offset + e.editor_rows);

    for _ in 0..5 {
        press(&mut e, Key::Up);
    }
    assert_eq!(e.cursor().1, 0);
    assert_eq!(e.row_offset, 0);
}

#[test]
fn column_scrolling_works_in_display_width_units() {
    // 4 columns wide; CJK clusters occupy two columns each.
    let mut e = open_text("\u{4f60}\u{597d}\u{4e16}\u{754c}", 4, 24);
    press(&mut e, Key::End);
    assert_eq!(e.cursor(), (4, 0));
    // Cursor display column is 8; the viewport holds 4 columns, so the
    // offset must be 8 - 4 + 1 = 5.
    assert_eq!(e.col_offset, 5);
    press(&mut e, Key::Home);
    assert_eq!(e.col_offset, 0);
}

#[test]
fn grapheme_clusters_are_the_unit_of_cursor_movement() {
    // "e" + combining acute is one cluster; End lands after 2 clusters,
    // not after 3 chars.
    let mut e = open_text("e\u{301}x", 80, 24);
    press(&mut e, Key::End);
    assert_eq!(e.cursor(), (2, 0));

    // Deleting the final cluster removes the whole "x"; deleting again
    // removes the combined cluster in one step.
    press(&mut e, Key::Backspace);
    assert_eq!(buffer_lines(&e), vec!["e\u{301}"]);
    press(&mut e, Key::Backspace);
    assert_eq!(buffer_lines(&e), vec![""]);
}

#[test]
fn shifted_characters_insert_their_uppercase_mapping() {
    let mut e = open_text("", 80, 24);
    press(&mut e, Key::ShiftChar('a'));
    assert_eq!(buffer_lines(&e), vec!["A"]);

    // The sharp s uppercases to two characters.
    let mut f = open_text("", 80, 24);
    press(&mut f, Key::ShiftChar('\u{df}'));
    assert_eq!(buffer_lines(&f), vec!["SS"]);
    assert_eq!(f.cursor(), (2, 0));
}

#[test]
fn inserting_a_newline_character_is_refused() {
    let mut e = open_text("ab", 80, 24);
    press(&mut e, Key::Char('\n'));
    assert_eq!(buffer_lines(&e), vec!["ab"]);
    assert_eq!(e.cursor(), (0, 0));
}

#[test]
fn backspace_at_origin_does_nothing() {
    let mut e = open_text("ab", 80, 24);
    press(&mut e, Key::Backspace);
    assert_eq!(buffer_lines(&e), vec!["ab"]);
    assert_eq!(e.cursor(), (0, 0));
}

#[test]
fn modification_flag_tracks_edits_and_saves() {
    let mut e = open_text("abc", 80, 24);
    // Loading and making no edits reports an unmodified buffer.
    assert!(!e.is_modified());
    press(&mut e, Key::Right);
    assert!(!e.is_modified());

    // One inserted character flips the flag.
    press(&mut e, Key::Char('x'));
    assert!(e.is_modified());

    // Deleting it restores the original content, and the hash agrees.
    press(&mut e, Key::Backspace);
    assert!(!e.is_modified());

    press(&mut e, Key::Char('y'));
    assert!(e.is_modified());
    assert_eq!(e.save_content(), "aybc\n");
    e.on_save_success(e.save_content().len(), 0);
    assert!(!e.is_modified());
}

#[test]
fn save_content_joins_lines_with_a_trailing_newline() {
    let e = open_text("a\nb", 80, 24);
    assert_eq!(e.save_content(), "a\nb\n");
}

#[test]
fn quit_on_modified_buffer_takes_two_requests() {
    let mut e = open_text("abc", 80, 24);
    // Unmodified: quit immediately.
    assert!(matches!(press(&mut e, Key::CtrlQ).0, ControlFlow::Break));

    press(&mut e, Key::Char('x'));
    // First quit request on a modified buffer only warns.
    assert!(matches!(press(&mut e, Key::CtrlQ).0, ControlFlow::Continue));
    // A second one goes through.
    assert!(matches!(press(&mut e, Key::CtrlQ).0, ControlFlow::Break));

    // Any other key in between clears the one-shot confirmation.
    let mut f = open_text("abc", 80, 24);
    press(&mut f, Key::Char('x'));
    assert!(matches!(press(&mut f, Key::CtrlQ).0, ControlFlow::Continue));
    press(&mut f, Key::Right);
    assert!(matches!(press(&mut f, Key::CtrlQ).0, ControlFlow::Continue));
}

#[test]
fn save_request_reports_whether_the_caller_should_write() {
    let mut with_path = open_text("abc", 80, 24);
    let (flow, save) = press(&mut with_path, Key::CtrlS);
    assert!(matches!(flow, ControlFlow::Continue));
    assert!(save);

    let mut without_path = Editor::open(None, None, 80, 24);
    let (_, save) = press(&mut without_path, Key::CtrlS);
    assert!(!save);
}

#[test]
fn resize_rescrolls_to_keep_the_cursor_visible() {
    let mut e = open_text("l0\nl1\nl2\nl3\nl4\nl5\nl6", 10, 9);
    for _ in 0..6 {
        press(&mut e, Key::Down);
    }
    assert_eq!(e.row_offset, 0);
    // Shrink to a 3-row pane: the offset must chase the cursor.
    e.resize(10, 5);
    assert_eq!(e.editor_rows, 3);
    assert_eq!(e.row_offset, 4);
    assert!(e.row_offset <= e.cursor().1 && e.cursor().1 < e.row_offset + e.editor_rows);
}

#[test]
fn typing_after_moving_past_the_last_line_appends_to_it() {
    let mut e = open_text("ab", 80, 24);
    press(&mut e, Key::Down);
    press(&mut e, Key::End);
    press(&mut e, Key::Char('c'));
    assert_eq!(buffer_lines(&e), vec!["abc"]);
}

#[test]
fn screen_dimension_conversion_reserves_two_rows() {
    assert_eq!(se::convert_screen_dimens_to_editor_dimens(80, 24), (80, 22));
    assert_eq!(se::convert_screen_dimens_to_editor_dimens(5, 2), (5, 0));
}
