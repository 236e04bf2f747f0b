use se::Editor;
use se::Key;
use se::Refresh;
use se::Renderer;

const ESC: u8 = 0x1b;

fn contains_subslice(haystack: &[u8], needle: &[u8]) -> bool {
    haystack.windows(needle.len().max(1)).any(|w| w == needle)
}

#[test]
fn is_whitespace_recognizes_only_newlines() {
    assert!(se::is_whitespace(b'\n'));
    assert!(!se::is_whitespace(b' '));
    assert!(!se::is_whitespace(b'\r'));
}

#[test]
fn update_splits_frames_into_rows() {
    let mut r = Renderer::new(2);
    r.update(b"ab\ncd\n".to_vec());
    assert_eq!(r.num_rows(), 3);
    assert_eq!(r.current_row(0).as_slice(), b"ab");
    assert_eq!(r.current_row(1).as_slice(), b"cd");
    assert_eq!(r.current_row(2).as_slice(), b"");
}

#[test]
fn partial_refresh_of_identical_frames_writes_nothing() {
    let mut r = Renderer::new(2);
    r.update(b"ab\ncd".to_vec());
    r.update(b"ab\ncd".to_vec());
    assert_eq!(r.rows_to_write(Refresh::Partial), Vec::<usize>::new());
}

#[test]
fn partial_refresh_writes_exactly_the_changed_row() {
    let mut r = Renderer::new(2);
    r.update(b"ab\ncd\nef".to_vec());
    r.update(b"ab\nXd\nef".to_vec());
    assert_eq!(r.rows_to_write(Refresh::Partial), vec![1]);
}

#[test]
fn full_refresh_writes_every_row() {
    let mut r = Renderer::new(2);
    r.update(b"ab\ncd".to_vec());
    r.update(b"ab\ncd".to_vec());
    assert_eq!(r.rows_to_write(Refresh::Full), vec![0, 1]);
}

#[test]
fn rows_beyond_the_previous_frame_are_always_written() {
    let mut r = Renderer::new(0);
    r.update(b"a".to_vec());
    r.update(b"a\nb".to_vec());
    assert_eq!(r.rows_to_write(Refresh::Partial), vec![1]);
}

#[test]
fn refreshing_an_unchanged_editor_twice_writes_nothing_the_second_time() {
    let mut e = Editor::open(Some("f.rs".to_string()), Some("fn main() {}".to_string()), 40, 10);
    let first = e.refresh_screen(Refresh::Full, 0);
    assert!(!first.rows.is_empty());
    let second = e.refresh_screen(Refresh::Partial, 0);
    assert_eq!(second.rows, Vec::<usize>::new());
}

#[test]
fn editing_one_line_rewrites_only_the_affected_rows(){
    let mut e = Editor::open(Some("f.txt".to_string()), Some("aa\nbb\ncc".to_string()), 40, 10);
    e.refresh_screen(Refresh::Full, 0);
    e.process_keypress(Key::Char('x'), 0);
    let plan = e.refresh_screen(Refresh::Partial, 0);
    // The first buffer row changed; the status bar row (line count /
    // modified marker and cursor indicator) changed too.
    assert!(plan.rows.contains(&0));
    assert!(!plan.rows.contains(&1));
    assert!(!plan.rows.contains(&2));
}

#[test]
fn buffer_rows_carry_styling_and_a_clear_sequence() {
    let mut e = Editor::open(Some("f.rs".to_string()), Some("abc".to_string()), 40, 10);
    e.refresh_screen(Refresh::Full, 0);
    let row = e.renderer.current_row(0).clone();
    // The text is painted cluster by cluster, not raw, and each row ends
    // with a clear-to-end-of-line escape sequence.
    assert_ne!(row.as_slice(), b"abc");
    assert!(row.contains(&b'a'));
    assert!(row.contains(&b'b'));
    assert!(row.contains(&b'c'));
    assert!(row.contains(&ESC));
    assert!(row.ends_with(&[ESC, b'[', b'K']));
}

#[test]
fn status_bar_shows_path_line_count_and_position() {
    let mut e = Editor::open(Some("f.txt".to_string()), Some("a\nb\nc".to_string()), 40, 10);
    e.refresh_screen(Refresh::Full, 0);
    // The pane is 8 rows; the status bar is row 8.
    let bar = e.renderer.current_row(8).clone();
    assert!(contains_subslice(&bar, b"f.txt - 3 lines"));
    assert!(contains_subslice(&bar, b"1/3"));
    assert!(!contains_subslice(&bar, b"[modified]"));

    e.process_keypress(Key::Char('x'), 0);
    e.refresh_screen(Refresh::Partial, 0);
    let bar = e.renderer.current_row(8).clone();
    assert!(contains_subslice(&bar, b"[modified]"));
}

#[test]
fn status_message_appears_and_expires() {
    let mut e = Editor::open(Some("f.txt".to_string()), Some("a".to_string()), 40, 10);
    e.set_status_msg("hi there".to_string(), 1000);
    e.refresh_screen(Refresh::Full, 1000);
    let msg_row = e.renderer.current_row(9).clone();
    assert_eq!(msg_row.as_slice(), b"hi there");

    // Five seconds later the message has expired and the row is cleared.
    e.refresh_screen(Refresh::Partial, 6001);
    let msg_row = e.renderer.current_row(9).clone();
    assert!(!contains_subslice(&msg_row, b"hi there"));
    assert!(msg_row.contains(&ESC));
}

#[test]
fn status_message_is_truncated_by_display_width() {
    let mut e = Editor::open(Some("f.txt".to_string()), Some("a".to_string()), 4, 10);
    e.set_status_msg("abcdefgh".to_string(), 0);
    e.refresh_screen(Refresh::Full, 0);
    assert_eq!(e.renderer.current_row(9).as_slice(), b"abcd");
}

#[test]
fn empty_buffer_shows_tilde_rows_and_the_welcome_banner() {
    let mut e = Editor::open(None, None, 60, 14);
    e.refresh_screen(Refresh::Full, 0);
    // 12 pane rows; the banner sits at a third of the pane height.
    let banner_row = e.renderer.current_row(4).clone();
    assert_eq!(banner_row[0], b'~');
    assert!(contains_subslice(&banner_row, b"se v0.1.0"));
    let plain_row = e.renderer.current_row(5).clone();
    assert_eq!(plain_row[0], b'~');
    assert!(!contains_subslice(&plain_row, b"se v0.1.0"));
}

#[test]
fn quit_warning_is_shown_as_a_status_message() {
    let mut e = Editor::open(Some("f.txt".to_string()), Some("a".to_string()), 80, 10);
    e.process_keypress(Key::Char('x'), 0);
    e.process_keypress(Key::CtrlQ, 50);
    e.refresh_screen(Refresh::Full, 60);
    let msg_row = e.renderer.current_row(9).clone();
    assert!(contains_subslice(&msg_row, b"Buffer is modified!"));
}

#[test]
fn save_reports_bytes_written_or_the_missing_path() {
    let mut e = Editor::open(Some("notes.txt".to_string()), Some("ab".to_string()), 80, 10);
    let content = e.save_content();
    e.on_save_success(content.len(), 0);
    e.refresh_screen(Refresh::Full, 0);
    let msg_row = e.renderer.current_row(9).clone();
    assert_eq!(msg_row.as_slice(), b"Wrote 3 bytes to notes.txt");

    e.on_save_failure("disk full".to_string(), 10);
    e.refresh_screen(Refresh::Partial, 10);
    let msg_row = e.renderer.current_row(9).clone();
    assert_eq!(msg_row.as_slice(), b"Error while saving notes.txt: disk full");

    let mut no_path = Editor::open(None, None, 80, 10);
    no_path.process_keypress(se::Key::CtrlS, 0);
    no_path.refresh_screen(Refresh::Full, 0);
    let msg_row = no_path.renderer.current_row(9).clone();
    assert_eq!(
        msg_row.as_slice(),
        b"This buffer does not have a path to save at"
    );
}

#[test]
fn screen_cursor_is_relative_to_the_scroll_offsets() {
    let mut e = Editor::open(Some("f.txt".to_string()), Some("l0\nl1\nl2\nl3\nl4".to_string()), 10, 5);
    for _ in 0..4 {
        e.process_keypress(Key::Down, 0);
    }
    let plan = e.refresh_screen(Refresh::Full, 0);
    assert_eq!(e.cursor().1, 4);
    assert_eq!(e.row_offset, 2);
    assert_eq!(plan.cursor_y, 2);
    assert_eq!(plan.cursor_x, 0);
}
