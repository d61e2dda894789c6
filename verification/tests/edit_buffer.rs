use opentui_core::edit_buffer::{EditBufferState, LogicalCursor};

fn text_of(buffer: &EditBufferState) -> String {
    String::from_utf8_lossy(&buffer.text_bytes()).into_owned()
}

#[test]
fn set_text_and_cursor_round_trip() {
    let mut buffer = EditBufferState::new(0, 1);
    buffer.set_text_bytes(b"Hello\nWorld");

    assert_eq!(buffer.cursor(), LogicalCursor { row: 0, col: 0, offset: 0 });

    buffer.set_cursor_to_line_col(1, 0);
    assert_eq!(buffer.cursor().offset, 6);
    assert_eq!(text_of(&buffer), "Hello\nWorld");
}

#[test]
fn insert_and_delete_basic_text() {
    let mut buffer = EditBufferState::new(0, 1);
    buffer.set_text_bytes(b"Hello");
    buffer.set_cursor_to_line_col(0, 5);
    buffer.insert_text(b" World");
    assert_eq!(text_of(&buffer), "Hello World");

    buffer.delete_char_backward();
    assert_eq!(text_of(&buffer), "Hello Worl");

    buffer.delete_char();
    assert_eq!(text_of(&buffer), "Hello Worl");
}

#[test]
fn move_between_lines_preserves_column_when_possible() {
    let mut buffer = EditBufferState::new(0, 1);
    buffer.set_text_bytes(b"Line 1\nLine 22\nL3");
    buffer.set_cursor_to_line_col(1, 4);
    buffer.move_cursor_down();
    assert_eq!(buffer.cursor().row, 2);
    assert_eq!(buffer.cursor().col, 2);
    buffer.move_cursor_up();
    assert_eq!(buffer.cursor().row, 1);
}

#[test]
fn range_delete_and_boundaries_round_trip() {
    let mut buffer = EditBufferState::new(0, 1);
    buffer.set_text_bytes(b"hello world\nnext");
    buffer.set_cursor_to_line_col(0, 6);
    assert_eq!(buffer.next_word_boundary().offset, 12);
    assert_eq!(buffer.prev_word_boundary().offset, 0);
    assert_eq!(buffer.eol().col, 11);

    buffer.delete_range_by_offsets(0, 6);
    assert_eq!(text_of(&buffer), "world\nnext");
}

#[test]
fn word_boundaries_match_cjk_and_space_cases() {
    let mut buffer = EditBufferState::new(0, 1);
    buffer.set_text_bytes("日本語。abc".as_bytes());
    assert_eq!(buffer.next_word_boundary().offset, 8);
    buffer.set_cursor_by_offset(11);
    assert_eq!(buffer.prev_word_boundary().offset, 8);

    buffer.set_text_bytes("テストtest".as_bytes());
    assert_eq!(buffer.next_word_boundary().offset, 6);
    buffer.set_cursor_by_offset(10);
    assert_eq!(buffer.prev_word_boundary().offset, 6);

    buffer.set_text_bytes(b"hello world test");
    buffer.set_cursor_by_offset(5);
    assert_eq!(buffer.next_word_boundary().offset, 12);
    buffer.set_cursor_by_offset(12);
    assert_eq!(buffer.prev_word_boundary().offset, 6);
}

#[test]
fn undo_restores_text_before_an_edit_and_redo_reapplies_it() {
    let mut buffer = EditBufferState::new(0, 7);
    buffer.set_text_bytes(b"abc");
    buffer.set_cursor_by_offset(3);
    buffer.insert_text(b"def");
    assert_eq!(text_of(&buffer), "abcdef");
    assert!(buffer.can_undo());
    assert!(!buffer.can_redo());

    assert_eq!(buffer.undo().as_deref(), Some("undo"));
    assert_eq!(text_of(&buffer), "abc");
    assert_eq!(buffer.current_offset(), 3);
    assert!(buffer.can_redo());

    assert_eq!(buffer.redo().as_deref(), Some("redo"));
    assert_eq!(text_of(&buffer), "abcdef");
    assert_eq!(buffer.current_offset(), 6);
    assert_eq!(buffer.redo(), None);
}

#[test]
fn an_edit_forgets_what_could_be_redone() {
    let mut buffer = EditBufferState::new(0, 1);
    buffer.set_text_bytes(b"x");
    buffer.insert_text(b"y");
    buffer.undo();
    assert!(buffer.can_redo());
    buffer.insert_text(b"z");
    assert!(!buffer.can_redo());
    assert_eq!(buffer.redo_depth(), 0);
    assert_eq!(buffer.undo_depth(), 1);
}

#[test]
fn undo_with_empty_history_does_nothing() {
    let mut buffer = EditBufferState::new(0, 1);
    buffer.set_text_bytes(b"keep");
    assert_eq!(buffer.undo(), None);
    assert_eq!(text_of(&buffer), "keep");
}

#[test]
fn set_text_clears_history_and_replace_records_it() {
    let mut buffer = EditBufferState::new(0, 1);
    buffer.set_text_bytes(b"one");
    buffer.insert_text(b"!");
    buffer.set_text_bytes(b"two");
    assert!(!buffer.can_undo());
    buffer.replace_text_bytes(b"two");
    assert!(!buffer.can_undo());
    buffer.replace_text_bytes(b"three");
    assert!(buffer.can_undo());
    buffer.undo();
    assert_eq!(text_of(&buffer), "two");
}

#[test]
fn delete_char_is_not_recorded() {
    let mut buffer = EditBufferState::new(0, 1);
    buffer.set_text_bytes(b"ab");
    buffer.set_cursor_by_offset(2);
    buffer.delete_char_backward();
    assert_eq!(text_of(&buffer), "a");
    assert!(!buffer.can_undo());
}

#[test]
fn delete_line_removes_the_cursor_line() {
    let mut buffer = EditBufferState::new(0, 1);
    buffer.set_text_bytes(b"one\ntwo\nthree");
    buffer.set_cursor_to_line_col(1, 1);
    buffer.delete_line();
    assert_eq!(text_of(&buffer), "one\nthree");

    buffer.set_cursor_to_line_col(1, 2);
    buffer.delete_line();
    assert_eq!(text_of(&buffer), "one");
    assert_eq!(buffer.cursor(), LogicalCursor { row: 0, col: 3, offset: 3 });

    buffer.delete_line();
    assert_eq!(text_of(&buffer), "");
}

#[test]
fn clamps_and_goto_line() {
    let mut buffer = EditBufferState::new(0, 1);
    buffer.set_text_bytes(b"ab\ncdef");
    buffer.set_cursor_to_line_col(0, 9);
    assert_eq!(buffer.cursor(), LogicalCursor { row: 0, col: 2, offset: 2 });
    buffer.set_cursor_by_offset(100);
    assert_eq!(buffer.current_offset(), 7);
    buffer.goto_line(1);
    assert_eq!(buffer.cursor().offset, 3);
    buffer.goto_line(5);
    assert_eq!(buffer.cursor().offset, 3);
    assert_eq!(buffer.line_start_offset(1), 3);
    assert_eq!(buffer.position_to_offset(1, 2), 5);
    assert_eq!(buffer.offset_to_position(5), Some(LogicalCursor { row: 1, col: 2, offset: 5 }));
    buffer.move_cursor_left();
    assert_eq!(buffer.current_offset(), 2);
    buffer.move_cursor_right();
    assert_eq!(buffer.current_offset(), 3);
}

#[test]
fn new_line_and_text_ranges() {
    let mut buffer = EditBufferState::new(0, 1);
    buffer.set_text_bytes(b"ab");
    buffer.set_cursor_by_offset(1);
    buffer.new_line();
    assert_eq!(text_of(&buffer), "a\nb");
    assert_eq!(buffer.cursor(), LogicalCursor { row: 1, col: 0, offset: 2 });
    assert_eq!(buffer.text_buffer_text_range(0, 3), "a\nb");
    assert_eq!(buffer.text_buffer_text_range_by_coords(1, 0, 1, 1), "b");
    buffer.delete_range_by_coords(0, 1, 1, 0);
    assert_eq!(text_of(&buffer), "ab");
    buffer.clear();
    assert_eq!(text_of(&buffer), "");
    buffer.undo();
    assert_eq!(text_of(&buffer), "ab");
}

#[test]
fn deleting_what_was_inserted_gives_the_text_back() {
    let mut buffer = EditBufferState::new(0, 7);
    buffer.set_text_bytes("ab\n世界".as_bytes());
    buffer.set_cursor_by_offset(3);
    let before = buffer.current_offset();
    buffer.insert_text("x\ty".as_bytes());
    let after = buffer.current_offset();
    assert!(after > before);
    buffer.delete_range_by_offsets(before, after);
    assert_eq!(buffer.text_bytes(), "ab\n世界".as_bytes().to_vec());
    assert_eq!(buffer.current_offset(), before);
}
