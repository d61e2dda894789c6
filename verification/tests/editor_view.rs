use opentui_core::edit_buffer::EditBufferState;
use opentui_core::editor_view::{EditorViewState, VisualCursor};

#[test]
fn viewport_and_wrap_count_round_trip() {
    let mut edit = EditBufferState::new(0, 1);
    edit.set_text_bytes(b"ABCDEFGHIJKLMNOPQRSTUVWXYZ");

    let mut view = EditorViewState::new(edit, 10, 5);
    assert_eq!(view.viewport(), (0, 0, 10, 5));
    assert_eq!(view.virtual_line_count(), 1);

    view.set_wrap_mode(1);
    assert_eq!(view.virtual_line_count(), 3);

    view.set_viewport(2, 4, 8, 3);
    assert_eq!(view.viewport(), (2, 4, 8, 3));
    assert_eq!(view.virtual_line_count(), 4);
}

#[test]
fn selection_and_text_passthrough_round_trip() {
    let mut edit = EditBufferState::new(0, 1);
    edit.set_text_bytes(b"Hello World");

    let mut view = EditorViewState::new(edit, 40, 10);
    view.set_selection(6, 11);
    assert_eq!(view.selected_text_bytes(), b"World");
    assert_eq!(String::from_utf8_lossy(&view.text_bytes()), "Hello World");
    assert_eq!(view.cursor(), (0, 0));
    view.update_selection(8);
    assert_eq!(view.selected_text_bytes(), b"Wo");
    view.reset_selection();
    assert!(view.selected_text_bytes().is_empty());
}

#[test]
fn visual_cursor_and_selection_actions_round_trip() {
    let mut edit = EditBufferState::new(0, 1);
    edit.set_text_bytes(b"Hello World");

    let mut view = EditorViewState::new(edit, 5, 10);
    view.set_wrap_mode(1);

    let cursor = view.visual_cursor();
    assert_eq!(
        cursor,
        VisualCursor { visual_row: 0, visual_col: 0, logical_row: 0, logical_col: 0, offset: 0 }
    );

    view.set_local_selection(0, 0, 5, 1);
    assert!(!view.selected_text_bytes().is_empty());
    view.delete_selected_text();
    assert_ne!(String::from_utf8_lossy(&view.text_bytes()), "Hello World");

    view.set_cursor_by_offset(0);
    view.move_down_visual();
    assert!(view.visual_cursor().visual_row <= view.total_virtual_line_count());
    let _ = view.next_word_boundary();
    let _ = view.prev_word_boundary();
    let _ = view.eol();
    let _ = view.visual_sol();
    let _ = view.visual_eol();
}

#[test]
fn visual_moves_follow_wrapped_rows() {
    let mut edit = EditBufferState::new(0, 1);
    edit.set_text_bytes(b"abcdefghij");
    let mut view = EditorViewState::new(edit, 4, 10);
    view.set_wrap_mode(1);
    view.set_cursor_by_offset(1);
    view.move_down_visual();
    assert_eq!(view.visual_cursor(), VisualCursor { visual_row: 1, visual_col: 1, logical_row: 0, logical_col: 5, offset: 5 });
    view.move_up_visual();
    assert_eq!(view.edit_buffer().current_offset(), 1);
    assert_eq!(view.visual_eol().offset, 4);
    assert_eq!(view.visual_sol().offset, 0);
    let edit = view.into_edit_buffer();
    assert_eq!(edit.current_offset(), 1);
}
