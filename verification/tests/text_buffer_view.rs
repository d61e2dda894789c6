use opentui_core::text_buffer::TextBufferState;
use opentui_core::text_buffer_view::{
    compute_virtual_lines, copy_selected_text, MeasureResultOut, TextBufferViewState, VirtualLine, NO_SELECTION,
};

#[test]
fn selection_info_packs_and_resets() {
    let mut buffer = TextBufferState::new(0);
    let id = buffer.register_mem_buffer(b"Hello\nWorld").unwrap();
    buffer.set_text_from_mem(id);

    let mut view = TextBufferViewState::new();
    assert_eq!(view.selection_info(), NO_SELECTION);

    view.set_selection(6, 11, None, None);
    assert_eq!(view.selection_info(), ((6_u64) << 32) | 11_u64);
    assert_eq!(view.selected_text_bytes(&buffer), b"World");

    view.reset_selection();
    assert_eq!(view.selection_info(), NO_SELECTION);
}

#[test]
fn line_info_and_measure_support_wrapping_and_local_selection() {
    let mut buffer = TextBufferState::new(0);
    let id = buffer.register_mem_buffer(b"Hello World").unwrap();
    buffer.set_text_from_mem(id);

    let mut view = TextBufferViewState::new();
    view.set_wrap_mode(1);
    view.set_wrap_width(5);

    let line_info = view.line_info(&buffer);
    assert_eq!(line_info.start_cols_len, 3);
    assert_eq!(line_info.width_cols[0], 5);

    let logical = view.logical_line_info(&buffer);
    assert_eq!(logical.start_cols_len, 1);
    assert_eq!(logical.width_cols[0], 11);

    let measure: MeasureResultOut = view.measure_for_dimensions(&buffer, 4, 10);
    assert_eq!(measure.line_count, 3);
    assert_eq!(measure.width_cols_max, 4);

    assert!(view.set_local_selection(&buffer, 0, 0, 5, 1, None, None));
    assert!(!view.selected_text_bytes(&buffer).is_empty());
    view.reset_local_selection();
    assert_eq!(view.selection_info(), NO_SELECTION);
}

fn row(start_offset: u32, width_cols: u32, source_line: u32, wrap_index: u32) -> VirtualLine {
    VirtualLine { start_offset, width_cols, source_line, wrap_index }
}

#[test]
fn char_wrap_cuts_every_width_columns() {
    let text: Vec<char> = "abcdefg\nhi".chars().collect();
    let rows = compute_virtual_lines(&text, 4, Some(3), 1);
    assert_eq!(rows, vec![row(0, 3, 0, 0), row(3, 3, 0, 1), row(6, 1, 0, 2), row(8, 2, 1, 0)]);
}

#[test]
fn word_wrap_breaks_after_white_space() {
    let text: Vec<char> = "hello world foo".chars().collect();
    let rows = compute_virtual_lines(&text, 4, Some(8), 2);
    assert_eq!(rows, vec![row(0, 6, 0, 0), row(6, 6, 0, 1), row(12, 3, 0, 2)]);
}

#[test]
fn no_wrap_gives_one_row_per_line_and_one_for_empty_text() {
    let text: Vec<char> = "ab\n\ncd".chars().collect();
    let rows = compute_virtual_lines(&text, 4, None, 1);
    assert_eq!(rows, vec![row(0, 2, 0, 0), row(3, 0, 1, 0), row(4, 2, 2, 0)]);
    let empty: Vec<char> = Vec::new();
    assert_eq!(compute_virtual_lines(&empty, 4, Some(3), 1), vec![row(0, 0, 0, 0)]);
}

#[test]
fn visual_positions_and_copy_out() {
    let mut buffer = TextBufferState::new(0);
    buffer.set_text_bytes(b"Hello World");
    let mut view = TextBufferViewState::new();
    view.set_wrap_mode(1);
    view.set_wrap_width(5);
    assert_eq!(view.virtual_line_count(&buffer), 3);
    assert_eq!(view.visual_cursor_for_offset(&buffer, 7, 0, 7), (1, 2, 0, 7, 7));
    assert_eq!(view.offset_for_visual_position(&buffer, 2, 9), Some(11));
    assert_eq!(view.offset_for_visual_position(&buffer, 3, 0), None);
    assert_eq!(view.text_end_offset(&buffer), 11);

    view.set_selection(0, 5, None, None);
    let mut out = [0u8; 3];
    assert_eq!(copy_selected_text(&view, &buffer, &mut out), 3);
    assert_eq!(&out, b"Hel");

    view.set_viewport(0, 1, 5, 1);
    let visible = view.visible_lines(&buffer);
    assert_eq!(visible.len(), 1);
    assert_eq!(visible[0].start_offset, 5);
    assert_eq!(visible[0].end_offset, 10);
    assert_eq!(visible[0].selection_start, None);
}

#[test]
fn update_selection_keeps_the_anchor() {
    let mut buffer = TextBufferState::new(0);
    buffer.set_text_bytes(b"Hello World");
    let mut view = TextBufferViewState::new();
    view.set_selection(6, 11, None, None);
    view.update_selection(8, None, None);
    assert_eq!(view.selected_text_bytes(&buffer), b"Wo");
    view.update_selection(2, None, None);
    assert_eq!(view.selected_text_bytes(&buffer), b"llo ");
}

#[test]
fn char_wrapped_rows_never_exceed_the_wrap_width() {
    let text: Vec<char> = "a\tbc 世界 longer line here\n\nxyz".chars().collect();
    for width in 1..7u32 {
        for row in compute_virtual_lines(&text, 2, Some(width), 1) {
            assert!(row.width_cols <= width);
        }
    }
}

#[test]
fn unwrapped_views_have_one_row_per_line() {
    let text: Vec<char> = "one\ntwo three\n\nfour".chars().collect();
    let rows = compute_virtual_lines(&text, 4, None, 2);
    assert_eq!(rows.len(), 4);
    for (k, row) in rows.iter().enumerate() {
        assert_eq!(row.source_line, k as u32);
        assert_eq!(row.wrap_index, 0);
    }
}
