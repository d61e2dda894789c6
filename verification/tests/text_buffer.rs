use opentui_core::text::{
    line_start_offset, next_offset, offset_to_position, position_to_offset, previous_offset, text_weight,
    text_width,
};
use opentui_core::text_buffer::{copy_bytes_to_out, StyledChunk, TextBufferState};

fn chars(s: &str) -> Vec<char> {
    s.chars().collect()
}

#[test]
fn width_counts_unicode_cells_and_ignores_newlines() {
    assert_eq!(text_width(&chars("Hello 世界 🌟"), 4), 13);
    assert_eq!(text_width(&chars("Line 1\nLine 2\nLine 3"), 4), 18);
}

#[test]
fn mem_buffer_set_and_append_normalizes_crlf() {
    let mut buffer = TextBufferState::new(0);
    let id = buffer.register_mem_buffer(b"Line1\r\nLine2").unwrap();
    buffer.set_text_from_mem(id);
    buffer.append_bytes(b"\r\nLine3");

    assert_eq!(buffer.plain_text_bytes(), b"Line1\nLine2\nLine3");
    assert_eq!(buffer.line_count(), 3);
}

#[test]
fn text_range_uses_weight_offsets_and_coords() {
    let mut buffer = TextBufferState::new(0);
    let id = buffer.register_mem_buffer("Hello\n世界".as_bytes()).unwrap();
    buffer.set_text_from_mem(id);

    assert_eq!(buffer.text_range(0, 5), "Hello");
    assert_eq!(buffer.text_range(6, 10), "世界");
    assert_eq!(buffer.text_range_by_coords(1, 0, 1, 4), "世界");
}

#[test]
fn copy_bytes_clips_to_output() {
    let mut out = [0_u8; 4];
    let written = copy_bytes_to_out(b"abcdef", &mut out);
    assert_eq!(written, 4);
    assert_eq!(&out, b"abcd");
}

#[test]
fn offset_and_position_helpers_round_trip() {
    let text = chars("Hello\n世界");
    assert_eq!(offset_to_position(&text, 4, 0), Some((0, 0)));
    assert_eq!(offset_to_position(&text, 4, 6), Some((1, 0)));
    assert_eq!(position_to_offset(&text, 4, 1, 0), Some(6));
    assert_eq!(line_start_offset(&text, 4, 1), Some(6));
    assert_eq!(previous_offset(&text, 4, 6), 5);
    assert_eq!(next_offset(&text, 4, 6), 8);
}

#[test]
fn tabs_weigh_the_tab_width() {
    let text = chars("a\tb");
    assert_eq!(text_weight(&text, 4), 6);
    assert_eq!(text_width(&text, 2), 4);
    assert_eq!(offset_to_position(&text, 4, 5), Some((0, 5)));
    assert_eq!(offset_to_position(&text, 4, 3), None);
}

#[test]
fn offsets_past_the_end_have_no_position() {
    let text = chars("ab");
    assert_eq!(offset_to_position(&text, 4, 3), None);
    assert_eq!(position_to_offset(&text, 4, 1, 0), None);
    assert_eq!(line_start_offset(&text, 4, 1), None);
    assert_eq!(next_offset(&text, 4, 2), 2);
    assert_eq!(previous_offset(&text, 4, 0), 0);
}

#[test]
fn insert_and_delete_by_offsets() {
    let mut buffer = TextBufferState::new(0);
    buffer.set_text_bytes(b"Hello");
    assert_eq!(buffer.insert_text_at_offset(5, b" World"), 11);
    assert_eq!(buffer.plain_text_bytes(), b"Hello World");
    assert_eq!(buffer.delete_range_by_offsets(11, 5), 5);
    assert_eq!(buffer.plain_text_bytes(), b"Hello");
    assert_eq!(buffer.length(), 5);
    assert_eq!(buffer.byte_size(), 5);
}

#[test]
fn registry_hands_out_ids_and_replaces() {
    let mut buffer = TextBufferState::new(0);
    let a = buffer.register_mem_buffer(b"a").unwrap();
    let b = buffer.register_mem_buffer(b"b").unwrap();
    assert_ne!(a, b);
    assert!(buffer.replace_mem_buffer(a, b"x\r\ny"));
    buffer.set_text_from_mem(a);
    assert_eq!(buffer.plain_text_bytes(), b"x\ny");
    buffer.clear_mem_registry();
    assert!(!buffer.replace_mem_buffer(a, b"z"));
}

#[test]
fn styled_chunks_concatenate() {
    let mut buffer = TextBufferState::new(0);
    let chunks = vec![
        StyledChunk { text: b"ab".to_vec(), fg: None, bg: None, attributes: 0, link: Vec::new() },
        StyledChunk { text: Vec::new(), fg: None, bg: None, attributes: 0, link: Vec::new() },
        StyledChunk { text: b"c\r\n".to_vec(), fg: None, bg: None, attributes: 1, link: Vec::new() },
    ];
    buffer.set_styled_text(&chunks);
    assert_eq!(buffer.plain_text_bytes(), b"abc\n");
    assert_eq!(buffer.line_count(), 2);
}

#[test]
fn invalid_utf8_is_replaced() {
    let mut buffer = TextBufferState::new(0);
    buffer.set_text_bytes(&[b'a', 0xff, b'b']);
    assert_eq!(buffer.plain_text_bytes(), "a\u{FFFD}b".as_bytes());
}
