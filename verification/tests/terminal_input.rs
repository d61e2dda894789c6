use opentui_core::terminal_input::{raw_input_event, u64_le_bytes};

#[test]
fn le_bytes_put_the_low_byte_first() {
    assert_eq!(u64_le_bytes(0x0102_0304_0506_0708), vec![8, 7, 6, 5, 4, 3, 2, 1]);
}

#[test]
fn a_read_becomes_a_raw_event_tagged_with_the_renderer() {
    let buffer = [b'a', b'b', b'c', 0, 0];
    let event = raw_input_event(0x1122, &buffer, 3).unwrap();
    assert_eq!(event.name, "terminal:raw");
    assert_eq!(event.payload, vec![0x22, 0x11, 0, 0, 0, 0, 0, 0, b'a', b'b', b'c']);
}

#[test]
fn an_empty_read_is_no_event() {
    assert!(raw_input_event(7, &[1, 2], 0).is_none());
}
