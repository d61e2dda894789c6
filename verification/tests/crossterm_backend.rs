use opentui_core::crossterm_backend::{mouse_disable_sequence, mouse_enable_sequence, CrosstermBackend};
use opentui_core::terminal_state::CursorState;

fn cursor(x: u32, y: u32, visible: bool, style: u8, blinking: bool) -> CursorState {
    CursorState { x, y, visible, style, blinking, r: 0, g: 0, b: 0, a: 0 }
}

#[test]
fn mouse_sequences_select_tracking_mode() {
    assert_eq!(mouse_enable_sequence(true), b"\x1b[?1003h\x1b[?1006h".to_vec());
    assert_eq!(mouse_enable_sequence(false), b"\x1b[?1002h\x1b[?1006h".to_vec());
    assert_eq!(
        mouse_disable_sequence(),
        b"\x1b[?1000l\x1b[?1002l\x1b[?1003l\x1b[?1006l\x1b[?1015l\x1b[?1016l".to_vec()
    );
}

#[test]
fn clear_frame_prefix_and_reset() {
    let backend = CrosstermBackend::default();
    let mut out = Vec::new();
    backend.append_clear(&mut out);
    assert_eq!(out, b"\x1b[2J\x1b[1;1H".to_vec());
    out.clear();
    backend.append_frame_prefix(&mut out);
    assert_eq!(out, b"\x1b[?25l".to_vec());
    out.clear();
    backend.append_reset(&mut out);
    assert_eq!(out, b"\x1b[0m\x1b[0m".to_vec());
}

#[test]
fn title_is_wrapped_in_an_osc_sequence() {
    let backend = CrosstermBackend::default();
    let mut out = Vec::new();
    backend.append_title(&mut out, "héllo");
    let mut expected = b"\x1b]2;".to_vec();
    expected.extend_from_slice("héllo".as_bytes());
    expected.extend_from_slice(b"\x1b\\");
    assert_eq!(out, expected);
}

#[test]
fn visible_cursor_moves_to_zero_based_cell_below_offset() {
    let backend = CrosstermBackend::default();
    let mut out = Vec::new();
    backend.append_cursor(&mut out, cursor(5, 3, true, 1, true), 10);
    assert_eq!(out, b"\x1b[5 q\x1b[13;5H\x1b[?25h".to_vec());
    out.clear();
    backend.append_cursor(&mut out, cursor(0, 0, true, 2, false), 0);
    assert_eq!(out, b"\x1b[4 q\x1b[1;1H\x1b[?25h".to_vec());
}

#[test]
fn hidden_cursor_and_unknown_style() {
    let backend = CrosstermBackend::default();
    let mut out = Vec::new();
    backend.append_cursor(&mut out, cursor(5, 3, false, 0, false), 0);
    assert_eq!(out, b"\x1b[2 q\x1b[?25l".to_vec());
    out.clear();
    backend.append_cursor(&mut out, cursor(5, 3, false, 7, true), 0);
    assert_eq!(out, b"\x1b[?25l".to_vec());
}

#[test]
fn colors_then_attributes_in_bit_order() {
    let backend = CrosstermBackend::default();
    let mut out = Vec::new();
    backend.append_colors(&mut out, [1, 2, 3], [40, 50, 255], 0b1000_0101);
    let colored = b"\x1b[0m\x1b[38;2;1;2;3m\x1b[48;2;40;50;255m\x1b[1m\x1b[3m\x1b[9m".to_vec();
    let plain = b"\x1b[0m\x1b[m\x1b[m\x1b[1m\x1b[3m\x1b[9m".to_vec();
    assert!(out == colored || out == plain);
}

#[test]
fn setup_turns_modes_on_in_order() {
    let backend = CrosstermBackend::default();
    let mut out = Vec::new();
    backend.append_setup(&mut out, true, true, false, 0b1_0011, Some("t"), true, cursor(1, 1, true, 0, true));
    let expected = b"\x1b[?1049h\x1b[?1004h\x1b[?2004h\x1b[?1002h\x1b[?1006h\x1b[>3u\x1b]2;t\x1b\\\x1b[2J\x1b[1;1H\x1b[1 q\x1b[1;1H\x1b[?25h".to_vec();
    assert_eq!(out, expected);
}

#[test]
fn active_modes_skip_what_is_off() {
    let backend = CrosstermBackend::default();
    let mut out = Vec::new();
    backend.append_active_modes(&mut out, false, false, 0, Some(""), false, cursor(0, 0, false, 9, false));
    assert_eq!(out, b"\x1b[?1004h\x1b[?2004h\x1b[?25l".to_vec());
}

#[test]
fn teardown_turns_modes_off() {
    let backend = CrosstermBackend::default();
    let mut out = Vec::new();
    backend.append_teardown(&mut out, true, true, 1);
    let mut expected = mouse_disable_sequence();
    expected.extend_from_slice(b"\x1b[<1u\x1b[?1004l\x1b[?2004l\x1b[?25h\x1b[?1049l");
    assert_eq!(out, expected);
    out.clear();
    backend.append_teardown(&mut out, true, false, 0);
    let mut expected = mouse_disable_sequence();
    expected.extend_from_slice(b"\x1b[?1004l\x1b[?2004l\x1b[?25h");
    assert_eq!(out, expected);
}
