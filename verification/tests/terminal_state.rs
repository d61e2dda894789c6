use opentui_core::terminal_state::{CursorStyleOptions, TerminalState};

#[test]
fn cursor_and_capability_state_round_trip() {
    let mut terminal = TerminalState::default();
    terminal.set_cursor_position(4, 2, true);
    terminal.set_cursor_color([1.0f32.to_bits(), 0.0f32.to_bits(), 0.0f32.to_bits(), 1.0f32.to_bits()]);
    terminal.set_cursor_style_options(CursorStyleOptions { style: 1, blinking: 1, color: None, cursor: 0 });
    terminal.enable_kitty_keyboard(0b1010);
    terminal.enable_mouse(true);
    terminal.process_capability_response(b"kitty sixel sync");
    terminal.query_pixel_resolution();
    terminal.set_terminal_title(b"title");
    terminal.set_terminal_env_var(b"TERM", b"xterm");
    terminal.write_out(b"hello");
    terminal.copy_to_clipboard_osc52(1, b"clip");
    terminal.set_hyperlinks_capability(true);

    let cursor = terminal.cursor_state();
    assert_eq!(cursor.x, 4);
    assert_eq!(cursor.y, 2);
    assert_eq!(cursor.style, 1);
    assert!(cursor.blinking);
    assert_eq!(terminal.kitty_keyboard_flags(), 0b1010);

    let caps = terminal.capabilities_out();
    assert!(caps.kitty_keyboard);
    assert!(caps.kitty_graphics);
    assert!(caps.sixel);
    assert!(caps.sync);
    assert!(caps.sgr_pixels);
    assert!(caps.hyperlinks);
}

#[test]
fn defaults_and_restore() {
    let mut terminal = TerminalState::new();
    let caps = terminal.capabilities_out();
    assert_eq!(caps.term_name, b"rust-terminal");
    assert_eq!(caps.term_name_len, 13);
    assert_eq!(caps.term_version, b"0.1");
    assert!(caps.rgb && caps.osc52 && !caps.kitty_keyboard);

    terminal.set_cursor_position(-3, 0, false);
    assert_eq!((terminal.cursor_state().x, terminal.cursor_state().y), (1, 1));

    terminal.enable_kitty_keyboard(3);
    terminal.restore_terminal_modes();
    assert_eq!(terminal.kitty_keyboard_flags(), 0);
    assert!(!terminal.capabilities_out().kitty_keyboard);

    terminal.process_capability_response(b"xterm kitt");
    assert!(!terminal.capabilities_out().kitty_graphics);
    terminal.process_capability_response(b"> kitty(1)");
    assert_eq!(terminal.capabilities_out().term_name, b"kitty");

    terminal.write_out(b"ab");
    terminal.write_out(b"c");
    assert_eq!(terminal.pending_output(), b"abc");
    terminal.clear_terminal();
    assert!(terminal.pending_output().is_empty());
    assert!(terminal.clear_clipboard_osc52(1));
}

#[test]
fn style_options_leave_unset_fields() {
    let mut terminal = TerminalState::new();
    terminal.set_cursor_style_options(CursorStyleOptions { style: 2, blinking: 0, color: Some([1, 2, 3, 4]), cursor: 0 });
    terminal.set_cursor_style_options(CursorStyleOptions { style: u8::MAX, blinking: u8::MAX, color: None, cursor: 0 });
    let c = terminal.cursor_state();
    assert_eq!(c.style, 2);
    assert!(!c.blinking);
    assert_eq!((c.r, c.g, c.b, c.a), (1, 2, 3, 4));
}
