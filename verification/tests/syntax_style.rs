use opentui_core::syntax_style::SyntaxStyleState;
use opentui_core::text_buffer::Rgba;

fn rgba(r: f32, g: f32, b: f32, a: f32) -> Rgba {
    [r.to_bits(), g.to_bits(), b.to_bits(), a.to_bits()]
}

#[test]
fn register_style_assigns_incrementing_ids() {
    let mut state = SyntaxStyleState::default();

    let keyword = state.register_style(b"keyword", Some(rgba(1.0, 0.0, 0.0, 1.0)), None, 0);
    let string = state.register_style(b"string", Some(rgba(0.0, 1.0, 0.0, 1.0)), None, 0);

    assert_eq!(keyword, 1);
    assert_eq!(string, 2);
    assert_eq!(state.style_count(), 2);
}

#[test]
fn register_style_reuses_existing_id_for_same_name() {
    let mut state = SyntaxStyleState::default();

    let first = state.register_style(b"keyword", Some(rgba(1.0, 0.0, 0.0, 1.0)), None, 1);
    let second = state.register_style(b"keyword", Some(rgba(0.0, 1.0, 0.0, 1.0)), None, 2);

    assert_eq!(first, second);
    assert_eq!(state.style_count(), 1);
}

#[test]
fn resolve_by_name_is_byte_exact() {
    let mut state = SyntaxStyleState::default();
    let style_id = state.register_style("关键字".as_bytes(), None, None, 0);

    assert_eq!(state.resolve_by_name("关键字".as_bytes()), Some(style_id));
    assert_eq!(state.resolve_by_name("关键".as_bytes()), None);
    assert_eq!(state.resolve_by_name("Keyword".as_bytes()), None);
}

#[test]
fn resolve_by_id_and_definition() {
    let mut state = SyntaxStyleState::default();
    let a = state.register_style(b"a", Some(rgba(0.0, 0.5, 1.0, 1.0)), None, 3);
    let b = state.register_style(b"b", None, Some(rgba(1.0, 1.0, 1.0, 1.0)), 0);
    assert_eq!(state.resolve_by_id(a).unwrap().attributes, 3);
    assert!(state.resolve_by_id(99).is_none());
    assert_eq!(state.resolve_by_definition(Some(rgba(-0.0, 0.5, 1.0, 1.0)), None, 3), Some(a));
    assert_eq!(state.resolve_by_definition(None, Some(rgba(1.0, 1.0, 1.0, 1.0)), 0), Some(b));
    assert_eq!(state.resolve_by_definition(None, None, 0), None);
    let nan = state.register_style(b"nan", Some(rgba(f32::NAN, 0.0, 0.0, 1.0)), None, 0);
    assert_eq!(state.resolve_by_id(nan).unwrap().attributes, 0);
    assert_eq!(state.resolve_by_definition(Some(rgba(f32::NAN, 0.0, 0.0, 1.0)), None, 0), None);
}
