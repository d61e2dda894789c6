use opentui_core::abi::parse_symbol_count;

#[test]
fn symbol_count_parses_decimal() {
    assert_eq!(parse_symbol_count(b"0"), 0);
    assert_eq!(parse_symbol_count(b"172"), 172);
    assert_eq!(parse_symbol_count(b"4294967295"), u32::MAX);
    assert_eq!(parse_symbol_count(b""), 0);
}
