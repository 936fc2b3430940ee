use tt_qb_lights::monitoring::sensors::MonitorError;
use tt_qb_lights::monitoring::tenstorrent::{
    architecture_for_board, determine_architecture, is_gddr_temp_key, is_known_board_type, parse_hex_or,
    parse_hex_u32, HexValueError, TtSmiMonitor,
};

#[test]
fn test_parse_hex_temp() {
    assert_eq!(parse_hex_u32("0x2D").unwrap() as f32, 45.0);
    assert_eq!(parse_hex_u32("0x3C").unwrap() as f32, 60.0);
    assert_eq!(parse_hex_u32("2D").unwrap() as f32, 45.0);
}

#[test]
fn test_determine_architecture() {
    assert_eq!(determine_architecture("p300c"), "blackhole");
    assert_eq!(determine_architecture("P150"), "blackhole");
    assert_eq!(determine_architecture("n300"), "wormhole_b0");
    assert_eq!(determine_architecture("e150"), "grayskull");
}

#[test]
fn unknown_board_is_taken_for_blackhole() {
    assert_eq!(determine_architecture("x9000"), "blackhole");
    assert!(!is_known_board_type("x9000"));
    assert!(is_known_board_type("e75"));
    assert_eq!(architecture_for_board("n150"), "wormhole_b0");
    assert_eq!(architecture_for_board("N150"), "blackhole");
}

#[test]
fn hex_fields_with_whitespace_and_prefixes() {
    assert_eq!(parse_hex_u32("  0x96\n"), Ok(150));
    assert_eq!(parse_hex_u32("0x12C"), Ok(300));
    assert_eq!(parse_hex_u32("0x0x1f"), Ok(31));
    assert_eq!(parse_hex_u32("+ff"), Ok(255));
    assert_eq!(parse_hex_u32("0xFFFFFFFF"), Ok(u32::MAX));
    assert_eq!(parse_hex_u32("00000000000000000001"), Ok(1));
}

#[test]
fn hex_field_errors() {
    assert_eq!(parse_hex_u32(""), Err(HexValueError::Empty));
    assert_eq!(parse_hex_u32("  0x "), Err(HexValueError::Empty));
    assert_eq!(parse_hex_u32("+"), Err(HexValueError::InvalidDigit));
    assert_eq!(parse_hex_u32("-1"), Err(HexValueError::InvalidDigit));
    assert_eq!(parse_hex_u32("0x2G"), Err(HexValueError::InvalidDigit));
    assert_eq!(parse_hex_u32("0x100000000"), Err(HexValueError::Overflow));
    assert_eq!(parse_hex_u32("0x1000000000G"), Err(HexValueError::Overflow));
    assert_eq!(parse_hex_u32("0x10000000G0"), Err(HexValueError::InvalidDigit));
}

#[test]
fn hex_field_with_default() {
    assert_eq!(parse_hex_or("0x12C", 300), 300);
    assert_eq!(parse_hex_or("0x64", 300), 100);
    assert_eq!(parse_hex_or("N/A", 300), 300);
}

#[test]
fn gddr_keys() {
    assert!(is_gddr_temp_key("GDDR01_TEMP"));
    assert!(is_gddr_temp_key("GDDR_TEMP"));
    assert!(!is_gddr_temp_key("ASIC_TEMPERATURE"));
    assert!(!is_gddr_temp_key("GDDR01_SPEED"));
}

#[test]
fn tt_smi_monitor_needs_the_tool() {
    assert!(matches!(TtSmiMonitor::new(false), Err(MonitorError::ToolUnavailable)));
    let m = TtSmiMonitor::new(true).unwrap();
    assert_eq!(m.source_name(), "tt-smi");
}
