use tt_qb_lights::config::{
    default_log_level, find_active_scheme, is_hex_color_format, LoggingConfig, MonitoringSource, SchemeError,
    ZoneStrategy,
};

#[test]
fn logging_defaults() {
    assert_eq!(default_log_level(), "info");
    let l = LoggingConfig::default();
    assert_eq!(l.level, "info");
    assert!(l.log_file.is_none());
}

#[test]
fn hex_color_format_rule() {
    assert!(is_hex_color_format("#FF0000"));
    assert!(!is_hex_color_format("FF0000"));
    assert!(!is_hex_color_format("#FF000"));
    assert!(!is_hex_color_format("#FF00000"));
    assert!(is_hex_color_format("#\u{e9}\u{e9}\u{e9}"));
}

#[test]
fn enums_compare() {
    assert_eq!(MonitoringSource::LmSensors, MonitoringSource::LmSensors);
    assert_ne!(ZoneStrategy::Unified, ZoneStrategy::Gradient);
}

#[test]
fn active_scheme_lookup() {
    let schemes: Vec<(String, Vec<u8>)> = vec![
        ("empty".to_string(), vec![]),
        ("quietbox_sunset".to_string(), vec![1, 2, 3]),
    ];
    assert_eq!(find_active_scheme(&schemes, "quietbox_sunset"), Ok(1));
    assert_eq!(find_active_scheme(&schemes, "empty"), Err(SchemeError::Empty));
    assert_eq!(find_active_scheme(&schemes, "tt_dark"), Err(SchemeError::NotFound));
}
