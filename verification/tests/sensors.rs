use tt_qb_lights::monitoring::sensors::{
    board_type_for_architecture, discover_sensor_indices, is_unknown_bus_id, parse_tenstorrent_device_name,
    parse_tenstorrent_device_name_checked, pci_bus_id_from_link, require_readings, resolve_bus_id,
    sensor_input_file, sensor_label_file, tdp_watts_for_architecture, HwmonDevice, MonitorError, SensorsMonitor,
};

#[test]
fn test_parse_device_name() {
    let (arch, bus_id) = parse_tenstorrent_device_name("blackhole-pci-0100").unwrap();
    assert_eq!(arch, "blackhole");
    assert_eq!(bus_id, "0000:01:00.0");

    let (arch, bus_id) = parse_tenstorrent_device_name("wormhole-pci-0200").unwrap();
    assert_eq!(arch, "wormhole_b0");
    assert_eq!(bus_id, "0000:02:00.0");

    assert!(parse_tenstorrent_device_name("coretemp-isa-0000").is_none());
}

#[test]
fn device_name_without_bus_is_unknown() {
    let (arch, bus_id) = parse_tenstorrent_device_name("blackhole").unwrap();
    assert_eq!(arch, "blackhole");
    assert_eq!(bus_id, "unknown");
}

#[test]
fn device_name_is_matched_ignoring_case() {
    let (arch, bus_id) = parse_tenstorrent_device_name("GraySkull-pci-0a00").unwrap();
    assert_eq!(arch, "grayskull");
    assert_eq!(bus_id, "0000:0a:00.0");
}

#[test]
fn device_name_short_bus_id_of_other_length_is_kept() {
    let (_, bus_id) = parse_tenstorrent_device_name("blackhole-pci-12345").unwrap();
    assert_eq!(bus_id, "12345");
}

#[test]
fn checked_parse_refuses_a_cut_inside_a_character() {
    // Four-byte short ids whose middle falls inside a character.
    assert_eq!(parse_tenstorrent_device_name_checked("blackhole-pci-a\u{20ac}"), None);
    assert_eq!(parse_tenstorrent_device_name_checked("blackhole-pci-a\u{e9}b"), None);
    // A middle on a character boundary is fine.
    assert_eq!(
        parse_tenstorrent_device_name_checked("blackhole-pci-\u{e9}\u{e9}"),
        Some(Some(("blackhole".to_string(), "0000:\u{e9}:\u{e9}.0".to_string())))
    );
    // Names of no Tenstorrent architecture are never cut.
    assert_eq!(parse_tenstorrent_device_name_checked("coretemp-pci-a\u{20ac}"), Some(None));
    assert_eq!(
        parse_tenstorrent_device_name_checked("blackhole-pci-0100"),
        Some(Some(("blackhole".to_string(), "0000:01:00.0".to_string())))
    );
}

#[test]
fn pci_bus_id_is_the_deepest_address() {
    let link = "../../devices/pci0000:00/0000:00:01.1/0000:01:00.0/hwmon/hwmon1";
    assert_eq!(pci_bus_id_from_link(link), Some("0000:01:00.0".to_string()));
    assert_eq!(pci_bus_id_from_link("../../devices/virtual/hwmon/hwmon3"), None);
}

#[test]
fn bus_id_resolution() {
    assert!(is_unknown_bus_id("unknown"));
    assert!(!is_unknown_bus_id("0000:01:00.0"));
    assert_eq!(resolve_bus_id("0000:01:00.0".to_string(), None, 3), "0000:01:00.0");
    assert_eq!(resolve_bus_id("unknown".to_string(), Some("0000:02:00.0".to_string()), 3), "0000:02:00.0");
    assert_eq!(resolve_bus_id("unknown".to_string(), None, 12), "unknown-12");
}

#[test]
fn sensor_file_names() {
    assert_eq!(sensor_input_file("temp", 1), "temp1_input");
    assert_eq!(sensor_input_file("power", 32), "power32_input");
    assert_eq!(sensor_label_file("temp", 7), "temp7_label");
}

#[test]
fn sensor_indices_from_present_files() {
    let present: Vec<String> = ["name", "temp1_input", "temp3_input", "temp3_label", "power1_input", "temp33_input"]
        .iter()
        .map(|s| s.to_string())
        .collect();
    assert_eq!(discover_sensor_indices("temp", &present), vec![1, 3]);
    assert_eq!(discover_sensor_indices("power", &present), vec![1]);
    assert_eq!(discover_sensor_indices("fan", &present), Vec::<usize>::new());
}

#[test]
fn board_and_tdp_by_architecture() {
    assert_eq!(board_type_for_architecture("blackhole"), "p300c");
    assert_eq!(board_type_for_architecture("wormhole_b0"), "n300");
    assert_eq!(board_type_for_architecture("grayskull"), "e150");
    assert_eq!(board_type_for_architecture("other"), "unknown");
    assert_eq!(tdp_watts_for_architecture("blackhole"), 300);
    assert_eq!(tdp_watts_for_architecture("wormhole_b0"), 250);
    assert_eq!(tdp_watts_for_architecture("grayskull"), 200);
    assert_eq!(tdp_watts_for_architecture("other"), 300);
}

#[test]
fn sensors_monitor_needs_a_device() {
    assert!(matches!(SensorsMonitor::new(vec![]), Err(MonitorError::NoDevices)));
    let dev = HwmonDevice {
        path: "/sys/class/hwmon/hwmon2".to_string(),
        name: "blackhole-pci-0100".to_string(),
        bus_id: "0000:01:00.0".to_string(),
        architecture: "blackhole".to_string(),
        temp_indices: vec![1, 2],
        power_indices: vec![1],
    };
    let m = SensorsMonitor::new(vec![dev]).unwrap();
    assert_eq!(m.devices().len(), 1);
    assert_eq!(m.source_name(), "lm-sensors");
}

#[test]
fn readings_must_not_be_empty() {
    assert_eq!(require_readings(Vec::<u8>::new()), Err(MonitorError::NoReadings));
    assert_eq!(require_readings(vec![1u8, 2]), Ok(vec![1u8, 2]));
}
