use tt_qb_lights::rgb::openrgb_cli::{parse_active_mode, static_color_args, OpenRgbCliController};
use tt_qb_lights::rgb::RgbColor;

#[test]
fn active_mode_plain_and_quoted() {
    let listing = "0: ASRock B850M-C\n  Type: Motherboard\n  Modes: [Off] Static Breathing\n";
    assert_eq!(parse_active_mode(listing), Some("Off".to_string()));
    let listing = "0: Dev\r\n  Modes: ['Spectrum Cycle'] Static\r\n";
    assert_eq!(parse_active_mode(listing), Some("Spectrum Cycle".to_string()));
}

#[test]
fn active_mode_absent() {
    assert_eq!(parse_active_mode(""), None);
    assert_eq!(parse_active_mode("  Zones: [x]\n"), None);
    assert_eq!(parse_active_mode("  Modes: [] Static\n"), None);
    assert_eq!(parse_active_mode("  Modes: ]x[ Static\n"), None);
}

#[test]
fn active_mode_first_line_that_shows_one() {
    let listing = "Modes: []\nModes: ['']\n\u{a0}Modes: [Rainbow]\nModes: [Off]";
    // "''" is kept: quotes are only removed around something
    assert_eq!(parse_active_mode(listing), Some("''".to_string()));
    assert_eq!(parse_active_mode("\u{a0}Modes: [Rainbow]\nModes: [Off]"), Some("Rainbow".to_string()));
}

#[test]
fn cli_arguments() {
    let c = OpenRgbCliController::new("ASRock", Some("Rainbow Wave".to_string()));
    assert_eq!(c.device_id(), 0);
    assert_eq!(c.led_count(), 240);
    assert_eq!(c.device_name(), "ASRock");
    assert_eq!(c.original_mode(), Some("Rainbow Wave"));
    assert_eq!(c.takeover_args(), vec!["--device", "0", "--mode", "static", "--color", "00CED1"]);
    assert_eq!(
        c.set_all_args(RgbColor::new(0xC2, 0x3B, 0x3B)),
        vec!["--device", "0", "--mode", "static", "--color", "C23B3B"]
    );
    assert_eq!(c.restore_args(), vec!["--device", "0", "--mode", "Rainbow Wave"]);
    let off = OpenRgbCliController::new("ASRock", None);
    assert_eq!(off.restore_args(), vec!["--device", "0", "--mode", "off"]);
    assert_eq!(static_color_args(12, "ABCDEF".to_string()), vec!["--device", "12", "--mode", "static", "--color", "ABCDEF"]);
}

#[test]
fn per_led_update_uses_first_colour() {
    let c = OpenRgbCliController::new("d", None);
    assert_eq!(c.set_leds_color(&[]), None);
    assert_eq!(c.set_leds_color(&[RgbColor::new(1, 2, 3), RgbColor::new(4, 5, 6)]), Some(RgbColor::new(1, 2, 3)));
}
