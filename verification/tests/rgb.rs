use tt_qb_lights::rgb::{HexColorError, RgbColor};

#[test]
fn test_rgb_from_hex() {
    let color = RgbColor::from_hex("#FF0000").unwrap();
    assert_eq!(color.r, 255);
    assert_eq!(color.g, 0);
    assert_eq!(color.b, 0);

    let color = RgbColor::from_hex("00FF00").unwrap();
    assert_eq!(color.r, 0);
    assert_eq!(color.g, 255);
    assert_eq!(color.b, 0);
}

#[test]
fn rgb_new_keeps_channels() {
    let c = RgbColor::new(1, 2, 3);
    assert_eq!((c.r, c.g, c.b), (1, 2, 3));
}

#[test]
fn from_hex_lower_case_and_many_hashes() {
    assert_eq!(RgbColor::from_hex("##4db8a5"), Ok(RgbColor::new(0x4d, 0xb8, 0xa5)));
}

#[test]
fn from_hex_fields_are_two_digits() {
    // A sign is not a hex digit.
    assert_eq!(RgbColor::from_hex("#+F0000"), Err(HexColorError::InvalidDigit));
    assert_eq!(RgbColor::from_hex("#00+100"), Err(HexColorError::InvalidDigit));
}

#[test]
fn from_hex_wrong_length() {
    assert_eq!(RgbColor::from_hex("#FFF"), Err(HexColorError::WrongLength));
    assert_eq!(RgbColor::from_hex("#FF00000"), Err(HexColorError::WrongLength));
    assert_eq!(RgbColor::from_hex(""), Err(HexColorError::WrongLength));
}

#[test]
fn from_hex_invalid_digit() {
    assert_eq!(RgbColor::from_hex("#GG0000"), Err(HexColorError::InvalidDigit));
    assert_eq!(RgbColor::from_hex("#00-100"), Err(HexColorError::InvalidDigit));
}

#[test]
fn hex_code_formats_upper_case() {
    assert_eq!(RgbColor::new(0x00, 0xCE, 0xD1).hex_code(), "00CED1");
    assert_eq!(RgbColor::new(255, 10, 160).hex_code(), "FF0AA0");
}

#[test]
fn hex_code_round_trips() {
    for (r, g, b) in [(0u8, 0u8, 0u8), (255, 255, 255), (77, 184, 165), (194, 59, 59), (9, 160, 31)] {
        let c = RgbColor::new(r, g, b);
        assert_eq!(RgbColor::from_hex(&c.hex_code()), Ok(c));
        assert_eq!(RgbColor::from_hex(&format!("#{:02X}{:02X}{:02X}", r, g, b)), Ok(c));
        assert_eq!(RgbColor::from_hex(&format!("##{:02x}{:02x}{:02x}", r, g, b)), Ok(c));
    }
}
