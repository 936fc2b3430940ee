use tt_qb_lights::rgb::openrgb::{
    client_name_payload, controller_data_request, decode_header, encode_device_packet, encode_packet,
    estimate_led_count, parse_controller_count, parse_controller_data, OpenRgbClient, OpenRgbError, PacketId,
};

/// A controller-data reply naming `name`, followed by an 80-LED count.
fn data_reply(name: &str) -> Vec<u8> {
    let mut d = vec![0u8, 0, 0, 0];
    d.extend_from_slice(&(name.len() as u32).to_le_bytes());
    d.extend_from_slice(name.as_bytes());
    d.extend_from_slice(&[80, 0, 0, 0, 0, 0, 0, 0]);
    d
}
use tt_qb_lights::rgb::RgbColor;

fn header(p: &[u8]) -> [u8; 16] {
    let mut h = [0u8; 16];
    h.copy_from_slice(&p[..16]);
    h
}

#[test]
fn packet_layout() {
    let p = encode_packet(PacketId::SetClientName, &[1, 2, 3]);
    assert_eq!(&p[0..4], b"ORGB");
    assert_eq!(&p[4..8], &[0xFF, 0xFF, 0xFF, 0xFF]);
    assert_eq!(&p[8..12], &50u32.to_le_bytes());
    assert_eq!(&p[12..16], &3u32.to_le_bytes());
    assert_eq!(&p[16..], &[1, 2, 3]);
    assert_eq!(PacketId::RgbControllerUpdateMode.code(), 1100);
    assert_eq!(PacketId::RgbControllerUpdateLeds.code(), 1050);
}

#[test]
fn header_round_trip() {
    let data = vec![7u8; 300];
    let p = encode_packet(PacketId::RequestControllerData, &data);
    assert_eq!(decode_header(&header(&p)), Ok(300));
    let mut bad = header(&p);
    bad[0] = b'X';
    assert_eq!(decode_header(&bad), Err(OpenRgbError::InvalidMagic));
}

#[test]
fn client_name() {
    let d = client_name_payload("tt-qb-lights");
    assert_eq!(&d[0..4], &12u32.to_le_bytes());
    assert_eq!(&d[4..], b"tt-qb-lights");
}

#[test]
fn controller_count() {
    assert_eq!(parse_controller_count(&[2, 0, 0, 0]), Ok(2));
    assert_eq!(parse_controller_count(&[0, 0, 0, 0]), Err(OpenRgbError::NoControllers));
    assert_eq!(parse_controller_count(&[1, 0]), Err(OpenRgbError::InvalidControllerCount));
}

#[test]
fn led_count_estimate() {
    assert_eq!(estimate_led_count(&[0, 0, 0, 0, 0, 0, 0, 0], 0), 240);
    // 80 (0x50) little-endian at position 2, before the last four bytes
    assert_eq!(estimate_led_count(&[1, 2, 80, 0, 0, 0, 9, 9, 9, 9], 0), 80);
    // a value only in the last window is not looked at
    assert_eq!(estimate_led_count(&[0, 0, 0, 0, 100, 0, 0, 0], 0), 240);
    assert_eq!(estimate_led_count(&[], 0), 240);
}

#[test]
fn controller_data() {
    let mut data = vec![0u8, 0, 0, 0];
    data.extend_from_slice(&5u32.to_le_bytes());
    data.extend_from_slice(b"ASRck");
    data.extend_from_slice(&[0, 0, 0, 0, 0]);
    assert_eq!(parse_controller_data(&data), Some(("ASRck".to_string(), 107)));
    assert_eq!(parse_controller_data(&[0, 0, 0, 0, 9, 0, 0, 0, 1]), None);
    assert_eq!(parse_controller_data(&[1, 2, 3]), None);
    let mut bad = vec![0u8, 0, 0, 0, 2, 0, 0, 0, 0xFF, 0x41];
    bad.extend_from_slice(&[0, 0, 0, 0]);
    assert_eq!(parse_controller_data(&bad), Some(("\u{FFFD}A".to_string(), 65)));
}

#[test]
fn client_selects_the_named_controller() {
    let mut c = OpenRgbClient::new("dev");
    assert_eq!(c.device_name(), "dev");
    assert_eq!(c.set_all_packet(RgbColor::new(1, 2, 3)), Err(OpenRgbError::NotInitialized));
    assert_eq!(c.direct_mode_packet(), Err(OpenRgbError::NotInitialized));
    assert_eq!(parse_data_count("dev"), 80);
    let replies = vec![data_reply("other"), data_reply("xdevx")];
    assert_eq!(c.select_named_controller(&replies), Err(OpenRgbError::DeviceNotFound));
    assert_eq!(c.device_id(), None);
    assert_eq!(c.select_named_controller(&vec![]), Err(OpenRgbError::DeviceNotFound));
    let replies = vec![data_reply("other"), vec![1, 2], data_reply("dev"), data_reply("dev")];
    assert_eq!(c.select_named_controller(&replies), Ok(2));
    assert_eq!(c.device_id(), Some(2));
    assert_eq!(c.led_count(), 80);
}

fn parse_data_count(name: &str) -> usize {
    parse_controller_data(&data_reply(name)).unwrap().1
}

#[test]
fn controller_data_requests() {
    let p = controller_data_request(3);
    assert_eq!(&p[0..4], b"ORGB");
    assert_eq!(&p[4..8], &3u32.to_le_bytes());
    assert_eq!(&p[8..12], &1u32.to_le_bytes());
    assert_eq!(&p[12..16], &4u32.to_le_bytes());
    assert_eq!(&p[16..], &3u32.to_le_bytes());
    let q = encode_device_packet(7, PacketId::RgbControllerUpdateMode, &[9]);
    assert_eq!(&q[4..8], &7u32.to_le_bytes());
    assert_eq!(&q[8..12], &1100u32.to_le_bytes());
}

#[test]
fn led_packets() {
    let mut c = OpenRgbClient::new("dev");
    c.select_named_controller(&vec![data_reply("dev")]).unwrap();
    let p = c.set_all_packet(RgbColor::new(9, 8, 7)).unwrap();
    assert_eq!(p.len(), 16 + 8 + 80 * 4);
    assert_eq!(&p[8..12], &1050u32.to_le_bytes());
    assert_eq!(&p[16..20], &0u32.to_le_bytes());
    assert_eq!(&p[20..24], &80u32.to_le_bytes());
    assert_eq!(&p[24..28], &[9, 8, 7, 0]);
    assert_eq!(&p[p.len() - 4..], &[9, 8, 7, 0]);

    let colors: Vec<RgbColor> = (0..80).map(|i| RgbColor::new(i as u8, 0, 1)).collect();
    let q = c.set_leds_packet(&colors).unwrap();
    assert_eq!(&q[24 + 4 * 5..24 + 4 * 6], &[5, 0, 1, 0]);
    assert_eq!(c.set_leds_packet(&colors[..10]), Err(OpenRgbError::LedCountMismatch));

    let m = c.direct_mode_packet().unwrap();
    assert_eq!(&m[8..12], &1100u32.to_le_bytes());
    assert_eq!(&m[16..], &[0, 0, 0, 0, 6, 0, 0, 0]);
}
