//! The OpenRGB SDK wire format (protocol version 3) and the client's device
//! state.
//!
//! A packet is the magic `ORGB`, a device id (`0xFFFFFFFF` for server
//! commands), a packet id and the payload length, each a little-endian
//! `u32`, followed by the payload. This module builds the packets the client
//! sends and reads the replies it gets; the socket itself is the caller's.

use crate::rgb::RgbColor;
use crate::text::{lossy_utf8, utf8_lossy_chars};
use vstd::prelude::*;
use vstd::string::StringSliceAdditionalSpecFns;

verus! {

/// Protocol version this client speaks.
pub const OPENRGB_PROTOCOL_VERSION: u32 = 3;

/// Mode index of the "Direct" mode on the target controller.
pub const DIRECT_MODE_ID: u32 = 6;

/// LED count assumed for the first controller (three headers of 80).
pub const DEFAULT_LED_COUNT: usize = 240;

/// OpenRGB packet ids used by this client.
#[derive(Debug, Clone, Copy, PartialEq, Eq, Structural)]
pub enum PacketId {
    RequestControllerCount,
    RequestControllerData,
    SetClientName,
    RgbControllerUpdateLeds,
    RgbControllerUpdateZoneLeds,
    RgbControllerUpdateSingleLed,
    RgbControllerUpdateMode,
}

/// The numeric id of a packet on the wire.
pub open spec fn packet_code(id: PacketId) -> u32 {
    match id {
        PacketId::RequestControllerCount => 0,
        PacketId::RequestControllerData => 1,
        PacketId::SetClientName => 50,
        PacketId::RgbControllerUpdateLeds => 1050,
        PacketId::RgbControllerUpdateZoneLeds => 1051,
        PacketId::RgbControllerUpdateSingleLed => 1052,
        PacketId::RgbControllerUpdateMode => 1100,
    }
}

impl PacketId {
    pub fn code(&self) -> (res: u32)
        ensures
            res == packet_code(*self),
    {
        match self {
            PacketId::RequestControllerCount => 0,
            PacketId::RequestControllerData => 1,
            PacketId::SetClientName => 50,
            PacketId::RgbControllerUpdateLeds => 1050,
            PacketId::RgbControllerUpdateZoneLeds => 1051,
            PacketId::RgbControllerUpdateSingleLed => 1052,
            PacketId::RgbControllerUpdateMode => 1100,
        }
    }
}

/// Why an OpenRGB exchange could not go on.
#[derive(Debug, Clone, Copy, PartialEq, Eq, Structural)]
pub enum OpenRgbError {
    /// A reply header did not start with `ORGB`.
    InvalidMagic,
    /// The controller-count reply was shorter than four bytes.
    InvalidControllerCount,
    /// The server reported no RGB controllers.
    NoControllers,
    /// No controller has the configured device name.
    DeviceNotFound,
    /// No device has been selected yet, or it has no LEDs.
    NotInitialized,
    /// A colour list does not have one colour per LED.
    LedCountMismatch,
}

/// The four little-endian bytes of `v`.
pub open spec fn le_bytes(v: u32) -> Seq<u8> {
    seq![
        (v % 256) as u8,
        ((v / 256) % 256) as u8,
        ((v / 65536) % 256) as u8,
        ((v / 16777216) % 256) as u8,
    ]
}

/// The little-endian `u32` in the four bytes from `at`.
pub open spec fn le_value(b: Seq<u8>, at: int) -> u32 {
    (b[at] + 256 * b[at + 1] + 65536 * b[at + 2] + 16777216 * b[at + 3]) as u32
}

/// The magic bytes `ORGB`.
pub open spec fn magic() -> Seq<u8> {
    seq![0x4fu8, 0x52u8, 0x47u8, 0x42u8]
}

/// A complete packet for the server with the given id and payload.
pub open spec fn spec_packet(id: PacketId, data: Seq<u8>) -> Seq<u8> {
    spec_device_packet(0xFFFF_FFFF, id, data)
}

/// A complete packet addressed to controller `device_id`.
pub open spec fn spec_device_packet(device_id: u32, id: PacketId, data: Seq<u8>) -> Seq<u8> {
    magic() + le_bytes(device_id) + le_bytes(packet_code(id)) + le_bytes(data.len() as u32) + data
}

/// The payload length that a 16-byte reply header announces.
pub open spec fn spec_header_len(header: Seq<u8>) -> Result<usize, OpenRgbError> {
    if header.subrange(0, 4) == magic() {
        Ok(le_value(header, 12) as usize)
    } else {
        Err(OpenRgbError::InvalidMagic)
    }
}

/// The LED colour block: red, green, blue and a padding zero per colour.
pub open spec fn led_bytes(colors: Seq<RgbColor>) -> Seq<u8>
    decreases colors.len(),
{
    if colors.len() == 0 {
        Seq::empty()
    } else {
        let c = colors.last();
        led_bytes(colors.drop_last()) + seq![c.r, c.g, c.b, 0u8]
    }
}

/// The same colour `n` times.
pub open spec fn repeat_color(c: RgbColor, n: nat) -> Seq<RgbColor> {
    Seq::new(n, |_i: int| c)
}

/// The payload of an LED update: device id, LED count, colour block.
pub open spec fn spec_update_leds_payload(device_id: u32, led_count: usize, colors: Seq<RgbColor>) -> Seq<u8> {
    le_bytes(device_id) + le_bytes(led_count as u32) + led_bytes(colors)
}

/// Reading back the little-endian bytes of a value gives the value.
pub proof fn lemma_le_round_trip(v: u32)
    ensures
        le_value(le_bytes(v), 0) == v,
{
    let b = le_bytes(v);
    assert(b[0] + 256 * b[1] + 65536 * b[2] + 16777216 * b[3] == v);
}

fn le_u32(v: u32) -> (res: [u8; 4])
    ensures
        res@ == le_bytes(v),
{
    let res = [(v % 256) as u8, ((v / 256) % 256) as u8, ((v / 65536) % 256) as u8, ((v / 16777216) % 256) as u8];
    assert(res@ =~= le_bytes(v));
    res
}

fn read_le_u32(b: &[u8], at: usize) -> (res: u32)
    requires
        at + 4 <= b@.len(),
    ensures
        res == le_value(b@, at as int),
{
    b[at] as u32 + 256 * (b[at + 1] as u32) + 65536 * (b[at + 2] as u32) + 16777216 * (b[at + 3] as u32)
}

fn append_bytes(out: &mut Vec<u8>, data: &[u8])
    ensures
        final(out)@ == old(out)@ + data@,
{
    let ghost start = out@;
    let mut i: usize = 0;
    while i < data.len()
        invariant
            i <= data@.len(),
            out@ == start + data@.subrange(0, i as int),
        decreases data@.len() - i,
    {
        out.push(data[i]);
        i = i + 1;
        assert(out@ =~= start + data@.subrange(0, i as int));
    }
    assert(data@.subrange(0, i as int) =~= data@);
}

fn append_le(out: &mut Vec<u8>, v: u32)
    ensures
        final(out)@ == old(out)@ + le_bytes(v),
{
    let b = le_u32(v);
    append_bytes(out, &b);
}

/// Builds the packet that carries `data` to the server under `packet_id`.
pub fn encode_packet(packet_id: PacketId, data: &[u8]) -> (res: Vec<u8>)
    ensures
        res@ == spec_packet(packet_id, data@),
{
    encode_device_packet(0xFFFF_FFFF, packet_id, data)
}

/// Builds the packet that carries `data` to controller `device_id`.
pub fn encode_device_packet(device_id: u32, packet_id: PacketId, data: &[u8]) -> (res: Vec<u8>)
    ensures
        res@ == spec_device_packet(device_id, packet_id, data@),
{
    let mut packet: Vec<u8> = Vec::new();
    packet.push(0x4f);
    packet.push(0x52);
    packet.push(0x47);
    packet.push(0x42);
    assert(packet@ =~= magic());
    append_le(&mut packet, device_id);
    append_le(&mut packet, packet_id.code());
    append_le(&mut packet, data.len() as u32);
    append_bytes(&mut packet, data);
    packet
}

/// The request for the data of controller `index`; its payload is the
/// protocol version the client speaks.
pub fn controller_data_request(index: u32) -> (res: Vec<u8>)
    ensures
        res@ == spec_device_packet(index, PacketId::RequestControllerData, le_bytes(OPENRGB_PROTOCOL_VERSION)),
{
    let version = le_u32(OPENRGB_PROTOCOL_VERSION);
    encode_device_packet(index, PacketId::RequestControllerData, &version)
}

/// The packet ids are the OpenRGB SDK ids, one per packet kind: request
/// controller count 0, request controller data 1, set client name 50,
/// update LEDs 1050, update zone LEDs 1051, update single LED 1052, update
/// mode 1100.
pub proof fn lemma_packet_codes_are_sdk_ids()
    ensures
        packet_code(PacketId::RequestControllerCount) == 0,
        packet_code(PacketId::RequestControllerData) == 1,
        packet_code(PacketId::SetClientName) == 50,
        packet_code(PacketId::RgbControllerUpdateLeds) == 1050,
        packet_code(PacketId::RgbControllerUpdateZoneLeds) == 1051,
        packet_code(PacketId::RgbControllerUpdateSingleLed) == 1052,
        packet_code(PacketId::RgbControllerUpdateMode) == 1100,
        forall|a: PacketId, b: PacketId| packet_code(a) == packet_code(b) ==> a == b,
        spec_packet(PacketId::RequestControllerCount, Seq::<u8>::empty()) == seq![
            0x4fu8, 0x52u8, 0x47u8, 0x42u8,
            0xffu8, 0xffu8, 0xffu8, 0xffu8,
            0u8, 0u8, 0u8, 0u8,
            0u8, 0u8, 0u8, 0u8,
        ],
{
    assert(spec_packet(PacketId::RequestControllerCount, Seq::<u8>::empty()) =~= seq![
        0x4fu8, 0x52u8, 0x47u8, 0x42u8,
        0xffu8, 0xffu8, 0xffu8, 0xffu8,
        0u8, 0u8, 0u8, 0u8,
        0u8, 0u8, 0u8, 0u8,
    ]);
}

/// The Direct-mode request for controller `id`: an update-mode packet
/// (id 1100) for the server, whose eight payload bytes are the controller id
/// and mode 6, both little-endian.
pub proof fn lemma_direct_mode_request(id: u32)
    ensures
        spec_packet(PacketId::RgbControllerUpdateMode, le_bytes(id) + le_bytes(DIRECT_MODE_ID)) == seq![
            0x4fu8, 0x52u8, 0x47u8, 0x42u8,
            0xffu8, 0xffu8, 0xffu8, 0xffu8,
            0x4cu8, 0x04u8, 0u8, 0u8,
            8u8, 0u8, 0u8, 0u8,
        ] + le_bytes(id) + seq![6u8, 0u8, 0u8, 0u8],
{
    let data = le_bytes(id) + le_bytes(DIRECT_MODE_ID);
    assert(le_bytes(DIRECT_MODE_ID) =~= seq![6u8, 0u8, 0u8, 0u8]);
    assert(data.len() == 8);
    assert(le_bytes(data.len() as u32) =~= seq![8u8, 0u8, 0u8, 0u8]);
    assert(le_bytes(0xFFFF_FFFF) =~= seq![0xffu8, 0xffu8, 0xffu8, 0xffu8]);
    assert(le_bytes(1100) =~= seq![0x4cu8, 0x04u8, 0u8, 0u8]);
    assert(spec_packet(PacketId::RgbControllerUpdateMode, data) =~= seq![
        0x4fu8, 0x52u8, 0x47u8, 0x42u8,
        0xffu8, 0xffu8, 0xffu8, 0xffu8,
        0x4cu8, 0x04u8, 0u8, 0u8,
        8u8, 0u8, 0u8, 0u8,
    ] + le_bytes(id) + seq![6u8, 0u8, 0u8, 0u8]);
}

/// Little-endian order: the first byte carries the lowest eight bits, each
/// next byte the next eight, and every byte is below 256.
pub proof fn lemma_le_bytes_weights(v: u32)
    ensures
        le_bytes(v).len() == 4,
        v == le_bytes(v)[0] + 256 * le_bytes(v)[1] + 65536 * le_bytes(v)[2] + 16777216 * le_bytes(v)[3],
        le_bytes(v)[0] == v % 256,
{
}

/// The magic bytes spell `ORGB`.
pub proof fn lemma_magic_is_orgb()
    ensures
        magic() == seq!['O' as u8, 'R' as u8, 'G' as u8, 'B' as u8],
{
    assert(magic() =~= seq!['O' as u8, 'R' as u8, 'G' as u8, 'B' as u8]);
}

/// The colour block holds four bytes per colour, in order: red, green,
/// blue, then a zero.
pub proof fn lemma_led_bytes_layout(colors: Seq<RgbColor>)
    ensures
        led_bytes(colors).len() == 4 * colors.len(),
        forall|i: int|
            0 <= i < colors.len() ==> {
                &&& #[trigger] led_bytes(colors)[4 * i] == colors[i].r
                &&& led_bytes(colors)[4 * i + 1] == colors[i].g
                &&& led_bytes(colors)[4 * i + 2] == colors[i].b
                &&& led_bytes(colors)[4 * i + 3] == 0
            },
    decreases colors.len(),
{
    if colors.len() > 0 {
        let rest = colors.drop_last();
        lemma_led_bytes_layout(rest);
        let b = led_bytes(colors);
        let n = colors.len() - 1;
        assert forall|i: int| 0 <= i < colors.len() implies {
            &&& #[trigger] led_bytes(colors)[4 * i] == colors[i].r
            &&& led_bytes(colors)[4 * i + 1] == colors[i].g
            &&& led_bytes(colors)[4 * i + 2] == colors[i].b
            &&& led_bytes(colors)[4 * i + 3] == 0
        } by {
            if i < n {
                assert(colors[i] == rest[i]);
                assert(led_bytes(rest)[4 * i] == rest[i].r);
            }
        }
    }
}

/// The LED count estimate is the value of the first little-endian word, at
/// a start position before the last four bytes, that lies in 20..=300, and
/// 240 when there is none.
pub proof fn lemma_led_count_is_first_plausible_word(data: Seq<u8>, i: int, end: int)
    requires
        0 <= i,
    ensures
        ({
            let r = led_count_search(data, i, end);
            ||| exists|k: int|
                i <= k < end && 20 <= le_value(data, k) <= 300 && r == le_value(data, k) && forall|j: int|
                    i <= j < k ==> !(20 <= #[trigger] le_value(data, j) <= 300)
            ||| r == 240 && forall|j: int| i <= j < end ==> !(20 <= #[trigger] le_value(data, j) <= 300)
        }),
    decreases end - i,
{
    if i < end && !plausible_led_count(le_value(data, i)) {
        lemma_led_count_is_first_plausible_word(data, i + 1, end);
        let r = led_count_search(data, i + 1, end);
        if exists|k: int|
            i + 1 <= k < end && 20 <= le_value(data, k) <= 300 && r == le_value(data, k) && forall|j: int|
                i + 1 <= j < k ==> !(20 <= #[trigger] le_value(data, j) <= 300) {
            let k = choose|k: int|
                i + 1 <= k < end && 20 <= le_value(data, k) <= 300 && r == le_value(data, k) && forall|j: int|
                    i + 1 <= j < k ==> !(20 <= #[trigger] le_value(data, j) <= 300);
            assert forall|j: int| i <= j < k implies !(20 <= #[trigger] le_value(data, j) <= 300) by {
                if j == i {
                }
            }
        } else {
            assert forall|j: int| i <= j < end implies !(20 <= #[trigger] le_value(data, j) <= 300) by {
                if j == i {
                }
            }
        }
    }
}

/// Reads a reply header: checks the magic and returns the payload length.
pub fn decode_header(header: &[u8; 16]) -> (res: Result<usize, OpenRgbError>)
    ensures
        res == spec_header_len(header@),
{
    let h: &[u8] = header;
    if h[0] == 0x4f && h[1] == 0x52 && h[2] == 0x47 && h[3] == 0x42 {
        assert(header@.subrange(0, 4) =~= magic());
        Ok(read_le_u32(h, 12) as usize)
    } else {
        assert(header@.subrange(0, 4)[0] == header@[0]);
        assert(header@.subrange(0, 4)[1] == header@[1]);
        assert(header@.subrange(0, 4)[2] == header@[2]);
        assert(header@.subrange(0, 4)[3] == header@[3]);
        Err(OpenRgbError::InvalidMagic)
    }
}

/// The header of an encoded packet announces exactly its payload, and the
/// payload follows the header.
pub proof fn lemma_packet_header_round_trip(id: PacketId, data: Seq<u8>)
    requires
        data.len() <= u32::MAX,
    ensures
        spec_packet(id, data).len() == 16 + data.len(),
        spec_header_len(spec_packet(id, data).subrange(0, 16)) == Ok::<usize, OpenRgbError>(data.len() as usize),
        spec_packet(id, data).subrange(16, 16 + data.len() as int) == data,
{
    let p = spec_packet(id, data);
    let h = p.subrange(0, 16);
    assert(h.subrange(0, 4) =~= magic());
    lemma_le_round_trip(data.len() as u32);
    let lb = le_bytes(data.len() as u32);
    assert(h[12] == lb[0] && h[13] == lb[1] && h[14] == lb[2] && h[15] == lb[3]);
    assert(le_value(h, 12) == le_value(lb, 0));
    assert(p.subrange(16, 16 + data.len() as int) =~= data);
}

/// The payload that registers the client's name: its byte length, then the
/// bytes.
pub fn client_name_payload(name: &str) -> (res: Vec<u8>)
    ensures
        res@ == le_bytes(name.spec_bytes().len() as u32) + name.spec_bytes(),
{
    let bytes = name.as_bytes();
    let mut data: Vec<u8> = Vec::new();
    append_le(&mut data, bytes.len() as u32);
    append_bytes(&mut data, bytes);
    data
}

/// The number of controllers in a controller-count reply.
pub open spec fn spec_controller_count(resp: Seq<u8>) -> Result<u32, OpenRgbError> {
    if resp.len() < 4 {
        Err(OpenRgbError::InvalidControllerCount)
    } else if le_value(resp, 0) == 0 {
        Err(OpenRgbError::NoControllers)
    } else {
        Ok(le_value(resp, 0))
    }
}

/// A controller-count reply starts with the count as a little-endian word:
/// a non-zero count is read as it is, a zero count means no controllers,
/// and a reply of fewer than four bytes holds no count.
pub proof fn lemma_controller_count_reply(n: u32, rest: Seq<u8>, short: Seq<u8>)
    requires
        short.len() < 4,
    ensures
        n != 0 ==> spec_controller_count(le_bytes(n) + rest) == Ok::<u32, OpenRgbError>(n),
        n == 0 ==> spec_controller_count(le_bytes(n) + rest) == Err::<u32, OpenRgbError>(OpenRgbError::NoControllers),
        spec_controller_count(short) == Err::<u32, OpenRgbError>(OpenRgbError::InvalidControllerCount),
{
    let lb = le_bytes(n);
    lemma_le_round_trip(n);
    let d = lb + rest;
    assert(d[0] == lb[0] && d[1] == lb[1] && d[2] == lb[2] && d[3] == lb[3]);
    assert(le_value(d, 0) == le_value(lb, 0));
}

/// Reads a controller-count reply: at least four bytes, a non-zero count.
pub fn parse_controller_count(resp: &[u8]) -> (res: Result<u32, OpenRgbError>)
    ensures
        res == spec_controller_count(resp@),
{
    if resp.len() < 4 {
        return Err(OpenRgbError::InvalidControllerCount);
    }
    let count = read_le_u32(resp, 0);
    if count == 0 {
        Err(OpenRgbError::NoControllers)
    } else {
        Ok(count)
    }
}

/// Whether a value is a plausible LED count for a motherboard header.
pub open spec fn plausible_led_count(v: u32) -> bool {
    20 <= v <= 300
}

/// The first plausible LED count among the little-endian words starting at
/// positions `i`, `i + 1`, ... below `end`, or the default count.
pub open spec fn led_count_search(data: Seq<u8>, i: int, end: int) -> usize
    decreases end - i,
{
    if i >= end {
        DEFAULT_LED_COUNT
    } else if plausible_led_count(le_value(data, i)) {
        le_value(data, i) as usize
    } else {
        led_count_search(data, i + 1, end)
    }
}

/// The number of start positions the LED-count scan looks at: every
/// position before the last four bytes.
pub open spec fn led_scan_end(data: Seq<u8>) -> int {
    if data.len() >= 4 { data.len() - 4 } else { 0 }
}

/// The LED count estimate of controller data: the value of the first
/// little-endian word in 20..=300 that starts before the last four bytes,
/// or 240 when there is none (as for data of at most four bytes).
pub proof fn lemma_led_estimate(data: Seq<u8>)
    ensures
        ({
            let r = led_count_search(data, 0, led_scan_end(data));
            let end = if data.len() >= 4 { data.len() - 4 } else { 0 };
            ||| exists|k: int|
                0 <= k < end && 20 <= le_value(data, k) <= 300 && r == le_value(data, k) && forall|j: int|
                    0 <= j < k ==> !(20 <= #[trigger] le_value(data, j) <= 300)
            ||| r == 240 && forall|j: int| 0 <= j < end ==> !(20 <= #[trigger] le_value(data, j) <= 300)
        }),
        data.len() <= 4 ==> led_count_search(data, 0, led_scan_end(data)) == 240,
{
    lemma_led_count_is_first_plausible_word(data, 0, led_scan_end(data));
}

/// Estimates the LED count from controller data: the first little-endian
/// word, at a start position before the last four bytes, that lies in
/// 20..=300; otherwise 240.
pub fn estimate_led_count(data: &[u8], _offset: usize) -> (res: usize)
    ensures
        res == led_count_search(data@, 0, led_scan_end(data@)),
{
    let end: usize = if data.len() >= 4 { data.len() - 4 } else { 0 };
    let mut i: usize = 0;
    while i < end
        invariant
            end == led_scan_end(data@),
            i <= end,
            led_count_search(data@, 0, end as int) == led_count_search(data@, i as int, end as int),
        decreases end - i,
    {
        let val = read_le_u32(data, i);
        if 20 <= val && val <= 300 {
            return val as usize;
        }
        i = i + 1;
    }
    DEFAULT_LED_COUNT
}

/// The name and LED count in a controller-data reply: a length-prefixed
/// name from byte 4, read leniently as UTF-8, and the estimated LED count;
/// `None` when the reply is too short for the name.
pub open spec fn spec_controller_data(data: Seq<u8>) -> Option<(Seq<char>, usize)> {
    if data.len() < 8 {
        None
    } else {
        let name_len = le_value(data, 4) as int;
        if 8 + name_len > data.len() {
            None
        } else {
            Some((
                utf8_lossy_chars(data.subrange(8, 8 + name_len)),
                led_count_search(data, 0, led_scan_end(data)),
            ))
        }
    }
}

/// A controller-data reply holds, from byte 4, the name's length as a
/// little-endian word and then the name: that name is what is read, and a
/// reply shorter than its announced name reads as nothing.
pub proof fn lemma_controller_data_name(head: Seq<u8>, name: Seq<u8>, rest: Seq<u8>)
    requires
        head.len() == 4,
        name.len() <= u32::MAX,
    ensures
        spec_controller_data(head + le_bytes(name.len() as u32) + name + rest) matches Some((n, _)) && n
            == utf8_lossy_chars(name),
        name.len() > 0 ==> spec_controller_data(
            head + le_bytes(name.len() as u32) + name.subrange(0, name.len() - 1),
        ) is None,
{
    let lb = le_bytes(name.len() as u32);
    lemma_le_round_trip(name.len() as u32);
    let d = head + lb + name + rest;
    assert(d[4] == lb[0] && d[5] == lb[1] && d[6] == lb[2] && d[7] == lb[3]);
    assert(le_value(d, 4) == le_value(lb, 0));
    assert(d.subrange(8, 8 + name.len() as int) =~= name);
    if name.len() > 0 {
        let short = head + lb + name.subrange(0, name.len() - 1);
        assert(short[4] == lb[0] && short[5] == lb[1] && short[6] == lb[2] && short[7] == lb[3]);
        assert(le_value(short, 4) == le_value(lb, 0));
    }
}

/// Parses a controller-data reply into the device name and LED count.
pub fn parse_controller_data(data: &[u8]) -> (res: Option<(String, usize)>)
    ensures
        match (res, spec_controller_data(data@)) {
            (None, None) => true,
            (Some((name, count)), Some((n, c))) => name@ == n && count == c,
            _ => false,
        },
{
    if data.len() < 8 {
        return None;
    }
    let name_len = read_le_u32(data, 4) as usize;
    if name_len > data.len() - 8 {
        return None;
    }
    let name = lossy_utf8(slice_range(data, 8, 8 + name_len));
    let led_count = estimate_led_count(data, 8 + name_len);
    Some((name, led_count))
}

fn slice_range(data: &[u8], from: usize, to: usize) -> (res: Vec<u8>)
    requires
        from <= to <= data@.len(),
    ensures
        res@ == data@.subrange(from as int, to as int),
{
    let mut out: Vec<u8> = Vec::new();
    let mut i = from;
    while i < to
        invariant
            from <= i <= to,
            to <= data@.len(),
            out@ == data@.subrange(from as int, i as int),
        decreases to - i,
    {
        out.push(data[i]);
        i = i + 1;
        assert(out@ =~= data@.subrange(from as int, i as int));
    }
    out
}

/// Builds an LED colour block for the given colours.
fn push_led_bytes(out: &mut Vec<u8>, colors: &[RgbColor])
    ensures
        final(out)@ == old(out)@ + led_bytes(colors@),
{
    let ghost start = out@;
    let mut i: usize = 0;
    assert(colors@.subrange(0, 0) =~= Seq::<RgbColor>::empty());
    while i < colors.len()
        invariant
            i <= colors@.len(),
            out@ == start + led_bytes(colors@.subrange(0, i as int)),
        decreases colors@.len() - i,
    {
        let c = colors[i];
        out.push(c.r);
        out.push(c.g);
        out.push(c.b);
        out.push(0);
        assert(colors@.subrange(0, i + 1).drop_last() =~= colors@.subrange(0, i as int));
        i = i + 1;
        assert(out@ =~= start + led_bytes(colors@.subrange(0, i as int)));
    }
    assert(colors@.subrange(0, i as int) =~= colors@);
}

/// The bytes of each reply.
pub open spec fn byte_views(v: Seq<Vec<u8>>) -> Seq<Seq<u8>> {
    v.map_values(|x: Vec<u8>| x@)
}

/// The first controller, from index `i` on, whose data reply names it
/// `name`: its index and the LED count its data gives.
pub open spec fn named_controller(replies: Seq<Seq<u8>>, name: Seq<char>, i: int) -> Option<(int, usize)>
    decreases replies.len() - i,
{
    if i < 0 || i >= replies.len() {
        None
    } else {
        match spec_controller_data(replies[i]) {
            Some((n, leds)) if n == name => Some((i, leds)),
            _ => named_controller(replies, name, i + 1),
        }
    }
}

proof fn lemma_named_controller_in_range(replies: Seq<Seq<u8>>, name: Seq<char>, i: int)
    ensures
        named_controller(replies, name, i) matches Some((j, _)) ==> 0 <= i <= j < replies.len(),
    decreases replies.len() - i,
{
    if 0 <= i < replies.len() {
        lemma_named_controller_in_range(replies, name, i + 1);
    }
}

/// The controller selected by name is the first one, from `i` on, whose
/// data reply reads with that name, and its LED count is the one that reply
/// gives; none is selected only when no reply from `i` on names it.
pub proof fn lemma_named_controller_is_first(replies: Seq<Seq<u8>>, name: Seq<char>, i: int)
    requires
        0 <= i,
    ensures
        match named_controller(replies, name, i) {
            Some((j, leds)) => i <= j < replies.len() && spec_controller_data(replies[j]) == Some((name, leds))
                && forall|k: int|
                i <= k < j ==> !(#[trigger] spec_controller_data(replies[k]) matches Some((n, _)) && n == name),
            None => forall|k: int|
                i <= k < replies.len() ==> !(#[trigger] spec_controller_data(replies[k]) matches Some((n, _))
                    && n == name),
        },
    decreases replies.len() - i,
{
    if 0 <= i < replies.len() {
        lemma_named_controller_is_first(replies, name, i + 1);
    }
}

/// The selected controller of an OpenRGB session: which device the client
/// drives and how many LEDs it has.
pub struct OpenRgbClient {
    device_name: String,
    device_id: Option<u32>,
    led_count: usize,
}

impl OpenRgbClient {
    pub closed spec fn spec_device_name(&self) -> Seq<char> {
        self.device_name@
    }

    pub closed spec fn spec_device_id(&self) -> Option<u32> {
        self.device_id
    }

    pub closed spec fn spec_led_count(&self) -> usize {
        self.led_count
    }

    /// A session for the named device, before any controller is selected.
    pub fn new(device_name: &str) -> (res: Self)
        ensures
            res.spec_device_name() == device_name@,
            res.spec_device_id() is None,
            res.spec_led_count() == 0,
    {
        broadcast use vstd::string::group_string_axioms;

        Self { device_name: device_name.to_string(), device_id: None, led_count: 0 }
    }

    /// Takes the data replies of controllers `0, 1, ...` (one per
    /// controller the server counted) and selects the first controller
    /// whose name is the configured device name, with the LED count its
    /// data gives; fails when no controller has that name.
    pub fn select_named_controller(&mut self, data_replies: &Vec<Vec<u8>>) -> (res: Result<u32, OpenRgbError>)
        requires
            data_replies@.len() <= u32::MAX,
        ensures
            final(self).spec_device_name() == old(self).spec_device_name(),
            match named_controller(byte_views(data_replies@), old(self).spec_device_name(), 0) {
                Some((i, leds)) => res == Ok::<u32, OpenRgbError>(i as u32)
                    && final(self).spec_device_id() == Some(i as u32)
                    && final(self).spec_led_count() == leds,
                None => res == Err::<u32, OpenRgbError>(OpenRgbError::DeviceNotFound)
                    && final(self).spec_device_id() == old(self).spec_device_id()
                    && final(self).spec_led_count() == old(self).spec_led_count(),
            },
    {
        let ghost replies = byte_views(data_replies@);
        let ghost name = self.device_name@;
        proof {
            lemma_named_controller_in_range(replies, name, 0);
        }
        let mut i: usize = 0;
        while i < data_replies.len()
            invariant
                i <= data_replies@.len(),
                data_replies@.len() <= u32::MAX,
                replies == byte_views(data_replies@),
                name == self.device_name@,
                named_controller(replies, name, 0) == named_controller(replies, name, i as int),
                self.device_id == old(self).device_id,
                self.led_count == old(self).led_count,
                self.device_name == old(self).device_name,
            decreases data_replies@.len() - i,
        {
            assert(replies[i as int] == data_replies@[i as int]@);
            match parse_controller_data(data_replies[i].as_slice()) {
                Some((found, leds)) => {
                    if found == self.device_name {
                        self.device_id = Some(i as u32);
                        self.led_count = leds;
                        return Ok(i as u32);
                    }
                },
                None => {},
            }
            i = i + 1;
        }
        Err(OpenRgbError::DeviceNotFound)
    }

    /// The packet that switches the selected device to Direct mode.
    pub fn direct_mode_packet(&self) -> (res: Result<Vec<u8>, OpenRgbError>)
        ensures
            match self.spec_device_id() {
                None => res == Err::<Vec<u8>, OpenRgbError>(OpenRgbError::NotInitialized),
                Some(id) => res matches Ok(p) && p@ == spec_packet(
                    PacketId::RgbControllerUpdateMode,
                    le_bytes(id) + le_bytes(DIRECT_MODE_ID),
                ),
            },
    {
        match self.device_id {
            None => Err(OpenRgbError::NotInitialized),
            Some(id) => {
                let mut data: Vec<u8> = Vec::new();
                append_le(&mut data, id);
                append_le(&mut data, DIRECT_MODE_ID);
                Ok(encode_packet(PacketId::RgbControllerUpdateMode, data.as_slice()))
            },
        }
    }

    /// The packet that sets every LED to `color` (already scaled to the
    /// wanted brightness).
    pub fn set_all_packet(&self, color: RgbColor) -> (res: Result<Vec<u8>, OpenRgbError>)
        ensures
            match self.spec_device_id() {
                Some(id) if self.spec_led_count() > 0 => res matches Ok(p) && p@ == spec_packet(
                    PacketId::RgbControllerUpdateLeds,
                    spec_update_leds_payload(id, self.spec_led_count(), repeat_color(color, self.spec_led_count() as nat)),
                ),
                _ => res == Err::<Vec<u8>, OpenRgbError>(OpenRgbError::NotInitialized),
            },
    {
        match self.device_id {
            Some(id) if self.led_count > 0 => {
                let mut colors: Vec<RgbColor> = Vec::new();
                let mut i: usize = 0;
                while i < self.led_count
                    invariant
                        i <= self.led_count,
                        colors@ == repeat_color(color, i as nat),
                    decreases self.led_count - i,
                {
                    colors.push(color);
                    i = i + 1;
                    assert(colors@ =~= repeat_color(color, i as nat));
                }
                let mut data: Vec<u8> = Vec::new();
                append_le(&mut data, id);
                append_le(&mut data, self.led_count as u32);
                push_led_bytes(&mut data, colors.as_slice());
                Ok(encode_packet(PacketId::RgbControllerUpdateLeds, data.as_slice()))
            },
            _ => Err(OpenRgbError::NotInitialized),
        }
    }

    /// The packet that sets the LEDs one by one to `colors` (already scaled
    /// to the wanted brightness); there must be one colour per LED.
    pub fn set_leds_packet(&self, colors: &[RgbColor]) -> (res: Result<Vec<u8>, OpenRgbError>)
        ensures
            match self.spec_device_id() {
                Some(id) if self.spec_led_count() > 0 => if colors@.len() != self.spec_led_count() {
                    res == Err::<Vec<u8>, OpenRgbError>(OpenRgbError::LedCountMismatch)
                } else {
                    res matches Ok(p) && p@ == spec_packet(
                        PacketId::RgbControllerUpdateLeds,
                        spec_update_leds_payload(id, self.spec_led_count(), colors@),
                    )
                },
                _ => res == Err::<Vec<u8>, OpenRgbError>(OpenRgbError::NotInitialized),
            },
    {
        match self.device_id {
            Some(id) if self.led_count > 0 => {
                if colors.len() != self.led_count {
                    return Err(OpenRgbError::LedCountMismatch);
                }
                let mut data: Vec<u8> = Vec::new();
                append_le(&mut data, id);
                append_le(&mut data, self.led_count as u32);
                push_led_bytes(&mut data, colors);
                Ok(encode_packet(PacketId::RgbControllerUpdateLeds, data.as_slice()))
            },
            _ => Err(OpenRgbError::NotInitialized),
        }
    }

    pub fn led_count(&self) -> (res: usize)
        ensures
            res == self.spec_led_count(),
    {
        self.led_count
    }

    pub fn device_id(&self) -> (res: Option<u32>)
        ensures
            res == self.spec_device_id(),
    {
        self.device_id
    }

    pub fn device_name(&self) -> (res: &str)
        ensures
            res@ == self.spec_device_name(),
    {
        self.device_name.as_str()
    }
}

} // verus!
