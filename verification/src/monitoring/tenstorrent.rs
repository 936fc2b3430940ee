//! The tt-smi source: reading the hex-encoded telemetry fields of
//! `tt-smi -s` and naming the architecture of a board.
//!
//! Running the tool and decoding its JSON is the caller's work; this module
//! reads the field values it yields.

use crate::monitoring::sensors::MonitorError;
use crate::text::{
    chars_eq, chars_of, has_prefix, has_suffix, lowercase_chars, to_lowercase, trim_chars, trim_end_index,
    trim_start_index, trim_end_chars, trim_start_chars,
};
use vstd::prelude::*;

verus! {

broadcast use vstd::string::group_string_axioms;

/// Why a hex telemetry field could not be read as a `u32`.
#[derive(Debug, Clone, Copy, PartialEq, Eq, Structural)]
pub enum HexValueError {
    /// Nothing is left once whitespace and `0x` prefixes are removed.
    Empty,
    /// A character is not a hexadecimal digit (or a lone sign).
    InvalidDigit,
    /// The value does not fit in a `u32`.
    Overflow,
}

/// The characters left after removing every leading `0x`.
pub open spec fn strip_hex_prefixes(s: Seq<char>) -> Seq<char>
    decreases s.len(),
{
    if s.len() >= 2 && s[0] == '0' && s[1] == 'x' {
        strip_hex_prefixes(s.subrange(2, s.len() as int))
    } else {
        s
    }
}

/// Value of one hexadecimal digit character, either case.
pub open spec fn hex_char_value(c: char) -> Option<u32> {
    if '0' <= c <= '9' {
        Some((c as u32 - '0' as u32) as u32)
    } else if 'a' <= c <= 'f' {
        Some((c as u32 - 'a' as u32 + 10) as u32)
    } else if 'A' <= c <= 'F' {
        Some((c as u32 - 'A' as u32 + 10) as u32)
    } else {
        None
    }
}

/// Reads the digits of `ds` from position `i` on, left to right, onto the
/// value `acc` read so far; an invalid digit is reported before an overflow
/// at the same position.
pub open spec fn hex_digits_from(ds: Seq<char>, i: int, acc: nat) -> Result<u32, HexValueError>
    decreases ds.len() - i,
{
    if i >= ds.len() {
        Ok(acc as u32)
    } else {
        match hex_char_value(ds[i]) {
            None => Err(HexValueError::InvalidDigit),
            Some(d) => if acc * 16 + d > u32::MAX {
                Err(HexValueError::Overflow)
            } else {
                hex_digits_from(ds, i + 1, (acc * 16 + d) as nat)
            },
        }
    }
}

/// An unsigned radix-16 number: optional `+`, then digits.
pub open spec fn spec_radix16_u32(src: Seq<char>) -> Result<u32, HexValueError> {
    if src.len() == 0 {
        Err(HexValueError::Empty)
    } else if src.len() == 1 && (src[0] == '+' || src[0] == '-') {
        Err(HexValueError::InvalidDigit)
    } else if src[0] == '+' {
        hex_digits_from(src, 1, 0)
    } else {
        hex_digits_from(src, 0, 0)
    }
}

/// The value of a tt-smi hex field such as `" 0x2D "`: whitespace trimmed,
/// every leading `0x` removed, the rest read as radix-16.
pub open spec fn spec_parse_hex_u32(s: Seq<char>) -> Result<u32, HexValueError> {
    spec_radix16_u32(strip_hex_prefixes(trim_chars(s)))
}

fn hex_char(c: char) -> (res: Option<u32>)
    ensures
        res == hex_char_value(c),
{
    if '0' <= c && c <= '9' {
        Some(c as u32 - '0' as u32)
    } else if 'a' <= c && c <= 'f' {
        Some(c as u32 - 'a' as u32 + 10)
    } else if 'A' <= c && c <= 'F' {
        Some(c as u32 - 'A' as u32 + 10)
    } else {
        None
    }
}

fn read_hex_digits(ds: &[char], start: usize) -> (res: Result<u32, HexValueError>)
    requires
        start <= ds@.len(),
    ensures
        res == hex_digits_from(ds@, start as int, 0),
{
    let mut acc: u64 = 0;
    let mut i = start;
    while i < ds.len()
        invariant
            start <= i <= ds@.len(),
            acc <= u32::MAX,
            hex_digits_from(ds@, start as int, 0) == hex_digits_from(ds@, i as int, acc as nat),
        decreases ds@.len() - i,
    {
        let d = match hex_char(ds[i]) {
            Some(d) => d,
            None => return Err(HexValueError::InvalidDigit),
        };
        let next = acc * 16 + d as u64;
        if next > 0xFFFF_FFFF {
            return Err(HexValueError::Overflow);
        }
        acc = next;
        i = i + 1;
    }
    Ok(acc as u32)
}

/// Reads a tt-smi hex field as a `u32`: `"0x2D"` and `"2D"` both give 45.
pub fn parse_hex_u32(s: &str) -> (res: Result<u32, HexValueError>)
    ensures
        res == spec_parse_hex_u32(s@),
{
    let cs = chars_of(s);
    let a = trim_start_index(cs.as_slice());
    let mut rest: Vec<char> = Vec::new();
    let mut k = a;
    while k < cs.len()
        invariant
            a <= k <= cs@.len(),
            rest@ == cs@.subrange(a as int, k as int),
        decreases cs@.len() - k,
    {
        rest.push(cs[k]);
        k = k + 1;
        assert(rest@ =~= cs@.subrange(a as int, k as int));
    }
    assert(rest@ == trim_start_chars(s@));
    let b = trim_end_index(rest.as_slice());
    let ghost t = trim_chars(s@);
    assert(t == rest@.subrange(0, b as int));
    let mut p: usize = 0;
    while b - p >= 2 && rest[p] == '0' && rest[p + 1] == 'x'
        invariant
            p <= b <= rest@.len(),
            strip_hex_prefixes(t) == strip_hex_prefixes(rest@.subrange(p as int, b as int)),
        decreases b - p,
    {
        assert(rest@.subrange(p as int, b as int).subrange(2, b - p) =~= rest@.subrange(p + 2, b as int));
        p = p + 2;
    }
    let mut body: Vec<char> = Vec::new();
    let mut q = p;
    while q < b
        invariant
            p <= q <= b <= rest@.len(),
            body@ == rest@.subrange(p as int, q as int),
        decreases b - q,
    {
        body.push(rest[q]);
        q = q + 1;
        assert(body@ =~= rest@.subrange(p as int, q as int));
    }
    assert(strip_hex_prefixes(body@) == body@);
    if body.len() == 0 {
        return Err(HexValueError::Empty);
    }
    if body.len() == 1 && (body[0] == '+' || body[0] == '-') {
        return Err(HexValueError::InvalidDigit);
    }
    if body[0] == '+' {
        read_hex_digits(body.as_slice(), 1)
    } else {
        read_hex_digits(body.as_slice(), 0)
    }
}

/// A hex telemetry field's value, or `default` when it cannot be read.
pub fn parse_hex_or(s: &str, default: u32) -> (res: u32)
    ensures
        res == match spec_parse_hex_u32(s@) {
            Ok(v) => v,
            Err(_) => default,
        },
{
    match parse_hex_u32(s) {
        Ok(v) => v,
        Err(_) => default,
    }
}

/// Whether a telemetry key names a GDDR temperature (`GDDR..._TEMP`).
pub fn is_gddr_temp_key(key: &str) -> (res: bool)
    ensures
        res == ("GDDR"@.is_prefix_of(key@) && key@.len() >= "_TEMP"@.len() && key@.subrange(
            key@.len() - "_TEMP"@.len(),
            key@.len() as int,
        ) == "_TEMP"@),
        res == (seq!['G', 'D', 'D', 'R'].is_prefix_of(key@) && seq!['_', 'T', 'E', 'M', 'P'].is_suffix_of(key@)),
{
    proof {
        reveal_strlit("GDDR");
        reveal_strlit("_TEMP");
        assert("GDDR"@ =~= seq!['G', 'D', 'D', 'R']);
        assert("_TEMP"@ =~= seq!['_', 'T', 'E', 'M', 'P']);
    }
    let k = chars_of(key);
    let p = chars_of("GDDR");
    let q = chars_of("_TEMP");
    has_prefix(k.as_slice(), p.as_slice()) && has_suffix(k.as_slice(), q.as_slice())
}

/// The architecture of a board, given its lower-cased board type.
pub open spec fn spec_architecture_for_board(lowered: Seq<char>) -> Seq<char> {
    if lowered == "p150"@ || lowered == "p300c"@ || lowered == "p300"@ {
        "blackhole"@
    } else if lowered == "n150"@ || lowered == "n300"@ {
        "wormhole_b0"@
    } else if lowered == "e75"@ || lowered == "e150"@ {
        "grayskull"@
    } else {
        "blackhole"@
    }
}

/// Whether a lower-cased board type is one of the known ones.
pub open spec fn is_known_board(lowered: Seq<char>) -> bool {
    ||| lowered == "p150"@
    ||| lowered == "p300c"@
    ||| lowered == "p300"@
    ||| lowered == "n150"@
    ||| lowered == "n300"@
    ||| lowered == "e75"@
    ||| lowered == "e150"@
}

fn is_one_of(s: &[char], a: &str) -> (res: bool)
    ensures
        res == (s@ == a@),
{
    chars_eq(s, chars_of(a).as_slice())
}

/// The architecture of a board from its lower-cased board type; an unknown
/// board type is taken to be Blackhole.
pub fn architecture_for_board(lowered: &str) -> (res: String)
    ensures
        res@ == spec_architecture_for_board(lowered@),
{
    let l = chars_of(lowered);
    if is_one_of(l.as_slice(), "p150") || is_one_of(l.as_slice(), "p300c") || is_one_of(l.as_slice(), "p300") {
        "blackhole".to_string()
    } else if is_one_of(l.as_slice(), "n150") || is_one_of(l.as_slice(), "n300") {
        "wormhole_b0".to_string()
    } else if is_one_of(l.as_slice(), "e75") || is_one_of(l.as_slice(), "e150") {
        "grayskull".to_string()
    } else {
        "blackhole".to_string()
    }
}

/// Whether a lower-cased board type is known (else the architecture is a
/// guess worth a warning).
pub fn is_known_board_type(lowered: &str) -> (res: bool)
    ensures
        res == is_known_board(lowered@),
{
    let l = chars_of(lowered);
    is_one_of(l.as_slice(), "p150") || is_one_of(l.as_slice(), "p300c") || is_one_of(l.as_slice(), "p300")
        || is_one_of(l.as_slice(), "n150") || is_one_of(l.as_slice(), "n300") || is_one_of(l.as_slice(), "e75")
        || is_one_of(l.as_slice(), "e150")
}

/// Determines the device architecture from the board type, ignoring case.
pub fn determine_architecture(board_type: &str) -> (res: String)
    ensures
        res@ == spec_architecture_for_board(lowercase_chars(board_type@)),
{
    let lowered = to_lowercase(board_type);
    architecture_for_board(lowered.as_str())
}

/// The character with the given code.
pub open spec fn char_of(code: int) -> char {
    code as char
}

/// The ASCII code of the upper-case hexadecimal digit of `v` (`0`-`9`,
/// `A`-`F`).
pub open spec fn upper_digit_code(v: int) -> int {
    if v < 10 { 48 + v } else { 55 + v }
}

/// The ASCII code of the lower-case hexadecimal digit of `v` (`0`-`9`,
/// `a`-`f`).
pub open spec fn lower_digit_code(v: int) -> int {
    if v < 10 { 48 + v } else { 87 + v }
}

/// Each of the sixteen values has its upper- and lower-case digit read as
/// that value.
pub proof fn lemma_hex_char_reads_every_digit(v: u32)
    requires
        v < 16,
    ensures
        hex_char_value(char_of(upper_digit_code(v as int))) == Some(v),
        hex_char_value(char_of(lower_digit_code(v as int))) == Some(v),
{
}

/// Only the hexadecimal digits have a value, and each is below 16 and is
/// the digit's own value.
pub proof fn lemma_hex_char_only_digits(c: char)
    ensures
        hex_char_value(c) matches Some(v) ==> v < 16 && (c as int == upper_digit_code(v as int) || c as int
            == lower_digit_code(v as int)),
{
}

proof fn lemma_hex_digits_append_from(ds: Seq<char>, c: char, d: u32, i: int, acc: nat)
    requires
        hex_char_value(c) == Some(d),
        0 <= i <= ds.len(),
        acc <= u32::MAX,
    ensures
        hex_digits_from(ds.push(c), i, acc) == match hex_digits_from(ds, i, acc) {
            Ok(v) => if v * 16 + d > u32::MAX {
                Err::<u32, HexValueError>(HexValueError::Overflow)
            } else {
                Ok((v * 16 + d) as u32)
            },
            Err(e) => Err(e),
        },
    decreases ds.len() - i,
{
    let e = ds.push(c);
    if i == ds.len() {
        assert(e[i] == c);
        if acc * 16 + d <= u32::MAX {
            assert(hex_digits_from(e, i + 1, (acc * 16 + d) as nat) == Ok::<u32, HexValueError>(
                (acc * 16 + d) as u32,
            ));
        }
    } else {
        assert(e[i] == ds[i]);
        match hex_char_value(ds[i]) {
            None => {},
            Some(x) => {
                if acc * 16 + x <= u32::MAX {
                    lemma_hex_digits_append_from(ds, c, d, i + 1, (acc * 16 + x) as nat);
                }
            },
        }
    }
}

/// Appending a digit to a run of digits multiplies the value read so far by
/// sixteen and adds the digit, unless that overflows; an error earlier in
/// the run stays the error.
pub proof fn lemma_hex_digits_append(ds: Seq<char>, c: char, d: u32)
    requires
        hex_char_value(c) == Some(d),
    ensures
        hex_digits_from(ds.push(c), 0, 0) == match hex_digits_from(ds, 0, 0) {
            Ok(v) => if v * 16 + d > u32::MAX {
                Err::<u32, HexValueError>(HexValueError::Overflow)
            } else {
                Ok((v * 16 + d) as u32)
            },
            Err(e) => Err(e),
        },
{
    lemma_hex_digits_append_from(ds, c, d, 0, 0);
}

/// Removing `0x` prefixes drops each leading `0x`, and nothing else.
pub proof fn lemma_strip_hex_prefixes(s: Seq<char>)
    ensures
        strip_hex_prefixes(seq!['0', 'x'] + s) == strip_hex_prefixes(s),
        !(s.len() >= 2 && s[0] == '0' && s[1] == 'x') ==> strip_hex_prefixes(s) == s,
{
    let t = seq!['0', 'x'] + s;
    assert(t.subrange(2, t.len() as int) =~= s);
}

/// A field written as hexadecimal digits, bare or after `0x`, is read as
/// the radix-16 value of the digits.
pub proof fn lemma_parse_hex_digits(ds: Seq<char>)
    requires
        ds.len() >= 1,
        forall|i: int| 0 <= i < ds.len() ==> #[trigger] hex_char_value(ds[i]) is Some,
    ensures
        spec_parse_hex_u32(ds) == hex_digits_from(ds, 0, 0),
        spec_parse_hex_u32(seq!['0', 'x'] + ds) == hex_digits_from(ds, 0, 0),
{
    assert(hex_char_value(ds[0]) is Some);
    assert(hex_char_value(ds.last()) is Some);
    assert(trim_start_chars(ds) == ds);
    assert(trim_end_chars(ds) == ds);
    if ds.len() >= 2 {
        assert(hex_char_value(ds[1]) is Some);
    }
    assert(strip_hex_prefixes(ds) == ds);
    let t = seq!['0', 'x'] + ds;
    assert(t.last() == ds.last());
    assert(trim_start_chars(t) == t);
    assert(trim_end_chars(t) == t);
    lemma_strip_hex_prefixes(ds);
}

/// Each known board type names its own architecture — P150, P300 and P300C
/// are Blackhole, N150 and N300 Wormhole B0, E75 and E150 Grayskull — and
/// every other board type is unknown and taken for Blackhole.
pub proof fn lemma_board_architectures(l: Seq<char>)
    ensures
        (l == "p150"@ || l == "p300c"@ || l == "p300"@) ==> spec_architecture_for_board(l) == "blackhole"@
            && is_known_board(l),
        (l == "n150"@ || l == "n300"@) ==> spec_architecture_for_board(l) == "wormhole_b0"@ && is_known_board(l),
        (l == "e75"@ || l == "e150"@) ==> spec_architecture_for_board(l) == "grayskull"@ && is_known_board(l),
        !(l == "p150"@ || l == "p300c"@ || l == "p300"@ || l == "n150"@ || l == "n300"@ || l == "e75"@ || l
            == "e150"@) ==> spec_architecture_for_board(l) == "blackhole"@ && !is_known_board(l),
{
    reveal_strlit("p150");
    reveal_strlit("p300c");
    reveal_strlit("p300");
    reveal_strlit("n150");
    reveal_strlit("n300");
    reveal_strlit("e75");
    reveal_strlit("e150");
    if l == "n150"@ || l == "n300"@ {
        assert(l[0] == 'n');
        assert(l != "p150"@ && l != "p300c"@ && l != "p300"@);
    }
    if l == "e75"@ || l == "e150"@ {
        assert(l[0] == 'e');
        assert(l != "p150"@ && l != "p300c"@ && l != "p300"@ && l != "n150"@ && l != "n300"@);
    }
}

/// The tt-smi based monitor.
pub struct TtSmiMonitor {}

impl TtSmiMonitor {
    /// A monitor, provided the `tt-smi` tool ran successfully.
    pub fn new(tool_ok: bool) -> (res: Result<Self, MonitorError>)
        ensures
            res is Ok <==> tool_ok,
            !tool_ok ==> res == Err::<Self, MonitorError>(MonitorError::ToolUnavailable),
    {
        if tool_ok {
            Ok(Self {})
        } else {
            Err(MonitorError::ToolUnavailable)
        }
    }

    /// The monitoring source name.
    pub fn source_name(&self) -> (res: &'static str)
        ensures
            res@ == "tt-smi"@,
            res@ == seq!['t', 't', '-', 's', 'm', 'i'],
    {
        proof {
            reveal_strlit("tt-smi");
        }
        "tt-smi"
    }
}

} // verus!
