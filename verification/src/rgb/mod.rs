//! RGB colours: construction, parsing from hex text and formatting to it.

use crate::text::push_char;
use vstd::prelude::*;
use vstd::string::StringSliceAdditionalSpecFns;
use vstd::utf8::{
    encode_utf8, is_ascii_chars, is_ascii_chars_encode_utf8, is_char_boundary,
    is_char_boundary_iff_not_is_continuation_byte, valid_utf8,
};

pub mod openrgb;
pub mod openrgb_cli;

verus! {

/// RGB colour in 8-bit format.
#[derive(Debug, Clone, Copy, PartialEq, Eq, Structural)]
pub struct RgbColor {
    pub r: u8,
    pub g: u8,
    pub b: u8,
}

/// Why a hex colour string was rejected.
#[derive(Debug, Clone, Copy, PartialEq, Eq, Structural)]
pub enum HexColorError {
    /// After the leading `#` characters there are not exactly six bytes.
    WrongLength,
    /// One of the three two-byte fields is not a hexadecimal number.
    InvalidDigit,
}

/// Value of one hexadecimal digit byte, either case.
pub open spec fn hex_digit_value(c: u8) -> Option<u8> {
    if 0x30 <= c <= 0x39 {
        Some((c - 0x30) as u8)
    } else if 0x41 <= c <= 0x46 {
        Some((c - 0x41 + 10) as u8)
    } else if 0x61 <= c <= 0x66 {
        Some((c - 0x61 + 10) as u8)
    } else {
        None
    }
}

/// Value of a two-byte field of a hex colour: exactly two hexadecimal
/// digits, most significant first.
pub open spec fn hex_pair_value(hi: u8, lo: u8) -> Option<u8> {
    match (hex_digit_value(hi), hex_digit_value(lo)) {
        (Some(h), Some(l)) => Some((16 * h + l) as u8),
        _ => None,
    }
}

/// The bytes left after removing every leading `#`.
pub open spec fn strip_leading_hashes(b: Seq<u8>) -> Seq<u8>
    decreases b.len(),
{
    if b.len() > 0 && b[0] == 0x23 {
        strip_leading_hashes(b.drop_first())
    } else {
        b
    }
}

/// The colour that a hex string denotes, or why it denotes none.
pub open spec fn spec_from_hex(bytes: Seq<u8>) -> Result<RgbColor, HexColorError> {
    let s = strip_leading_hashes(bytes);
    if s.len() != 6 {
        Err(HexColorError::WrongLength)
    } else {
        match (hex_pair_value(s[0], s[1]), hex_pair_value(s[2], s[3]), hex_pair_value(s[4], s[5])) {
            (Some(r), Some(g), Some(b)) => Ok(RgbColor { r, g, b }),
            _ => Err(HexColorError::InvalidDigit),
        }
    }
}

/// The three fields of a six-byte hex body are cut at byte offsets 2 and 4;
/// each cut must fall on a character boundary. The second cut is only made
/// once the first field has been read successfully.
pub open spec fn hex_fields_cuttable(bytes: Seq<u8>) -> bool {
    let s = strip_leading_hashes(bytes);
    s.len() == 6 ==> {
        &&& is_char_boundary(s, 2)
        &&& hex_pair_value(s[0], s[1]) is Some ==> is_char_boundary(s, 4)
    }
}

/// Six upper-case hex digits, two per channel, most significant first
/// (`RRGGBB`, no leading `#`).
pub open spec fn spec_hex_code(c: RgbColor) -> Seq<char> {
    spec_hex_code_in_case(c, false)
}

fn hex_char(v: u8) -> (c: char)
    requires
        v < 16,
    ensures
        c == hex_digit_char_in_case(v, false),
{
    if v < 10 {
        (0x30 + v) as char
    } else {
        (0x41 + v - 10) as char
    }
}

/// The hexadecimal digit for a value below 16, in lower or upper case.
pub open spec fn hex_digit_char_in_case(v: u8, lower: bool) -> char {
    if v < 10 {
        (0x30 + v) as char
    } else if lower {
        (0x61 + v - 10) as char
    } else {
        (0x41 + v - 10) as char
    }
}

/// Six hex digits of a colour, `RRGGBB`, in the given case.
pub open spec fn spec_hex_code_in_case(c: RgbColor, lower: bool) -> Seq<char> {
    seq![
        hex_digit_char_in_case(c.r / 16, lower), hex_digit_char_in_case(c.r % 16, lower),
        hex_digit_char_in_case(c.g / 16, lower), hex_digit_char_in_case(c.g % 16, lower),
        hex_digit_char_in_case(c.b / 16, lower), hex_digit_char_in_case(c.b % 16, lower),
    ]
}

/// `n` characters `#`.
pub open spec fn hashes(n: nat) -> Seq<char> {
    Seq::new(n, |_i: int| '#')
}

proof fn lemma_hex_digit_char_reads_back(v: u8, lower: bool)
    requires
        v < 16,
    ensures
        hex_digit_value(hex_digit_char_in_case(v, lower) as u8) == Some(v),
        hex_digit_char_in_case(v, lower) as u8 != 0x23,
        '\0' <= hex_digit_char_in_case(v, lower) <= '\u{7f}',
{
}

proof fn lemma_strip_hashes(b: Seq<u8>, n: nat)
    requires
        n <= b.len(),
        forall|i: int| 0 <= i < n ==> b[i] == 0x23,
        n < b.len() ==> b[n as int] != 0x23,
    ensures
        strip_leading_hashes(b) == b.subrange(n as int, b.len() as int),
    decreases n,
{
    if n == 0 {
        assert(b.subrange(0, b.len() as int) =~= b);
    } else {
        assert(b.drop_first().subrange((n - 1) as int, b.drop_first().len() as int)
            =~= b.subrange(n as int, b.len() as int));
        lemma_strip_hashes(b.drop_first(), (n - 1) as nat);
    }
}

/// Formatting a colour as six hex digits, in either case and after any
/// number of `#`, and parsing it back gives the colour again.
pub proof fn lemma_hex_code_round_trip(c: RgbColor, n: nat, lower: bool)
    ensures
        spec_from_hex(encode_utf8(hashes(n) + spec_hex_code_in_case(c, lower))) == Ok::<
            RgbColor,
            HexColorError,
        >(c),
{
    let code = spec_hex_code_in_case(c, lower);
    let text = hashes(n) + code;
    lemma_hex_digit_char_reads_back(c.r / 16, lower);
    lemma_hex_digit_char_reads_back(c.r % 16, lower);
    lemma_hex_digit_char_reads_back(c.g / 16, lower);
    lemma_hex_digit_char_reads_back(c.g % 16, lower);
    lemma_hex_digit_char_reads_back(c.b / 16, lower);
    lemma_hex_digit_char_reads_back(c.b % 16, lower);
    assert forall|i: int| 0 <= i < text.len() implies '\0' <= #[trigger] text[i] <= '\u{7f}' by {
        if i >= n {
            assert(text[i] == code[i - n]);
        }
    }
    assert(is_ascii_chars(text));
    is_ascii_chars_encode_utf8(text);
    let bytes = encode_utf8(text);
    assert forall|i: int| 0 <= i < n implies bytes[i] == 0x23 by {
        assert(bytes[i] == text[i] as u8);
    }
    assert(bytes[n as int] == text[n as int] as u8);
    assert(text[n as int] == code[0]);
    lemma_strip_hashes(bytes, n);
    let s = bytes.subrange(n as int, bytes.len() as int);
    assert forall|i: int| 0 <= i < 6 implies s[i] == code[i] as u8 by {
        assert(s[i] == bytes[n + i]);
        assert(bytes[n + i] == text[n + i] as u8);
        assert(text[n + i] == code[i]);
    }
}

/// The ASCII code of the upper-case hexadecimal digit of `v` (`0`-`9`,
/// `A`-`F`).
pub open spec fn upper_hex_code(v: int) -> int {
    if v < 10 { 48 + v } else { 55 + v }
}

/// The ASCII code of the lower-case hexadecimal digit of `v` (`0`-`9`,
/// `a`-`f`).
pub open spec fn lower_hex_code(v: int) -> int {
    if v < 10 { 48 + v } else { 87 + v }
}

/// Whether a byte is an ASCII hexadecimal digit.
pub open spec fn is_ascii_hex_byte(b: u8) -> bool {
    exists|v: int| 0 <= v < 16 && (b == upper_hex_code(v) || b == lower_hex_code(v))
}

/// Each value below 16 is written as its ASCII digit (upper case by
/// default, lower case on request), and both forms of the digit read back
/// as the value.
pub proof fn lemma_hex_digits_are_ascii(v: u8)
    requires
        v < 16,
    ensures
        hex_digit_char_in_case(v, false) as int == upper_hex_code(v as int),
        hex_digit_char_in_case(v, true) as int == lower_hex_code(v as int),
        hex_digit_value(upper_hex_code(v as int) as u8) == Some(v),
        hex_digit_value(lower_hex_code(v as int) as u8) == Some(v),
{
}

/// Only ASCII hexadecimal digits have a value, and it is the digit's own.
pub proof fn lemma_hex_digit_value_only_digits(b: u8)
    ensures
        hex_digit_value(b) matches Some(v) ==> v < 16 && (b == upper_hex_code(v as int) || b
            == lower_hex_code(v as int)),
        hex_digit_value(b) is Some <==> is_ascii_hex_byte(b),
{
    if hex_digit_value(b) is Some {
        let v = hex_digit_value(b)->0;
        assert(0 <= v < 16 && (b == upper_hex_code(v as int) || b == lower_hex_code(v as int)));
    } else {
        assert forall|v: int| 0 <= v < 16 implies !(b == upper_hex_code(v) || b == lower_hex_code(v)) by {
            lemma_hex_digits_are_ascii(v as u8);
        }
    }
}

/// A hex colour is accepted exactly when, after the leading `#`s, six ASCII
/// hex digits remain; each channel is then the two-digit base-16 number of
/// its field, most significant digit first.
pub proof fn lemma_from_hex_reads_hex_digits(bytes: Seq<u8>)
    ensures
        ({
            let s = strip_leading_hashes(bytes);
            &&& spec_from_hex(bytes) is Ok <==> (s.len() == 6 && forall|i: int|
                0 <= i < 6 ==> #[trigger] is_ascii_hex_byte(s[i]))
            &&& spec_from_hex(bytes) matches Ok(c) ==> {
                &&& (s[0] == upper_hex_code((c.r / 16) as int) || s[0] == lower_hex_code((c.r / 16) as int))
                &&& (s[1] == upper_hex_code((c.r % 16) as int) || s[1] == lower_hex_code((c.r % 16) as int))
                &&& (s[2] == upper_hex_code((c.g / 16) as int) || s[2] == lower_hex_code((c.g / 16) as int))
                &&& (s[3] == upper_hex_code((c.g % 16) as int) || s[3] == lower_hex_code((c.g % 16) as int))
                &&& (s[4] == upper_hex_code((c.b / 16) as int) || s[4] == lower_hex_code((c.b / 16) as int))
                &&& (s[5] == upper_hex_code((c.b % 16) as int) || s[5] == lower_hex_code((c.b % 16) as int))
            }
        }),
{
    let s = strip_leading_hashes(bytes);
    if s.len() == 6 {
        lemma_hex_digit_value_only_digits(s[0]);
        lemma_hex_digit_value_only_digits(s[1]);
        lemma_hex_digit_value_only_digits(s[2]);
        lemma_hex_digit_value_only_digits(s[3]);
        lemma_hex_digit_value_only_digits(s[4]);
        lemma_hex_digit_value_only_digits(s[5]);
        if (forall|i: int| 0 <= i < 6 ==> #[trigger] is_ascii_hex_byte(s[i])) {
            assert(is_ascii_hex_byte(s[0]) && is_ascii_hex_byte(s[1]) && is_ascii_hex_byte(s[2]));
            assert(is_ascii_hex_byte(s[3]) && is_ascii_hex_byte(s[4]) && is_ascii_hex_byte(s[5]));
        }
        if spec_from_hex(bytes) is Ok {
            assert forall|i: int| 0 <= i < 6 implies #[trigger] is_ascii_hex_byte(s[i]) by {
                lemma_hex_digit_value_only_digits(s[i]);
            }
        }
    }
}

/// Leading `#`s are skipped one by one; a string not starting with `#` is
/// read as it is.
pub proof fn lemma_strip_leading_hashes(b: Seq<u8>)
    ensures
        strip_leading_hashes(seq!['#' as u8] + b) == strip_leading_hashes(b),
        (b.len() == 0 || b[0] != '#' as u8) ==> strip_leading_hashes(b) == b,
{
    assert((seq!['#' as u8] + b).drop_first() =~= b);
}

fn hex_digit(c: u8) -> (res: Option<u8>)
    ensures
        res == hex_digit_value(c),
{
    if 0x30 <= c && c <= 0x39 {
        Some(c - 0x30)
    } else if 0x41 <= c && c <= 0x46 {
        Some(c - 0x41 + 10)
    } else if 0x61 <= c && c <= 0x66 {
        Some(c - 0x61 + 10)
    } else {
        None
    }
}

fn hex_pair(hi: u8, lo: u8) -> (res: Option<u8>)
    ensures
        res == hex_pair_value(hi, lo),
{
    match (hex_digit(hi), hex_digit(lo)) {
        (Some(h), Some(l)) => Some(16 * h + l),
        _ => None,
    }
}

proof fn lemma_strip_keeps_valid_utf8(b: Seq<u8>)
    requires
        valid_utf8(b),
    ensures
        valid_utf8(strip_leading_hashes(b)),
    decreases b.len(),
{
    if b.len() > 0 && b[0] == 0x23 {
        assert(b.drop_first() =~= b.subrange(1, b.len() as int));
        lemma_strip_keeps_valid_utf8(b.drop_first());
    }
}

/// Whether `from_hex` can cut the fields of `hex` (see `hex_fields_cuttable`).
pub fn hex_fields_are_cuttable(hex: &str) -> (res: bool)
    ensures
        res == hex_fields_cuttable(hex.spec_bytes()),
{
    broadcast use vstd::utf8::encode_utf8_valid_utf8;

    let bytes = hex.as_bytes();
    let ghost all = bytes@;
    let mut start: usize = 0;
    assert(all.subrange(0, all.len() as int) =~= all);
    while start < bytes.len() && bytes[start] == 0x23
        invariant
            bytes@ == all,
            start <= bytes@.len(),
            strip_leading_hashes(all) == strip_leading_hashes(all.subrange(start as int, all.len() as int)),
        decreases bytes@.len() - start,
    {
        assert(all.subrange(start as int, all.len() as int).drop_first()
            =~= all.subrange(start + 1, all.len() as int));
        start = start + 1;
    }
    let ghost s = all.subrange(start as int, all.len() as int);
    assert(strip_leading_hashes(s) == s);
    if bytes.len() - start != 6 {
        return true;
    }
    proof {
        lemma_strip_keeps_valid_utf8(all);
        is_char_boundary_iff_not_is_continuation_byte(s, 2);
        is_char_boundary_iff_not_is_continuation_byte(s, 4);
    }
    let b2 = bytes[start + 2];
    let b4 = bytes[start + 4];
    let first_ok = hex_pair(bytes[start], bytes[start + 1]).is_some();
    !(0x80 <= b2 && b2 <= 0xbf) && (!first_ok || !(0x80 <= b4 && b4 <= 0xbf))
}

impl RgbColor {
    pub fn new(r: u8, g: u8, b: u8) -> (res: Self)
        ensures
            res == (RgbColor { r, g, b }),
    {
        Self { r, g, b }
    }

    /// Create a colour from a hex string such as `"#FF0000"` or `"00FF00"`.
    /// Every leading `#` is skipped; exactly six bytes must follow.
    pub fn from_hex(hex: &str) -> (res: Result<Self, HexColorError>)
        requires
            hex_fields_cuttable(hex.spec_bytes()),
        ensures
            res == spec_from_hex(hex.spec_bytes()),
    {
        let bytes = hex.as_bytes();
        let ghost all = bytes@;
        let mut start: usize = 0;
        assert(all.subrange(0, all.len() as int) =~= all);
        while start < bytes.len() && bytes[start] == 0x23
            invariant
                bytes@ == all,
                start <= bytes@.len(),
                strip_leading_hashes(all) == strip_leading_hashes(all.subrange(start as int, all.len() as int)),
            decreases bytes@.len() - start,
        {
            assert(all.subrange(start as int, all.len() as int).drop_first()
                =~= all.subrange(start + 1, all.len() as int));
            start = start + 1;
        }
        let ghost s = all.subrange(start as int, all.len() as int);
        assert(strip_leading_hashes(s) == s);
        if bytes.len() - start != 6 {
            return Err(HexColorError::WrongLength);
        }
        assert(s[0] == bytes@[start as int]);
        let r = match hex_pair(bytes[start], bytes[start + 1]) {
            Some(v) => v,
            None => return Err(HexColorError::InvalidDigit),
        };
        let g = match hex_pair(bytes[start + 2], bytes[start + 3]) {
            Some(v) => v,
            None => return Err(HexColorError::InvalidDigit),
        };
        let b = match hex_pair(bytes[start + 4], bytes[start + 5]) {
            Some(v) => v,
            None => return Err(HexColorError::InvalidDigit),
        };
        Ok(Self { r, g, b })
    }

    /// The colour as six upper-case hex digits, `RRGGBB`.
    pub fn hex_code(&self) -> (res: String)
        ensures
            res@ == spec_hex_code(*self),
    {
        let mut s = String::new();
        push_char(&mut s, hex_char(self.r / 16));
        push_char(&mut s, hex_char(self.r % 16));
        push_char(&mut s, hex_char(self.g / 16));
        push_char(&mut s, hex_char(self.g % 16));
        push_char(&mut s, hex_char(self.b / 16));
        push_char(&mut s, hex_char(self.b % 16));
        assert(s@ =~= spec_hex_code(*self));
        s
    }
}

} // verus!
