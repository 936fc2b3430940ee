//! Driving OpenRGB through its command-line tool: the arguments each
//! command takes, and reading the active mode out of `--list-devices`.
//!
//! Running the `openrgb` process is the caller's work.

use crate::rgb::openrgb::DEFAULT_LED_COUNT;
use crate::rgb::{spec_hex_code, RgbColor};
use crate::text::{
    chars_of, decimal_chars, find_char, first_index_of, has_prefix, push_decimal, split_chars, split_on,
    string_from_chars, trim_chars, trim_end_chars, trim_end_index, trim_start_chars, trim_start_index, views,
    is_whitespace_char, lemma_first_index_at, lemma_trim_end_keeps, lemma_trim_start_skips,
    lemma_split_chars_concat, lemma_split_chars_no_sep,
};
use vstd::prelude::*;

verus! {

broadcast use vstd::string::group_string_axioms;

/// The device the CLI controller drives.
pub const CLI_DEVICE_ID: u32 = 0;

/// The characters of each string.
pub open spec fn string_views(v: Seq<String>) -> Seq<Seq<char>> {
    v.map_values(|s: String| s@)
}

/// A line without one trailing carriage return.
pub open spec fn strip_cr(l: Seq<char>) -> Seq<char> {
    if l.len() > 0 && l.last() == '\r' {
        l.drop_last()
    } else {
        l
    }
}

/// The lines of a text: pieces between newlines, a `\r` before a newline
/// dropped, and no empty piece after a final newline.
pub open spec fn text_lines(s: Seq<char>) -> Seq<Seq<char>> {
    let parts = split_chars(s, '\n');
    let body = parts.drop_last().map_values(|l: Seq<char>| strip_cr(l));
    if parts.last().len() == 0 {
        body
    } else {
        body.push(parts.last())
    }
}

/// Lines end at `\n` or `\r\n`, neither of which stays in the line, and
/// a final line break adds no empty line.
pub proof fn lemma_text_lines(a: Seq<char>, b: Seq<char>)
    requires
        !a.contains('\n'),
        !b.contains('\n'),
        b.len() > 0,
    ensures
        text_lines(a + seq!['\r', '\n'] + b) == seq![a, b],
        text_lines(a + seq!['\r', '\n']) == seq![a],
{
    let ar = a + seq!['\r'];
    assert(!ar.contains('\n')) by {
        if ar.contains('\n') {
            let k = choose|k: int| 0 <= k < ar.len() && ar[k] == '\n';
            if k < a.len() {
                assert(a[k] == ar[k]);
            }
        }
    }
    lemma_split_chars_no_sep(ar, '\n');
    lemma_split_chars_no_sep(b, '\n');
    lemma_split_chars_concat(ar, b, '\n');
    assert(a + seq!['\r', '\n'] + b =~= ar + seq!['\n'] + b);
    assert(ar.drop_last() =~= a);
    let parts = split_chars(a + seq!['\r', '\n'] + b, '\n');
    assert(parts =~= seq![ar, b]);
    assert(parts.drop_last().map_values(|l: Seq<char>| strip_cr(l)) =~= seq![a]);
    lemma_split_chars_concat(ar, Seq::<char>::empty(), '\n');
    assert(a + seq!['\r', '\n'] =~= ar + seq!['\n'] + Seq::<char>::empty());
    lemma_split_chars_no_sep(Seq::<char>::empty(), '\n');
    let parts2 = split_chars(a + seq!['\r', '\n'], '\n');
    assert(parts2 =~= seq![ar, Seq::<char>::empty()]);
    assert(parts2.drop_last().map_values(|l: Seq<char>| strip_cr(l)) =~= seq![a]);
}

/// A mode name without one pair of surrounding single quotes.
pub open spec fn strip_quotes(m: Seq<char>) -> Seq<char> {
    if m.len() > 2 && m[0] == '\'' && m.last() == '\'' {
        m.subrange(1, m.len() - 1)
    } else {
        m
    }
}

/// The active mode a line shows: on a line whose trimmed text starts with
/// `Modes:`, the text between the first `[` and the first `]`, when that
/// `]` comes after the `[` with something in between.
pub open spec fn mode_in_line(line: Seq<char>) -> Option<Seq<char>> {
    if "Modes:"@.is_prefix_of(trim_chars(line)) {
        match (first_index_of(line, '['), first_index_of(line, ']')) {
            (Some(start), Some(end)) => if end > start + 1 {
                Some(strip_quotes(line.subrange(start + 1, end)))
            } else {
                None
            },
            _ => None,
        }
    } else {
        None
    }
}

/// A mode name in single quotes is shown without them; one that does not
/// start with a quote is shown as it is.
pub proof fn lemma_strip_quotes(x: Seq<char>)
    ensures
        x.len() >= 1 ==> strip_quotes(seq!['\''] + x + seq!['\'']) == x,
        (x.len() == 0 || x[0] != '\'') ==> strip_quotes(x) == x,
{
    let q = seq!['\''] + x + seq!['\''];
    assert(q.subrange(1, q.len() - 1) =~= x);
}

/// An indented line `Modes: [<m>] ...` shows the mode `m` (without
/// surrounding single quotes), whatever follows the closing bracket, as
/// long as `m` is not empty and holds no bracket.
pub proof fn lemma_modes_line_shows_mode(indent: Seq<char>, m: Seq<char>, rest: Seq<char>)
    requires
        forall|i: int| 0 <= i < indent.len() ==> is_whitespace_char(#[trigger] indent[i]),
        m.len() >= 1,
        !m.contains('['),
        !m.contains(']'),
    ensures
        mode_in_line(indent + seq!['M', 'o', 'd', 'e', 's', ':', ' ', '['] + m + seq![']'] + rest) == Some(
            strip_quotes(m),
        ),
{
    let head = seq!['M', 'o', 'd', 'e', 's', ':', ' ', '['];
    let x = head + m + seq![']'] + rest;
    let line = indent + head + m + seq![']'] + rest;
    let n: int = indent.len() as int;
    let ml: int = m.len() as int;
    let e: int = n + 8 + ml;
    assert(line =~= indent + x);
    assert(x[0] == 'M');
    lemma_trim_start_skips(indent, x);
    assert(x[8 + ml] == ']');
    lemma_trim_end_keeps(x, 8 + ml);
    reveal_strlit("Modes:");
    assert("Modes:"@ =~= x.subrange(0, 6));
    assert(x.subrange(0, 6) =~= x.subrange(0, 9 + ml).subrange(0, 6));
    assert("Modes:"@.is_prefix_of(trim_chars(line)));
    assert(line[n + 7] == '[');
    assert forall|j: int| 0 <= j < n + 7 implies line[j] != '[' by {
        if j < n {
            assert(line[j] == indent[j]);
        } else {
            assert(line[j] == head[j - n]);
        }
    }
    lemma_first_index_at(line, '[', n + 7);
    assert(line[e] == ']');
    assert forall|j: int| 0 <= j < e implies line[j] != ']' by {
        if j < n {
            assert(line[j] == indent[j]);
        } else if j < n + 8 {
            assert(line[j] == head[j - n]);
        } else {
            assert(line[j] == m[j - n - 8]);
        }
    }
    lemma_first_index_at(line, ']', e);
    assert(line.subrange(n + 8, e) =~= m);
}

/// The mode shown by the first line that shows one.
pub open spec fn first_mode(lines: Seq<Seq<char>>) -> Option<Seq<char>>
    decreases lines.len(),
{
    if lines.len() == 0 {
        None
    } else {
        match mode_in_line(lines[0]) {
            Some(m) => Some(m),
            None => first_mode(lines.drop_first()),
        }
    }
}

/// The active mode in an `openrgb --list-devices` listing.
pub open spec fn spec_active_mode(listing: Seq<char>) -> Option<Seq<char>> {
    first_mode(text_lines(listing))
}

fn starts_with_modes(line: &[char]) -> (res: bool)
    ensures
        res == "Modes:"@.is_prefix_of(trim_chars(line@)),
{
    let a = trim_start_index(line);
    let rest = &line[a..line.len()];
    assert(rest@ == trim_start_chars(line@));
    let b = trim_end_index(rest);
    let trimmed = &rest[0..b];
    assert(trimmed@ == trim_chars(line@));
    has_prefix(trimmed, chars_of("Modes:").as_slice())
}

fn mode_in(line: &[char]) -> (res: Option<Vec<char>>)
    ensures
        match (res, mode_in_line(line@)) {
            (None, None) => true,
            (Some(a), Some(b)) => a@ == b,
            _ => false,
        },
{
    if !starts_with_modes(line) {
        return None;
    }
    let start = match find_char(line, '[') {
        Some(s) => s,
        None => return None,
    };
    let end = match find_char(line, ']') {
        Some(e) => e,
        None => return None,
    };
    if end <= start || end - start <= 1 {
        return None;
    }
    let m = &line[start + 1..end];
    let n = m.len();
    if n > 2 && m[0] == '\'' && m[n - 1] == '\'' {
        Some(chars_vec(&m[1..n - 1]))
    } else {
        Some(chars_vec(m))
    }
}

fn chars_vec(s: &[char]) -> (res: Vec<char>)
    ensures
        res@ == s@,
{
    let mut v: Vec<char> = Vec::new();
    let mut i: usize = 0;
    while i < s.len()
        invariant
            i <= s@.len(),
            v@ == s@.subrange(0, i as int),
        decreases s@.len() - i,
    {
        v.push(s[i]);
        i = i + 1;
        assert(v@ =~= s@.subrange(0, i as int));
    }
    assert(s@.subrange(0, i as int) =~= s@);
    v
}

/// Reads the active mode (e.g. `Off` from `Modes: [Off] Static`, or
/// `Spectrum Cycle` from `Modes: ['Spectrum Cycle'] ...`) out of an
/// `openrgb --list-devices` listing.
pub fn parse_active_mode(listing: &str) -> (res: Option<String>)
    ensures
        match (res, spec_active_mode(listing@)) {
            (None, None) => true,
            (Some(a), Some(b)) => a@ == b,
            _ => false,
        },
{
    let parts = split_on(chars_of(listing).as_slice(), '\n');
    let ghost pv = views(parts@);
    let ghost lines = text_lines(listing@);
    let n = parts.len();
    proof {
        assert(pv.len() == n);
        assert(pv == split_chars(listing@, '\n'));
        crate::text::lemma_split_chars_nonempty(listing@, '\n');
        assert(pv.last() == parts@[n - 1]@);
    }
    let count = if parts[n - 1].len() == 0 { n - 1 } else { n };
    assert(lines.len() == count);
    let mut i: usize = 0;
    assert(lines.subrange(0, lines.len() as int) =~= lines);
    while i < count
        invariant
            n == parts@.len(),
            n >= 1,
            pv == views(parts@),
            lines == text_lines(listing@),
            pv == split_chars(listing@, '\n'),
            count == lines.len(),
            count == n || count == n - 1,
            i <= count,
            first_mode(lines) == first_mode(lines.subrange(i as int, count as int)),
        decreases count - i,
    {
        let part = parts[i].as_slice();
        let len = part.len();
        let end = if i + 1 < n && len > 0 && part[len - 1] == '\r' { len - 1 } else { len };
        let line = &part[0..end];
        assert(pv[i as int] == parts@[i as int]@);
        assert(line@ == lines[i as int]) by {
            if i + 1 < n {
                assert(lines[i as int] == strip_cr(pv[i as int]));
            } else {
                assert(lines[i as int] == pv.last());
            }
            assert(line@ =~= lines[i as int]);
        }
        let ghost tail = lines.subrange(i as int, count as int);
        assert(tail[0] == lines[i as int]);
        match mode_in(line) {
            Some(m) => {
                return Some(string_from_chars(m.as_slice()));
            },
            None => {
                assert(tail.drop_first() =~= lines.subrange(i + 1, count as int));
            },
        }
        i = i + 1;
    }
    None
}

/// The controller that drives OpenRGB through its command-line tool.
pub struct OpenRgbCliController {
    device_id: u32,
    device_name: String,
    led_count: usize,
    original_mode: Option<String>,
}

/// `--device <id> --mode static --color <RRGGBB>`.
pub open spec fn spec_static_color_args(device_id: u32, hex: Seq<char>) -> Seq<Seq<char>> {
    seq!["--device"@, decimal_chars(device_id as nat), "--mode"@, "static"@, "--color"@, hex]
}

/// `--device <id> --mode <mode>`.
pub open spec fn spec_mode_args(device_id: u32, mode: Seq<char>) -> Seq<Seq<char>> {
    seq!["--device"@, decimal_chars(device_id as nat), "--mode"@, mode]
}

/// The openrgb command lines: `--device <id> --mode static --color <hex>`
/// and `--device <id> --mode <mode>`, the id written in decimal.
pub proof fn lemma_cli_argument_spelling(device_id: u32, hex: Seq<char>, mode: Seq<char>)
    ensures
        spec_static_color_args(device_id, hex) == seq![
            seq!['-', '-', 'd', 'e', 'v', 'i', 'c', 'e'],
            decimal_chars(device_id as nat),
            seq!['-', '-', 'm', 'o', 'd', 'e'],
            seq!['s', 't', 'a', 't', 'i', 'c'],
            seq!['-', '-', 'c', 'o', 'l', 'o', 'r'],
            hex,
        ],
        spec_mode_args(device_id, mode) == seq![
            seq!['-', '-', 'd', 'e', 'v', 'i', 'c', 'e'],
            decimal_chars(device_id as nat),
            seq!['-', '-', 'm', 'o', 'd', 'e'],
            mode,
        ],
{
    reveal_strlit("--device");
    reveal_strlit("--mode");
    reveal_strlit("static");
    reveal_strlit("--color");
    assert("--device"@ =~= seq!['-', '-', 'd', 'e', 'v', 'i', 'c', 'e']);
    assert("--mode"@ =~= seq!['-', '-', 'm', 'o', 'd', 'e']);
    assert("static"@ =~= seq!['s', 't', 'a', 't', 'i', 'c']);
    assert("--color"@ =~= seq!['-', '-', 'c', 'o', 'l', 'o', 'r']);
}

fn decimal_string(n: u32) -> (res: String)
    ensures
        res@ == decimal_chars(n as nat),
{
    let mut s = String::new();
    push_decimal(&mut s, n as u64);
    assert(s@ =~= decimal_chars(n as nat));
    s
}

fn mode_args(device_id: u32, mode: String) -> (res: Vec<String>)
    ensures
        string_views(res@) == spec_mode_args(device_id, mode@),
{
    let mut v: Vec<String> = Vec::new();
    v.push("--device".to_string());
    v.push(decimal_string(device_id));
    v.push("--mode".to_string());
    v.push(mode);
    assert(string_views(v@) =~= spec_mode_args(device_id, mode@));
    v
}

/// The arguments that set device `device_id` to static mode with the given
/// hex colour.
pub fn static_color_args(device_id: u32, hex: String) -> (res: Vec<String>)
    ensures
        string_views(res@) == spec_static_color_args(device_id, hex@),
{
    let mut v: Vec<String> = Vec::new();
    v.push("--device".to_string());
    v.push(decimal_string(device_id));
    v.push("--mode".to_string());
    v.push("static".to_string());
    v.push("--color".to_string());
    v.push(hex);
    assert(string_views(v@) =~= spec_static_color_args(device_id, hex@));
    v
}

/// The colour shown when the controller takes over: dark turquoise.
pub open spec fn takeover_color() -> RgbColor {
    RgbColor { r: 0x00, g: 0xCE, b: 0xD1 }
}

impl OpenRgbCliController {
    pub closed spec fn spec_device_id(&self) -> u32 {
        self.device_id
    }

    pub closed spec fn spec_device_name(&self) -> Seq<char> {
        self.device_name@
    }

    pub closed spec fn spec_led_count(&self) -> usize {
        self.led_count
    }

    pub closed spec fn spec_original_mode(&self) -> Option<Seq<char>> {
        match self.original_mode {
            Some(m) => Some(m@),
            None => None,
        }
    }

    /// A controller for the named device, remembering the mode it had
    /// before (if it could be read). It drives device 0 with 240 LEDs.
    pub fn new(device_name: &str, original_mode: Option<String>) -> (res: Self)
        ensures
            res.spec_device_id() == CLI_DEVICE_ID,
            res.spec_device_name() == device_name@,
            res.spec_led_count() == DEFAULT_LED_COUNT,
            res.spec_device_id() == 0,
            res.spec_led_count() == 240,
            res.spec_original_mode() == (match original_mode {
                Some(m) => Some(m@),
                None => None::<Seq<char>>,
            }),
    {
        Self { device_id: CLI_DEVICE_ID, device_name: device_name.to_string(), led_count: DEFAULT_LED_COUNT, original_mode }
    }

    /// The arguments that put the device into static mode on take-over.
    pub fn takeover_args(&self) -> (res: Vec<String>)
        ensures
            string_views(res@) == spec_static_color_args(self.spec_device_id(), spec_hex_code(takeover_color())),
            string_views(res@) == spec_static_color_args(self.spec_device_id(), seq!['0', '0', 'C', 'E', 'D', '1']),
    {
        let c = RgbColor::new(0x00, 0xCE, 0xD1);
        assert(spec_hex_code(takeover_color()) =~= seq!['0', '0', 'C', 'E', 'D', '1']);
        static_color_args(self.device_id, c.hex_code())
    }

    /// The arguments that set all LEDs to `adjusted` (already scaled to the
    /// wanted brightness).
    pub fn set_all_args(&self, adjusted: RgbColor) -> (res: Vec<String>)
        ensures
            string_views(res@) == spec_static_color_args(self.spec_device_id(), spec_hex_code(adjusted)),
    {
        static_color_args(self.device_id, adjusted.hex_code())
    }

    /// The arguments that restore the original mode, or turn the lights off
    /// when it is not known.
    pub fn restore_args(&self) -> (res: Vec<String>)
        ensures
            string_views(res@) == spec_mode_args(
                self.spec_device_id(),
                match self.spec_original_mode() {
                    Some(m) => m,
                    None => "off"@,
                },
            ),
            self.spec_original_mode() is None ==> string_views(res@) == spec_mode_args(
                self.spec_device_id(),
                seq!['o', 'f', 'f'],
            ),
    {
        proof {
            reveal_strlit("off");
            assert("off"@ =~= seq!['o', 'f', 'f']);
        }
        match &self.original_mode {
            Some(m) => mode_args(self.device_id, m.clone()),
            None => mode_args(self.device_id, "off".to_string()),
        }
    }

    /// The colour a per-LED update shows: only the first colour is used,
    /// and an empty list changes nothing.
    pub fn set_leds_color(&self, colors: &[RgbColor]) -> (res: Option<RgbColor>)
        ensures
            colors@.len() == 0 ==> res is None,
            colors@.len() > 0 ==> res == Some(colors@[0]),
    {
        if colors.len() == 0 {
            None
        } else {
            Some(colors[0])
        }
    }

    pub fn device_id(&self) -> (res: u32)
        ensures
            res == self.spec_device_id(),
    {
        self.device_id
    }

    pub fn led_count(&self) -> (res: usize)
        ensures
            res == self.spec_led_count(),
    {
        self.led_count
    }

    pub fn device_name(&self) -> (res: &str)
        ensures
            res@ == self.spec_device_name(),
    {
        self.device_name.as_str()
    }

    pub fn original_mode(&self) -> (res: Option<&str>)
        ensures
            match (res, self.spec_original_mode()) {
                (None, None) => true,
                (Some(a), Some(b)) => a@ == b,
                _ => false,
            },
    {
        match &self.original_mode {
            Some(m) => Some(m.as_str()),
            None => None,
        }
    }
}

} // verus!
