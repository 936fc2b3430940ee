//! The hwmon (lm-sensors) source: recognising Tenstorrent hwmon entries,
//! naming their sensor files and describing what was discovered.
//!
//! Reading `/sys/class/hwmon` is the caller's work; this module decides what
//! the names, links and file lists it finds mean.

use crate::text::{
    chars_eq, chars_of, decimal_chars, has_prefix, lowercase_chars, push_char, push_decimal, split_chars,
    split_on, string_from_chars, to_lowercase, views, lemma_split_chars_concat, lemma_split_chars_no_sep,
    lemma_decimal_chars_denote,
};
use crate::monitoring::tenstorrent::{is_known_board, lemma_board_architectures, spec_architecture_for_board};
use vstd::prelude::*;
use vstd::string::StringSliceAdditionalSpecFns;
use vstd::utf8::{decode_utf8, encode_utf8, is_char_boundary};

verus! {

broadcast use vstd::string::group_string_axioms;

/// Highest sensor index probed for each sensor type.
pub const MAX_SENSOR_INDEX: usize = 32;

/// The architecture a lower-cased hwmon device name announces, by prefix.
pub open spec fn spec_device_architecture(lowered: Seq<char>) -> Option<Seq<char>> {
    if "blackhole"@.is_prefix_of(lowered) {
        Some("blackhole"@)
    } else if "wormhole"@.is_prefix_of(lowered) {
        Some("wormhole_b0"@)
    } else if "grayskull"@.is_prefix_of(lowered) {
        Some("grayskull"@)
    } else {
        None
    }
}

/// The full PCI address for a short bus id of four bytes (`"0100"` becomes
/// `"0000:01:00.0"`); any other short id is kept as it is.
pub open spec fn spec_full_bus_id(short: Seq<char>) -> Seq<char> {
    let b = encode_utf8(short);
    if b.len() == 4 {
        seq!['0', '0', '0', '0', ':'] + decode_utf8(b.subrange(0, 2)) + seq![':'] + decode_utf8(
            b.subrange(2, 4),
        ) + seq!['.', '0']
    } else {
        short
    }
}

/// The bus id in a device name of the form `<arch>-pci-<bus>`, or
/// `"unknown"` when the name has no such part.
pub open spec fn spec_name_bus_id(name: Seq<char>) -> Seq<char> {
    let parts = split_chars(name, '-');
    if parts.len() == 3 && parts[1] == "pci"@ {
        spec_full_bus_id(parts[2])
    } else {
        "unknown"@
    }
}

/// Splitting a four-byte short bus id in the middle must not cut a
/// character in two.
pub open spec fn bus_id_cuttable(name: Seq<char>) -> bool {
    let parts = split_chars(name, '-');
    (parts.len() == 3 && parts[1] == "pci"@ && encode_utf8(parts[2]).len() == 4) ==> is_char_boundary(
        encode_utf8(parts[2]),
        2,
    )
}

/// Architecture and bus id of a hwmon device name whose lower-cased form is
/// `lowered`.
pub open spec fn spec_parse_device_name(name: Seq<char>, lowered: Seq<char>) -> Option<(Seq<char>, Seq<char>)> {
    match spec_device_architecture(lowered) {
        None => None,
        Some(arch) => Some((arch, spec_name_bus_id(name))),
    }
}

/// The architecture a lower-cased hwmon device name announces, if it is a
/// Tenstorrent device.
pub fn device_architecture(lowered: &str) -> (res: Option<String>)
    ensures
        match (res, spec_device_architecture(lowered@)) {
            (None, None) => true,
            (Some(a), Some(b)) => a@ == b,
            _ => false,
        },
{
    let lc = chars_of(lowered);
    if has_prefix(lc.as_slice(), chars_of("blackhole").as_slice()) {
        Some("blackhole".to_string())
    } else if has_prefix(lc.as_slice(), chars_of("wormhole").as_slice()) {
        Some("wormhole_b0".to_string())
    } else if has_prefix(lc.as_slice(), chars_of("grayskull").as_slice()) {
        Some("grayskull".to_string())
    } else {
        None
    }
}

fn full_bus_id(short: &str) -> (res: String)
    requires
        encode_utf8(short@).len() == 4 ==> is_char_boundary(encode_utf8(short@), 2),
    ensures
        res@ == spec_full_bus_id(short@),
{
    broadcast use vstd::utf8::encode_utf8_decode_utf8;

    if short.as_bytes().len() == 4 {
        let (a, b) = short.split_at(2);
        assert(a@ == decode_utf8(a.spec_bytes()));
        assert(b@ == decode_utf8(b.spec_bytes()));
        let mut s = String::new();
        push_char(&mut s, '0');
        push_char(&mut s, '0');
        push_char(&mut s, '0');
        push_char(&mut s, '0');
        push_char(&mut s, ':');
        let mut t = s;
        t.append(a);
        push_char(&mut t, ':');
        t.append(b);
        push_char(&mut t, '.');
        push_char(&mut t, '0');
        assert(t@ =~= spec_full_bus_id(short@));
        t
    } else {
        short.to_string()
    }
}

/// The bus id a device name carries, or `"unknown"`.
pub fn name_bus_id(name: &str) -> (res: String)
    requires
        bus_id_cuttable(name@),
    ensures
        res@ == spec_name_bus_id(name@),
{
    let parts = split_on(chars_of(name).as_slice(), '-');
    assert(views(parts@).len() == parts@.len());
    if parts.len() == 3 && chars_eq(parts[1].as_slice(), chars_of("pci").as_slice()) {
        assert(views(parts@)[1] == parts@[1]@);
        assert(views(parts@)[2] == parts@[2]@);
        let short = string_from_chars(parts[2].as_slice());
        full_bus_id(short.as_str())
    } else {
        proof {
            if parts@.len() == 3 {
                assert(views(parts@)[1] == parts@[1]@);
            }
        }
        "unknown".to_string()
    }
}

/// Parses a hwmon device name into its architecture and bus id, given its
/// lower-cased form: `"blackhole-pci-0100"` gives `("blackhole",
/// "0000:01:00.0")`, `"blackhole"` gives `("blackhole", "unknown")`, and a
/// name of no Tenstorrent architecture gives `None`.
pub fn classify_device_name(name: &str, lowered: &str) -> (res: Option<(String, String)>)
    requires
        spec_device_architecture(lowered@) is Some ==> bus_id_cuttable(name@),
    ensures
        match (res, spec_parse_device_name(name@, lowered@)) {
            (None, None) => true,
            (Some((a, b)), Some((x, y))) => a@ == x && b@ == y,
            _ => false,
        },
{
    match device_architecture(lowered) {
        None => None,
        Some(arch) => Some((arch, name_bus_id(name))),
    }
}

/// Parses a hwmon device name into its architecture and bus id.
pub fn parse_tenstorrent_device_name(name: &str) -> (res: Option<(String, String)>)
    requires
        spec_device_architecture(lowercase_chars(name@)) is Some ==> bus_id_cuttable(name@),
    ensures
        match (res, spec_parse_device_name(name@, lowercase_chars(name@))) {
            (None, None) => true,
            (Some((a, b)), Some((x, y))) => a@ == x && b@ == y,
            _ => false,
        },
{
    let lowered = to_lowercase(name);
    classify_device_name(name, lowered.as_str())
}

/// Parses a hwmon device name, first checking that it can be parsed at all:
/// `None` for a Tenstorrent name whose short bus id would have to be cut
/// inside a character, otherwise `Some` of what
/// `parse_tenstorrent_device_name` gives.
pub fn parse_tenstorrent_device_name_checked(name: &str) -> (res: Option<Option<(String, String)>>)
    ensures
        match res {
            None => spec_device_architecture(lowercase_chars(name@)) is Some && !bus_id_cuttable(name@),
            Some(r) => match (r, spec_parse_device_name(name@, lowercase_chars(name@))) {
                (None, None) => true,
                (Some((a, b)), Some((x, y))) => a@ == x && b@ == y,
                _ => false,
            },
        },
{
    let lowered = to_lowercase(name);
    if device_architecture(lowered.as_str()).is_some() && !bus_id_is_cuttable(name) {
        return None;
    }
    Some(parse_tenstorrent_device_name(name))
}

/// Whether the short bus id of a device name can be split in the middle.
pub fn bus_id_is_cuttable(name: &str) -> (res: bool)
    ensures
        res == bus_id_cuttable(name@),
{
    let parts = split_on(chars_of(name).as_slice(), '-');
    assert(views(parts@).len() == parts@.len());
    if parts.len() == 3 && chars_eq(parts[1].as_slice(), chars_of("pci").as_slice()) {
        assert(views(parts@)[1] == parts@[1]@);
        assert(views(parts@)[2] == parts@[2]@);
        let short = string_from_chars(parts[2].as_slice());
        let s = short.as_str();
        if s.as_bytes().len() == 4 {
            s.is_char_boundary(2)
        } else {
            true
        }
    } else {
        proof {
            if parts@.len() == 3 {
                assert(views(parts@)[1] == parts@[1]@);
            }
        }
        true
    }
}

/// Whether a sysfs path component looks like a PCI address
/// (`DDDD:BB:DD.F`): three `:`-separated parts of 4, 2 and 4 bytes, the last
/// one holding a `.`.
pub open spec fn is_pci_address(component: Seq<char>) -> bool {
    let parts = split_chars(component, ':');
    &&& parts.len() == 3
    &&& encode_utf8(parts[0]).len() == 4
    &&& encode_utf8(parts[1]).len() == 2
    &&& parts[2].contains('.')
    &&& encode_utf8(parts[2]).len() == 4
}

/// A component `<domain>:<bus>:<device.function>` is a PCI address exactly
/// when the domain is four bytes, the bus two, and the last part four bytes
/// holding a `.`.
pub proof fn lemma_pci_address_form(domain: Seq<char>, bus: Seq<char>, devfn: Seq<char>)
    requires
        !domain.contains(':'),
        !bus.contains(':'),
        !devfn.contains(':'),
    ensures
        is_pci_address(domain + seq![':'] + bus + seq![':'] + devfn) <==> (encode_utf8(domain).len() == 4
            && encode_utf8(bus).len() == 2 && devfn.contains('.') && encode_utf8(devfn).len() == 4),
{
    lemma_split_chars_no_sep(domain, ':');
    lemma_split_chars_no_sep(bus, ':');
    lemma_split_chars_no_sep(devfn, ':');
    lemma_split_chars_concat(bus, devfn, ':');
    lemma_split_chars_concat(domain, bus + seq![':'] + devfn, ':');
    assert(domain + seq![':'] + bus + seq![':'] + devfn =~= domain + seq![':'] + (bus + seq![':'] + devfn));
    assert(split_chars(domain + seq![':'] + bus + seq![':'] + devfn, ':') =~= seq![domain, bus, devfn]);
}

/// The last of the given components that looks like a PCI address.
pub open spec fn last_pci_address(components: Seq<Seq<char>>) -> Option<Seq<char>>
    decreases components.len(),
{
    if components.len() == 0 {
        None
    } else if is_pci_address(components.last()) {
        Some(components.last())
    } else {
        last_pci_address(components.drop_last())
    }
}

/// The PCI bus id in the real path of a hwmon device: the deepest
/// `/`-separated component that looks like a PCI address.
pub open spec fn spec_pci_bus_id_from_link(target: Seq<char>) -> Option<Seq<char>> {
    last_pci_address(split_chars(target, '/'))
}

proof fn lemma_last_pci_address_is_last(comps: Seq<Seq<char>>)
    ensures
        match last_pci_address(comps) {
            Some(x) => exists|i: int|
                0 <= i < comps.len() && comps[i] == x && is_pci_address(x) && forall|j: int|
                    i < j < comps.len() ==> !is_pci_address(#[trigger] comps[j]),
            None => forall|i: int| 0 <= i < comps.len() ==> !is_pci_address(#[trigger] comps[i]),
        },
    decreases comps.len(),
{
    if comps.len() > 0 {
        let last = comps.len() - 1;
        if is_pci_address(comps.last()) {
            assert(comps[last] == comps.last());
        } else {
            let rest = comps.drop_last();
            lemma_last_pci_address_is_last(rest);
            match last_pci_address(rest) {
                Some(x) => {
                    let i = choose|i: int|
                        0 <= i < rest.len() && rest[i] == x && is_pci_address(x) && forall|j: int|
                            i < j < rest.len() ==> !is_pci_address(#[trigger] rest[j]);
                    assert(comps[i] == x);
                    assert forall|j: int| i < j < comps.len() implies !is_pci_address(#[trigger] comps[j]) by {
                        if j < last {
                            assert(comps[j] == rest[j]);
                        }
                    }
                },
                None => {
                    assert forall|i: int| 0 <= i < comps.len() implies !is_pci_address(#[trigger] comps[i]) by {
                        if i < last {
                            assert(comps[i] == rest[i]);
                        }
                    }
                },
            }
        }
    }
}

/// The bus id taken from a sysfs link is its deepest PCI address: a
/// `/`-separated component of the target, however deep, that looks like a
/// PCI address with none after it; `None` exactly when no component does.
pub proof fn lemma_pci_bus_id_is_deepest(target: Seq<char>)
    ensures
        ({
            let comps = split_chars(target, '/');
            match spec_pci_bus_id_from_link(target) {
                Some(x) => exists|i: int|
                    0 <= i < comps.len() && comps[i] == x && is_pci_address(x) && forall|j: int|
                        i < j < comps.len() ==> !is_pci_address(#[trigger] comps[j]),
                None => forall|i: int| 0 <= i < comps.len() ==> !is_pci_address(#[trigger] comps[i]),
            }
        }),
{
    lemma_last_pci_address_is_last(split_chars(target, '/'));
}

fn byte_len(cs: &[char]) -> (res: usize)
    ensures
        res == encode_utf8(cs@).len(),
{
    let s = string_from_chars(cs);
    s.as_str().as_bytes().len()
}

fn contains_char(cs: &[char], c: char) -> (res: bool)
    ensures
        res == cs@.contains(c),
{
    let mut i: usize = 0;
    while i < cs.len()
        invariant
            i <= cs@.len(),
            forall|j: int| 0 <= j < i ==> cs@[j] != c,
        decreases cs@.len() - i,
    {
        if cs[i] == c {
            assert(cs@[i as int] == c);
            return true;
        }
        i = i + 1;
    }
    false
}

fn pci_address(component: &[char]) -> (res: bool)
    ensures
        res == is_pci_address(component@),
{
    let parts = split_on(component, ':');
    assert(views(parts@).len() == parts@.len());
    if parts.len() != 3 {
        return false;
    }
    assert(views(parts@)[0] == parts@[0]@);
    assert(views(parts@)[1] == parts@[1]@);
    assert(views(parts@)[2] == parts@[2]@);
    byte_len(parts[0].as_slice()) == 4 && byte_len(parts[1].as_slice()) == 2 && contains_char(
        parts[2].as_slice(),
        '.',
    ) && byte_len(parts[2].as_slice()) == 4
}

/// Extracts the PCI bus id from the target of a hwmon device's sysfs link,
/// e.g. `../../devices/pci0000:00/0000:00:01.1/0000:01:00.0/hwmon/hwmon1`
/// gives `0000:01:00.0`.
pub fn pci_bus_id_from_link(target: &str) -> (res: Option<String>)
    ensures
        match (res, spec_pci_bus_id_from_link(target@)) {
            (None, None) => true,
            (Some(a), Some(b)) => a@ == b,
            _ => false,
        },
{
    let comps = split_on(chars_of(target).as_slice(), '/');
    let ghost all = views(comps@);
    assert(all == split_chars(target@, '/'));
    let mut i: usize = comps.len();
    assert(all.subrange(0, i as int) =~= all);
    while i > 0
        invariant
            i <= comps@.len(),
            all == views(comps@),
            all == split_chars(target@, '/'),
            all.len() == comps@.len(),
            last_pci_address(all) == last_pci_address(all.subrange(0, i as int)),
        decreases i,
    {
        let ghost pre = all.subrange(0, i as int);
        assert(pre.last() == comps@[i - 1]@);
        if pci_address(comps[i - 1].as_slice()) {
            assert(pre.len() > 0);
            assert(last_pci_address(pre) == Some(pre.last()));
            return Some(string_from_chars(comps[i - 1].as_slice()));
        }
        assert(pre.drop_last() =~= all.subrange(0, i - 1));
        i = i - 1;
    }
    None
}

/// The bus id recorded for a hwmon device: the one its name carries; when
/// that is `"unknown"`, the one in its sysfs link target, or else
/// `"unknown-<n>"` with `n` the number of devices found before it.
pub open spec fn spec_resolve_bus_id(parsed: Seq<char>, from_link: Option<Seq<char>>, found_before: nat) -> Seq<char> {
    if parsed == "unknown"@ {
        match from_link {
            Some(b) => b,
            None => seq!['u', 'n', 'k', 'n', 'o', 'w', 'n', '-'] + decimal_chars(found_before),
        }
    } else {
        parsed
    }
}

/// A bus id read from the device name is kept; an `unknown` one is taken
/// from the sysfs link when there is one, and is otherwise `unknown-<n>`
/// with the count `n` of devices found before, so two devices resolved
/// that way get different ids.
pub proof fn lemma_resolved_bus_ids(parsed: Seq<char>, link: Seq<char>, n: nat, m: nat)
    ensures
        parsed != "unknown"@ ==> spec_resolve_bus_id(parsed, None, n) == parsed && spec_resolve_bus_id(
            parsed,
            Some(link),
            n,
        ) == parsed,
        spec_resolve_bus_id(seq!['u', 'n', 'k', 'n', 'o', 'w', 'n'], Some(link), n) == link,
        spec_resolve_bus_id(seq!['u', 'n', 'k', 'n', 'o', 'w', 'n'], None, n) == seq![
            'u',
            'n',
            'k',
            'n',
            'o',
            'w',
            'n',
            '-',
        ] + decimal_chars(n),
        n != m ==> spec_resolve_bus_id(seq!['u', 'n', 'k', 'n', 'o', 'w', 'n'], None, n) != spec_resolve_bus_id(
            seq!['u', 'n', 'k', 'n', 'o', 'w', 'n'],
            None,
            m,
        ),
{
    reveal_strlit("unknown");
    assert("unknown"@ =~= seq!['u', 'n', 'k', 'n', 'o', 'w', 'n']);
    lemma_decimal_chars_denote(n);
    lemma_decimal_chars_denote(m);
    let p = seq!['u', 'n', 'k', 'n', 'o', 'w', 'n', '-'];
    if n != m && p + decimal_chars(n) == p + decimal_chars(m) {
        assert((p + decimal_chars(n)).subrange(8, 8 + decimal_chars(n).len() as int) =~= decimal_chars(n));
        assert((p + decimal_chars(m)).subrange(8, 8 + decimal_chars(m).len() as int) =~= decimal_chars(m));
        assert(decimal_chars(n) == decimal_chars(m));
    }
}

/// The characters of an optional string.
pub open spec fn opt_string_view(o: Option<String>) -> Option<Seq<char>> {
    match o {
        Some(s) => Some(s@),
        None => None,
    }
}

/// Whether a bus id parsed from a device name is the `"unknown"` marker, in
/// which case the sysfs link is consulted.
pub fn is_unknown_bus_id(bus_id: &str) -> (res: bool)
    ensures
        res == (bus_id@ == "unknown"@),
{
    chars_eq(chars_of(bus_id).as_slice(), chars_of("unknown").as_slice())
}

/// Settles the bus id of a discovered device; see `spec_resolve_bus_id`.
pub fn resolve_bus_id(parsed: String, from_link: Option<String>, found_before: usize) -> (res: String)
    ensures
        res@ == spec_resolve_bus_id(parsed@, opt_string_view(from_link), found_before as nat),
{
    if is_unknown_bus_id(parsed.as_str()) {
        match from_link {
            Some(b) => b,
            None => {
                let mut s = String::new();
                push_char(&mut s, 'u');
                push_char(&mut s, 'n');
                push_char(&mut s, 'k');
                push_char(&mut s, 'n');
                push_char(&mut s, 'o');
                push_char(&mut s, 'w');
                push_char(&mut s, 'n');
                push_char(&mut s, '-');
                push_decimal(&mut s, found_before as u64);
                assert(s@ =~= seq!['u', 'n', 'k', 'n', 'o', 'w', 'n', '-'] + decimal_chars(found_before as nat));
                s
            },
        }
    } else {
        parsed
    }
}

/// The sysfs file name of a sensor reading, e.g. `temp1_input`.
pub open spec fn spec_sensor_file(sensor_type: Seq<char>, index: nat, suffix: Seq<char>) -> Seq<char> {
    sensor_type + decimal_chars(index) + suffix
}

pub open spec fn input_suffix() -> Seq<char> {
    seq!['_', 'i', 'n', 'p', 'u', 't']
}

pub open spec fn label_suffix() -> Seq<char> {
    seq!['_', 'l', 'a', 'b', 'e', 'l']
}

/// The file holding reading `index` of a sensor type: `<type><index>_input`.
pub fn sensor_input_file(sensor_type: &str, index: usize) -> (res: String)
    ensures
        res@ == spec_sensor_file(sensor_type@, index as nat, input_suffix()),
{
    let mut s = sensor_type.to_string();
    push_decimal(&mut s, index as u64);
    push_char(&mut s, '_');
    push_char(&mut s, 'i');
    push_char(&mut s, 'n');
    push_char(&mut s, 'p');
    push_char(&mut s, 'u');
    push_char(&mut s, 't');
    assert(s@ =~= spec_sensor_file(sensor_type@, index as nat, input_suffix()));
    s
}

/// The file holding the label of sensor `index`: `<type><index>_label`.
pub fn sensor_label_file(sensor_type: &str, index: usize) -> (res: String)
    ensures
        res@ == spec_sensor_file(sensor_type@, index as nat, label_suffix()),
{
    let mut s = sensor_type.to_string();
    push_decimal(&mut s, index as u64);
    push_char(&mut s, '_');
    push_char(&mut s, 'l');
    push_char(&mut s, 'a');
    push_char(&mut s, 'b');
    push_char(&mut s, 'e');
    push_char(&mut s, 'l');
    assert(s@ =~= spec_sensor_file(sensor_type@, index as nat, label_suffix()));
    s
}

/// Whether some file name in `present` equals `name`.
pub open spec fn names_contain(present: Seq<String>, name: Seq<char>) -> bool {
    exists|j: int| 0 <= j < present.len() && present[j]@ == name
}

/// The sensor indices `1..=n` whose input file is present, ascending.
pub open spec fn spec_sensor_indices(sensor_type: Seq<char>, present: Seq<String>, n: nat) -> Seq<usize>
    decreases n,
{
    if n == 0 {
        Seq::empty()
    } else {
        let before = spec_sensor_indices(sensor_type, present, (n - 1) as nat);
        if names_contain(present, spec_sensor_file(sensor_type, n, input_suffix())) {
            before.push(n as usize)
        } else {
            before
        }
    }
}

fn contains_name(present: &Vec<String>, name: &String) -> (res: bool)
    ensures
        res == names_contain(present@, name@),
{
    let mut j: usize = 0;
    while j < present.len()
        invariant
            j <= present@.len(),
            forall|k: int| 0 <= k < j ==> present@[k]@ != name@,
        decreases present@.len() - j,
    {
        if present[j] == *name {
            return true;
        }
        j = j + 1;
    }
    false
}

/// The sensor indices found among `1..=n` ascend, each lies in `1..=n`,
/// and they are exactly the `i` whose input file `<type><i>_input` is
/// present.
pub proof fn lemma_sensor_indices(t: Seq<char>, present: Seq<String>, n: nat)
    requires
        n <= usize::MAX,
    ensures
        forall|k: int, m: int|
            0 <= k < m < spec_sensor_indices(t, present, n).len() ==> spec_sensor_indices(t, present, n)[k]
                < spec_sensor_indices(t, present, n)[m],
        forall|k: int|
            0 <= k < spec_sensor_indices(t, present, n).len() ==> 1 <= #[trigger] spec_sensor_indices(
                t,
                present,
                n,
            )[k] <= n,
        forall|i: usize|
            1 <= i <= n ==> (#[trigger] spec_sensor_indices(t, present, n).contains(i) <==> names_contain(
                present,
                t + decimal_chars(i as nat) + seq!['_', 'i', 'n', 'p', 'u', 't'],
            )),
    decreases n,
{
    if n > 0 {
        let m = (n - 1) as nat;
        lemma_sensor_indices(t, present, m);
        let before = spec_sensor_indices(t, present, m);
        let idx = spec_sensor_indices(t, present, n);
        let file = t + decimal_chars(n) + seq!['_', 'i', 'n', 'p', 'u', 't'];
        assert(spec_sensor_file(t, n, input_suffix()) == file);
        assert forall|k: int| 0 <= k < before.len() implies before[k] < n by {
            assert(1 <= before[k] <= m);
        }
        if names_contain(present, file) {
            assert(idx == before.push(n as usize));
            assert forall|i: usize| 1 <= i <= n implies (#[trigger] idx.contains(i) <==> names_contain(
                present,
                t + decimal_chars(i as nat) + seq!['_', 'i', 'n', 'p', 'u', 't'],
            )) by {
                if i < n {
                    if idx.contains(i) {
                        let k = choose|k: int| 0 <= k < idx.len() && idx[k] == i;
                        assert(k < before.len());
                        assert(before[k] == i);
                        assert(before.contains(i));
                    }
                    if before.contains(i) {
                        let k = choose|k: int| 0 <= k < before.len() && before[k] == i;
                        assert(idx[k] == i);
                    }
                } else {
                    assert(idx[before.len() as int] == i);
                }
            }
        } else {
            assert(idx == before);
            assert forall|i: usize| 1 <= i <= n implies (#[trigger] idx.contains(i) <==> names_contain(
                present,
                t + decimal_chars(i as nat) + seq!['_', 'i', 'n', 'p', 'u', 't'],
            )) by {
                if i == n && idx.contains(i) {
                    let k = choose|k: int| 0 <= k < idx.len() && idx[k] == i;
                    assert(before[k] < n);
                }
            }
        }
    }
}

/// The indices `1..=32` of the sensors of a type whose input file (e.g.
/// `temp3_input`) is among the file names present in the device directory.
pub fn discover_sensor_indices(sensor_type: &str, present: &Vec<String>) -> (res: Vec<usize>)
    ensures
        res@ == spec_sensor_indices(sensor_type@, present@, MAX_SENSOR_INDEX as nat),
        forall|k: int, m: int| 0 <= k < m < res@.len() ==> res@[k] < res@[m],
        forall|k: int| 0 <= k < res@.len() ==> 1 <= #[trigger] res@[k] <= 32,
        forall|i: usize|
            1 <= i <= 32 ==> (#[trigger] res@.contains(i) <==> names_contain(
                present@,
                sensor_type@ + decimal_chars(i as nat) + seq!['_', 'i', 'n', 'p', 'u', 't'],
            )),
{
    proof {
        lemma_sensor_indices(sensor_type@, present@, MAX_SENSOR_INDEX as nat);
    }
    let mut indices: Vec<usize> = Vec::new();
    let mut i: usize = 1;
    while i <= MAX_SENSOR_INDEX
        invariant
            1 <= i <= MAX_SENSOR_INDEX + 1,
            indices@ == spec_sensor_indices(sensor_type@, present@, (i - 1) as nat),
        decreases MAX_SENSOR_INDEX + 1 - i,
    {
        let name = sensor_input_file(sensor_type, i);
        if contains_name(present, &name) {
            indices.push(i);
        }
        i = i + 1;
    }
    indices
}

/// The board type assumed for an architecture.
pub open spec fn spec_board_type(architecture: Seq<char>) -> Seq<char> {
    if architecture == "blackhole"@ {
        "p300c"@
    } else if architecture == "wormhole_b0"@ {
        "n300"@
    } else if architecture == "grayskull"@ {
        "e150"@
    } else {
        "unknown"@
    }
}

/// Infers the board type from the architecture.
pub fn board_type_for_architecture(architecture: &str) -> (res: String)
    ensures
        res@ == spec_board_type(architecture@),
{
    let a = chars_of(architecture);
    if chars_eq(a.as_slice(), chars_of("blackhole").as_slice()) {
        "p300c".to_string()
    } else if chars_eq(a.as_slice(), chars_of("wormhole_b0").as_slice()) {
        "n300".to_string()
    } else if chars_eq(a.as_slice(), chars_of("grayskull").as_slice()) {
        "e150".to_string()
    } else {
        "unknown".to_string()
    }
}

/// The thermal design power assumed for an architecture, in whole watts.
pub open spec fn spec_tdp_watts(architecture: Seq<char>) -> u32 {
    if architecture == "blackhole"@ {
        300
    } else if architecture == "wormhole_b0"@ {
        250
    } else if architecture == "grayskull"@ {
        200
    } else {
        300
    }
}

/// Estimates the TDP, in watts, from the architecture.
pub fn tdp_watts_for_architecture(architecture: &str) -> (res: u32)
    ensures
        res == spec_tdp_watts(architecture@),
{
    let a = chars_of(architecture);
    if chars_eq(a.as_slice(), chars_of("blackhole").as_slice()) {
        300
    } else if chars_eq(a.as_slice(), chars_of("wormhole_b0").as_slice()) {
        250
    } else if chars_eq(a.as_slice(), chars_of("grayskull").as_slice()) {
        200
    } else {
        300
    }
}

/// A device name `<arch>-pci-<bus>` gives the bus id made from `<bus>`; a
/// name without any `-` gives `unknown`.
pub proof fn lemma_name_bus_id(arch: Seq<char>, bus: Seq<char>, plain: Seq<char>)
    requires
        !arch.contains('-'),
        !bus.contains('-'),
        !plain.contains('-'),
    ensures
        spec_name_bus_id(arch + seq!['-', 'p', 'c', 'i', '-'] + bus) == spec_full_bus_id(bus),
        spec_name_bus_id(plain) == seq!['u', 'n', 'k', 'n', 'o', 'w', 'n'],
{
    let pci = seq!['p', 'c', 'i'];
    assert(!pci.contains('-')) by {
        if pci.contains('-') {
            let k = choose|k: int| 0 <= k < pci.len() && pci[k] == '-';
            assert(pci[k] != '-');
        }
    }
    lemma_split_chars_no_sep(arch, '-');
    lemma_split_chars_no_sep(bus, '-');
    lemma_split_chars_no_sep(pci, '-');
    lemma_split_chars_no_sep(plain, '-');
    lemma_split_chars_concat(pci, bus, '-');
    lemma_split_chars_concat(arch, pci + seq!['-'] + bus, '-');
    assert(arch + seq!['-', 'p', 'c', 'i', '-'] + bus =~= arch + seq!['-'] + (pci + seq!['-'] + bus));
    let parts = split_chars(arch + seq!['-', 'p', 'c', 'i', '-'] + bus, '-');
    assert(parts =~= seq![arch, pci, bus]);
    reveal_strlit("pci");
    reveal_strlit("unknown");
    assert("pci"@ =~= pci);
    assert("unknown"@ =~= seq!['u', 'n', 'k', 'n', 'o', 'w', 'n']);
}

/// A four-byte short bus id, cut in the middle on a character boundary,
/// becomes the full PCI address in domain `0000`, function `0`: its two
/// halves, in order, as bus and device (`"0100"` becomes `"0000:01:00.0"`).
pub proof fn lemma_full_bus_id_halves(short: Seq<char>)
    requires
        encode_utf8(short).len() == 4,
        is_char_boundary(encode_utf8(short), 2),
    ensures
        ({
            let b = encode_utf8(short);
            let bus = decode_utf8(b.subrange(0, 2));
            let dev = decode_utf8(b.subrange(2, 4));
            &&& bus + dev == short
            &&& spec_full_bus_id(short) == seq!['0', '0', '0', '0', ':'] + bus + seq![':'] + dev + seq!['.', '0']
        }),
{
    let b = encode_utf8(short);
    vstd::utf8::encode_utf8_valid_utf8(short);
    vstd::utf8::encode_utf8_decode_utf8(short);
    vstd::utf8::decode_utf8_split(b, 2);
}

/// A hwmon device name announces its architecture by its prefix: a name
/// starting with `blackhole` is Blackhole, one starting with `wormhole` is
/// Wormhole B0 and one starting with `grayskull` is Grayskull; a name with
/// none of these prefixes is no Tenstorrent device.
pub proof fn lemma_device_name_architectures(l: Seq<char>)
    ensures
        seq!['b', 'l', 'a', 'c', 'k', 'h', 'o', 'l', 'e'].is_prefix_of(l) ==> spec_device_architecture(l)
            == Some(seq!['b', 'l', 'a', 'c', 'k', 'h', 'o', 'l', 'e']),
        seq!['w', 'o', 'r', 'm', 'h', 'o', 'l', 'e'].is_prefix_of(l) ==> spec_device_architecture(l) == Some(
            seq!['w', 'o', 'r', 'm', 'h', 'o', 'l', 'e', '_', 'b', '0'],
        ),
        seq!['g', 'r', 'a', 'y', 's', 'k', 'u', 'l', 'l'].is_prefix_of(l) ==> spec_device_architecture(l)
            == Some(seq!['g', 'r', 'a', 'y', 's', 'k', 'u', 'l', 'l']),
        !(seq!['b', 'l', 'a', 'c', 'k', 'h', 'o', 'l', 'e'].is_prefix_of(l) || seq![
            'w',
            'o',
            'r',
            'm',
            'h',
            'o',
            'l',
            'e',
        ].is_prefix_of(l) || seq!['g', 'r', 'a', 'y', 's', 'k', 'u', 'l', 'l'].is_prefix_of(l))
            ==> spec_device_architecture(l) is None,
{
    reveal_strlit("blackhole");
    reveal_strlit("wormhole");
    reveal_strlit("wormhole_b0");
    reveal_strlit("grayskull");
    assert("blackhole"@ =~= seq!['b', 'l', 'a', 'c', 'k', 'h', 'o', 'l', 'e']);
    assert("wormhole"@ =~= seq!['w', 'o', 'r', 'm', 'h', 'o', 'l', 'e']);
    assert("wormhole_b0"@ =~= seq!['w', 'o', 'r', 'm', 'h', 'o', 'l', 'e', '_', 'b', '0']);
    assert("grayskull"@ =~= seq!['g', 'r', 'a', 'y', 's', 'k', 'u', 'l', 'l']);
    if "wormhole"@.is_prefix_of(l) {
        assert(l[0] == 'w');
        assert(!"blackhole"@.is_prefix_of(l));
    }
    if "grayskull"@.is_prefix_of(l) {
        assert(l[0] == 'g');
        assert(!"blackhole"@.is_prefix_of(l));
        assert(!"wormhole"@.is_prefix_of(l));
    }
}

/// The board type assumed for each Tenstorrent architecture is a known
/// board of that very architecture: P300C for Blackhole, N300 for Wormhole
/// B0 and E150 for Grayskull, so the board table of tt-smi reads the
/// architecture back; any other architecture has the board type `unknown`.
pub proof fn lemma_board_type_names_its_architecture(arch: Seq<char>)
    ensures
        arch == seq!['b', 'l', 'a', 'c', 'k', 'h', 'o', 'l', 'e'] ==> spec_board_type(arch) == seq![
            'p',
            '3',
            '0',
            '0',
            'c',
        ],
        arch == seq!['w', 'o', 'r', 'm', 'h', 'o', 'l', 'e', '_', 'b', '0'] ==> spec_board_type(arch) == seq![
            'n',
            '3',
            '0',
            '0',
        ],
        arch == seq!['g', 'r', 'a', 'y', 's', 'k', 'u', 'l', 'l'] ==> spec_board_type(arch) == seq![
            'e',
            '1',
            '5',
            '0',
        ],
        (arch == "blackhole"@ || arch == "wormhole_b0"@ || arch == "grayskull"@) ==> is_known_board(
            spec_board_type(arch),
        ) && spec_architecture_for_board(spec_board_type(arch)) == arch,
        !(arch == "blackhole"@ || arch == "wormhole_b0"@ || arch == "grayskull"@) ==> spec_board_type(arch)
            == seq!['u', 'n', 'k', 'n', 'o', 'w', 'n'] && !is_known_board(spec_board_type(arch)),
{
    reveal_strlit("blackhole");
    reveal_strlit("wormhole_b0");
    reveal_strlit("grayskull");
    reveal_strlit("p300c");
    reveal_strlit("n300");
    reveal_strlit("e150");
    reveal_strlit("unknown");
    reveal_strlit("p150");
    reveal_strlit("p300");
    reveal_strlit("n150");
    reveal_strlit("e75");
    lemma_board_architectures(spec_board_type(arch));
    assert("blackhole"@ =~= seq!['b', 'l', 'a', 'c', 'k', 'h', 'o', 'l', 'e']);
    assert("wormhole_b0"@ =~= seq!['w', 'o', 'r', 'm', 'h', 'o', 'l', 'e', '_', 'b', '0']);
    assert("grayskull"@ =~= seq!['g', 'r', 'a', 'y', 's', 'k', 'u', 'l', 'l']);
    assert("p300c"@ =~= seq!['p', '3', '0', '0', 'c']);
    assert("n300"@ =~= seq!['n', '3', '0', '0']);
    assert("e150"@ =~= seq!['e', '1', '5', '0']);
    assert("unknown"@ =~= seq!['u', 'n', 'k', 'n', 'o', 'w', 'n']);
}

/// Every architecture a hwmon device name announces is one tt-smi names
/// too: its assumed board type is known and reads back as it.
pub proof fn lemma_device_architecture_has_board(l: Seq<char>)
    ensures
        spec_device_architecture(l) matches Some(a) ==> is_known_board(spec_board_type(a))
            && spec_architecture_for_board(spec_board_type(a)) == a,
{
    if let Some(a) = spec_device_architecture(l) {
        lemma_board_type_names_its_architecture(a);
    }
}

/// The assumed thermal design power: 300 W for Blackhole, 250 W for
/// Wormhole B0, 200 W for Grayskull and 300 W for anything else.
pub proof fn lemma_tdp_table(arch: Seq<char>)
    ensures
        arch == seq!['b', 'l', 'a', 'c', 'k', 'h', 'o', 'l', 'e'] ==> spec_tdp_watts(arch) == 300,
        arch == seq!['w', 'o', 'r', 'm', 'h', 'o', 'l', 'e', '_', 'b', '0'] ==> spec_tdp_watts(arch) == 250,
        arch == seq!['g', 'r', 'a', 'y', 's', 'k', 'u', 'l', 'l'] ==> spec_tdp_watts(arch) == 200,
        !(arch == "blackhole"@ || arch == "wormhole_b0"@ || arch == "grayskull"@) ==> spec_tdp_watts(arch)
            == 300,
{
    reveal_strlit("blackhole");
    reveal_strlit("wormhole_b0");
    reveal_strlit("grayskull");
    assert("blackhole"@ =~= seq!['b', 'l', 'a', 'c', 'k', 'h', 'o', 'l', 'e']);
    assert("wormhole_b0"@ =~= seq!['w', 'o', 'r', 'm', 'h', 'o', 'l', 'e', '_', 'b', '0']);
    assert("grayskull"@ =~= seq!['g', 'r', 'a', 'y', 's', 'k', 'u', 'l', 'l']);
}

/// A hwmon device recognised as a Tenstorrent chip.
pub struct HwmonDevice {
    /// Path of the hwmon directory, e.g. `/sys/class/hwmon/hwmon2`.
    pub path: String,
    /// Device name, e.g. `blackhole-pci-0100`.
    pub name: String,
    /// PCI bus id, e.g. `0000:01:00.0`.
    pub bus_id: String,
    /// Device architecture (`blackhole`, `wormhole_b0`, `grayskull`).
    pub architecture: String,
    /// Available temperature sensor indices.
    pub temp_indices: Vec<usize>,
    /// Available power sensor indices.
    pub power_indices: Vec<usize>,
}

/// Why a monitor could not be set up or polled.
#[derive(Debug, Clone, Copy, PartialEq, Eq, Structural)]
pub enum MonitorError {
    /// No Tenstorrent device was found.
    NoDevices,
    /// The `tt-smi` tool could not be run successfully.
    ToolUnavailable,
    /// No device yielded a reading.
    NoReadings,
}

/// The lm-sensors (hwmon) monitor: the Tenstorrent devices found in hwmon.
pub struct SensorsMonitor {
    hwmon_devices: Vec<HwmonDevice>,
}

impl SensorsMonitor {
    pub closed spec fn spec_devices(&self) -> Seq<HwmonDevice> {
        self.hwmon_devices@
    }

    /// A monitor over the discovered devices; there must be at least one.
    pub fn new(hwmon_devices: Vec<HwmonDevice>) -> (res: Result<Self, MonitorError>)
        ensures
            hwmon_devices@.len() == 0 ==> res == Err::<Self, MonitorError>(MonitorError::NoDevices),
            hwmon_devices@.len() > 0 ==> (res matches Ok(m) && m.spec_devices() == hwmon_devices@),
    {
        if hwmon_devices.len() == 0 {
            Err(MonitorError::NoDevices)
        } else {
            Ok(Self { hwmon_devices })
        }
    }

    pub fn devices(&self) -> (res: &Vec<HwmonDevice>)
        ensures
            res@ == self.spec_devices(),
    {
        &self.hwmon_devices
    }

    /// The monitoring source name.
    pub fn source_name(&self) -> (res: &'static str)
        ensures
            res@ == "lm-sensors"@,
            res@ == seq!['l', 'm', '-', 's', 'e', 'n', 's', 'o', 'r', 's'],
    {
        proof {
            reveal_strlit("lm-sensors");
        }
        "lm-sensors"
    }
}

/// The readings of a poll, which must hold at least one device.
pub fn require_readings<T>(readings: Vec<T>) -> (res: Result<Vec<T>, MonitorError>)
    ensures
        readings@.len() == 0 ==> (res matches Err(e) && e == MonitorError::NoReadings),
        readings@.len() > 0 ==> (res matches Ok(v) && v@ == readings@),
{
    if readings.len() == 0 {
        Err(MonitorError::NoReadings)
    } else {
        Ok(readings)
    }
}

} // verus!
