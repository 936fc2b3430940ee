//! Configuration values that the service reads from its TOML file, and the
//! format rule for colour strings.
//!
//! Reading and decoding the file is the caller's work.

use crate::text::{chars_eq, chars_of};
use vstd::prelude::*;
use vstd::string::StringSliceAdditionalSpecFns;

verus! {

broadcast use vstd::string::group_string_axioms;

/// Monitoring configuration.
pub struct MonitoringConfig {
    /// Polling interval in milliseconds.
    pub poll_interval_ms: u64,
    /// Data source: `tt-smi` or `lm-sensors`.
    pub source: MonitoringSource,
}

/// Where telemetry comes from.
#[derive(Debug, Clone, Copy, PartialEq, Eq, Structural)]
pub enum MonitoringSource {
    TtSmi,
    LmSensors,
}

/// OpenRGB server configuration.
pub struct OpenRgbConfig {
    pub server_host: String,
    pub server_port: u16,
    pub device_name: String,
    pub zone_strategy: ZoneStrategy,
}

/// Strategy for mapping temperatures to RGB zones.
#[derive(Debug, Clone, Copy, PartialEq, Eq, Structural)]
pub enum ZoneStrategy {
    /// All zones show the hottest device.
    Unified,
    /// Each zone represents one device.
    PerDevice,
    /// Smooth gradient across all zones.
    Gradient,
}

/// Logging configuration.
pub struct LoggingConfig {
    pub level: String,
    pub log_file: Option<String>,
}

/// The log level used when none is configured: `info`.
pub fn default_log_level() -> (res: String)
    ensures
        res@ == "info"@,
        res@ == seq!['i', 'n', 'f', 'o'],
{
    proof {
        reveal_strlit("info");
    }
    "info".to_string()
}

impl Default for LoggingConfig {
    fn default() -> (res: Self)
        ensures
            res.level@ == "info"@,
            res.log_file is None,
    {
        Self { level: default_log_level(), log_file: None }
    }
}

/// Whether a colour string has the configured hex form: seven bytes, the
/// first a `#` (like `#FF0000`).
pub open spec fn spec_is_hex_color_format(bytes: Seq<u8>) -> bool {
    bytes.len() == 7 && bytes[0] == 0x23
}

/// Checks the configured form of a threshold colour, `#RRGGBB` by length.
pub fn is_hex_color_format(color: &str) -> (res: bool)
    ensures
        res == spec_is_hex_color_format(color.spec_bytes()),
{
    let b = color.as_bytes();
    b.len() == 7 && b[0] == 0x23
}

/// Why the active colour scheme cannot be used.
#[derive(Debug, Clone, Copy, PartialEq, Eq, Structural)]
pub enum SchemeError {
    /// No scheme of that name is configured.
    NotFound,
    /// The scheme has no thresholds.
    Empty,
}

/// The names of the configured schemes.
pub open spec fn scheme_names<T>(schemes: Seq<(String, Vec<T>)>) -> Seq<Seq<char>> {
    schemes.map_values(|e: (String, Vec<T>)| e.0@)
}

/// The index of the first name equal to `name`, from `i` on.
pub open spec fn first_named(names: Seq<Seq<char>>, name: Seq<char>, i: int) -> Option<int>
    decreases names.len() - i,
{
    if i < 0 || i >= names.len() {
        None
    } else if names[i] == name {
        Some(i)
    } else {
        first_named(names, name, i + 1)
    }
}

proof fn lemma_first_named_in_range(names: Seq<Seq<char>>, name: Seq<char>, i: int)
    ensures
        first_named(names, name, i) matches Some(j) ==> 0 <= i <= j < names.len() && names[j] == name,
    decreases names.len() - i,
{
    if 0 <= i < names.len() {
        lemma_first_named_in_range(names, name, i + 1);
    }
}

/// The scheme looked up is the first one, from `i` on, with the wanted
/// name; none is found only when no scheme from `i` on has that name.
pub proof fn lemma_first_named_is_first(names: Seq<Seq<char>>, name: Seq<char>, i: int)
    requires
        0 <= i,
    ensures
        match first_named(names, name, i) {
            Some(j) => i <= j < names.len() && names[j] == name && forall|k: int|
                i <= k < j ==> #[trigger] names[k] != name,
            None => forall|k: int| i <= k < names.len() ==> #[trigger] names[k] != name,
        },
    decreases names.len() - i,
{
    if i < names.len() && names[i] != name {
        lemma_first_named_is_first(names, name, i + 1);
    }
}

/// A colour in the configured form is seven bytes long and starts with
/// `#`.
pub proof fn lemma_hex_color_format(bytes: Seq<u8>)
    ensures
        spec_is_hex_color_format(bytes) <==> bytes.len() == 7 && bytes[0] == '#' as u8,
{
}

/// Finds the active colour scheme among the configured ones (name, then
/// thresholds): it must be defined and have at least one threshold.
pub fn find_active_scheme<T>(schemes: &Vec<(String, Vec<T>)>, active: &str) -> (res: Result<usize, SchemeError>)
    ensures
        match first_named(scheme_names(schemes@), active@, 0) {
            None => res == Err::<usize, SchemeError>(SchemeError::NotFound),
            Some(i) => if schemes@[i].1@.len() == 0 {
                res == Err::<usize, SchemeError>(SchemeError::Empty)
            } else {
                res == Ok::<usize, SchemeError>(i as usize)
            },
        },
{
    let ghost names = scheme_names(schemes@);
    proof {
        lemma_first_named_in_range(names, active@, 0);
    }
    let wanted = chars_of(active);
    let mut i: usize = 0;
    while i < schemes.len()
        invariant
            i <= schemes@.len(),
            names == scheme_names(schemes@),
            wanted@ == active@,
            first_named(names, active@, 0) == first_named(names, active@, i as int),
        decreases schemes@.len() - i,
    {
        assert(names[i as int] == schemes@[i as int].0@);
        if chars_eq(chars_of(schemes[i].0.as_str()).as_slice(), wanted.as_slice()) {
            if schemes[i].1.len() == 0 {
                return Err(SchemeError::Empty);
            }
            return Ok(i);
        }
        i = i + 1;
    }
    Err(SchemeError::NotFound)
}

} // verus!
