//! Temperature-driven RGB lighting for Tenstorrent hosts: the verified core.
//!
//! The crate holds the decisions and encodings of the lighting service:
//! colour parsing and formatting, the OpenRGB wire format, telemetry text
//! parsing, and the poll-path state machine. Floating-point colour maths,
//! I/O and async plumbing live in the application around it.

pub mod config;
pub mod monitoring;
pub mod rgb;
pub mod text;

pub use rgb::RgbColor;
