//! Hardware monitoring: telemetry text parsing and the poll-path controller.

pub mod poller;
pub mod sensors;
pub mod tenstorrent;
