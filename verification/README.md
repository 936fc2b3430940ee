# tt-qb-lights

A service that watches Tenstorrent hardware (temperature, power) and drives
RGB lighting through OpenRGB. This crate is its verified core, written in
Verus; `app/` is the service around it.

## Layout

- `src/rgb/` — `RgbColor` with hex parsing and formatting; the OpenRGB SDK
  wire format and session state (`openrgb`); the arguments and listing
  parser for the `openrgb` command-line tool (`openrgb_cli`).
- `src/monitoring/` — hwmon device-name, link and sensor-file logic
  (`sensors`); tt-smi hex field parsing and board architectures
  (`tenstorrent`); the poll-path state machine, its read slot and its laws
  (`poller`).
- `src/config.rs` — plain configuration values and the colour-format rule.
- `src/text.rs` — character-sequence helpers shared by the parsers.
- `app/` — `main`, configuration loading (TOML), floating-point colour
  mapping and brightness, sysfs and process I/O, the TCP client and the
  async poller.

Floating-point code (colour interpolation, brightness, plausibility
thresholds) lives in `app/`; the library carries brightness values through
unchanged as a type parameter.
