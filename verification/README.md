# fw-fanctrl-rs

A fan controller for Framework laptops that talks to the ChromeOS embedded
controller. The decision logic is a library proved with Verus; the program
around it does the I/O.

## Layout

- `src/` — the verified library:
  - `temp.rs`: EC temperature bytes, their error codes, and the kelvin and
    Celsius conversions.
  - `curve_lut_gen.rs`: monotone cubic Hermite (Fritsch–Carlson) lookup
    tables, computed in exact rational arithmetic. It proves that a table
    passes through its curve's points, never overshoots them, stays at or
    below 100 %, and rises when the curve rises.
  - `fan_curve.rs`: fan profiles, the built-in ones, lookup by name.
  - `curve_parsing.rs`: the `.curvedef` format.
  - `plugins.rs`: checks on plugin decisions, and the key-value store that
    plugins keep between calls.
  - `daemon.rs`: what to do on each poll, the choice of profile and poll
    interval, and the config rewrite done by `--use-default`.
  - `terminal.rs`: what a terminal's reply says it can show, and Kitty
    graphics framing.
  - `text.rs`: trimming, integer parsing and number formatting on characters.
- `app/` — the command line program: arguments, config file, `ioctl`s on
  `/dev/cros_ec`, the daemon loop, plugin loading, plotting.
- `tests/` — tests of the library.
