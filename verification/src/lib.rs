//! Fan control logic for Framework laptops driven through the ChromeOS
//! embedded controller: temperature encodings, monotone spline fan curves,
//! `.curvedef` parsing, plugin decisions and plugin state.

pub mod temp;
pub mod curve_lut_gen;
pub mod fan_curve;
pub mod text;
pub mod curve_parsing;
pub mod plugins;
pub mod daemon;
pub mod terminal;
