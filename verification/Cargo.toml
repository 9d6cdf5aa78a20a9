[package]
name = "fw-fanctrl-rs"
version = "0.1.0"
edition = "2021"
publish = false

[dependencies]
xxhash-rust = { version = "0.8", features = ["xxh3"] }
base64 = "0.22"
clap = { version = "4", features = ["derive"] }
clap_complete = "4"
ctrlc = "3"
libloading = "0.8"
nix = { version = "0.29", features = ["ioctl", "time", "term"] }
serde = { version = "1", features = ["derive"] }
toml = "0.8"
image = { version = "0.25", default-features = false, features = ["png"] }
plotters = { version = "0.3", default-features = false, features = ["bitmap_backend", "svg_backend", "line_series", "ab_glyph"] }
icy_sixel = "*"
