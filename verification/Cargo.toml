[package]
name = "rofl_decode"
version = "0.1.0"
edition = "2021"
publish = false

[dependencies]
zstd = "*"
zip = "*"
serde_json = "*"
unicorn-engine = "*"
serde = { version = "*", features = ["derive"] }
clap = { version = "*", features = ["derive"] }
rayon = "*"
log = "*"
fern = "*"
colored = "*"
chrono = "*"
