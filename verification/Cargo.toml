[package]
name = "hyprloom"
version = "0.1.0"
edition = "2021"
publish = false

[dependencies]
chrono = { version = "0.4", features = ["serde"] }
clap = { version = "4", features = ["derive"] }
dirs = "6"
libc = "0.2"
nix = { version = "0.30", features = ["user"] }
serde = { version = "1", features = ["derive"] }
serde_json = "1"
thiserror = "2"
toml = "0.9"
which = "8"

[dev-dependencies]
tempfile = "3"
