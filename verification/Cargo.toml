[package]
name = "energy_signal"
version = "0.1.0"
edition = "2021"
publish = false

[dependencies]
nix = { version = "*", features = ["signal"] }
once_cell = "*"
jni = "*"

[dev-dependencies]
signal-hook = "*"
