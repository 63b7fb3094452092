[package]
name = "nixos_gen_diff"
version = "0.1.0"
edition = "2021"
publish = false

[dependencies]
anyhow = "1"
ratatui = "0.30"
strip-ansi-escapes = "0.2"
