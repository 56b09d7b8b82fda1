[package]
name = "max_rss"
version = "0.1.0"
edition = "2021"
publish = false

[dependencies]
anyhow = "1"
lexopt = "0.3"
nix = { version = "*", features = ["process", "ptrace", "signal"] }
serde_json = "1"
