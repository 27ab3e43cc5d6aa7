[package]
name = "cargo_core"
version = "0.1.0"
edition = "2021"
publish = false

[dependencies]
url = "=2.5.8"
semver = "=1.0.28"
glob = "0.3"
