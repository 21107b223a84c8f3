[package]
name = "workspace_versioning"
version = "0.1.0"
edition = "2021"
publish = false

[dependencies]
cargo_metadata = "*"
clap = { version = "*", features = ["derive"] }
console = "*"
semver = "1"
