[package]
name = "hyprwin"
version = "0.1.0"
edition = "2021"
publish = false

[dependencies]
fuzzy-matcher = "*"
serde = { version = "*", features = ["derive"] }
serde_json = "*"
ron = "*"
nix = { version = "*", features = ["process"] }
libc = "*"
anyrun-plugin = "*"
abi_stable = "*"
