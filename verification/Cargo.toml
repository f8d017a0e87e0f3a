[package]
name = "nixos_options"
version = "0.1.0"
edition = "2021"
publish = false

[dependencies]
fuzzy-matcher = "0.3"
html-escape = "0.2"
url = "2"
serde = { version = "1", features = ["derive"] }
serde_json = "1"
ron = "*"
serde-inline-default = "*"
open = "*"
abi_stable = "*"
anyrun-plugin = "*"
