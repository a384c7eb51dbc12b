[package]
name = "appgrep"
version = "0.1.0"
edition = "2021"
publish = false

[dependencies]
clap = { version = "*", features = ["derive"] }
clap_complete = "*"
comfy-table = "*"
dirs = "*"
fuzzy-matcher = "*"
rayon = "*"
serde_json = "*"
