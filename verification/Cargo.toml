[package]
name = "tree_picker"
version = "0.1.0"
edition = "2021"
publish = false

[dependencies]
clap = { version = "=3.2.25", features = ["derive"] }
crokey = "=0.4.3"
crossterm = "=0.23.2"
fuzzy-matcher = "=0.3.7"
serde_json = "=1.0.154"
tui = "=0.18.0"
unicode-width = "=0.1.14"
