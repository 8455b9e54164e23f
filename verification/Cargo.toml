[package]
name = "crabformer"
version = "0.1.0"
edition = "2021"
publish = false

[dependencies]
rand = "0.9"
ndarray = { version = "0.16", features = ["rayon", "serde"] }
rayon = "1"
serde = { version = "1", features = ["derive"] }
ron = "0.8"
thiserror = "2"
once_cell = "1"
parking_lot = "0.12"
clap = { version = "4", features = ["derive"] }
ratatui = "0.29"
crossterm = "0.28"
