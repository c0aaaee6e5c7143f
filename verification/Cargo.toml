[package]
name = "rustybovich"
version = "0.1.0"
edition = "2021"
publish = false

[dependencies]
clap = { version = "4", features = ["derive"] }
colored = "2"
itertools = "*"
owo-colors = "*"
priority-queue = "*"
rayon = "1"
serde = { version = "1", features = ["derive"] }
serde_json = "1"
serde_with = "*"
