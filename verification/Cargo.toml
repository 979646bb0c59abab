[package]
name = "opencadstudio"
version = "0.1.0"
edition = "2021"
publish = false

[dependencies]
rustc-hash = "2"
serde = { version = "1", features = ["derive"] }
bincode = "1"
interprocess = "2"
clap = { version = "4", features = ["derive"] }
acadrust = "*"
