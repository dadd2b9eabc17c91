[package]
name = "orgb"
version = "0.1.0"
edition = "2021"
publish = false

[dependencies]
anyhow = "1"
clap = { version = "4", features = ["derive"] }
rusb = "0.9"
serde = { version = "1", features = ["derive"] }
smbios-lib = "*"
tokio = { version = "1", features = ["rt-multi-thread", "macros", "time"] }
toml = "0.8"
