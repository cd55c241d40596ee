[package]
name = "cloup"
version = "0.1.0"
edition = "2021"
publish = false

[dependencies]
clap = { version = "3", features = ["derive"] }
colored = "2"
fs_extra = "1"
serde = { version = "1", features = ["derive"] }
toml = "0.5"
