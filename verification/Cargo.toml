[package]
name = "fuzz_config"
version = "0.1.0"
edition = "2021"
publish = false

[dependencies]
prettytable-rs = { version = "*", default-features = false }
colored = "*"
toml = "*"
serde = { version = "*", features = ["derive"] }
