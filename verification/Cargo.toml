[package]
name = "oyo_core"
version = "0.1.0"
edition = "2021"
publish = false

[dependencies]
imara-diff = "=0.2.0"
rustc-hash = "=2.1.3"
clap = { version = "=4.6.7", features = ["derive"] }
serde = { version = "=1.0.229", features = ["derive"] }
serde_json = "=1.0.154"
time = { version = "=0.3.55", features = ["formatting", "parsing"] }
anyhow = "=1.0.104"
toml = "=0.8.23"
dirs = "=5.0.1"
regex = "1"
