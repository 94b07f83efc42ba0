[package]
name = "cargo_lambda"
version = "0.1.0"
edition = "2021"
publish = false

[dependencies]
sha2 = "=0.11.0"
object = { version = "=0.40.0", default-features = false, features = ["read"] }
tokio = { version = "=1.53.2", features = ["macros", "rt-multi-thread", "sync", "process", "time", "signal", "io-util"] }
tokio-graceful-shutdown = "=0.20.0"
axum = "=0.8.9"
serde = { version = "=1.0.229", features = ["derive"] }
serde_json = "=1.0.151"
toml = "=1.1.7"
clap = { version = "=4.6.7", features = ["derive"] }
cargo_metadata = "=0.23.1"
walkdir = "=2.5.0"
tempfile = "=3.27.0"
zip = "=8.6.0"
rustc_version = "=0.4.1"
