[package]
name = "mavgate"
version = "0.1.0"
edition = "2021"
publish = false

[dependencies]
anyhow = "=1.0.104"
mavlink = { version = "=0.17.1", default-features = false, features = ["std", "ardupilotmega", "serde"] }
mlua = { version = "=0.12.2", features = ["lua54", "vendored", "async", "serialize", "send"] }
reqwest = { version = "=0.13.5", default-features = false }
serde = { version = "=1.0.229", features = ["derive"] }
serde_json = "=1.0.151"
serialport = { version = "=4.10.1", default-features = false }
tokio = { version = "=1.53.2", features = ["full"] }
toml = "=1.1.7"
tracing = "=0.1.44"
tracing-subscriber = "=0.3.23"
