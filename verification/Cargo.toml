[package]
name = "wiktionary_en"
version = "0.1.0"
edition = "2021"
publish = false

[dependencies]
edit-distance = "=2.2.2"
base64 = "=0.23.1"
textwrap = "=0.16.4"
colored = "=3.1.1"
chrono = { version = "=0.4.45", features = ["serde"] }
rand = "=0.10.3"
anyhow = "=1.0.104"
serde = { version = "=1.0.229", features = ["derive"] }
serde_json = "=1.0.154"
clap = { version = "=4.6.7", features = ["derive"] }
indoc = "=2.0.8"
minus = { version = "=5.8.0", features = ["static_output"] }
indicatif = "=0.18.6"
streaming-iterator = "=0.1.9"
sonic-channel = { version = "=1.1.0", features = ["search", "ingest"] }
polodb_core = "=4.4.2"
mlua = { version = "=0.12.2", features = ["lua54", "vendored"] }
reqwest = { version = "=0.12.28", default-features = false, features = ["stream", "rustls-tls"] }
tokio = { version = "=1.54.1", features = ["rt-multi-thread", "macros"] }
futures-util = "=0.3.34"
