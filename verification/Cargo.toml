[package]
name = "matrix-user-swap"
version = "0.1.0"
edition = "2021"
publish = false

[dependencies]
clap = { version = "=4.6.7", features = ["derive"] }
derive_more = { version = "=2.1.1", features = ["display"] }
dialoguer = "=0.11.0"
impl-tools = "=0.13.0"
indicatif = "=0.18.6"
rand = "=0.8.8"
ruma = { version = "=0.13.0", features = ["client-api-c", "events", "rand"] }
ruma-client = { version = "0.16", features = ["client-api", "reqwest-rustls-native-roots"] }
serde = { version = "=1.0.229", features = ["derive"] }
serde_json = { version = "=1.0.154", features = ["raw_value"] }
thiserror = "=2.0.21"
tokio = { version = "=1.54.1", features = ["macros", "rt-multi-thread", "sync", "time"] }
tracing = "=0.1.44"
tracing-indicatif = "=0.3.14"
tracing-subscriber = { version = "=0.3.23", features = ["env-filter"] }
wee-woo = "=0.1.0"
