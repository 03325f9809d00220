[package]
name = "lachuoi"
version = "0.1.0"
edition = "2021"
publish = false

[dependencies]
chrono = { version = "0.4", default-features = false, features = ["clock", "std"] }
chrono-tz = "0.10"
cron = "0.15"
uuid = { version = "1", features = ["v4", "serde"] }
sha2 = "0.10"
hex = "0.4"
rand = "0.9"
serde = { version = "1", features = ["derive"] }
serde_json = "1"
toml = "0.8"
tokio = { version = "1", features = ["rt-multi-thread", "macros", "sync", "time", "fs", "net", "signal", "process", "io-util"] }
futures-util = { version = "0.3", features = ["sink"] }
tokio-stream = { version = "0.1", features = ["sync"] }
axum = { version = "0.7", features = ["ws"] }
tower-http = { version = "0.6", features = ["fs"] }
tower-sessions = "0.13"
async-trait = "0.1"
reqwest = { version = "0.12", default-features = false, features = ["json", "rustls-tls"] }
urlencoding = "2"
tarpc = { version = "0.35", default-features = false, features = ["serde1", "tokio1", "serde-transport"] }
bincode = "1"
pin-project = "1"
bytes = "1"
libsql = { version = "0.9", default-features = false, features = ["core", "remote"] }
wasmtime = { version = "29", default-features = false, features = ["cranelift", "async", "component-model", "runtime", "std"] }
wasmtime-wasi = "29"
wasmtime-wasi-http = "29"
tokio-tungstenite = "0.24"
