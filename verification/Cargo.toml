[package]
name = "m5mic"
version = "0.1.0"
edition = "2021"
publish = false

[dependencies]
anyhow = "1"
axum = { version = "0.8", features = ["ws"] }
btleplug = "0.11"
chacha20poly1305 = "0.10"
clap = { version = "4", features = ["derive"] }
futures-util = "0.3"
getrandom = "0.3"
hkdf = "0.12"
hound = "3"
if-addrs = "0.13"
mdns-sd = "0.13"
memmap2 = "0.9"
serde_json = "1"
sha2 = "0.10"
tokio = { version = "1", features = ["macros", "net", "rt-multi-thread", "sync", "time"] }
tracing = "0.1"
tracing-subscriber = { version = "0.3", features = ["env-filter"] }
uuid = "1"
