[package]
name = "pilotlight"
version = "0.1.0"
edition = "2021"
publish = false

[dependencies]
bytes = "1"
const-hex = "1"
http = "1"
http-body-util = "0.1"
hyper = { version = "1", features = ["client", "http2"] }
hyper-util = { version = "0.1", features = ["tokio"] }
rustls = "0.23"
rustls-pki-types = "1"
serde = { version = "1", features = ["derive"] }
serde_json = "1"
thiserror = "2"
tiny-keccak = { version = "2", features = ["keccak"] }
tokio = { version = "1", features = ["macros", "net", "rt-multi-thread", "sync", "time"] }
tokio-rustls = "0.26"
tracing = "0.1"
webpki-roots = "1"
