[package]
name = "boop_server"
version = "0.1.0"
edition = "2021"
publish = false

[dependencies]
argh = "0.1"
argon2 = "0.5"
flexi_logger = "*"
log = "0.4"
rustls-pemfile = "1"
serde = { version = "1", features = ["derive"] }
serde_json = "1"
tokio = { version = "1", features = ["fs", "io-util", "macros", "net", "rt-multi-thread", "sync", "time"] }
tokio-rustls = "0.24"
uuid = { version = "1", features = ["v4"] }
